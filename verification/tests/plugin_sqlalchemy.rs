use pyllow::extract::{parse_source, ParsedModule};
use pyllow::path::FilePath;
use pyllow::plugins::sqlalchemy::module_is_sqlalchemy_entry;

fn parse(src: &str) -> ParsedModule {
    parse_source(&FilePath::new("test.py"), src).unwrap()
}

#[test]
fn detects_declarative_base_subclass() {
    let m = parse(
        "from sqlalchemy.orm import DeclarativeBase\nclass Base(DeclarativeBase):\n    pass\nclass User(Base):\n    __tablename__ = \"users\"\n",
    );
    assert!(module_is_sqlalchemy_entry(&m));
}

#[test]
fn detects_mapped_column_class() {
    let m = parse(
        "from sqlalchemy.orm import Mapped, mapped_column\nclass User:\n    id: Mapped[int] = mapped_column(primary_key=True)\n    name: Mapped[str]\n",
    );
    assert!(module_is_sqlalchemy_entry(&m));
}

#[test]
fn detects_legacy_column_class() {
    let m = parse(
        "from sqlalchemy import Column, Integer\nfrom sqlalchemy.ext.declarative import declarative_base\nBase = declarative_base()\nclass User(Base):\n    id = Column(Integer, primary_key=True)\n",
    );
    assert!(module_is_sqlalchemy_entry(&m));
}

#[test]
fn detects_sqlmodel() {
    let m = parse(
        "from sqlmodel import SQLModel, Field\nclass User(SQLModel, table=True):\n    id: int = Field(primary_key=True)\n",
    );
    assert!(module_is_sqlalchemy_entry(&m));
}

#[test]
fn detects_flask_sqlalchemy_model() {
    let m = parse(
        "from flask_sqlalchemy import SQLAlchemy\ndb = SQLAlchemy()\nclass User(db.Model):\n    __tablename__ = \"users\"\n",
    );
    assert!(module_is_sqlalchemy_entry(&m));
}

#[test]
fn ignores_class_named_base_without_import() {
    let m = parse("class Base:\n    pass\nclass Inner(Base):\n    __tablename__ = \"x\"\n");
    assert!(!module_is_sqlalchemy_entry(&m));
}

#[test]
fn sqlalchemy_ignores_unrelated_module() {
    let m = parse("import os\ndef helper():\n    return 1\n");
    assert!(!module_is_sqlalchemy_entry(&m));
}
