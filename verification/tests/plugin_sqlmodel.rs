use pyllow::extract::{parse_source, ParsedModule};
use pyllow::path::FilePath;
use pyllow::plugins::sqlmodel::module_is_sqlmodel_entry;

fn module_from(src: &str) -> ParsedModule {
    parse_source(&FilePath::new("test.py"), src).unwrap()
}

#[test]
fn detects_sqlmodel_subclass() {
    let m = module_from(
        "from sqlmodel import SQLModel, Field\n\
         class Hero(SQLModel, table=True):\n    name: str\n",
    );
    assert!(module_is_sqlmodel_entry(&m));
}

#[test]
fn detects_non_table_sqlmodel_subclass() {
    let m = module_from(
        "from sqlmodel import SQLModel\n\
         class HeroBase(SQLModel):\n    name: str\n",
    );
    assert!(module_is_sqlmodel_entry(&m));
}

#[test]
fn ignores_module_without_sqlmodel_import() {
    let m = module_from(
        "from pydantic import BaseModel\n\
         class Hero(BaseModel):\n    name: str\n",
    );
    assert!(!module_is_sqlmodel_entry(&m));
}

#[test]
fn ignores_sqlmodel_import_without_subclass() {
    let m = module_from("from sqlmodel import Session\n\nx = 1\n");
    assert!(!module_is_sqlmodel_entry(&m));
}
