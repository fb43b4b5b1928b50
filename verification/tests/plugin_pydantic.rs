use pyllow::extract::{parse_source, ParsedModule};
use pyllow::path::FilePath;
use pyllow::plugins::pydantic::module_is_pydantic_entry;

fn parse(src: &str) -> ParsedModule {
    parse_source(&FilePath::new("test.py"), src).unwrap()
}

#[test]
fn detects_basemodel_subclass() {
    let m = parse(
        "from pydantic import BaseModel\nclass User(BaseModel):\n    name: str\n    age: int = 0\n",
    );
    assert!(module_is_pydantic_entry(&m));
}

#[test]
fn detects_basesettings_subclass() {
    let m = parse(
        "from pydantic_settings import BaseSettings\nclass Config(BaseSettings):\n    api_key: str\n",
    );
    assert!(module_is_pydantic_entry(&m));
}

#[test]
fn lib_detects_attribute_base() {
    let m = parse(
        "import pydantic\nclass User(pydantic.BaseModel):\n    name: str\n",
    );
    assert!(module_is_pydantic_entry(&m));
}

#[test]
fn detects_generic_base() {
    let m = parse(
        "from pydantic import BaseModel\nfrom typing import TypeVar, Generic\nT = TypeVar(\"T\")\nclass Wrapper(BaseModel, Generic[T]):\n    value: T\n",
    );
    assert!(module_is_pydantic_entry(&m));
}

#[test]
fn detects_field_validator() {
    let m = parse(
        "from pydantic import BaseModel, field_validator\n\nclass X(BaseModel):\n    name: str\n    @field_validator(\"name\")\n    @classmethod\n    def upper(cls, v):\n        return v.upper()\n",
    );
    assert!(module_is_pydantic_entry(&m));
}

#[test]
fn ignores_module_without_pydantic_import() {
    let m = parse(
        "class BaseModel:\n    pass\nclass Custom(BaseModel):\n    name: str\n",
    );
    assert!(!module_is_pydantic_entry(&m));
}

#[test]
fn pydantic_ignores_unrelated_module() {
    let m = parse("import os\ndef helper():\n    return os.environ.get(\"X\")\n");
    assert!(!module_is_pydantic_entry(&m));
}
