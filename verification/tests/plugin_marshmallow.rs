use pyllow::extract::{parse_source, ParsedModule};
use pyllow::path::FilePath;
use pyllow::plugins::marshmallow::module_is_marshmallow_entry;

fn module_from(src: &str) -> ParsedModule {
    parse_source(&FilePath::new("test.py"), src).unwrap()
}

#[test]
fn detects_schema_subclass() {
    let m = module_from(
        "from marshmallow import Schema, fields\n\
         class UserSchema(Schema):\n    name = fields.Str()\n",
    );
    assert!(module_is_marshmallow_entry(&m));
}

#[test]
fn detects_validates_decorator() {
    let m = module_from(
        "from marshmallow import validates, ValidationError\n\
         @validates('name')\ndef _check(self, value):\n    pass\n",
    );
    assert!(module_is_marshmallow_entry(&m));
}

#[test]
fn detects_pre_load_decorator() {
    let m = module_from(
        "from marshmallow import pre_load\n\
         @pre_load\ndef strip(self, data, **kw):\n    return data\n",
    );
    assert!(module_is_marshmallow_entry(&m));
}

#[test]
fn ignores_module_without_marshmallow_import() {
    let m = module_from(
        "from pydantic import BaseModel\nclass UserSchema(BaseModel):\n    name: str\n",
    );
    assert!(!module_is_marshmallow_entry(&m));
}

#[test]
fn ignores_marshmallow_import_without_schema_or_hook() {
    let m = module_from("import marshmallow\nx = 1\n");
    assert!(!module_is_marshmallow_entry(&m));
}
