use pyllow::extract::{parse_source, ParsedModule};
use pyllow::path::FilePath;
use pyllow::plugins::beanie::module_is_beanie_entry;

fn parse(src: &str) -> ParsedModule {
    parse_source(&FilePath::new("test.py"), src).unwrap()
}

#[test]
fn detects_document_subclass() {
    let m = parse("from beanie import Document\nclass User(Document):\n    name: str\n");
    assert!(module_is_beanie_entry(&m));
}

#[test]
fn lib_detects_view_subclass() {
    let m = parse("from beanie import View\nclass UserView(View):\n    name: str\n");
    assert!(module_is_beanie_entry(&m));
}

#[test]
fn detects_uniondoc_subclass() {
    let m = parse("from beanie import UnionDoc\nclass AllDocs(UnionDoc):\n    pass\n");
    assert!(module_is_beanie_entry(&m));
}

#[test]
fn detects_attribute_base() {
    let m = parse("import beanie\nclass User(beanie.Document):\n    name: str\n");
    assert!(module_is_beanie_entry(&m));
}

#[test]
fn detects_before_event_hook() {
    let m = parse(
        "from beanie import Document, before_event, Insert\nclass User(Document):\n    @before_event(Insert)\n    async def normalize(self): pass\n",
    );
    assert!(module_is_beanie_entry(&m));
}

#[test]
fn ignores_class_named_document_without_beanie_import() {
    let m = parse("class Document:\n    pass\nclass User(Document):\n    name: str\n");
    assert!(!module_is_beanie_entry(&m));
}

#[test]
fn ignores_unrelated_module() {
    let m = parse("import os\ndef helper(): return 1\n");
    assert!(!module_is_beanie_entry(&m));
}
