use pyllow::extract::{parse_source, ParsedModule};
use pyllow::path::FilePath;
use pyllow::plugins::fastapi::module_is_fastapi_entry;

fn parse(src: &str) -> ParsedModule {
    parse_source(&FilePath::new("test.py"), src).unwrap()
}

#[test]
fn detects_route_decorator_with_call() {
    let m = parse(
        "from fastapi import FastAPI\napp = FastAPI()\n@app.get(\"/items\")\ndef list_items():\n    pass\n",
    );
    assert!(module_is_fastapi_entry(&m));
}

#[test]
fn detects_websocket_decorator() {
    let m = parse(
        "from fastapi import APIRouter\nrouter = APIRouter()\n@router.websocket(\"/ws\")\nasync def ws_handler():\n    pass\n",
    );
    assert!(module_is_fastapi_entry(&m));
}

#[test]
fn detects_app_ctor() {
    let m = parse("from fastapi import FastAPI\napp = FastAPI(title=\"x\")\n");
    assert!(module_is_fastapi_entry(&m));
}

#[test]
fn detects_router_ctor() {
    let m = parse("from fastapi import APIRouter\nrouter = APIRouter(prefix=\"/v1\")\n");
    assert!(module_is_fastapi_entry(&m));
}

#[test]
fn detects_include_router_call() {
    let m = parse(
        "from .routers import users\napp.include_router(users.router)\n",
    );
    assert!(module_is_fastapi_entry(&m));
}

#[test]
fn lib_ignores_unrelated_modules() {
    let m = parse("def helper():\n    return 42\n\nclass Thing:\n    pass\n");
    assert!(!module_is_fastapi_entry(&m));
}

#[test]
fn ignores_unrelated_decorators() {
    let m = parse(
        "import functools\n@functools.lru_cache\ndef cached():\n    return 1\n",
    );
    assert!(!module_is_fastapi_entry(&m));
}

#[test]
fn detects_factory_pattern() {
    let m = parse(
        "from fastapi import FastAPI\n\ndef create_app() -> FastAPI:\n    app = FastAPI()\n    app.include_router(routes)\n    return app\n",
    );
    assert!(module_is_fastapi_entry(&m));
}

#[test]
fn detects_route_inside_method() {
    let m = parse(
        "class Builder:\n    def configure(self, app):\n        @app.get(\"/x\")\n        def handler():\n            pass\n",
    );
    assert!(module_is_fastapi_entry(&m));
}
