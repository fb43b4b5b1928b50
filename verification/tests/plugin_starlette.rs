use pyllow::extract::{parse_source, ParsedModule};
use pyllow::path::FilePath;
use pyllow::plugins::starlette::module_is_starlette_entry;

fn module_from(src: &str) -> ParsedModule {
    parse_source(&FilePath::new("test.py"), src).unwrap()
}

#[test]
fn detects_starlette_ctor() {
    let m = module_from(
        "from starlette.applications import Starlette\n\
         app = Starlette(debug=True)\n",
    );
    assert!(module_is_starlette_entry(&m));
}

#[test]
fn detects_routes_list_pattern() {
    let m = module_from(
        "from starlette.routing import Route, Mount\n\
         from starlette.responses import PlainTextResponse\n\
         def homepage(request):\n    return PlainTextResponse('hi')\n\
         routes = [Route('/', homepage), Mount('/static', app=None)]\n",
    );
    assert!(module_is_starlette_entry(&m));
}

#[test]
fn detects_app_decorator() {
    let m = module_from(
        "from starlette.applications import Starlette\n\
         from starlette.exceptions import HTTPException\n\
         app = ...\n\
         @app.exception_handler(HTTPException)\n\
         async def handler(request, exc):\n    return ...\n",
    );
    assert!(module_is_starlette_entry(&m));
}

#[test]
fn ignores_module_without_starlette_import() {
    let m = module_from("from fastapi import FastAPI\napp = FastAPI()\n");
    assert!(!module_is_starlette_entry(&m));
}

#[test]
fn ignores_starlette_import_without_call_or_decorator() {
    let m = module_from("from starlette import status\nx = status.HTTP_200_OK\n");
    assert!(!module_is_starlette_entry(&m));
}
