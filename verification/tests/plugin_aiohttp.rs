use pyllow::extract::{parse_source, ParsedModule};
use pyllow::path::FilePath;
use pyllow::plugins::aiohttp::module_is_aiohttp_entry;

fn module_from(src: &str) -> ParsedModule {
    parse_source(&FilePath::new("test.py"), src).unwrap()
}

#[test]
fn detects_application_ctor() {
    let m = module_from("from aiohttp import web\napp = web.Application()\n");
    assert!(module_is_aiohttp_entry(&m));
}

#[test]
fn detects_route_decorator() {
    let m = module_from(
        "from aiohttp import web\nroutes = web.RouteTableDef()\n\
         @routes.get('/')\nasync def hello(request):\n    return web.Response(text='hi')\n",
    );
    assert!(module_is_aiohttp_entry(&m));
}

#[test]
fn detects_view_subclass() {
    let m = module_from(
        "from aiohttp import web\nclass MyView(web.View):\n    async def get(self):\n        return web.Response()\n",
    );
    assert!(module_is_aiohttp_entry(&m));
}

#[test]
fn ignores_module_without_aiohttp_import() {
    let m = module_from("def get(self): pass\n");
    assert!(!module_is_aiohttp_entry(&m));
}

#[test]
fn ignores_aiohttp_import_without_use() {
    let m = module_from("from aiohttp import ClientSession\n");
    assert!(!module_is_aiohttp_entry(&m));
}
