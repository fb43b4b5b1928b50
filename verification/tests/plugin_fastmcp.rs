use pyllow::extract::{parse_source, ParsedModule};
use pyllow::path::FilePath;
use pyllow::plugins::fastmcp::module_is_fastmcp_entry;

fn parse(src: &str) -> ParsedModule {
    parse_source(&FilePath::new("test.py"), src).unwrap()
}

#[test]
fn detects_fastmcp_constructor() {
    let m = parse(
        "from fastmcp import FastMCP\nmcp = FastMCP(\"server\", instructions=\"x\")\n",
    );
    assert!(module_is_fastmcp_entry(&m));
}

#[test]
fn detects_constructor_inside_factory() {
    let m = parse(
        "from fastmcp import FastMCP\n\ndef build_mcp() -> FastMCP:\n    mcp = FastMCP(\"x\")\n    return mcp\n",
    );
    assert!(module_is_fastmcp_entry(&m));
}

#[test]
fn detects_tool_decorator_in_separate_file() {
    let m = parse(
        "from fastmcp import Context\nfrom src.mcp_server.server import mcp\n\n@mcp.tool()\nasync def list_things(ctx: Context):\n    return []\n",
    );
    assert!(module_is_fastmcp_entry(&m));
}

#[test]
fn detects_resource_and_prompt_decorators() {
    let m = parse(
        "from fastmcp.server import dependencies\nfrom src.x import mcp\n\n@mcp.resource(\"file://x\")\ndef read_file():\n    pass\n\n@mcp.prompt(\"summary\")\ndef summary_prompt():\n    pass\n",
    );
    assert!(module_is_fastmcp_entry(&m));
}

#[test]
fn ignores_decorators_without_fastmcp_import() {
    let m = parse(
        "class Builder:\n    def tool(self):\n        pass\n\nbuilder = Builder()\n\n@builder.tool()\ndef something():\n    pass\n",
    );
    assert!(!module_is_fastmcp_entry(&m));
}

#[test]
fn fastmcp_ignores_unrelated_modules() {
    let m = parse(
        "import os\n\ndef helper():\n    return os.environ.get(\"X\")\n",
    );
    assert!(!module_is_fastmcp_entry(&m));
}

#[test]
fn detects_constructor_even_without_fastmcp_import_string_match() {
    let m = parse(
        "import fastmcp\nmcp = fastmcp.FastMCP(\"x\")\n",
    );
    assert!(module_is_fastmcp_entry(&m));
}
