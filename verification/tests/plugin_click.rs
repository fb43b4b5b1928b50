use pyllow::extract::{parse_source, ParsedModule};
use pyllow::path::FilePath;
use pyllow::plugins::click::module_is_cli_entry;

fn parse(src: &str) -> ParsedModule {
    parse_source(&FilePath::new("test.py"), src).unwrap()
}

#[test]
fn detects_click_command_decorator() {
    let m = parse("import click\n\n@click.command()\ndef cli():\n    pass\n");
    assert!(module_is_cli_entry(&m));
}

#[test]
fn detects_click_group_decorator() {
    let m = parse("from click import group\n\n@group()\ndef cli():\n    pass\n");
    assert!(module_is_cli_entry(&m));
}

#[test]
fn detects_typer_app_ctor() {
    let m = parse(
        "import typer\napp = typer.Typer()\n\n@app.command()\ndef hello(name: str):\n    pass\n",
    );
    assert!(module_is_cli_entry(&m));
}

#[test]
fn detects_typer_app_command_decorator() {
    let m = parse(
        "from typer import Typer\napp = Typer()\n\n@app.command()\ndef run():\n    pass\n",
    );
    assert!(module_is_cli_entry(&m));
}

#[test]
fn ignores_decorators_without_click_import() {
    let m = parse("def command(fn):\n    return fn\n\n@command\ndef nope():\n    pass\n");
    assert!(!module_is_cli_entry(&m));
}

#[test]
fn ignores_unrelated_modules() {
    let m = parse("import os\n\ndef helper():\n    pass\n");
    assert!(!module_is_cli_entry(&m));
}
