use pyllow::extract::{parse_source, ParsedModule};
use pyllow::path::FilePath;
use pyllow::plugins::script::is_script_module;

fn module_with_path(path: &str, src: &str) -> ParsedModule {
    parse_source(&FilePath::new(path), src).unwrap()
}

#[test]
fn detects_dunder_main_py_basename() {
    let m = module_with_path("pkg/__main__.py", "from pkg import lib\nlib.run()\n");
    assert!(is_script_module(&m));
}

#[test]
fn detects_if_name_main_guard() {
    let m = module_with_path("script.py", "if __name__ == \"__main__\":\n    pass\n");
    assert!(is_script_module(&m));
}

#[test]
fn ignores_regular_modules() {
    let m = module_with_path("src/lib.py", "def helper():\n    pass\n");
    assert!(!is_script_module(&m));
}

#[test]
fn ignores_main_py_without_guard() {
    let m = module_with_path("src/main.py", "from x import y\ny()\n");
    assert!(!is_script_module(&m));
}
