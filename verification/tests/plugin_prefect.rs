use pyllow::extract::{parse_source, ParsedModule};
use pyllow::path::FilePath;
use pyllow::plugins::prefect::module_is_prefect_entry;

fn parse(src: &str) -> ParsedModule {
    parse_source(&FilePath::new("test.py"), src).unwrap()
}

#[test]
fn detects_flow_decorator_bare() {
    let m = parse(
        "from prefect import flow\n\n@flow\ndef ingest():\n    pass\n",
    );
    assert!(module_is_prefect_entry(&m));
}

#[test]
fn detects_flow_decorator_called() {
    let m = parse(
        "from prefect import flow\n\n@flow(name=\"ingest\")\ndef run():\n    pass\n",
    );
    assert!(module_is_prefect_entry(&m));
}

#[test]
fn detects_qualified_decorator() {
    let m = parse(
        "import prefect\n\n@prefect.task\ndef step():\n    pass\n",
    );
    assert!(module_is_prefect_entry(&m));
}

#[test]
fn detects_task_inside_flow() {
    let m = parse(
        "from prefect import flow, task\n\n@flow\ndef pipeline():\n    @task\n    def inner():\n        pass\n    inner()\n",
    );
    assert!(module_is_prefect_entry(&m));
}

#[test]
fn ignores_decorators_without_prefect_import() {
    let m = parse(
        "def flow():\n    pass\n\n@flow\ndef wrong():\n    pass\n",
    );
    assert!(!module_is_prefect_entry(&m));
}

#[test]
fn prefect_ignores_unrelated_modules() {
    let m = parse("import os\n\ndef helper():\n    pass\n");
    assert!(!module_is_prefect_entry(&m));
}
