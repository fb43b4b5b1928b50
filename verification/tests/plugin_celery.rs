use pyllow::extract::{parse_source, ParsedModule};
use pyllow::path::FilePath;
use pyllow::plugins::celery::module_is_celery_entry;

fn parse(src: &str) -> ParsedModule {
    parse_source(&FilePath::new("test.py"), src).unwrap()
}

#[test]
fn detects_celery_constructor() {
    let m = parse(
        "from celery import Celery\napp = Celery(\"tasks\", broker=\"redis://\")\n",
    );
    assert!(module_is_celery_entry(&m));
}

#[test]
fn detects_app_task_decorator() {
    let m = parse(
        "from celery import Celery\nfrom .app import app\n@app.task\ndef send_email(to):\n    pass\n",
    );
    assert!(module_is_celery_entry(&m));
}

#[test]
fn detects_shared_task_decorator() {
    let m = parse(
        "from celery import shared_task\n@shared_task\ndef compute():\n    pass\n",
    );
    assert!(module_is_celery_entry(&m));
}

#[test]
fn detects_decorator_with_call_form() {
    let m = parse(
        "from celery import shared_task\n@shared_task(bind=True)\ndef retryable(self):\n    pass\n",
    );
    assert!(module_is_celery_entry(&m));
}

#[test]
fn ignores_decorator_without_celery_import() {
    let m = parse(
        "from rq import Queue\n@Queue.task\ndef something():\n    pass\n",
    );
    assert!(!module_is_celery_entry(&m));
}

#[test]
fn lib_ignores_unrelated_module() {
    let m = parse("import os\ndef helper(): return 1\n");
    assert!(!module_is_celery_entry(&m));
}
