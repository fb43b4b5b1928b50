use pyllow::extract::{parse_source, ParsedModule};
use pyllow::path::FilePath;
use pyllow::plugins::flask::module_is_flask_entry;

fn module_from(src: &str) -> ParsedModule {
    parse_source(&FilePath::new("test.py"), src).unwrap()
}

#[test]
fn detects_flask_app_ctor() {
    let m = module_from("from flask import Flask\napp = Flask(__name__)\n");
    assert!(module_is_flask_entry(&m));
}

#[test]
fn detects_blueprint_ctor() {
    let m = module_from(
        "from flask import Blueprint\nbp = Blueprint('users', __name__)\n",
    );
    assert!(module_is_flask_entry(&m));
}

#[test]
fn lib_detects_route_decorator() {
    let m = module_from(
        "from flask import Flask\napp = ...\n\
         @app.route('/')\ndef index():\n    return 'hi'\n",
    );
    assert!(module_is_flask_entry(&m));
}

#[test]
fn detects_method_view_subclass() {
    let m = module_from(
        "from flask.views import MethodView\n\
         class UsersAPI(MethodView):\n    def get(self):\n        return []\n",
    );
    assert!(module_is_flask_entry(&m));
}

#[test]
fn detects_errorhandler_decorator() {
    let m = module_from(
        "from flask import Flask\napp = ...\n\
         @app.errorhandler(404)\ndef nf(e):\n    return 'nf', 404\n",
    );
    assert!(module_is_flask_entry(&m));
}

#[test]
fn detects_cli_command_decorator() {
    let m = module_from(
        "from flask import Flask\napp = ...\n\
         @app.cli.command('seed')\ndef seed():\n    pass\n",
    );
    assert!(module_is_flask_entry(&m));
}

#[test]
fn ignores_module_without_flask_import() {
    let m = module_from(
        "def route(p):\n    def inner(f): return f\n    return inner\n\
         @route('/')\ndef hi(): pass\n",
    );
    assert!(!module_is_flask_entry(&m));
}

#[test]
fn ignores_flask_import_without_use() {
    let m = module_from("from flask import current_app\nx = 1\n");
    assert!(!module_is_flask_entry(&m));
}
