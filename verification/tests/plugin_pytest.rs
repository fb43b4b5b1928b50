use pyllow::path::FilePath;
use pyllow::plugins::pytest::{is_pytest_entry_path, is_test_adjacent_path};

#[test]
fn detects_test_prefix_files() {
    assert!(is_pytest_entry_path(&FilePath::new("tests/test_module.py")));
    assert!(is_pytest_entry_path(&FilePath::new(
        "tests/unit/test_widget.py"
    )));
}

#[test]
fn detects_test_suffix_files() {
    assert!(is_pytest_entry_path(&FilePath::new("tests/widget_test.py")));
    assert!(is_pytest_entry_path(&FilePath::new("module_test.py")));
}

#[test]
fn detects_conftest() {
    assert!(is_pytest_entry_path(&FilePath::new("tests/conftest.py")));
    assert!(is_pytest_entry_path(&FilePath::new(
        "tests/unit/auth/conftest.py"
    )));
}

#[test]
fn ignores_unrelated_files() {
    assert!(!is_pytest_entry_path(&FilePath::new("src/main.py")));
    assert!(!is_pytest_entry_path(&FilePath::new("src/testing.py")));
    assert!(!is_pytest_entry_path(&FilePath::new("src/test.py")));
    assert!(!is_pytest_entry_path(&FilePath::new("src/_test.py")));
}

#[test]
fn ignores_non_python_files() {
    assert!(!is_pytest_entry_path(&FilePath::new("test_data.json")));
    assert!(!is_pytest_entry_path(&FilePath::new("conftest.txt")));
}

#[test]
fn detects_typecheck_fixture_paths() {
    assert!(is_pytest_entry_path(&FilePath::new(
        "tests/typechecking/secret.py"
    )));
    assert!(is_pytest_entry_path(&FilePath::new(
        "tests/mypy/modules/dataclass_no_any.py"
    )));
    assert!(is_pytest_entry_path(&FilePath::new(
        "tests/mypy/outputs/mypy-plugin-strict_ini/plugin_success.py"
    )));
}

#[test]
fn ignores_unrelated_mypy_paths() {
    // Repos that ship a mypy plugin (e.g. pydantic.mypy) should not
    // have their plugin source flagged as a typecheck fixture.
    assert!(!is_pytest_entry_path(&FilePath::new("pydantic/mypy.py")));
    assert!(!is_pytest_entry_path(&FilePath::new("src/mypy.py")));
}

#[test]
fn test_adjacent_includes_files_in_tests_directory() {
    // Helpers, factories, fixtures-not-named-conftest all live under
    // tests/ but don't match the strict pytest naming heuristic. The
    // adjacent helper catches them so dupes and MI skip them too.
    assert!(is_test_adjacent_path(&FilePath::new(
        "tests/integration/simulations/factories.py"
    )));
    assert!(is_test_adjacent_path(&FilePath::new("tests/helpers.py")));
    assert!(is_test_adjacent_path(&FilePath::new("test/fixtures.py")));
}

#[test]
fn test_adjacent_keeps_strict_entries_too() {
    // Existing strict matches still count as test-adjacent.
    assert!(is_test_adjacent_path(&FilePath::new(
        "tests/unit/test_widget.py"
    )));
    assert!(is_test_adjacent_path(&FilePath::new("conftest.py")));
}

#[test]
fn test_adjacent_excludes_src_files() {
    assert!(!is_test_adjacent_path(&FilePath::new("src/main.py")));
    assert!(!is_test_adjacent_path(&FilePath::new("src/testing.py")));
}
