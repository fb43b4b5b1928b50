use pyllow::extract::{parse_source, ParsedModule};
use pyllow::path::FilePath;
use pyllow::plugins::alembic::module_is_alembic_entry;

fn parse_at(p: &str, src: &str) -> ParsedModule {
    let mut m = parse_source(&FilePath::new("placeholder.py"), src).unwrap();
    m.path = FilePath::new(p);
    m
}

fn parse(src: &str) -> ParsedModule {
    parse_source(&FilePath::new("placeholder.py"), src).unwrap()
}

#[test]
fn detects_versioned_migration_by_path() {
    let m = parse_at("alembic/versions/0042_init.py", "x = 1\n");
    assert!(module_is_alembic_entry(&m, false));
}

#[test]
fn detects_versioned_migration_under_custom_migrations_dir() {
    let m = parse_at("db_migrations/versions/0001_init.py", "x = 1\n");
    assert!(module_is_alembic_entry(&m, false));
}

#[test]
fn detects_upgrade_downgrade_pair_with_alembic_import() {
    let m = parse(
        "from alembic import op\ndef upgrade():\n    pass\ndef downgrade():\n    pass\n",
    );
    assert!(module_is_alembic_entry(&m, false));
}

#[test]
fn ignores_upgrade_only_function() {
    let m = parse(
        "from alembic import op\ndef upgrade():\n    pass\n",
    );
    assert!(!module_is_alembic_entry(&m, false));
}

#[test]
fn ignores_module_without_alembic_import_or_path() {
    let m = parse(
        "def upgrade():\n    pass\ndef downgrade():\n    pass\n",
    );
    assert!(!module_is_alembic_entry(&m, false));
}

#[test]
fn ignores_unrelated_versions_directory() {
    let m = parse_at("src/versions/api.py", "x = 1\n");
    assert!(!module_is_alembic_entry(&m, false));
}
