use pyllow::extract::{parse_source, ParsedModule};
use pyllow::path::FilePath;
use pyllow::plugins::django::module_is_django_entry;

fn parse_at(path: &str, src: &str) -> ParsedModule {
    let mut m = parse_source(&FilePath::new("test.py"), src).unwrap();
    m.path = FilePath::new(path);
    m
}

fn parse(src: &str) -> ParsedModule {
    parse_source(&FilePath::new("test.py"), src).unwrap()
}

#[test]
fn detects_model_subclass() {
    let m = parse(
        "from django.db import models\nclass User(models.Model):\n    name = models.CharField(max_length=100)\n",
    );
    assert!(module_is_django_entry(&m));
}

#[test]
fn detects_drf_viewset() {
    let m = parse(
        "from rest_framework import viewsets\nclass UserViewSet(viewsets.ModelViewSet):\n    queryset = []\n",
    );
    assert!(module_is_django_entry(&m));
}

#[test]
fn detects_class_based_view() {
    let m = parse(
        "from django.views import View\nclass Home(View):\n    def get(self, request):\n        pass\n",
    );
    assert!(module_is_django_entry(&m));
}

#[test]
fn detects_management_command() {
    let m = parse(
        "from django.core.management.base import BaseCommand\nclass Command(BaseCommand):\n    def handle(self, *args, **options):\n        pass\n",
    );
    assert!(module_is_django_entry(&m));
}

#[test]
fn detects_admin_class() {
    let m = parse(
        "from django.contrib import admin\nfrom .models import User\nclass UserAdmin(admin.ModelAdmin):\n    list_display = (\"name\",)\n",
    );
    assert!(module_is_django_entry(&m));
}

#[test]
fn detects_signal_receiver() {
    let m = parse(
        "from django.dispatch import receiver\nfrom django.db.models.signals import post_save\n@receiver(post_save)\ndef handler(sender, **kwargs):\n    pass\n",
    );
    assert!(module_is_django_entry(&m));
}

#[test]
fn detects_urlpatterns() {
    let m = parse(
        "from django.urls import path\nurlpatterns = [path(\"\", lambda r: None)]\n",
    );
    assert!(module_is_django_entry(&m));
}

#[test]
fn detects_migration_file_by_path() {
    let m = parse_at(
        "src/myapp/migrations/0001_initial.py",
        "from django.db import migrations\nclass Migration(migrations.Migration):\n    operations = []\n",
    );
    assert!(module_is_django_entry(&m));
}

#[test]
fn detects_migration_without_django_import_via_path() {
    // Django generates migrations and they're picked up by the framework
    // regardless of imports — path-based detection is the safety net.
    let m = parse_at("apps/billing/migrations/0042_squash.py", "x = 1\n");
    assert!(module_is_django_entry(&m));
}

#[test]
fn detects_settings_module() {
    let m = parse_at(
        "myproject/settings.py",
        "INSTALLED_APPS = [\"django.contrib.admin\"]\nDATABASES = {}\n",
    );
    assert!(module_is_django_entry(&m));
}

#[test]
fn ignores_class_named_model_without_django_import() {
    let m = parse(
        "class Model:\n    pass\nclass Foo(Model):\n    pass\n",
    );
    assert!(!module_is_django_entry(&m));
}

#[test]
fn django_ignores_unrelated_module() {
    let m = parse("import os\ndef f():\n    return 1\n");
    assert!(!module_is_django_entry(&m));
}
