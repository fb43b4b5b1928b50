use pyllow::config::boundaries::{
    boundaries_are_small, dirs_to_list, preset_layout, resolve_boundaries, BoundariesFile,
    BoundaryPreset, ChildDir, DirListing, RuleFile, ZoneFile, KNOWN_BOUNDARY_PRESETS,
};
use pyllow::config::error::ConfigError;
use pyllow::config::globs::glob_is_small;
use pyllow::config::table::{PluginConfig, PluginTable};
use pyllow::config::{
    file_is_small, merge_pyllowignore, DupesConfig, MoneyAsFloatConfig, PyllowFile, ResolvedConfig,
    SmellsConfig, SuppressEntryFile,
};
use pyllow::commands::{exit_code, RunEnd};
use pyllow::order::sort_texts;
use pyllow::path::FilePath;
use pyllow::smells::{executed_smell_rules, options_from_config};
use pyllow::types::{BannedApi, SmellRule};

fn strings(v: &[&str]) -> Vec<String> {
    v.iter().map(|s| s.to_string()).collect()
}

fn load_with(
    toml: Option<PyllowFile>,
    section: Option<PyllowFile>,
    ignore: Option<&str>,
    listings: Vec<DirListing>,
) -> Result<ResolvedConfig, ConfigError> {
    ResolvedConfig::load(
        FilePath::new("."),
        toml,
        section,
        ignore.map(|s| s.to_string()),
        &listings,
    )
}

fn load(file: PyllowFile) -> Result<ResolvedConfig, ConfigError> {
    load_with(Some(file), None, None, vec![])
}

fn smells(enabled: &[&str], disabled: &[&str]) -> PyllowFile {
    PyllowFile {
        smells: Some(SmellsConfig {
            enabled: strings(enabled),
            disabled: strings(disabled),
            ..SmellsConfig::default()
        }),
        ..PyllowFile::default()
    }
}

fn boundaries(b: BoundariesFile) -> PyllowFile {
    PyllowFile { boundaries: Some(b), ..PyllowFile::default() }
}

fn preset(p: BoundaryPreset) -> PyllowFile {
    boundaries(BoundariesFile { preset: Some(p), ..BoundariesFile::default() })
}

fn suppress(path: &str, rules: &[&str], line: Option<u32>, reason: Option<&str>) -> PyllowFile {
    PyllowFile {
        suppress: vec![SuppressEntryFile {
            path: path.to_string(),
            rules: strings(rules),
            line,
            reason: reason.map(|s| s.to_string()),
        }],
        ..PyllowFile::default()
    }
}

fn listing(dir: &str, children: &[(&str, &[&str])]) -> DirListing {
    DirListing {
        dir: dir.to_string(),
        children: children
            .iter()
            .map(|(name, files)| ChildDir { name: name.to_string(), files: strings(files) })
            .collect(),
    }
}

fn zone_names(cfg: &ResolvedConfig) -> Vec<&str> {
    cfg.boundaries.zones.iter().map(|z| z.name.as_str()).collect()
}

#[test]
fn unknown_disabled_rule_name_is_rejected() {
    let err = load(smells(&[], &["mutable-default", "no-such-rule"]))
        .expect_err("unknown rule must fail");
    assert!(
        err.describe().contains("no-such-rule"),
        "error should name the offending rule: {}",
        err.describe()
    );
}

#[test]
fn unknown_enabled_rule_name_is_rejected() {
    let err = load(smells(&["definitely-not-a-rule"], &[])).expect_err("unknown rule must fail");
    assert!(err.describe().contains("definitely-not-a-rule"), "{}", err.describe());
}

#[test]
fn known_rule_names_are_accepted_in_both_lists() {
    let cfg =
        load(smells(&["stray-print"], &["broad-except"])).expect("valid rule names must load");
    assert_eq!(cfg.smells_enabled, vec![SmellRule::StrayPrint]);
    assert_eq!(cfg.smells_disabled, vec![SmellRule::BroadExcept]);
}

#[test]
fn loads_defaults_when_no_config() {
    let cfg = load_with(None, None, None, vec![]).unwrap();
    assert_eq!(cfg.python_version, "3.11");
    assert!(cfg.plugins.contains_key("fastapi"));
    assert!(cfg.ignore_patterns.iter().any(|p| p.contains(".venv")));
}

#[test]
fn loads_pyllow_toml() {
    let mut plugins = PluginTable::new();
    plugins.insert("fastapi".to_string(), PluginConfig { enabled: false });
    let cfg = load(PyllowFile {
        package_roots: Some(vec![FilePath::new("src/app")]),
        python_version: Some("3.12".to_string()),
        plugins: Some(plugins),
        ..PyllowFile::default()
    })
    .unwrap();
    assert_eq!(cfg.package_roots.len(), 1);
    assert_eq!(cfg.package_roots[0].text(), "src/app");
    assert_eq!(cfg.python_version, "3.12");
    assert!(!cfg.plugins.get("fastapi").unwrap().enabled);
    assert!(cfg.plugins.get("flask").unwrap().enabled);
}

#[test]
fn loads_tool_pyllow_from_pyproject() {
    let section = PyllowFile {
        package_roots: Some(vec![FilePath::new("app")]),
        entry_points: Some(vec![FilePath::new("app/main.py")]),
        ..PyllowFile::default()
    };
    let cfg = load_with(None, Some(section), None, vec![]).unwrap();
    assert_eq!(cfg.package_roots.len(), 1);
    assert_eq!(cfg.package_roots[0].text(), "app");
    assert_eq!(cfg.entry_points.len(), 1);
    assert_eq!(cfg.entry_points[0].text(), "app/main.py");
}

#[test]
fn pyllow_toml_takes_precedence_over_pyproject() {
    let toml = PyllowFile { python_version: Some("3.13".to_string()), ..PyllowFile::default() };
    let section = PyllowFile { python_version: Some("3.10".to_string()), ..PyllowFile::default() };
    let cfg = load_with(Some(toml), Some(section), None, vec![]).unwrap();
    assert_eq!(cfg.python_version, "3.13");
}

#[test]
fn appends_pyllowignore_patterns_to_ignore_list() {
    let cfg = load_with(
        None,
        None,
        Some("# pyllow ignore\nscripts/**\n\ntests/**\n  docs/**  \n"),
        vec![],
    )
    .unwrap();
    assert!(cfg.ignore_patterns.contains(&"scripts/**".to_string()));
    assert!(cfg.ignore_patterns.contains(&"tests/**".to_string()));
    assert!(cfg.ignore_patterns.contains(&"docs/**".to_string()));
    assert!(cfg.ignore_patterns.iter().any(|p| p.contains(".venv")));
    assert_eq!(cfg.ignore_patterns.len(), 17 + 3);
}

#[test]
fn smells_section_accepts_snake_case_keys() {
    let cfg = load(PyllowFile {
        smells: Some(SmellsConfig {
            todo_density_threshold: Some(9),
            money_as_float: Some(MoneyAsFloatConfig {
                extra_name_patterns: strings(&["premium"]),
            }),
            ..SmellsConfig::default()
        }),
        ..PyllowFile::default()
    })
    .unwrap();
    assert_eq!(cfg.smells_todo_density_threshold, Some(9));
    assert_eq!(cfg.smells_money_extra_patterns, vec!["premium".to_string()]);
}

#[test]
fn dupes_default_min_occurrences_is_two() {
    let cfg = load_with(None, None, None, vec![]).unwrap();
    assert_eq!(cfg.dupes_min_occurrences, 2);
}

#[test]
fn dupes_section_accepts_snake_case_min_occurrences() {
    let cfg = load(PyllowFile {
        dupes: Some(DupesConfig { min_occurrences: Some(3) }),
        ..PyllowFile::default()
    })
    .unwrap();
    assert_eq!(cfg.dupes_min_occurrences, 3);
}

#[test]
fn suppress_entry_loads_with_minimum_fields() {
    let cfg = load(suppress("src/legacy.py", &["unused-import"], None, None)).unwrap();
    assert_eq!(cfg.suppress.len(), 1);
    let entry = &cfg.suppress[0];
    assert!(entry.path_glob.is_match("src/legacy.py"));
    assert!(!entry.path_glob.is_match("src/other.py"));
    assert!(entry.rules.contains("unused-import"));
    assert!(entry.line.is_none());
}

#[test]
fn suppress_entry_with_line_and_reason() {
    let cfg = load(suppress(
        "src/foo.py",
        &["broad-except"],
        Some(42),
        Some("intentional catch-all for backwards compat"),
    ))
    .unwrap();
    let entry = &cfg.suppress[0];
    assert_eq!(entry.line, Some(42));
    assert!(entry.reason.as_deref().unwrap().contains("backwards compat"));
}

#[test]
fn suppress_glob_supports_double_star() {
    let cfg = load(suppress("tests/**/*.py", &["stray-print"], None, None)).unwrap();
    let entry = &cfg.suppress[0];
    assert!(entry.path_glob.is_match("tests/unit/foo.py"));
    assert!(entry.path_glob.is_match("tests/integration/sub/bar.py"));
    assert!(!entry.path_glob.is_match("src/foo.py"));
}

#[test]
fn invalid_suppress_glob_returns_error() {
    let err =
        load(suppress("src/[", &[], None, None)).expect_err("invalid glob should error");
    let msg = err.describe();
    assert!(
        msg.contains("suppress") || msg.contains("glob"),
        "error message should mention suppress/glob; got: {msg}"
    );
}

#[test]
fn boundaries_zone_with_patterns_loads() {
    let cfg = load(boundaries(BoundariesFile {
        zones: vec![ZoneFile {
            name: "core".to_string(),
            patterns: strings(&["src/core/**"]),
            auto_discover: vec![],
        }],
        ..BoundariesFile::default()
    }))
    .unwrap();
    assert_eq!(cfg.boundaries.zones.len(), 1);
    let zone = &cfg.boundaries.zones[0];
    assert_eq!(zone.name, "core");
    assert!(zone.patterns[0].is_match("src/core/foo.py"));
    assert!(!zone.patterns[0].is_match("src/api/foo.py"));
}

#[test]
fn boundaries_auto_discover_expands_child_dirs() {
    let file = boundaries(BoundariesFile {
        zones: vec![ZoneFile {
            name: "features".to_string(),
            patterns: vec![],
            auto_discover: strings(&["src/features"]),
        }],
        ..BoundariesFile::default()
    });
    let found = listing(
        "src/features",
        &[("auth", &["__init__.py"]), ("billing", &["api.py"]), ("empty", &[])],
    );
    let cfg = load_with(Some(file), None, None, vec![found]).unwrap();
    let names = zone_names(&cfg);
    assert!(names.contains(&"features/auth"), "got names {names:?}");
    assert!(names.contains(&"features/billing"), "got names {names:?}");
    assert!(!names.contains(&"features/empty"), "got names {names:?}");

    let auth_zone =
        cfg.boundaries.zones.iter().find(|z| z.name == "features/auth").unwrap();
    assert!(auth_zone.patterns[0].is_match("src/features/auth/handlers.py"));
    assert!(!auth_zone.patterns[0].is_match("src/features/__init__.py"));
}

#[test]
fn boundaries_rule_with_deny_loads() {
    let cfg = load(boundaries(BoundariesFile {
        rules: vec![RuleFile {
            from: "features/*".to_string(),
            allow: vec![],
            deny: strings(&["features/*"]),
        }],
        ..BoundariesFile::default()
    }))
    .unwrap();
    let rule = &cfg.boundaries.rules[0];
    assert!(rule.from.is_match("features/auth"));
    assert!(rule.deny[0].is_match("features/billing"));
    assert!(rule.allow.is_empty());
}

#[test]
fn boundaries_rule_with_both_allow_and_deny_errors() {
    let err = load(boundaries(BoundariesFile {
        rules: vec![RuleFile {
            from: "features/*".to_string(),
            allow: strings(&["shared"]),
            deny: strings(&["features/*"]),
        }],
        ..BoundariesFile::default()
    }))
    .unwrap_err();
    let msg = err.describe();
    assert!(msg.contains("allow and deny") || msg.contains("pick one"), "got: {msg}");
}

#[test]
fn preset_bulletproof_creates_features_and_shared_zones() {
    let found = listing("src/features", &[("auth", &["__init__.py"])]);
    let cfg =
        load_with(Some(preset(BoundaryPreset::Bulletproof)), None, None, vec![found]).unwrap();
    let names = zone_names(&cfg);
    assert!(
        names.contains(&"features/auth"),
        "bulletproof should auto-discover features/auth; got {names:?}"
    );
    assert!(
        names.contains(&"shared"),
        "bulletproof should include a shared zone; got {names:?}"
    );
    assert!(
        cfg.boundaries
            .rules
            .iter()
            .any(|r| r.from.is_match("features/auth") && !r.deny.is_empty()),
        "bulletproof should have a features/* deny rule"
    );
}

#[test]
fn preset_layered_creates_downward_only_rules() {
    let cfg = load(preset(BoundaryPreset::Layered)).unwrap();
    let names = zone_names(&cfg);
    assert!(names.contains(&"presentation"), "got {names:?}");
    assert!(names.contains(&"business"), "got {names:?}");
    assert!(names.contains(&"data"), "got {names:?}");
    let data_rule = cfg
        .boundaries
        .rules
        .iter()
        .find(|r| r.from.is_match("data"))
        .expect("layered should have a rule keyed on data");
    assert!(data_rule.deny.iter().any(|g| g.is_match("business")));
    assert!(data_rule.deny.iter().any(|g| g.is_match("presentation")));
}

#[test]
fn preset_hexagonal_protects_domain_from_adapters() {
    let cfg = load(preset(BoundaryPreset::Hexagonal)).unwrap();
    let domain_rule = cfg
        .boundaries
        .rules
        .iter()
        .find(|r| r.from.is_match("domain"))
        .expect("hexagonal should have a rule keyed on domain");
    assert!(domain_rule.deny.iter().any(|g| g.is_match("adapters")));
}

#[test]
fn preset_feature_sliced_creates_layered_features() {
    let found: Vec<DirListing> = ["entities", "features", "widgets", "pages"]
        .iter()
        .map(|layer| listing(&format!("src/{layer}"), &[("sample", &["__init__.py"])]))
        .collect();
    let cfg =
        load_with(Some(preset(BoundaryPreset::FeatureSliced)), None, None, found).unwrap();
    let names = zone_names(&cfg);
    for layer in ["entities/sample", "features/sample", "widgets/sample", "pages/sample"] {
        assert!(
            names.contains(&layer),
            "feature-sliced should auto-discover {layer}; got {names:?}"
        );
    }
}

#[test]
fn user_zones_and_rules_add_to_preset() {
    let cfg = load(boundaries(BoundariesFile {
        preset: Some(BoundaryPreset::Layered),
        zones: vec![ZoneFile {
            name: "vendored".to_string(),
            patterns: strings(&["vendored/**"]),
            auto_discover: vec![],
        }],
        rules: vec![RuleFile {
            from: "presentation".to_string(),
            allow: vec![],
            deny: strings(&["vendored"]),
        }],
    }))
    .unwrap();
    let names = zone_names(&cfg);
    assert!(names.contains(&"vendored"));
    assert!(names.contains(&"presentation"));
    assert_eq!(names, vec!["presentation", "business", "data", "vendored"]);
    let presentation_rules: Vec<_> =
        cfg.boundaries.rules.iter().filter(|r| r.from.is_match("presentation")).collect();
    assert!(
        !presentation_rules.is_empty(),
        "user rule on `presentation` must coexist with preset rules"
    );
    assert!(presentation_rules.iter().any(|r| r.deny.iter().any(|g| g.is_match("vendored"))));
}

#[test]
fn pyllowignore_combines_with_pyllow_toml() {
    let file = PyllowFile {
        ignore_patterns: Some(strings(&["build/**"])),
        ..PyllowFile::default()
    };
    let cfg = load_with(Some(file), None, Some("vendor/**\n"), vec![]).unwrap();
    assert!(cfg.ignore_patterns.contains(&"build/**".to_string()));
    assert!(cfg.ignore_patterns.contains(&"vendor/**".to_string()));
    assert_eq!(cfg.ignore_patterns[0], "**/.venv/**");
    assert_eq!(cfg.ignore_patterns[17], "build/**");
    assert_eq!(cfg.ignore_patterns[18], "vendor/**");
}

#[test]
fn errors_are_described_in_full() {
    let unknown = load(smells(&["nope"], &[])).unwrap_err();
    assert_eq!(
        unknown.describe(),
        "unknown smell rule `nope` in [smells].enabled (valid rules: mutable-default, \
         broad-except, sentinel-equality, truthy-length-check, unreachable-after-exit, \
         passthrough-function, stray-print, single-method-class, high-todo-density, \
         raise-from-none, money-as-float, banned-api, no-explicit-any)"
    );
    let glob = load(suppress("src/[", &[], None, None)).unwrap_err();
    assert_eq!(
        glob.describe(),
        "invalid glob in [[suppress]] entry path=\"src/[\": error parsing glob 'src/[': \
         unclosed character class; missing ']'"
    );
    let zone = load(boundaries(BoundariesFile {
        zones: vec![ZoneFile {
            name: "z".to_string(),
            patterns: strings(&["ok/**", "a{"]),
            auto_discover: vec![],
        }],
        ..BoundariesFile::default()
    }))
    .unwrap_err();
    assert!(matches!(
        &zone,
        ConfigError::InvalidBoundaryGlob { context, pattern, .. }
            if context == "patterns" && pattern == "a{"
    ));
    assert!(zone
        .describe()
        .starts_with("invalid glob in [[boundaries.zones]] patterns=\"a{\": error parsing glob 'a{'"));
    let both = ConfigError::ConflictingBoundaryRule { from: "a\"b".to_string() };
    assert_eq!(
        both.describe(),
        "[[boundaries.rules]] with from=\"a\\\"b\" sets both allow and deny — pick one"
    );
    let io = ConfigError::Io {
        path: FilePath::new("pyllow.toml"),
        message: "denied".to_string(),
    };
    assert_eq!(io.describe(), "io error reading pyllow.toml: denied");
    let toml = ConfigError::Toml {
        path: FilePath::new("pyllow.toml"),
        message: "bad".to_string(),
    };
    assert_eq!(toml.describe(), "toml parse error in pyllow.toml: bad");
}

#[test]
fn rule_patterns_are_checked_one_by_one() {
    for (rule, context) in [
        (("[", vec![], vec![]), "rules.from"),
        (("a", vec!["["], vec![]), "rules.allow"),
        (("a", vec![], vec!["b", "["]), "rules.deny"),
    ] {
        let (from, allow, deny) = rule;
        let file = BoundariesFile {
            rules: vec![RuleFile {
                from: from.to_string(),
                allow: strings(&allow),
                deny: strings(&deny),
            }],
            ..BoundariesFile::default()
        };
        match resolve_boundaries(file, &vec![]) {
            Err(ConfigError::InvalidBoundaryGlob { context: c, pattern, .. }) => {
                assert_eq!(c, context);
                assert_eq!(pattern, "[");
            }
            other => panic!("{other:?}"),
        }
    }
}

#[test]
fn discovered_zones_come_in_order() {
    let file = || BoundariesFile {
        zones: vec![ZoneFile {
            name: "f".to_string(),
            patterns: strings(&["own/**"]),
            auto_discover: strings(&["a", "missing", "b"]),
        }],
        ..BoundariesFile::default()
    };
    let found = vec![
        listing("b", &[("z", &["x.py"])]),
        listing("a", &[("y", &["x.py"]), ("B", &["x.py"]), ("x", &[".py", "x.pyi"])]),
    ];
    assert_eq!(dirs_to_list(&file()), strings(&["a", "missing", "b"]));
    assert!(boundaries_are_small(&file(), &found));
    let resolved = resolve_boundaries(file(), &found).unwrap();
    let names: Vec<&str> = resolved.zones.iter().map(|z| z.name.as_str()).collect();
    assert_eq!(names, vec!["f", "f/B", "f/y", "f/z"]);
    assert_eq!(resolved.zones[1].patterns[0].glob().glob(), "a/B/**");
}

#[test]
fn large_patterns_are_recognised() {
    assert!(glob_is_small(&"a".repeat(16384)));
    assert!(!glob_is_small(&"a".repeat(16385)));
    assert!(glob_is_small(&"{a}".repeat(80)));
    assert!(!glob_is_small(&"{a}".repeat(81)));
    assert!(file_is_small(&suppress("src/**", &[], None, None), &vec![]));
    assert!(!file_is_small(&suppress(&"{".repeat(81), &[], None, None), &vec![]));
    // The largest patterns that fit are compiled without a panic.
    let deep = format!("{}{}", "{a,**/".repeat(80), "}".repeat(80));
    assert!(load(suppress(&deep, &[], None, None)).is_ok());
    let wide = "**/a".repeat(4096);
    assert!(load(suppress(&wide, &[], None, None)).is_ok());
    assert!(load(suppress(&"[!a-z]".repeat(2730), &[], None, None)).is_ok());
    assert!(load(suppress(&"\u{1f40d}".repeat(16384), &[], None, None)).is_ok());
    assert!(load(suppress(&"*?".repeat(8192), &[], None, None)).is_ok());
    let choices = format!("{{{}}}", "a*,".repeat(5460));
    assert!(load(suppress(&choices, &[], None, None)).is_ok());
}

#[test]
fn plugins_are_kept_in_order() {
    let mut t = PluginTable::new();
    for name in ["m", "a", "z", "m"] {
        t.insert(name.to_string(), PluginConfig { enabled: name == "m" });
    }
    let names: Vec<&str> = t.entries.iter().map(|e| e.0.as_str()).collect();
    assert_eq!(names, vec!["a", "m", "z"]);
    assert_eq!(t.get("m"), Some(PluginConfig { enabled: true }));
    assert_eq!(t.get("q"), None);
    assert_eq!(PluginConfig::default().enabled, false);
}

#[test]
fn default_settings_are_complete() {
    let c = ResolvedConfig::default();
    assert!(c.project_root.same_as(&FilePath::new(".")));
    assert_eq!(c.plugins.entries.len(), 17);
    assert!(c.plugins.entries.iter().all(|e| e.1.enabled));
    assert_eq!(c.plugins.entries[0].0, "aiohttp");
    assert_eq!(c.plugins.entries[16].0, "starlette");
    let layout = preset_layout(BoundaryPreset::Hexagonal);
    assert_eq!(layout.zones[2].patterns, strings(&["src/adapters/**", "src/infrastructure/**"]));
    assert_eq!(KNOWN_BOUNDARY_PRESETS[3], "feature-sliced");
}

#[test]
fn texts_are_sorted_by_code_points() {
    let v = strings(&["b", "a", "B", "", "ab", "a"]);
    assert_eq!(sort_texts(&v), strings(&["", "B", "a", "a", "ab", "b"]));
}

#[test]
fn merging_twice_adds_up() {
    let mut first = load(suppress("a", &["x"], None, None)).unwrap();
    first = first.merge(suppress("b", &["y"], None, None), &vec![]).unwrap();
    assert_eq!(first.suppress.len(), 2);
    assert_eq!(first.suppress[1].path_glob.glob().glob(), "b");
    let mut patterns = vec![];
    merge_pyllowignore(&mut patterns, "#a\n \n b \r\n#");
    assert_eq!(patterns, strings(&["b"]));
}

fn executed(file: PyllowFile) -> Vec<String> {
    executed_smell_rules(&options_from_config(&load(file).unwrap(), 5).enabled)
}

fn code(r: &Result<ResolvedConfig, ConfigError>) -> u8 {
    match r {
        Ok(_) => exit_code(RunEnd::Completed { findings: false }),
        Err(_) => exit_code(RunEnd::Broken),
    }
}

#[test]
fn disabled_beats_enabled_for_the_same_rule() {
    let rules = executed(smells(&["broad-except"], &["broad-except"]));
    assert!(!rules.contains(&"broad-except".to_string()), "{rules:?}");
}

#[test]
fn settings_choose_the_rules_that_run() {
    let shipped = executed(PyllowFile::default());
    assert!(shipped.contains(&"mutable-default".to_string()));
    assert!(shipped.contains(&"broad-except".to_string()));
    assert!(!shipped.contains(&"no-explicit-any".to_string()));
    assert_eq!(executed(smells(&["broad-except"], &[])), shipped);
    let rules = executed(smells(&["no-explicit-any"], &["broad-except"]));
    assert!(!rules.contains(&"broad-except".to_string()));
    assert!(rules.contains(&"mutable-default".to_string()));
    assert!(rules.contains(&"no-explicit-any".to_string()));
}

#[test]
fn unknown_rule_in_disabled_fails_before_analysis() {
    let r = load(smells(&[], &["no-such-rule"]));
    assert_eq!(code(&r), 2);
    assert!(r.unwrap_err().describe().contains("no-such-rule"));
}

#[test]
fn unknown_rule_in_enabled_fails_before_analysis() {
    let r = load(smells(&["typo-rule"], &[]));
    assert_eq!(code(&r), 2);
    assert!(r.unwrap_err().describe().contains("typo-rule"));
}

#[test]
fn unknown_rule_error_lists_the_valid_names() {
    let err = load(smells(&[], &["no-such-rule"])).unwrap_err();
    assert!(err.describe().contains("mutable-default"), "{}", err.describe());
}

#[test]
fn entries_alone_do_nothing_until_the_rule_is_enabled() {
    let mut file = smells(&[], &[]);
    if let Some(s) = &mut file.smells {
        s.banned_api = vec![BannedApi {
            id: "no-typing-cast".to_string(),
            path: "typing.cast".to_string(),
            message: "Prefer parsing.".to_string(),
        }];
    }
    let rules = executed(file);
    assert!(!rules.contains(&"banned-api".to_string()), "{rules:?}");
}

#[test]
fn roots_are_kept_as_they_are_written() {
    let cfg = load(PyllowFile {
        package_roots: Some(vec![FilePath::new("./src//app/")]),
        ..PyllowFile::default()
    })
    .unwrap();
    assert_eq!(cfg.package_roots[0].text(), "./src//app/");
    assert!(cfg.package_roots[0].same_as(&FilePath::new("./src/app")));
}
