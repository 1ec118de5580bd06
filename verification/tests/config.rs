use annotate::build::config::{
    build, build_with, build_with_specs, push_unique_pragma, render_safe_source, BuildConfig, ConfigError,
    ConfigSpec, CustomDerive, FunctionSpec, ModuleSpec, SCHEMA_VERSION,
};
use annotate::build::derive::ModuleDeriveSpec;

fn config_spec() -> ConfigSpec {
    ConfigSpec {
        schema_version: SCHEMA_VERSION,
        functions: vec![FunctionSpec {
            pragma: "command".to_string(),
        }],
        modules: vec![ModuleSpec {
            pragma: "tooling".to_string(),
            derives: vec![ModuleDeriveSpec {
                name: None,
                functions: vec!["bootstrap".to_string(), "init".to_string()],
                modules: vec![ModuleDeriveSpec {
                    name: Some("nested".to_string()),
                    functions: vec!["run".to_string()],
                    modules: vec![],
                }],
            }],
        }],
    }
}

fn mismatch_message(result: Result<ConfigSpec, ConfigError>) -> String {
    match result {
        Ok(_) => panic!("a mismatching schema version was accepted"),
        Err(error) => error.message(),
    }
}

#[test]
fn build_config_from_spec_collects_pragmas_and_module_derives() {
    let spec = config_spec();
    let config = BuildConfig::from_spec(&spec);

    assert_eq!(*config.pragmas(), vec!["command", "tooling"]);
    assert!(config.derives().is_empty());

    let tooling_derives = config.module_derives().get("tooling").unwrap();
    assert_eq!(tooling_derives.len(), 1);

    let root_derive = &tooling_derives[0];
    assert_eq!(root_derive.function_names(), ["bootstrap", "init"]);
    assert_eq!(root_derive.modules().len(), 1);

    let nested = &root_derive.modules()[0];
    assert_eq!(nested.name(), Some("nested"));
    assert_eq!(nested.function_names(), ["run"]);
}

fn spec_from_json(text: &str) -> ConfigSpec {
    let value: serde_json::Value = serde_json::from_str(text).unwrap();
    fn derive(v: &serde_json::Value) -> ModuleDeriveSpec {
        ModuleDeriveSpec {
            name: v["name"].as_str().map(|s| s.to_string()),
            functions: v["functions"]
                .as_array()
                .map(|a| a.iter().map(|s| s.as_str().unwrap().to_string()).collect())
                .unwrap_or_default(),
            modules: v["modules"]
                .as_array()
                .map(|a| a.iter().map(derive).collect())
                .unwrap_or_default(),
        }
    }
    ConfigSpec {
        schema_version: value["schema_version"].as_u64().unwrap() as u32,
        functions: value["functions"]
            .as_array()
            .map(|a| {
                a.iter()
                    .map(|f| FunctionSpec {
                        pragma: f["pragma"].as_str().unwrap().to_string(),
                    })
                    .collect()
            })
            .unwrap_or_default(),
        modules: value["modules"]
            .as_array()
            .map(|a| {
                a.iter()
                    .map(|m| ModuleSpec {
                        pragma: m["pragma"].as_str().unwrap().to_string(),
                        derives: m["derives"]
                            .as_array()
                            .map(|d| d.iter().map(derive).collect())
                            .unwrap_or_default(),
                    })
                    .collect()
            })
            .unwrap_or_default(),
    }
}

#[test]
fn json_schema_version_must_match() {
    let spec = spec_from_json(
        r#"
            {
                "schema_version": 999,
                "functions": []
            }
        "#,
    );
    let message = mismatch_message(spec.check_schema_version());

    assert_eq!(
        message,
        format!(
            "schema_version 999 does not match supported version {}",
            SCHEMA_VERSION
        )
    );
}

#[test]
fn build_config_merge_combines_specs() {
    let second_spec = ConfigSpec {
        schema_version: SCHEMA_VERSION,
        functions: vec![FunctionSpec {
            pragma: "inspect".to_string(),
        }],
        modules: vec![ModuleSpec {
            pragma: "extensions".to_string(),
            derives: vec![ModuleDeriveSpec {
                name: Some("diagnostics".to_string()),
                functions: vec!["collect_warnings".to_string()],
                modules: vec![],
            }],
        }],
    };

    let first_spec = config_spec();
    let mut config = BuildConfig::from_spec(&first_spec);
    config.merge(BuildConfig::from_spec(&second_spec));

    assert_eq!(
        *config.pragmas(),
        vec!["command", "tooling", "inspect", "extensions"]
    );

    let tooling_derives = config.module_derives().get("tooling").unwrap();
    assert_eq!(tooling_derives.len(), 1);

    let extension_derives = config.module_derives().get("extensions").unwrap();
    assert_eq!(extension_derives.len(), 1);
    assert_eq!(extension_derives[0].name(), Some("diagnostics"));
    assert_eq!(extension_derives[0].function_names(), ["collect_warnings"]);
}

#[test]
fn macro_schema_version_matches_public_constant() {
    assert_eq!(SCHEMA_VERSION.to_string(), "1");
}

#[test]
fn matching_schema_version_is_accepted() {
    let spec = config_spec();
    match spec.check_schema_version() {
        Ok(spec) => assert_eq!(spec.schema_version, 1),
        Err(error) => panic!("{}", error.message()),
    }
}

#[test]
fn schema_mismatch_message_names_both_versions() {
    let error = ConfigError::SchemaVersionMismatch {
        found: 0,
        supported: 12,
    };
    assert_eq!(
        error.message(),
        "schema_version 0 does not match supported version 12"
    );
}

#[test]
fn pragma_registered_twice_in_one_spec_is_kept_once() {
    let spec = ConfigSpec {
        schema_version: SCHEMA_VERSION,
        functions: vec![
            FunctionSpec {
                pragma: "command".to_string(),
            },
            FunctionSpec {
                pragma: "command".to_string(),
            },
        ],
        modules: vec![ModuleSpec {
            pragma: "command".to_string(),
            derives: vec![],
        }],
    };
    let config = BuildConfig::from_spec(&spec);
    assert_eq!(*config.pragmas(), vec!["command"]);
    assert_eq!(config.module_derives().get("command").unwrap().len(), 0);
}

#[test]
fn later_module_spec_replaces_earlier_one_with_same_pragma() {
    let spec = ConfigSpec {
        schema_version: SCHEMA_VERSION,
        functions: vec![],
        modules: vec![
            ModuleSpec {
                pragma: "plugin".to_string(),
                derives: vec![ModuleDeriveSpec {
                    name: Some("first".to_string()),
                    functions: vec![],
                    modules: vec![],
                }],
            },
            ModuleSpec {
                pragma: "plugin".to_string(),
                derives: vec![ModuleDeriveSpec {
                    name: Some("second".to_string()),
                    functions: vec![],
                    modules: vec![],
                }],
            },
        ],
    };
    let config = BuildConfig::from_spec(&spec);
    let derives = config.module_derives().get("plugin").unwrap();
    assert_eq!(derives.len(), 1);
    assert_eq!(derives[0].name(), Some("second"));
}

#[test]
fn merge_appends_module_derives_of_the_same_pragma() {
    let mut config = BuildConfig::from_spec(&config_spec());
    config.merge(BuildConfig::from_spec(&config_spec()));
    assert_eq!(*config.pragmas(), vec!["command", "tooling"]);
    let derives = config.module_derives().get("tooling").unwrap();
    assert_eq!(derives.len(), 2);
    assert_eq!(derives[1].function_names(), ["bootstrap", "init"]);
}

#[test]
fn merging_an_empty_configuration_changes_nothing() {
    let mut config = BuildConfig::from_spec(&config_spec());
    config.merge(build());
    assert_eq!(*config.pragmas(), vec!["command", "tooling"]);
    assert_eq!(config.module_derives().len(), 1);
    assert_eq!(config.module_derives().get("tooling").unwrap().len(), 1);
}

#[test]
fn build_with_specs_merges_each_spec() {
    let second = ConfigSpec {
        schema_version: SCHEMA_VERSION,
        functions: vec![FunctionSpec {
            pragma: "tooling".to_string(),
        }],
        modules: vec![],
    };
    let config = build_with_specs(vec![config_spec(), second]);
    assert_eq!(*config.pragmas(), vec!["command", "tooling"]);
    assert!(config.module_derives().get("tooling").is_some());
}

#[test]
fn schema_version_check_refuses_each_mismatching_spec() {
    let bad = |version: u32| ConfigSpec {
        schema_version: version,
        functions: vec![],
        modules: vec![],
    };
    let messages: Vec<String> = vec![config_spec(), bad(7), bad(9)]
        .into_iter()
        .filter_map(|spec| spec.check_schema_version().err())
        .map(|error| error.message())
        .collect();
    assert_eq!(
        messages,
        vec![
            "schema_version 7 does not match supported version 1",
            "schema_version 9 does not match supported version 1"
        ]
    );
}

#[test]
fn build_with_no_specs_is_empty() {
    let config = build_with_specs(vec![]);
    assert!(config.pragmas().is_empty());
    assert!(config.derives().is_empty());
    assert_eq!(config.module_derives().len(), 0);
}

#[test]
fn build_registers_nothing() {
    let config = build();
    assert!(config.pragmas().is_empty());
    assert!(config.derives().is_empty());
    assert_eq!(config.module_derives().len(), 0);
}

#[test]
fn build_with_applies_the_configuration() {
    let config = build_with(|config| {
        config.pragma("command".to_string()).pragma("view".to_string());
    });
    assert_eq!(*config.pragmas(), vec!["command", "view"]);
}

#[test]
fn pragma_is_added_even_when_present() {
    let mut config = build();
    config.pragma("view".to_string());
    config.pragma("view".to_string());
    assert_eq!(*config.pragmas(), vec!["view", "view"]);
}

#[test]
fn push_unique_pragma_skips_known_names() {
    let mut pragmas = vec!["a".to_string(), "b".to_string()];
    push_unique_pragma(&mut pragmas, "b");
    assert_eq!(pragmas, vec!["a", "b"]);
    push_unique_pragma(&mut pragmas, "c");
    assert_eq!(pragmas, vec!["a", "b", "c"]);
}

#[test]
fn derive_registers_a_compiled_template() {
    let mut config = build();
    assert!(config
        .derive("Describe".to_string(), "mod {{struct_ident}}_describe {}")
        .is_some());
    assert_eq!(config.derives().len(), 1);
    assert_eq!(config.derives()[0].name(), "Describe");
    assert_eq!(config.derives()[0].source(), "mod {{struct_ident}}_describe {}");
}

#[test]
fn derive_with_a_broken_template_is_refused() {
    let mut config = build();
    assert!(config.derive("Broken".to_string(), "{{#open}}").is_none());
    assert!(config.derives().is_empty());
}

#[test]
fn custom_derive_renders_the_struct_name_in_lower_case() {
    let derive = CustomDerive::new(
        "Describe".to_string(),
        "mod {{struct_ident}}_describe {}",
    )
    .unwrap();
    assert_eq!(CustomDerive::struct_ident("MyStruct"), "mystruct");
    assert_eq!(
        derive.render("MyStruct").unwrap(),
        "mod mystruct_describe {}"
    );
    assert_eq!(derive.duplicate().name(), "Describe");
}

#[test]
fn module_derive_builds_nested_derives() {
    let mut config = build();
    config.module_derive("extensions".to_string(), |builder| {
        builder
            .module("utilities".to_string())
            .functions(vec!["to_text".to_string(), "describe".to_string()])
            .module("inner".to_string())
            .functions(vec!["deep".to_string()]);
    });
    let derives = config.module_derives().get("extensions").unwrap();
    assert_eq!(derives.len(), 1);
    assert_eq!(derives[0].name(), Some("utilities"));
    assert_eq!(derives[0].function_names(), ["to_text", "describe"]);
    assert_eq!(derives[0].modules().len(), 1);
    assert_eq!(derives[0].modules()[0].name(), Some("inner"));
    assert_eq!(derives[0].modules()[0].function_names(), ["deep"]);
    assert!(config.pragmas().is_empty());
}

#[test]
fn module_derive_functions_without_module_go_to_an_unnamed_derive() {
    let mut config = build();
    config.module_derive("extensions".to_string(), |builder| {
        builder.functions(vec!["helper".to_string()]);
    });
    config.module_derive("extensions".to_string(), |builder| {
        builder.functions(vec!["other".to_string()]);
    });
    let derives = config.module_derives().get("extensions").unwrap();
    assert_eq!(derives.len(), 1);
    assert_eq!(derives[0].name(), None);
    assert_eq!(derives[0].function_names(), ["helper", "other"]);
}

#[test]
fn template_without_tags_always_compiles_and_renders_as_is() {
    let mut config = build();
    assert!(config.derive("Plain".to_string(), "no tags here").is_some());
    assert_eq!(config.derives()[0].render("Anything"), Some("no tags here".to_string()));
}

#[test]
fn module_derive_nested_module_example() {
    let mut config = build();
    config.module_derive("tooling".to_string(), |b| {
        b.module("nested".to_string()).functions(vec!["run".to_string()]);
    });
    assert_eq!(config.module_derives().len(), 1);
    let d = config.module_derives().get("tooling").unwrap();
    assert_eq!(d.len(), 1);
    assert_eq!(d[0].name(), Some("nested"));
    assert_eq!(d[0].function_names(), ["run"]);
    assert!(d[0].modules().is_empty());
    assert!(config.pragmas().is_empty());
    assert!(config.derives().is_empty());
}

#[test]
fn module_derive_two_level_layout() {
    let mut config = build();
    config.module_derive("ext".to_string(), |b| {
        b.module("a".to_string())
            .module("b".to_string())
            .functions(vec!["f".to_string()]);
        b.module("c".to_string());
    });
    let d = config.module_derives().get("ext").unwrap();
    assert_eq!(d.len(), 2);
    assert_eq!(d[0].name(), Some("a"));
    assert!(d[0].function_names().is_empty());
    assert_eq!(d[0].modules().len(), 1);
    assert_eq!(d[0].modules()[0].name(), Some("b"));
    assert_eq!(d[0].modules()[0].function_names(), ["f"]);
    assert_eq!(d[1].name(), Some("c"));
    assert!(d[1].modules().is_empty());
}

#[test]
fn module_derive_functions_per_extension() {
    let mut config = build();
    config.module_derive("e".to_string(), |b| {
        b.functions(vec!["f".to_string(), "g".to_string()]);
    });
    config.module_derive("h".to_string(), |b| {
        b.module("a".to_string());
        b.module("c".to_string());
        b.functions(vec!["x".to_string()]);
    });
    let e = config.module_derives().get("e").unwrap();
    let h = config.module_derives().get("h").unwrap();
    assert_eq!(e.len(), 1);
    assert_eq!(e[0].name(), None);
    assert_eq!(e[0].function_names(), ["f", "g"]);
    assert_eq!(h.len(), 2);
    assert!(h[0].function_names().is_empty());
    assert_eq!(h[1].name(), Some("c"));
    assert_eq!(h[1].function_names(), ["x"]);
}

#[test]
fn render_safe_sources() {
    assert!(render_safe_source("mod {{struct_ident}}_x { fn f() { self.x } }"));
    assert!(!render_safe_source("{{.}}"));
    assert!(!render_safe_source("{{ a.b }}"));
    assert!(!render_safe_source("{{> partial}}"));
    assert!(!render_safe_source("{{=<% %>=}}"));
    assert!(render_safe_source("plain . text"));
}

#[test]
fn unsafe_template_is_not_rendered_by_the_library() {
    let derive = CustomDerive::new("Iter".to_string(), "{{.}}").unwrap();
    assert_eq!(derive.render("Thing"), None);
    assert_eq!(derive.source(), "{{.}}");
}

#[test]
fn derive_keeps_its_source() {
    let derive = CustomDerive::new("D".to_string(), "mod {{struct_ident}} {}").unwrap();
    assert_eq!(derive.source(), "mod {{struct_ident}} {}");
    assert_eq!(derive.duplicate().source(), "mod {{struct_ident}} {}");
}
