use annotate::build::config::CustomDerive;
use annotate::build::derive::{CustomModuleDerive, ModuleDeriveSpec};
use annotate::build::table::ModuleDeriveTable;
use annotate::build::visitor::{AttrInfo, Visitor};

fn pragma_at(line: usize) -> AttrInfo {
    AttrInfo {
        name: Some("pragma".to_string()),
        line,
        list_paths: None,
    }
}

fn plain(name: &str, line: usize) -> AttrInfo {
    AttrInfo {
        name: Some(name.to_string()),
        line,
        list_paths: None,
    }
}

fn segments(path: &Vec<String>) -> Vec<&str> {
    path.iter().map(|s| s.as_str()).collect()
}

fn scanner() -> Visitor {
    let mut v = Visitor::new("my_crate".to_string(), "src/lib.rs".to_string());
    v.enter_mod("my_crate".to_string());
    v
}

#[test]
fn scan_records_functions_inside_annotated_modules() {
    let mut v = scanner();
    v.visit_item_fn("top".to_string(), &vec![pragma_at(3)]);
    let entered = v.enter_item_mod("ext".to_string(), &vec![plain("doc", 5), pragma_at(6)], true);
    assert!(entered);
    v.visit_item_fn("inner".to_string(), &vec![pragma_at(8)]);
    v.visit_item_fn("plain".to_string(), &vec![]);
    let sub = v.enter_item_mod("sub".to_string(), &vec![], true);
    assert!(!sub);
    v.visit_item_fn("deep".to_string(), &vec![pragma_at(12)]);
    v.leave_item_mod(sub);
    v.leave_item_mod(entered);
    v.visit_item_fn("after".to_string(), &vec![pragma_at(16)]);
    let env = v.into_environment();

    let functions = env.functions();
    let names: Vec<&str> = functions.iter().map(|f| f.name()).collect();
    assert_eq!(names, vec!["top", "inner", "deep", "after"]);
    assert_eq!(segments(functions[0].path()), vec!["my_crate", "top"]);
    assert_eq!(segments(functions[1].path()), vec!["my_crate", "ext", "inner"]);
    assert_eq!(
        segments(functions[2].path()),
        vec!["my_crate", "ext", "sub", "deep"]
    );
    assert_eq!(functions[0].module_id(), None);
    assert_eq!(functions[1].module_id(), Some(0));
    assert_eq!(functions[2].module_id(), Some(0));
    assert_eq!(functions[3].module_id(), None);
    assert_eq!(functions[1].line(), 8);
    assert_eq!(functions[1].id(), 1);

    let modules = env.modules();
    assert_eq!(modules.len(), 1);
    assert_eq!(modules[0].name(), "ext");
    assert_eq!(segments(modules[0].path()), vec!["my_crate", "ext"]);
    assert_eq!(modules[0].line(), 6);
    assert_eq!(modules[0].parent_id(), None);
    assert_eq!(*modules[0].function_ids(), vec![1, 2]);
    assert!(modules[0].module_ids().is_empty());
}

#[test]
fn nested_annotated_modules_link_to_their_parent() {
    let mut v = scanner();
    let outer = v.enter_item_mod("outer".to_string(), &vec![pragma_at(1)], true);
    let inner = v.enter_item_mod("inner".to_string(), &vec![pragma_at(2)], true);
    v.visit_item_fn("f".to_string(), &vec![pragma_at(3)]);
    v.leave_item_mod(inner);
    v.visit_item_fn("g".to_string(), &vec![pragma_at(5)]);
    v.leave_item_mod(outer);
    let env = v.into_environment();
    let modules = env.modules();
    assert_eq!(modules.len(), 2);
    assert_eq!(modules[1].parent_id(), Some(0));
    assert_eq!(*modules[0].module_ids(), vec![1]);
    assert_eq!(*modules[1].function_ids(), vec![0]);
    assert_eq!(*modules[0].function_ids(), vec![1]);
    assert_eq!(env.functions()[0].module_id(), Some(1));
    assert_eq!(env.functions()[1].module_id(), Some(0));
}

#[test]
fn module_without_content_is_not_recorded() {
    let mut v = scanner();
    let entered = v.enter_item_mod("other_file".to_string(), &vec![pragma_at(1)], false);
    assert!(!entered);
    v.leave_item_mod(entered);
    assert_eq!(v.into_environment().modules().len(), 0);
}

#[test]
fn registered_pragmas_count_as_annotations() {
    let v = scanner().with_pragmas(vec!["command".to_string()]);
    assert!(v.is_annotation(&plain("command", 1)));
    assert!(v.is_annotation(&plain("pragma", 1)));
    assert!(!v.is_annotation(&plain("test", 1)));
    assert!(!v.is_annotation(&AttrInfo {
        name: None,
        line: 1,
        list_paths: None
    }));
    assert_eq!(v.get_annotation_name(&plain("command", 1)), Some("command".to_string()));
    assert_eq!(v.get_annotation_name(&plain("inline", 1)), None);
    assert_eq!(
        v.find_annotation(&vec![plain("inline", 1), plain("command", 2), pragma_at(3)]),
        Some(1)
    );
    assert_eq!(v.find_annotation(&vec![plain("inline", 1)]), None);
}

#[test]
fn module_derives_add_functions_to_annotated_modules() {
    let mut table = ModuleDeriveTable::new();
    table.insert(
        "plugin".to_string(),
        vec![CustomModuleDerive::from_spec(&ModuleDeriveSpec {
            name: Some("logging".to_string()),
            functions: vec!["info".to_string(), "warn".to_string()],
            modules: vec![ModuleDeriveSpec {
                name: Some("http".to_string()),
                functions: vec!["started".to_string()],
                modules: vec![],
            }],
        })],
    );
    let mut v = scanner()
        .with_pragmas(vec!["plugin".to_string()])
        .with_module_derives(table);
    let entered = v.enter_item_mod("server".to_string(), &vec![plain("plugin", 7)], true);
    assert!(entered);
    v.leave_item_mod(entered);
    let env = v.into_environment();
    let functions = env.functions();
    let paths: Vec<Vec<&str>> = functions.iter().map(|f| segments(f.path())).collect();
    assert_eq!(
        paths,
        vec![
            vec!["my_crate", "server", "logging", "info"],
            vec!["my_crate", "server", "logging", "warn"],
            vec!["my_crate", "server", "logging", "http", "started"],
        ]
    );
    assert!(functions.iter().all(|f| f.line() == 7 && f.module_id() == Some(0)));
    assert_eq!(*env.modules()[0].function_ids(), vec![0, 1, 2]);
}

#[test]
fn expansion_overrides_the_line() {
    let mut v = scanner();
    let previous = v.begin_expansion(42);
    assert_eq!(previous, None);
    v.visit_item_fn("generated".to_string(), &vec![pragma_at(1)]);
    v.end_expansion(previous);
    v.visit_item_fn("written".to_string(), &vec![pragma_at(9)]);
    let env = v.into_environment();
    assert_eq!(env.functions()[0].line(), 42);
    assert_eq!(env.functions()[1].line(), 9);
}

#[test]
fn custom_derives_are_found_by_name() {
    let v = scanner().with_derives(vec![
        CustomDerive::new("Describe".to_string(), "mod {{struct_ident}} {}").unwrap(),
        CustomDerive::new("Other".to_string(), "").unwrap(),
    ]);
    let attr = AttrInfo {
        name: Some("derive".to_string()),
        line: 1,
        list_paths: Some(vec!["Debug".to_string(), "Describe".to_string()]),
    };
    let found = v.get_custom_derives(&attr);
    assert_eq!(found.len(), 1);
    assert_eq!(found[0].name(), "Describe");
    assert_eq!(found[0].source(), "mod {{struct_ident}} {}");
    assert_eq!(found[0].render("Point"), Some("mod point {}".to_string()));
    let not_derive = AttrInfo {
        name: Some("cfg".to_string()),
        line: 1,
        list_paths: Some(vec!["Describe".to_string()]),
    };
    assert!(v.get_custom_derives(&not_derive).is_empty());
}

#[test]
fn files_and_modules_are_tracked() {
    let mut v = Visitor::new("root".to_string(), "src/lib.rs".to_string());
    assert_eq!(v.root_path(), "src/lib.rs");
    assert_eq!(v.current_file(), "src/lib.rs");
    v.set_current_file("src/other.rs".to_string());
    assert_eq!(v.current_file(), "src/other.rs");
    assert_eq!(v.root_path(), "src/lib.rs");
    v.pop_mod();
    v.enter_mod("a".to_string());
    v.visit_item_fn("f".to_string(), &vec![pragma_at(1)]);
    v.pop_mod();
    v.visit_item_fn("g".to_string(), &vec![pragma_at(2)]);
    let env = v.into_environment();
    assert_eq!(segments(env.functions()[0].path()), vec!["a", "f"]);
    assert_eq!(segments(env.functions()[1].path()), vec!["g"]);
}

#[test]
fn link_names_follow_the_export_scheme() {
    let mut v = scanner();
    let entered = v.enter_item_mod("ext".to_string(), &vec![pragma_at(4)], true);
    v.visit_item_fn("run".to_string(), &vec![pragma_at(10)]);
    v.leave_item_mod(entered);
    let source = v.source_path();
    let env = v.into_environment();
    let f = &env.functions()[0];
    assert_eq!(
        f.link_name(),
        format!("annotate$my_crate::ext::run${}:10", source)
    );
    assert_eq!(
        f.attrib_link_name(),
        format!("annotate$attr$my_crate::ext::run${}:10", source)
    );
    let m = &env.modules()[0];
    assert_eq!(
        m.generate_attributes_function_link_name(),
        format!("annotate$attr$my_crate::ext${}:4", source)
    );
    let name = f.generated_function_name();
    assert!(name.starts_with("annotate_fn_my_crate_ext_run_"));
    let uuid = &name["annotate_fn_my_crate_ext_run_".len()..];
    assert_eq!(uuid.len(), 32);
    assert!(uuid.chars().all(|c| c.is_ascii_hexdigit() && !c.is_ascii_uppercase()));
    assert!(f
        .generate_attributes_function_identifier()
        .starts_with("annotate_fn_attrib_my_crate_ext_run_"));
    assert!(m
        .generate_attributes_function_identifier()
        .starts_with("annotate_mod_attrib_my_crate_ext_"));
    assert_eq!(source, format!("my_crate{}src/lib.rs", std::path::MAIN_SEPARATOR));
}

#[test]
fn linker_anchors_list_every_generated_symbol() {
    let mut v = scanner();
    let entered = v.enter_item_mod("ext".to_string(), &vec![pragma_at(4)], true);
    v.visit_item_fn("run".to_string(), &vec![pragma_at(10)]);
    v.visit_item_fn("stop".to_string(), &vec![pragma_at(12)]);
    v.leave_item_mod(entered);
    let env = v.into_environment();
    let pointers = env.function_pointer_identifiers();
    let function_attributes = env.function_attribute_identifiers();
    let module_attributes = env.module_attribute_identifiers();
    assert_eq!(pointers.len(), 2);
    assert_eq!(function_attributes.len(), 2);
    assert_eq!(module_attributes.len(), 1);
    for (i, f) in env.functions().iter().enumerate() {
        assert_eq!(pointers[i], f.generated_function_name());
        assert_eq!(function_attributes[i], f.generate_attributes_function_identifier());
    }
    assert!(pointers[1].starts_with("annotate_fn_my_crate_ext_stop_"));
    assert_eq!(
        module_attributes[0],
        env.modules()[0].generate_attributes_function_identifier()
    );
}

#[test]
fn leaving_a_module_returns_to_where_the_scan_stood() {
    let mut v = scanner();
    let entered = v.enter_item_mod("ext".to_string(), &vec![pragma_at(4)], true);
    assert!(entered);
    v.visit_item_fn("inside".to_string(), &vec![pragma_at(5)]);
    v.leave_item_mod(entered);
    v.visit_item_fn("after".to_string(), &vec![pragma_at(9)]);
    let skipped = v.enter_item_mod("plain".to_string(), &vec![], true);
    assert!(!skipped);
    v.leave_item_mod(skipped);
    v.visit_item_fn("last".to_string(), &vec![pragma_at(12)]);
    let env = v.into_environment();
    assert_eq!(segments(env.functions()[0].path()), vec!["my_crate", "ext", "inside"]);
    assert_eq!(env.functions()[0].module_id(), Some(0));
    assert_eq!(segments(env.functions()[1].path()), vec!["my_crate", "after"]);
    assert_eq!(env.functions()[1].module_id(), None);
    assert_eq!(segments(env.functions()[2].path()), vec!["my_crate", "last"]);
    assert_eq!(env.functions()[2].module_id(), None);
}
