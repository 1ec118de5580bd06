use annotate::build::config::build;
use annotate::build::derive::{duplicate_all, CustomModuleDerive, ModuleDeriveSpec};
use annotate::build::table::ModuleDeriveTable;

fn names(d: &CustomModuleDerive) -> Vec<&str> {
    d.function_names().iter().map(|s| s.as_str()).collect()
}

#[test]
fn derive_tree_grows_by_path() {
    let mut root = CustomModuleDerive::new("root".to_string());
    root.add_function("a".to_string());
    let first = root.add_module("first".to_string());
    let second = root.add_module("second".to_string());
    assert_eq!((first, second), (0, 1));
    root.derive_at_mut(&[1]).add_function("b".to_string());
    let nested = root.derive_at_mut(&[1]).add_module("nested".to_string());
    root.derive_at_mut(&[1, nested]).add_function("c".to_string());
    root.derive_at_mut(&[]).add_function("d".to_string());

    assert_eq!(root.name(), Some("root"));
    assert_eq!(names(&root), vec!["a", "d"]);
    assert_eq!(root.modules().len(), 2);
    assert!(root.modules()[0].function_names().is_empty());
    assert_eq!(names(&root.modules()[1]), vec!["b"]);
    assert_eq!(names(&root.modules()[1].modules()[0]), vec!["c"]);
    assert_eq!(root.modules()[1].modules()[0].name(), Some("nested"));

    let copy = root.duplicate();
    assert_eq!(names(&copy), vec!["a", "d"]);
    assert_eq!(names(&copy.modules()[1].modules()[0]), vec!["c"]);
    assert_eq!(CustomModuleDerive::unnamed().name(), None);
}

#[test]
fn derive_from_spec_keeps_the_shape() {
    let d = CustomModuleDerive::from_spec(&ModuleDeriveSpec {
        name: Some("logging".to_string()),
        functions: vec!["info".to_string()],
        modules: vec![ModuleDeriveSpec {
            name: None,
            functions: vec!["x".to_string(), "y".to_string()],
            modules: vec![],
        }],
    });
    assert_eq!(d.name(), Some("logging"));
    assert_eq!(names(&d), vec!["info"]);
    assert_eq!(d.modules()[0].name(), None);
    assert_eq!(names(&d.modules()[0]), vec!["x", "y"]);
    let all = duplicate_all(&vec![d]);
    assert_eq!(all.len(), 1);
    assert_eq!(all[0].name(), Some("logging"));
}

#[test]
fn builder_adds_modules_at_the_top_and_below() {
    let mut config = build();
    config.module_derive("ext".to_string(), |builder| {
        builder.module("existing".to_string());
    });
    config.module_derive("ext".to_string(), |builder| {
        builder
            .module("top".to_string())
            .functions(vec!["one".to_string()])
            .module("below".to_string())
            .functions(vec!["two".to_string(), "three".to_string()]);
        builder.functions(vec!["loose".to_string()]);
    });
    let derives = config.module_derives().get("ext").unwrap();
    assert_eq!(derives.len(), 2);
    assert_eq!(derives[1].name(), Some("top"));
    assert_eq!(names(&derives[1]), vec!["one", "loose"]);
    assert_eq!(names(&derives[1].modules()[0]), vec!["two", "three"]);
    assert!(derives[0].function_names().is_empty());
}

#[test]
fn builder_on_nothing_creates_an_unnamed_derive() {
    let mut config = build();
    config.module_derive("ext".to_string(), |builder| {
        builder.functions(vec!["f".to_string()]);
    });
    let derives = config.module_derives().get("ext").unwrap();
    assert_eq!(derives.len(), 1);
    assert_eq!(derives[0].name(), None);
    assert_eq!(names(&derives[0]), vec!["f"]);
}

#[test]
fn table_insert_get_and_extend() {
    let mut table = ModuleDeriveTable::new();
    assert_eq!(table.len(), 0);
    assert!(table.get("plugin").is_none());
    table.insert("plugin".to_string(), vec![CustomModuleDerive::new("a".to_string())]);
    table.insert("other".to_string(), vec![]);
    table.insert("plugin".to_string(), vec![CustomModuleDerive::new("b".to_string())]);
    assert_eq!(table.len(), 2);
    assert_eq!(table.get("plugin").unwrap()[0].name(), Some("b"));
    table.extend_entry("plugin".to_string(), vec![CustomModuleDerive::new("c".to_string())]);
    table.extend_entry("fresh".to_string(), vec![CustomModuleDerive::new("d".to_string())]);
    let plugin: Vec<Option<&str>> = table.get("plugin").unwrap().iter().map(|d| d.name()).collect();
    assert_eq!(plugin, vec![Some("b"), Some("c")]);
    assert_eq!(table.get("fresh").unwrap().len(), 1);
    let keys: Vec<&str> = table.entries().iter().map(|(k, _)| k.as_str()).collect();
    assert_eq!(keys, vec!["plugin", "other", "fresh"]);
}

#[test]
fn table_merge_appends_per_key() {
    let mut a = ModuleDeriveTable::new();
    a.insert("x".to_string(), vec![CustomModuleDerive::new("a1".to_string())]);
    let mut b = ModuleDeriveTable::new();
    b.insert("x".to_string(), vec![CustomModuleDerive::new("b1".to_string())]);
    b.insert("y".to_string(), vec![CustomModuleDerive::new("b2".to_string())]);
    a.merge(&b);
    let x: Vec<Option<&str>> = a.get("x").unwrap().iter().map(|d| d.name()).collect();
    assert_eq!(x, vec![Some("a1"), Some("b1")]);
    assert_eq!(a.get("y").unwrap()[0].name(), Some("b2"));
    assert_eq!(a.len(), 2);
    assert_eq!(b.len(), 2);
}
