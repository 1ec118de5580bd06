use annotate::build::targets::{
    default_target_name, lib_target, manifest_targets, product_targets, ManifestTargets, ProductInfo,
    TargetFiles,
};
use annotate::expand::environment_source_path;
use annotate::text::{
    const_bytes_equal, const_str_equal, decimal_string, digit, join_strings,
    replace_chars, replace_path_separators,
};

#[test]
fn decimal_strings() {
    assert_eq!(decimal_string(0), "0");
    assert_eq!(decimal_string(7), "7");
    assert_eq!(decimal_string(1234567890), "1234567890");
    assert_eq!(decimal_string(u64::MAX), u64::MAX.to_string());
    assert_eq!(digit(9), '9');
}

#[test]
fn joining_and_separators() {
    let segs = vec!["a".to_string(), "b".to_string(), "c".to_string()];
    assert_eq!(join_strings(&segs, "::"), "a::b::c");
    assert_eq!(join_strings(&vec![], "::"), "");
    assert_eq!(join_strings(&vec!["only".to_string()], "::"), "only");
    assert_eq!(replace_path_separators("a::b::c"), "a_b_c");
    assert_eq!(replace_path_separators("a:b"), "a:b");
    assert_eq!(replace_path_separators(":::"), "_:");
}

#[test]
fn replacing_characters() {
    assert_eq!(replace_chars("my-crate-name", '-', '_'), "my_crate_name");
    assert_eq!(replace_chars("plain", '-', '_'), "plain");
    assert_eq!(replace_chars("", '-', '_'), "");
}

#[test]
fn string_equality() {
    assert!(const_str_equal("abc", "abc"));
    assert!(!const_str_equal("abc", "abd"));
    assert!(!const_str_equal("abc", "ab"));
    assert!(const_bytes_equal(&[1, 2], &[1, 2]));
    assert!(!const_bytes_equal(&[1, 2], &[2, 1]));
}

#[test]
fn target_names_from_paths() {
    assert_eq!(
        default_target_name("src/bin/my-tool.rs"),
        Some("my_tool".to_string())
    );
    assert_eq!(
        default_target_name("examples/demo.rs"),
        Some("demo".to_string())
    );
}

#[test]
fn plain_file_name_is_its_own_target_name() {
    assert_eq!(default_target_name("my-tool"), Some("my_tool".to_string()));
}

#[test]
fn target_names_from_nested_paths() {
    assert_eq!(
        default_target_name("src/bin/my-cool-tool.rs"),
        Some("my_cool_tool".to_string())
    );
    assert_eq!(default_target_name("benches/speed.rs"), Some("speed".to_string()));
    assert_eq!(default_target_name("a/.hidden"), Some(".hidden".to_string()));
    assert_eq!(default_target_name("a/b.tar.gz"), Some("b.tar".to_string()));
    assert_eq!(default_target_name("a/b/."), Some("b".to_string()));
}

fn product(name: Option<&str>, path: Option<&str>) -> ProductInfo {
    ProductInfo {
        name: name.map(|n| n.to_string()),
        path: path.map(|p| p.to_string()),
    }
}

#[test]
fn library_target_defaults() {
    assert_eq!(
        lib_target("my-crate", &None),
        ("my_crate".to_string(), "src/lib.rs".to_string())
    );
    assert_eq!(
        lib_target("my-crate", &Some(product(Some("core"), None))),
        ("core".to_string(), "src/lib.rs".to_string())
    );
    assert_eq!(
        lib_target("my-crate", &Some(product(None, Some("lib/main.rs")))),
        ("my_crate".to_string(), "lib/main.rs".to_string())
    );
}

#[test]
fn exported_products_in_order() {
    let products = vec![
        product(None, Some("src/bin/my-tool.rs")),
        product(Some("named"), Some("src/bin/other.rs")),
        product(None, None),
        product(None, Some("src/bin/missing.rs")),
        product(Some("x"), Some("examples/x.rs")),
    ];
    let exists = vec![true, true, true, false, true];
    let targets = product_targets(&products, &exists).unwrap();
    assert_eq!(
        targets,
        vec![
            ("my_tool".to_string(), "src/bin/my-tool.rs".to_string()),
            ("named".to_string(), "src/bin/other.rs".to_string()),
            ("x".to_string(), "examples/x.rs".to_string()),
        ]
    );
    assert_eq!(product_targets(&vec![], &vec![]), Some(vec![]));
}

#[test]
fn generated_environment_paths() {
    assert_eq!(
        environment_source_path("src/lib.rs", "/work/my-crate"),
        Some("my-crate/src/lib.rs".to_string())
    );
    assert_eq!(
        environment_source_path("my-crate/src/lib.rs", "/work/my-crate"),
        Some("my-crate/src/lib.rs".to_string())
    );
    assert_eq!(environment_source_path("src/lib.rs", "/"), None);
    let absolute = environment_source_path("/w/my-crate/src/lib.rs", "/w/my-crate").unwrap();
    assert!(absolute == "my-crate/src/lib.rs" || absolute == "/w/my-crate/src/lib.rs");
    if std::path::MAIN_SEPARATOR == '/' {
        assert_eq!(absolute, "my-crate/src/lib.rs");
    }
}

#[test]
fn manifest_targets_in_export_order() {
    let targets = ManifestTargets {
        lib: None,
        bin: vec![product(None, Some("src/bin/my-tool.rs"))],
        example: vec![product(Some("demo"), Some("examples/demo.rs"))],
        test: vec![product(None, Some("tests/missing.rs"))],
        bench: vec![product(None, Some("benches/speed.rs"))],
    };
    let files = TargetFiles {
        lib: true,
        bin: vec![true],
        example: vec![true],
        test: vec![false],
        bench: vec![true],
    };
    let exported = manifest_targets("my-crate", &targets, &files).unwrap();
    assert_eq!(
        exported,
        vec![
            ("my_crate".to_string(), "src/lib.rs".to_string()),
            ("my_tool".to_string(), "src/bin/my-tool.rs".to_string()),
            ("demo".to_string(), "examples/demo.rs".to_string()),
            ("speed".to_string(), "benches/speed.rs".to_string()),
        ]
    );
    let no_lib = TargetFiles {
        lib: false,
        bin: vec![false],
        example: vec![false],
        test: vec![false],
        bench: vec![false],
    };
    assert_eq!(manifest_targets("my-crate", &targets, &no_lib), Some(vec![]));
}
