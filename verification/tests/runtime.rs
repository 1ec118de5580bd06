use std::any::TypeId;

use annotate::__private::{
    attribute, environment, path, proto_environment, proto_function, proto_module, ty,
};
use annotate::runtime::attribute::Attributes;
use annotate::runtime::registry::EnvironmentRegistry;
use annotate::{Environment, Function, Module, Path, ProtoEnvironment, Type, Value};

fn examples_environment() -> &'static Environment {
    let modules = vec![
        proto_module(
            "extensions",
            path(vec!["annotate_examples", "extensions"]),
            vec![1],
            vec![2, 3, 4, 5],
            None,
            vec![attribute("value_tag", Value::Bool(true))],
        ),
        proto_module(
            "module_with_associated_type",
            path(vec![
                "annotate_examples",
                "extensions",
                "module_with_associated_type",
            ]),
            vec![],
            vec![0, 1],
            Some(0),
            vec![attribute(
                "associated_type",
                Value::Type(ty::<String>("alloc::string::String")),
            )],
        ),
    ];
    let functions = vec![
        proto_function(
            "function_for_that_type",
            path(vec![
                "annotate_examples",
                "extensions",
                "module_with_associated_type",
                "function_for_that_type",
            ]),
            Some(1),
            vec![],
            ty::<fn(&str) -> usize>("fn(&str) -> usize"),
        ),
        proto_function(
            "function_for_another_type",
            path(vec![
                "annotate_examples",
                "extensions",
                "module_with_associated_type",
                "function_for_another_type",
            ]),
            Some(1),
            vec![],
            ty::<fn(&std::path::Path) -> usize>("fn(&Path) -> usize"),
        ),
        proto_function(
            "pragma_with_attributes",
            path(vec![
                "annotate_examples",
                "extensions",
                "pragma_with_attributes",
            ]),
            Some(0),
            vec![
                attribute("tag", Value::Str("custom")),
                attribute("active", Value::Bool(true)),
                attribute("value", Value::Int(42)),
            ],
            ty::<fn() -> String>("fn() -> String"),
        ),
        proto_function(
            "pragma_with_associated_type",
            path(vec![
                "annotate_examples",
                "extensions",
                "pragma_with_associated_type",
            ]),
            Some(0),
            vec![
                attribute("tag", Value::Str("typed")),
                attribute(
                    "associated_type",
                    Value::Type(ty::<String>("alloc::string::String")),
                ),
            ],
            ty::<fn()>("fn()"),
        ),
        proto_function(
            "count_items",
            path(vec!["annotate_examples", "extensions", "count_items"]),
            Some(0),
            vec![],
            ty::<fn(Vec<i32>, &str) -> usize>("fn(Vec<i32>, &str) -> usize"),
        ),
        proto_function(
            "get_item",
            path(vec!["annotate_examples", "extensions", "get_item"]),
            Some(0),
            vec![],
            ty::<fn(&[String], usize) -> Option<&String>>("fn(&[String], usize) -> Option<&String>"),
        ),
    ];
    let proto: &'static ProtoEnvironment =
        Box::leak(Box::new(proto_environment(modules, functions)));
    let modules: Vec<Module> = (0..2).map(|i| proto.get_module(i)).collect();
    let functions: Vec<Function> = (0..6).map(|i| proto.get_function(i)).collect();
    Box::leak(Box::new(environment(modules, functions)))
}

#[test]
pub fn test_function_pragma_with_attributes() {
    let function = examples_environment()
        .find_functions_such_that(&|function: &Function| function.name() == "pragma_with_attributes")
        .into_iter()
        .next()
        .unwrap();

    assert_eq!(function.name(), "pragma_with_attributes");
    assert_eq!(
        function.path(),
        "annotate_examples::extensions::pragma_with_attributes"
    );

    let attributes = function.find_attributes_such_that(&|_: &annotate::Attribute| true);
    assert_eq!(attributes.len(), 3);

    let tag = function
        .find_attributes_such_that(&|attribute: &annotate::Attribute| attribute.name() == "tag")
        .into_iter()
        .next()
        .unwrap();
    assert_eq!(tag.name(), "tag");
    assert_eq!(tag.value(), &Value::Str("custom"));

    let active = function
        .find_attributes_such_that(&|attribute: &annotate::Attribute| attribute.name() == "active")
        .into_iter()
        .next()
        .unwrap();
    assert_eq!(active.name(), "active");
    assert_eq!(active.value(), &Value::Bool(true));

    let value = function
        .find_attributes_such_that(&|attribute: &annotate::Attribute| attribute.name() == "value")
        .into_iter()
        .next()
        .unwrap();
    assert_eq!(value.name(), "value");
    assert_eq!(value.value(), &Value::Int(42));
}

#[test]
pub fn test_module_with_associated_type_string() {
    let module = examples_environment()
        .find_modules_such_that(&|module: &Module| {
            module.has_attribute_such_that(&|attribute: &annotate::Attribute| {
                attribute.name() == "associated_type" && attribute.is_type::<String>()
            })
        })
        .into_iter()
        .next()
        .unwrap();

    let associated_types = module.find_attributes_such_that(&|attribute: &annotate::Attribute| {
        attribute.name() == "associated_type" && attribute.is_type::<String>()
    });
    assert_eq!(associated_types.len(), 1);

    assert_eq!(module.find_functions_such_that(&|_: &Function| true).len(), 2);

    let function = module
        .find_functions_such_that(&|function: &Function| function.same_as::<fn(&str) -> usize>())
        .into_iter()
        .next()
        .unwrap();

    assert_eq!(function.name(), "function_for_that_type");
    assert!(function
        .check_cast(TypeId::of::<fn(&str) -> usize>(), "fn(&str) -> usize")
        .is_ok());
}

#[test]
fn check_cast_reports_the_mismatch() {
    let function = examples_environment()
        .find_functions_such_that(&|function: &Function| function.name() == "count_items")
        .into_iter()
        .next()
        .unwrap();
    let wanted = TypeId::of::<fn(&str) -> usize>();
    match function.check_cast(wanted, "fn(&str) -> usize") {
        Ok(()) => panic!("a cast to the wrong type was allowed"),
        Err(mismatch) => {
            assert_eq!(mismatch.description(), "fn(&str) -> usize");
            assert_eq!(mismatch.type_id(), wanted);
            assert_eq!(
                mismatch.expected_type_id(),
                TypeId::of::<fn(Vec<i32>, &str) -> usize>()
            );
        }
    }
    assert!(function.same_as_id(&TypeId::of::<fn(Vec<i32>, &str) -> usize>()));
    assert!(!function.same_as::<fn(&str) -> usize>());
}

#[test]
fn function_module_and_module_children_agree() {
    let env = examples_environment();
    let function = env
        .find_functions_such_that(&|function: &Function| function.name() == "get_item")
        .into_iter()
        .next()
        .unwrap();
    let module = function.module().unwrap();
    assert_eq!(module.name(), "extensions");
    assert_eq!(module.path(), "annotate_examples::extensions");
    let names: Vec<&str> = module.functions().iter().map(|f| f.name()).collect();
    assert_eq!(
        names,
        vec![
            "pragma_with_attributes",
            "pragma_with_associated_type",
            "count_items",
            "get_item"
        ]
    );
    let submodules = module.modules();
    assert_eq!(submodules.len(), 1);
    assert_eq!(submodules[0].name(), "module_with_associated_type");
    assert!(module.has_attribute_such_that(&|attribute: &annotate::Attribute| attribute.name() == "value_tag"));
    assert!(!module.has_attribute_such_that(&|attribute: &annotate::Attribute| attribute.name() == "tag"));
    assert_eq!(
        module
            .find_modules_such_that(&|m: &Module| m.name() == "nothing")
            .len(),
        0
    );
}

#[test]
fn find_functions_keeps_the_order() {
    let env = examples_environment();
    let tagged: Vec<&str> = env
        .find_functions_such_that(&|function: &Function| {
            function.has_attribute_such_that(&|attribute: &annotate::Attribute| attribute.name() == "tag")
        })
        .iter()
        .map(|f| f.name())
        .collect();
    assert_eq!(tagged, vec!["pragma_with_attributes", "pragma_with_associated_type"]);
    assert_eq!(env.find_functions_such_that(&|_: &Function| false).len(), 0);
    assert_eq!(env.find_modules_such_that(&|_: &Module| true).len(), 2);
}

#[test]
fn top_level_function_has_no_module() {
    let proto: &'static ProtoEnvironment = Box::leak(Box::new(proto_environment(
        vec![],
        vec![proto_function(
            "main",
            path(vec!["app", "main"]),
            None,
            vec![],
            ty::<fn()>("fn()"),
        )],
    )));
    let function = proto.get_function(0);
    assert!(function.module().is_none());
    assert_eq!(function.attributes().len(), 0);
}

#[test]
fn path_accessors() {
    let p = path(vec!["a", "b", "c"]);
    assert_eq!(p.len(), 3);
    assert!(!p.is_empty());
    assert_eq!(p.root(), "a");
    assert_eq!(p.last(), Some("c"));
    assert_eq!(p.segments(), ["a", "b", "c"]);
    let parent = p.all_but_last();
    assert_eq!(parent.segments(), ["a", "b"]);
    assert_eq!(p.to_text(), "a::b::c");
    assert!(p == *"a::b::c");
    assert!(p != *"a::b");
    assert!(p != *"a::b::c::d");
    assert!(p != *"a:b::c");
    assert!(p == p.duplicate());
    assert!(!p.equals(&parent));
}

#[test]
fn empty_path() {
    let p = Path::new(vec![]);
    assert_eq!(p.len(), 0);
    assert!(p.is_empty());
    assert_eq!(p.last(), None);
    assert!(p.all_but_last().is_empty());
    assert_eq!(p.to_text(), "");
    assert!(p != *"");
    assert!(Path::new(vec![""]) == *"");
}

#[test]
fn displayed_path_compares_equal_to_itself() {
    let p = path(vec!["crate_name", "module", "item"]);
    let text = p.to_text();
    assert!(p == *text.as_str());
}

#[test]
fn attribute_predicates() {
    let s = attribute("kind", Value::Str("sum"));
    assert!(s.is_str("sum"));
    assert!(!s.is_str("product"));
    assert!(!s.is_type::<String>());
    let t = attribute("associated_type", Value::Type(Type::of::<String>("String")));
    assert!(t.is_type::<String>());
    assert!(!t.is_type::<u8>());
    assert!(t.is_type_id(&TypeId::of::<String>()));
    assert!(!t.is_str("String"));
    assert_eq!(t.duplicate().name(), "associated_type");
}

#[test]
fn value_equality() {
    assert_eq!(Value::Int(3), Value::Int(3));
    assert_ne!(Value::Int(3), Value::Int(4));
    assert_ne!(Value::Int(1), Value::Bool(true));
    assert_eq!(Value::Str("x"), Value::Str("x"));
    assert_eq!(
        Value::Type(Type::of::<u8>("u8")),
        Value::Type(Type::of::<u8>("another description"))
    );
    assert_ne!(
        Value::Type(Type::of::<u8>("u8")),
        Value::Type(Type::of::<u16>("u8"))
    );
    assert!(Value::Bool(false).equals(&Value::Bool(false).duplicate()));
}

#[test]
fn type_accessors() {
    let t = Type::of::<String>("alloc::string::String");
    assert_eq!(t.description(), "alloc::string::String");
    assert_eq!(t.type_id(), TypeId::of::<String>());
    assert!(t.same_as::<String>());
    assert!(t.same_as_id(&TypeId::of::<String>()));
    assert!(t.equals(&t.duplicate()));
    let u = Type::new("u8", TypeId::of::<u8>());
    assert!(!t.equals(&u));
}

#[test]
fn attributes_named_finds_the_first() {
    let attributes = Attributes::new(vec![
        attribute("tag", Value::Str("first")),
        attribute("other", Value::Int(1)),
        attribute("tag", Value::Str("second")),
    ]);
    assert_eq!(attributes.len(), 3);
    assert!(!attributes.is_empty());
    assert_eq!(attributes.named("tag").unwrap().value(), &Value::Str("first"));
    assert!(attributes.named("missing").is_none());
    assert_eq!(attributes.get(1).name(), "other");
    assert_eq!(attributes.as_slice().len(), 3);
    assert!(Attributes::new(vec![]).is_empty());
}

#[test]
fn registry_queries_every_environment_in_registration_order() {
    let first = examples_environment();
    let proto: &'static ProtoEnvironment = Box::leak(Box::new(proto_environment(
        vec![],
        vec![proto_function(
            "main",
            path(vec!["app", "main"]),
            None,
            vec![attribute("tag", Value::Str("entry"))],
            ty::<fn()>("fn()"),
        )],
    )));
    let second: &'static Environment =
        Box::leak(Box::new(environment(vec![], vec![proto.get_function(0)])));

    let mut registry = EnvironmentRegistry::new();
    assert_eq!(registry.len(), 0);
    registry.register("examples", first);
    registry.register("app", second);
    assert_eq!(registry.len(), 2);

    let tagged: Vec<&str> = registry
        .find_functions_such_that(&|function: &Function| {
            function.has_attribute_such_that(&|attribute: &annotate::Attribute| attribute.name() == "tag")
        })
        .iter()
        .map(|f| f.name())
        .collect();
    assert_eq!(
        tagged,
        vec!["pragma_with_attributes", "pragma_with_associated_type", "main"]
    );
    assert_eq!(registry.find_modules_such_that(&|_: &Module| true).len(), 2);

    registry.register("examples", second);
    assert_eq!(registry.len(), 2);
    assert_eq!(registry.find_functions_such_that(&|_: &Function| true).len(), 2);
    assert_eq!(registry.find_modules_such_that(&|_: &Module| true).len(), 0);
}
