use annotate::expand::{
    boxes_return, detect_path_to_annotate, expand_args, function_item_identifier, module_item_identifier,
    ArgValue, ExpandedValue, PathError, PragmaArg,
};

fn arg(name: &str, value: ArgValue) -> PragmaArg {
    PragmaArg {
        ident: Some(name.to_string()),
        value,
    }
}

fn path_of(args: &Vec<PragmaArg>) -> Result<String, &'static str> {
    match detect_path_to_annotate(args) {
        Ok(p) => Ok(p),
        Err(PathError::NotAnIdent) => Err("not an ident"),
        Err(PathError::NotAPath) => Err("not a path"),
    }
}

#[test]
fn default_path_to_annotate() {
    assert_eq!(path_of(&vec![]), Ok("annotate".to_string()));
    assert_eq!(
        path_of(&vec![arg("tag", ArgValue::Str("\"x\"".to_string()))]),
        Ok("annotate".to_string())
    );
}

#[test]
fn path_to_annotate_argument_is_taken() {
    let args = vec![
        arg("tag", ArgValue::Bool(true)),
        arg("path_to_annotate", ArgValue::Path("crate::annotate".to_string())),
        arg("path_to_annotate", ArgValue::Path("ignored".to_string())),
    ];
    assert_eq!(path_of(&args), Ok("crate::annotate".to_string()));
}

#[test]
fn path_to_annotate_must_be_a_path() {
    let args = vec![arg("path_to_annotate", ArgValue::Str("\"annotate\"".to_string()))];
    assert_eq!(path_of(&args), Err("not a path"));
}

#[test]
fn argument_named_by_a_long_path_stops_the_search() {
    let args = vec![
        PragmaArg {
            ident: None,
            value: ArgValue::Bool(true),
        },
        arg("path_to_annotate", ArgValue::Path("other".to_string())),
    ];
    assert_eq!(path_of(&args), Err("not an ident"));
}

#[test]
fn arguments_become_attributes_in_order() {
    let args = vec![
        arg("tag", ArgValue::Str("\"custom\"".to_string())),
        arg("path_to_annotate", ArgValue::Path("annotate".to_string())),
        arg("active", ArgValue::Bool(true)),
        arg("value", ArgValue::Int("42".to_string())),
        arg("associated_type", ArgValue::Path("String".to_string())),
        arg("ratio", ArgValue::OtherLiteral),
        arg("call", ArgValue::Other),
        PragmaArg {
            ident: None,
            value: ArgValue::Bool(false),
        },
    ];
    let expanded = expand_args(&args);
    assert_eq!(expanded.len(), 7);
    let names: Vec<Option<&str>> = expanded.iter().map(|e| e.name.as_deref()).collect();
    assert_eq!(
        names,
        vec![
            Some("tag"),
            Some("active"),
            Some("value"),
            Some("associated_type"),
            Some("ratio"),
            Some("call"),
            None
        ]
    );
    assert!(matches!(&expanded[0].value, ExpandedValue::Str(s) if s == "\"custom\""));
    assert!(matches!(expanded[1].value, ExpandedValue::Bool(true)));
    assert!(matches!(&expanded[2].value, ExpandedValue::Int(s) if s == "42"));
    assert!(matches!(&expanded[3].value, ExpandedValue::Type(s) if s == "String"));
    assert!(matches!(expanded[4].value, ExpandedValue::UnsupportedLiteral));
    assert!(matches!(expanded[5].value, ExpandedValue::UnsupportedValue));
    assert!(matches!(expanded[6].value, ExpandedValue::Bool(false)));
}

#[test]
fn no_arguments_no_attributes() {
    assert!(expand_args(&vec![]).is_empty());
}

#[test]
fn generated_identifiers_carry_a_fresh_uuid() {
    let a = function_item_identifier("wrapper", "count_items");
    let b = function_item_identifier("wrapper", "count_items");
    let prefix = "annotate_fn_wrapper_count_items_";
    assert!(a.starts_with(prefix));
    assert_eq!(a.len(), prefix.len() + 32);
    assert!(a[prefix.len()..]
        .chars()
        .all(|c| c.is_ascii_hexdigit() && !c.is_ascii_uppercase()));
    assert_ne!(a, b);
    let m = module_item_identifier("attr", "extensions");
    assert!(m.starts_with("annotate_mod_attr_extensions_"));
    assert_eq!(m.len(), "annotate_mod_attr_extensions_".len() + 32);
}

#[test]
fn only_functions_without_parameters_box_their_result() {
    assert!(boxes_return(0));
    assert!(!boxes_return(1));
    assert!(!boxes_return(3));
}
