use wield::args::{validate_args, visible_args, ArgMap, ArgValue};
use wield::descriptor::{ArgSpec, ArgType, ArgValueLiteral, When};

fn specs() -> Vec<ArgSpec> {
    vec![
        ArgSpec {
            name: "resize".into(),
            label: "Resize".into(),
            help: None,
            arg_type: ArgType::Bool,
            default: Some(ArgValueLiteral::Bool(false)),
            required: false,
            when: None,
        },
        ArgSpec {
            name: "width".into(),
            label: "Width".into(),
            help: None,
            arg_type: ArgType::Int {
                range: Some([1, 9999]),
                step: None,
            },
            default: None,
            required: false,
            when: Some(When {
                arg: "resize".into(),
                in_values: vec![ArgValueLiteral::Bool(true)],
            }),
        },
    ]
}

#[test]
fn width_hidden_when_resize_false() {
    let mut values = ArgMap::new();
    values.insert("resize".into(), ArgValue::Bool(false));
    let specs = specs();
    let visible = visible_args(&specs, &values);
    assert_eq!(
        visible
            .iter()
            .map(|spec| spec.name.as_str())
            .collect::<Vec<_>>(),
        vec!["resize"]
    );
}

#[test]
fn width_visible_when_resize_true() {
    let mut values = ArgMap::new();
    values.insert("resize".into(), ArgValue::Bool(true));
    let specs = specs();
    let visible = visible_args(&specs, &values);
    assert_eq!(visible.len(), 2);
}

#[test]
fn defaults_fill_missing_values_and_hidden_args_are_dropped() {
    let specs = specs();
    let mut values = ArgMap::new();
    values.insert("width".into(), ArgValue::Int(50));
    let effective = validate_args(&specs, &values).unwrap();
    assert_eq!(effective.get("resize"), Some(&ArgValue::Bool(false)));
    assert_eq!(effective.get("width"), None);
    assert_eq!(effective.len(), 1);
}

#[test]
fn visible_values_are_checked_against_their_range() {
    let specs = specs();
    let mut values = ArgMap::new();
    values.insert("resize".into(), ArgValue::Bool(true));
    values.insert("width".into(), ArgValue::Int(0));
    let errors = validate_args(&specs, &values).unwrap_err();
    assert_eq!(errors.len(), 1);
    assert_eq!(errors[0].field, "width");
    assert_eq!(errors[0].message, "must be between 1 and 9999");
    assert_eq!(errors[0].to_message(), "width: must be between 1 and 9999");
}

#[test]
fn unknown_names_wrong_kinds_and_missing_required_values_are_reported() {
    let mut specs = specs();
    specs.push(ArgSpec {
        name: "input".into(),
        label: "Input".into(),
        help: None,
        arg_type: ArgType::File {
            filters: vec![],
            multiple: false,
        },
        default: None,
        required: true,
        when: None,
    });
    let mut values = ArgMap::new();
    values.insert("bogus".into(), ArgValue::Int(1));
    values.insert("resize".into(), ArgValue::Str("yes".into()));
    let errors = validate_args(&specs, &values).unwrap_err();
    let pairs: Vec<(String, String)> = errors
        .iter()
        .map(|e| (e.field.clone(), e.message.clone()))
        .collect();
    assert_eq!(
        pairs,
        vec![
            ("bogus".to_string(), "unknown argument".to_string()),
            ("resize".to_string(), "expected true or false".to_string()),
            ("input".to_string(), "a value is required".to_string()),
        ]
    );
}

#[test]
fn enum_values_must_be_listed() {
    let specs = vec![ArgSpec {
        name: "format".into(),
        label: "Format".into(),
        help: None,
        arg_type: ArgType::Enum {
            options: vec!["png".into(), "webp".into()],
        },
        default: None,
        required: true,
        when: None,
    }];
    let mut values = ArgMap::new();
    values.insert("format".into(), ArgValue::Str("gif".into()));
    let errors = validate_args(&specs, &values).unwrap_err();
    assert_eq!(errors[0].message, "must be one of: png, webp");
    let mut good = ArgMap::new();
    good.insert("format".into(), ArgValue::Str("webp".into()));
    assert!(validate_args(&specs, &good).is_ok());
}

#[test]
fn arg_map_insert_replaces_and_keeps_names_sorted() {
    let mut m = ArgMap::new();
    m.insert("b".into(), ArgValue::Int(1));
    m.insert("a".into(), ArgValue::Int(2));
    m.insert("b".into(), ArgValue::Int(3));
    assert_eq!(m.keys(), vec!["a".to_string(), "b".to_string()]);
    assert_eq!(m.get("b"), Some(&ArgValue::Int(3)));
    assert!(m.contains_key("a"));
    assert!(!m.contains_key("c"));
}
