use wield::time::Duration;
use wield::descriptor::{
    ArgSpec, ArgType, ArgValueLiteral, Capability, Category, CommandSpec, Descriptor, OutputDir,
    OutputSpec, ProgressSpec, Requires, SuccessSpec, ToolId, When,
};
use wield::validate::validate_descriptor;

fn base_command_descriptor() -> Descriptor {
    Descriptor {
        id: ToolId::parse("x.y").unwrap(),
        title: "t".into(),
        keywords: vec![],
        category: Category::Convert,
        args: vec![ArgSpec {
            name: "input".into(),
            label: "in".into(),
            help: None,
            arg_type: ArgType::File {
                filters: vec![],
                multiple: false,
            },
            default: None,
            required: true,
            when: None,
        }],
        requires: Requires::Binary("tool".into()),
        output: OutputSpec::File {
            name: "{input_stem}.out".into(),
            dir: OutputDir::SameAsInput,
        },
        capability: Capability::Command(CommandSpec {
            binary: "tool".into(),
            args: vec!["{input}".into(), "{output}".into()],
            progress: ProgressSpec::Untracked,
            timeout: Duration::from_secs(60),
            success: SuccessSpec::ExitZero,
            combine_inputs: false,
        }),
    }
}

#[test]
fn rejects_two_multi_file_args() {
    let mut descriptor = base_command_descriptor();
    descriptor.args[0].arg_type = ArgType::File {
        filters: vec![],
        multiple: true,
    };
    descriptor.args.push(ArgSpec {
        name: "second".into(),
        label: "second".into(),
        help: None,
        arg_type: ArgType::File {
            filters: vec![],
            multiple: true,
        },
        default: None,
        required: true,
        when: None,
    });
    let errors = validate_descriptor(&descriptor).unwrap_err();
    assert!(errors
        .iter()
        .any(|error| error.message.contains("multiple: true")));
}

#[test]
fn accepts_a_well_formed_descriptor() {
    assert!(validate_descriptor(&base_command_descriptor()).is_ok());
}

#[test]
fn accepts_a_directory_output_descriptor() {
    let mut descriptor = base_command_descriptor();
    descriptor.output = OutputSpec::Directory {
        name: "{input_stem}".into(),
        dir: OutputDir::SameAsInput,
    };
    if let Capability::Command(command) = &mut descriptor.capability {
        command.args = vec!["{input}".into(), "{output_dir}".into()];
    }
    assert!(validate_descriptor(&descriptor).is_ok());
}

#[test]
fn rejects_duplicate_arg_names() {
    let mut descriptor = base_command_descriptor();
    descriptor.args.push(descriptor.args[0].clone());
    let errors = validate_descriptor(&descriptor).unwrap_err();
    assert!(errors
        .iter()
        .any(|error| error.at.starts_with("args[1]") && error.message.contains("duplicate")));
}

#[test]
fn rejects_when_referencing_unknown_arg() {
    let mut descriptor = base_command_descriptor();
    descriptor.args.push(ArgSpec {
        name: "width".into(),
        label: "w".into(),
        help: None,
        arg_type: ArgType::Int {
            range: None,
            step: None,
        },
        default: None,
        required: false,
        when: Some(When {
            arg: "resize".into(),
            in_values: vec![ArgValueLiteral::Bool(true)],
        }),
    });
    let errors = validate_descriptor(&descriptor).unwrap_err();
    assert!(errors
        .iter()
        .any(|error| error.at.contains("when.arg") && error.message.contains("resize")));
}

#[test]
fn rejects_unknown_template_placeholder() {
    let mut descriptor = base_command_descriptor();
    if let Capability::Command(ref mut command) = descriptor.capability {
        command.args.push("{bogus}".into());
    }
    let errors = validate_descriptor(&descriptor).unwrap_err();
    assert!(errors.iter().any(|error| error.message.contains("bogus")));
}

#[test]
fn rejects_enum_default_not_in_options() {
    let mut descriptor = base_command_descriptor();
    descriptor.args.push(ArgSpec {
        name: "format".into(),
        label: "f".into(),
        help: None,
        arg_type: ArgType::Enum {
            options: vec!["png".into()],
        },
        default: Some(ArgValueLiteral::Str("webp".into())),
        required: true,
        when: None,
    });
    let errors = validate_descriptor(&descriptor).unwrap_err();
    assert!(errors
        .iter()
        .any(|error| error.at.contains("default") && error.message.contains("webp")));
}

#[test]
fn rejects_output_placeholder_in_output_name() {
    let mut descriptor = base_command_descriptor();
    descriptor.output = OutputSpec::File {
        name: "{output}.x".into(),
        dir: OutputDir::SameAsInput,
    };
    let errors = validate_descriptor(&descriptor).unwrap_err();
    assert!(errors
        .iter()
        .any(|error| error.at.starts_with("output") && error.message.contains("output")));
}

#[test]
fn accepts_when_with_empty_in_values() {
    let mut d = base_command_descriptor();
    d.args.push(ArgSpec {
        name: "width".into(),
        label: "w".into(),
        help: None,
        arg_type: ArgType::Int {
            range: None,
            step: None,
        },
        default: None,
        required: false,
        when: None,
    });
    d.args.push(ArgSpec {
        name: "keep_ratio".into(),
        label: "k".into(),
        help: None,
        arg_type: ArgType::Bool,
        default: None,
        required: false,
        when: Some(When {
            arg: "width".into(),
            in_values: vec![],
        }),
    });
    assert!(validate_descriptor(&d).is_ok());
}

#[test]
fn validation_messages_name_their_location() {
    let mut descriptor = base_command_descriptor();
    descriptor.args.push(ArgSpec {
        name: "level".into(),
        label: "l".into(),
        help: None,
        arg_type: ArgType::Int {
            range: Some([5, 1]),
            step: Some(0),
        },
        default: Some(ArgValueLiteral::Str("high \"x\"".into())),
        required: false,
        when: None,
    });
    descriptor.output = OutputSpec::Value(wield::descriptor::ValueKind::Text);
    let errors = validate_descriptor(&descriptor).unwrap_err();
    let texts: Vec<String> = errors.iter().map(|e| e.to_message()).collect();
    assert_eq!(
        texts,
        vec![
            "args[1].arg_type.range: range minimum exceeds maximum".to_string(),
            "args[1].arg_type.step: step must be greater than zero".to_string(),
            "args[1].default: default Str(\"high \\\"x\\\"\") is incompatible with argument type"
                .to_string(),
            "output: Command capability requires File or Directory output in P2".to_string(),
        ]
    );
}

#[test]
fn tool_id_rejects_non_namespaced() {
    assert!(ToolId::parse("convert").is_err());
    assert!(ToolId::parse("Image.Convert").is_err());
    assert!(ToolId::parse("image.convert").is_ok());
    assert!(ToolId::parse("pdf.tools.split").is_ok());
}

#[test]
fn tool_id_parse_error_names_the_value() {
    assert_eq!(
        ToolId::parse("nope").unwrap_err(),
        "invalid namespaced tool id: nope"
    );
    assert_eq!(ToolId::parse("a.b2").unwrap().as_str(), "a.b2");
}
