use wield::time::Duration;
use wield::builder::{ArgSpecBuilder, CommandSpecBuilder, DescriptorBuilder};
use wield::descriptor::{
    ArgType, ArgValueLiteral, Capability, Category, OutputDir, OutputSpec, ProgressSpec, Requires,
    ValueKind,
};

fn passthrough() -> DescriptorBuilder {
    DescriptorBuilder::new("data.pass", "Passthrough", Category::Convert)
        .keywords(&["copy"])
        .arg(
            ArgSpecBuilder::new(
                "input",
                "Input",
                ArgType::File {
                    filters: vec![],
                    multiple: false,
                },
            )
            .required(true)
            .build(),
        )
        .arg(
            ArgSpecBuilder::new(
                "format",
                "Format",
                ArgType::Enum {
                    options: vec!["data".into()],
                },
            )
            .default(ArgValueLiteral::Str("data".into()))
            .build(),
        )
        .requirement(Requires::Binary("passthru".into()))
        .output(OutputSpec::File {
            name: "{input_stem}.{format}".into(),
            dir: OutputDir::SameAsInput,
        })
}

#[test]
fn a_complete_builder_yields_a_valid_descriptor() {
    let descriptor = passthrough()
        .command(
            CommandSpecBuilder::new("passthru")
                .arg("{input}")
                .arg("{output}")
                .timeout(Duration::from_secs(16)),
        )
        .build()
        .expect("descriptor should be valid");
    assert_eq!(descriptor.id.as_str(), "data.pass");
    assert_eq!(descriptor.keywords, vec!["copy".to_string()]);
    assert_eq!(descriptor.args.len(), 2);
    match descriptor.capability {
        Capability::Command(c) => {
            assert_eq!(c.binary, "passthru");
            assert_eq!(c.timeout, Duration::from_secs(16));
            assert_eq!(c.progress, ProgressSpec::Untracked);
            assert_eq!(c.args.len(), 2);
        }
        other => panic!("expected a command, got {other:?}"),
    }
}

#[test]
fn a_builder_without_output_or_capability_says_what_is_missing() {
    let errors = DescriptorBuilder::new("a.b", "A", Category::Desktop)
        .build()
        .unwrap_err();
    let places: Vec<_> = errors.iter().map(|e| e.at.as_str()).collect();
    assert_eq!(places, vec!["output", "capability"]);
    let errors = DescriptorBuilder::new("a.b", "A", Category::Desktop)
        .output(OutputSpec::Value(ValueKind::Text))
        .build()
        .unwrap_err();
    assert_eq!(errors.len(), 1);
    assert_eq!(
        errors[0].message,
        "capability was not set (call .command()/.portal()/.native())"
    );
}

#[test]
fn a_builder_reports_validation_problems() {
    let errors = passthrough()
        .command(CommandSpecBuilder::new("passthru").arg("{bogus}"))
        .build()
        .unwrap_err();
    assert!(errors.iter().any(|e| e.message.contains("bogus")));
}

#[test]
fn gated_segments_carry_their_condition() {
    let command = CommandSpecBuilder::new("magick")
        .arg("{input}")
        .arg_when("-resize", "resize", vec![ArgValueLiteral::Bool(true)])
        .arg_when_set("{width}x", "width")
        .build();
    assert_eq!(command.timeout, Duration::from_secs(300));
    let gate = command.args[1].when.as_ref().unwrap();
    assert_eq!(gate.arg, "resize");
    assert_eq!(gate.in_values, vec![ArgValueLiteral::Bool(true)]);
    let set = command.args[2].when.as_ref().unwrap();
    assert_eq!(set.arg, "width");
    assert!(set.in_values.is_empty());
}

#[test]
fn portal_and_native_capabilities() {
    let picked = DescriptorBuilder::new("color.pick", "Pick", Category::Capture)
        .output(OutputSpec::Value(ValueKind::Color))
        .portal("screenshot.pick_color")
        .build()
        .unwrap();
    assert!(matches!(picked.capability, Capability::Portal { ref adapter } if adapter == "screenshot.pick_color"));
    let ocr = DescriptorBuilder::new("screen.ocr", "OCR", Category::Capture)
        .output(OutputSpec::Value(ValueKind::Text))
        .native("screen.ocr")
        .build()
        .unwrap();
    assert!(matches!(ocr.capability, Capability::Native { ref id } if id.0 == "screen.ocr"));
}
