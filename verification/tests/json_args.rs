use wield::args::ArgValue;
use wield::builder::{ArgSpecBuilder, CommandSpecBuilder, DescriptorBuilder};
use wield::descriptor::{ArgType, Category, Descriptor, OutputDir, OutputSpec, Requires};
use wield::float::FloatNum;
use wield::json_args::{coerce_json_args, JsonMember, JsonValue};

fn member(name: &str, value: JsonValue) -> JsonMember {
    JsonMember {
        name: name.into(),
        value,
    }
}

fn text(s: &str) -> JsonValue {
    JsonValue::Str(s.into())
}

fn batch_tool() -> Descriptor {
    DescriptorBuilder::new("test.batch", "Test batch", Category::Convert)
        .arg(
            ArgSpecBuilder::new(
                "input",
                "Input",
                ArgType::File {
                    filters: vec![],
                    multiple: true,
                },
            )
            .required(true)
            .build(),
        )
        .requirement(Requires::Nothing)
        .output(OutputSpec::File {
            name: "output".to_owned(),
            dir: OutputDir::SameAsInput,
        })
        .command(CommandSpecBuilder::new("true"))
        .build()
        .expect("descriptor should be valid")
}

fn typed_tool() -> Descriptor {
    DescriptorBuilder::new("image.convert", "Convert", Category::Convert)
        .arg(
            ArgSpecBuilder::new(
                "input",
                "Input",
                ArgType::File {
                    filters: vec![],
                    multiple: false,
                },
            )
            .required(true)
            .build(),
        )
        .arg(
            ArgSpecBuilder::new(
                "format",
                "Format",
                ArgType::Enum {
                    options: vec!["png".into()],
                },
            )
            .build(),
        )
        .arg(ArgSpecBuilder::new("width", "Width", ArgType::Int { range: None, step: None }).build())
        .arg(ArgSpecBuilder::new("scale", "Scale", ArgType::Float { range: None }).build())
        .arg(ArgSpecBuilder::new("resize", "Resize", ArgType::Bool).build())
        .output(OutputSpec::File {
            name: "{input_stem}.{format}".to_owned(),
            dir: OutputDir::SameAsInput,
        })
        .command(CommandSpecBuilder::new("magick").arg("{input}").arg("{output}"))
        .build()
        .expect("descriptor should be valid")
}

#[test]
fn coerce_json_args_accepts_an_array_for_a_multi_file_arg() {
    let descriptor = batch_tool();
    let args = JsonValue::Object(vec![member(
        "input",
        JsonValue::Array(vec![text("/a.mp4"), text("/b.mp4")]),
    )]);
    let result = coerce_json_args(&descriptor, &args).expect("array should coerce");
    assert_eq!(
        result.get("input"),
        Some(&ArgValue::Paths(vec!["/a.mp4".into(), "/b.mp4".into()]))
    );
}

#[test]
fn coerce_json_args_rejects_an_array_for_a_single_file_arg() {
    let descriptor = typed_tool();
    let args = JsonValue::Object(vec![
        member("format", text("png")),
        member("input", JsonValue::Array(vec![text("/a.png")])),
    ]);
    assert!(coerce_json_args(&descriptor, &args).is_err());
}

#[test]
fn each_type_takes_its_json_kind() {
    let descriptor = typed_tool();
    let args = JsonValue::Object(vec![
        member("format", text("png")),
        member("input", text("/a.png")),
        member("resize", JsonValue::Bool(true)),
        member(
            "scale",
            JsonValue::Number {
                int: None,
                float: FloatNum {
                    bits: 1.5f64.to_bits(),
                    text: "1.5".into(),
                    debug: "1.5".into(),
                },
            },
        ),
        member(
            "width",
            JsonValue::Number {
                int: Some(640),
                float: FloatNum {
                    bits: 640f64.to_bits(),
                    text: "640".into(),
                    debug: "640.0".into(),
                },
            },
        ),
    ]);
    let map = coerce_json_args(&descriptor, &args).unwrap();
    assert_eq!(map.len(), 5);
    assert_eq!(map.get("input"), Some(&ArgValue::Path("/a.png".into())));
    assert_eq!(map.get("format"), Some(&ArgValue::Str("png".into())));
    assert_eq!(map.get("width"), Some(&ArgValue::Int(640)));
    assert_eq!(map.get("resize"), Some(&ArgValue::Bool(true)));
    assert!(matches!(map.get("scale"), Some(ArgValue::Float(f)) if f.text == "1.5"));
}

#[test]
fn coercion_errors_say_what_the_argument_must_be() {
    let descriptor = typed_tool();
    let single = |name: &str, value: JsonValue| {
        coerce_json_args(&descriptor, &JsonValue::Object(vec![member(name, value)])).unwrap_err()
    };
    assert_eq!(
        coerce_json_args(&descriptor, &text("x")).unwrap_err(),
        "tool arguments must be a JSON object"
    );
    assert_eq!(single("bogus", JsonValue::Null), "unknown argument: bogus");
    assert_eq!(single("input", JsonValue::Null), "input must be a path string");
    assert_eq!(single("format", JsonValue::Bool(true)), "format must be a string");
    assert_eq!(single("resize", text("yes")), "resize must be a boolean");
    assert_eq!(single("scale", text("1")), "scale must be a number");
    assert_eq!(
        single(
            "width",
            JsonValue::Number {
                int: None,
                float: FloatNum {
                    bits: 2.5f64.to_bits(),
                    text: "2.5".into(),
                    debug: "2.5".into()
                }
            }
        ),
        "width must be an integer"
    );
    let batch = batch_tool();
    assert_eq!(
        coerce_json_args(
            &batch,
            &JsonValue::Object(vec![member(
                "input",
                JsonValue::Array(vec![text("/a"), JsonValue::Null])
            )])
        )
        .unwrap_err(),
        "input must be an array of path strings"
    );
}

#[test]
fn the_first_bad_member_is_reported() {
    let descriptor = typed_tool();
    let args = JsonValue::Object(vec![
        member("alpha", JsonValue::Null),
        member("input", JsonValue::Null),
    ]);
    assert_eq!(
        coerce_json_args(&descriptor, &args).unwrap_err(),
        "unknown argument: alpha"
    );
}
