use wield::time::Duration;
use wield::args::ArgValue;
use wield::cli::{help_text, parse_args, parse_i64_exec, render, with_fix, CliSurface, UsageError};
use wield::descriptor::{
    ArgSpec, ArgType, ArgValueLiteral, Capability, Category, CommandArg, CommandSpec, Descriptor,
    OutputDir, OutputSpec, ProgressSpec, Requires, SuccessSpec, ToolId, ValueKind,
};
use wield::float::FloatNum;
use wield::outcome::{Stage, ToolOutcome};

fn arg(name: &str, arg_type: ArgType, required: bool) -> ArgSpec {
    ArgSpec {
        name: name.into(),
        label: name.to_uppercase(),
        help: None,
        arg_type,
        default: None,
        required,
        when: None,
    }
}

/// An image converter shaped like the built-in one: a required input
/// file, a required format choice and two optional integers.
fn image_convert() -> Descriptor {
    let mut format = arg(
        "format",
        ArgType::Enum {
            options: vec!["png".into(), "webp".into(), "jpg".into()],
        },
        true,
    );
    format.default = Some(ArgValueLiteral::Str("webp".into()));
    format.help = Some("Target format".into());
    Descriptor {
        id: ToolId::parse("image.convert").unwrap(),
        title: "Convert image".into(),
        keywords: vec!["image".into()],
        category: Category::Convert,
        args: vec![
            arg(
                "input",
                ArgType::File {
                    filters: vec![],
                    multiple: false,
                },
                true,
            ),
            format,
            arg(
                "width",
                ArgType::Int {
                    range: Some([1, 10_000]),
                    step: Some(1),
                },
                false,
            ),
            arg(
                "quality",
                ArgType::Int {
                    range: Some([1, 100]),
                    step: None,
                },
                false,
            ),
        ],
        requires: Requires::Binary("magick".into()),
        output: OutputSpec::File {
            name: "{input_stem}.{format}".into(),
            dir: OutputDir::SameAsInput,
        },
        capability: Capability::Command(CommandSpec {
            binary: "magick".into(),
            args: vec![
                CommandArg::from_template("{input}"),
                CommandArg::from_template("{output}"),
            ],
            progress: ProgressSpec::Untracked,
            timeout: Duration::from_secs(300),
            success: SuccessSpec::ExitZero,
            combine_inputs: false,
        }),
    }
}

fn color_pick() -> Descriptor {
    Descriptor {
        id: ToolId::parse("color.pick").unwrap(),
        title: "Pick a colour".into(),
        keywords: vec!["color".into()],
        category: Category::Capture,
        args: vec![],
        requires: Requires::Portal {
            iface: "Screenshot".into(),
            min_ver: 2,
        },
        output: OutputSpec::Value(ValueKind::Color),
        capability: Capability::Portal {
            adapter: "screenshot.pick_color".into(),
        },
    }
}

fn tokens(items: &[&str]) -> Vec<String> {
    items.iter().map(|s| s.to_string()).collect()
}

fn platform_float(s: &str) -> Option<FloatNum> {
    s.parse::<f64>().ok().map(|f| FloatNum {
        bits: f.to_bits(),
        text: f.to_string(),
        debug: format!("{f:?}"),
    })
}

#[test]
fn image_convert_has_input_positional_and_three_flags() {
    let descriptor = image_convert();
    let surface = CliSurface::from_descriptor(&descriptor);
    assert_eq!(surface.positional.unwrap().name, "input");
    let names: Vec<_> = surface.flags.iter().map(|f| f.spec.name.as_str()).collect();
    assert_eq!(names, vec!["format", "width", "quality"]);
    assert!(surface.flags.iter().all(|f| f.takes_value));
}

#[test]
fn color_pick_has_no_positional_and_no_flags() {
    let descriptor = color_pick();
    let surface = CliSurface::from_descriptor(&descriptor);
    assert!(surface.positional.is_none());
    assert!(surface.flags.is_empty());
}

#[test]
fn help_text_names_the_positional_and_each_flag() {
    let text = help_text(&image_convert());
    assert!(text.contains("image.convert"));
    assert!(text.contains("--format"));
    assert!(text.contains("--width"));
    assert!(text.contains("required") && text.contains("optional"));
}

#[test]
fn help_text_lays_out_usage_and_flag_notes() {
    let text = help_text(&image_convert());
    assert!(text.starts_with("image.convert \u{2014} Convert image\n\n"));
    assert!(text.contains("Usage: wield image.convert <INPUT> [options]\n"));
    assert!(text.contains("\nArguments:\n  <INPUT>  INPUT\n"));
    assert!(text.contains(
        "  --format <choice>  (required, default Str(\"webp\"), one of: png, webp, jpg)\n      Target format\n"
    ));
    assert!(text.contains("  --width <number>  (optional)\n"));
    let bare = help_text(&color_pick());
    assert_eq!(
        bare,
        "color.pick \u{2014} Pick a colour\n\nUsage: wield color.pick [options]\n"
    );
}

#[test]
fn parses_positional_and_flags() {
    let descriptor = image_convert();
    let surface = CliSurface::from_descriptor(&descriptor);
    let map = parse_args(
        &surface,
        &tokens(&["a.png", "--format", "webp", "--width", "800"]),
        platform_float,
    )
    .unwrap();
    assert_eq!(map.get("input"), Some(&ArgValue::Path("a.png".into())));
    assert_eq!(map.get("format"), Some(&ArgValue::Str("webp".into())));
    assert_eq!(map.get("width"), Some(&ArgValue::Int(800)));
}

#[test]
fn accepts_equals_form() {
    let descriptor = image_convert();
    let surface = CliSurface::from_descriptor(&descriptor);
    let map = parse_args(&surface, &tokens(&["a.png", "--format=png"]), platform_float).unwrap();
    assert_eq!(map.get("format"), Some(&ArgValue::Str("png".into())));
}

#[test]
fn rejects_unknown_flag_and_bad_int() {
    let descriptor = image_convert();
    let surface = CliSurface::from_descriptor(&descriptor);
    assert!(parse_args(&surface, &tokens(&["a.png", "--bogus", "x"]), platform_float).is_err());
    assert!(parse_args(&surface, &tokens(&["a.png", "--width", "wide"]), platform_float).is_err());
}

#[test]
fn rejects_second_positional() {
    let descriptor = image_convert();
    let surface = CliSurface::from_descriptor(&descriptor);
    assert!(parse_args(&surface, &tokens(&["a.png", "b.png"]), platform_float).is_err());
}

#[test]
fn parse_errors_name_the_problem() {
    let descriptor = image_convert();
    let surface = CliSurface::from_descriptor(&descriptor);
    let UsageError(unknown) =
        parse_args(&surface, &tokens(&["a.png", "--bogus", "x"]), platform_float).unwrap_err();
    assert_eq!(unknown, "unknown option --bogus");
    let UsageError(missing) =
        parse_args(&surface, &tokens(&["a.png", "--width"]), platform_float).unwrap_err();
    assert_eq!(missing, "--width expects a value");
    let UsageError(bad) =
        parse_args(&surface, &tokens(&["a.png", "--width", "wide"]), platform_float).unwrap_err();
    assert_eq!(bad, "--width expects a whole number, got \"wide\"");
}

#[test]
fn a_later_flag_overrides_an_earlier_one() {
    let descriptor = image_convert();
    let surface = CliSurface::from_descriptor(&descriptor);
    let map = parse_args(
        &surface,
        &tokens(&["--width", "1", "a.png", "--width=2"]),
        platform_float,
    )
    .unwrap();
    assert_eq!(map.get("width"), Some(&ArgValue::Int(2)));
    assert_eq!(map.len(), 2);
}

#[test]
fn parse_i64_reads_signed_decimal_text() {
    assert_eq!(parse_i64_exec("800"), Some(800));
    assert_eq!(parse_i64_exec("-42"), Some(-42));
    assert_eq!(parse_i64_exec("+7"), Some(7));
    assert_eq!(parse_i64_exec("9223372036854775807"), Some(i64::MAX));
    assert_eq!(parse_i64_exec("-9223372036854775808"), Some(i64::MIN));
    assert_eq!(parse_i64_exec("9223372036854775808"), None);
    assert_eq!(parse_i64_exec(""), None);
    assert_eq!(parse_i64_exec("-"), None);
    assert_eq!(parse_i64_exec("1x"), None);
}

#[test]
fn value_and_file_go_to_stdout_with_code_0() {
    assert_eq!(
        render(ToolOutcome::Value {
            kind: ValueKind::Color,
            data: "#fff".into()
        })
        .code,
        0
    );
    let rendered = render(ToolOutcome::File {
        path: "/tmp/out.webp".into(),
    });
    assert_eq!(rendered.stdout.trim(), "/tmp/out.webp");
    assert_eq!(rendered.code, 0);
}

#[test]
fn failed_and_unavailable_go_to_stderr_with_code_1() {
    let rendered = render(ToolOutcome::Failed {
        stage: Stage::Command,
        detail: "exited with 1".into(),
        hint: Some("input may be corrupt".into()),
    });
    assert!(
        rendered.stderr.contains("exited with 1") && rendered.stderr.contains("input may be corrupt")
    );
    assert_eq!(rendered.code, 1);
    assert_eq!(
        render(ToolOutcome::Unavailable {
            reason: "no magick".into(),
            fix: None
        })
        .code,
        1
    );
}

#[test]
fn cancelled_is_silent_code_130() {
    let rendered = render(ToolOutcome::Cancelled);
    assert!(rendered.stdout.is_empty() && rendered.stderr.is_empty());
    assert_eq!(rendered.code, 130);
}

#[test]
fn a_report_prints_its_title_then_each_line() {
    let rendered = render(ToolOutcome::Report {
        title: "2 of 2 converted".into(),
        lines: vec!["a: ok".into(), "b: ok".into()],
    });
    assert_eq!(rendered.stdout, "2 of 2 converted\na: ok\nb: ok");
    assert!(rendered.stderr.is_empty());
    assert_eq!(rendered.code, 0);
}

#[test]
fn with_fix_appends_the_fix_on_its_own_line() {
    assert_eq!(with_fix("no magick", None), "no magick");
    assert_eq!(
        with_fix("no magick", Some("install it")),
        "no magick\n  \u{2192} install it"
    );
}
