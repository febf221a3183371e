use wield::args::ArgValue;
use wield::builder::{ArgSpecBuilder, CommandSpecBuilder, DescriptorBuilder};
use wield::descriptor::{ArgType, Category, OutputDir, OutputSpec, Requires, ValueKind};
use wield::float::FloatNum;
use wield::invocation::{cli_step, tool_list, usage, written, CliStep};
use wield::outcome::{Stage, ToolOutcome};
use wield::registry::Registry;

fn registry() -> Registry {
    let convert = DescriptorBuilder::new("image.convert", "Convert image", Category::Convert)
        .arg(
            ArgSpecBuilder::new(
                "input",
                "Image",
                ArgType::File {
                    filters: vec![],
                    multiple: false,
                },
            )
            .required(true)
            .build(),
        )
        .arg(
            ArgSpecBuilder::new(
                "format",
                "Format",
                ArgType::Enum {
                    options: vec!["png".into(), "webp".into()],
                },
            )
            .required(true)
            .build(),
        )
        .arg(
            ArgSpecBuilder::new(
                "width",
                "Width",
                ArgType::Int {
                    range: Some([1, 10_000]),
                    step: None,
                },
            )
            .build(),
        )
        .requirement(Requires::Binary("magick".into()))
        .output(OutputSpec::File {
            name: "{input_stem}.{format}".into(),
            dir: OutputDir::SameAsInput,
        })
        .command(CommandSpecBuilder::new("magick").arg("{input}").arg("{output}"))
        .build()
        .unwrap();
    let pick = DescriptorBuilder::new("color.pick", "Pick a colour", Category::Capture)
        .output(OutputSpec::Value(ValueKind::Color))
        .portal("screenshot.pick_color")
        .build()
        .unwrap();
    let mut r = Registry::new();
    r.register(convert).unwrap();
    r.register(pick).unwrap();
    r
}

fn args(items: &[&str]) -> Vec<String> {
    items.iter().map(|s| s.to_string()).collect()
}

fn read_float(s: &str) -> Option<FloatNum> {
    s.parse::<f64>().ok().map(|f| FloatNum {
        bits: f.to_bits(),
        text: f.to_string(),
        debug: format!("{f:?}"),
    })
}

fn exit_of(step: CliStep) -> (String, String, i32) {
    match step {
        CliStep::Exit(r) => (r.stdout, r.stderr, r.code),
        CliStep::Run { descriptor, .. } => panic!("expected an exit, got a run of {:?}", descriptor.id),
    }
}

#[test]
fn bare_invocation_lists_the_builtins() {
    let r = registry();
    let (out, err, code) = exit_of(cli_step(&r, &args(&[]), read_float));
    assert_eq!(code, 0);
    assert!(err.is_empty());
    assert_eq!(
        out,
        "Available tools:\n  image.convert     Convert image\n  color.pick        Pick a colour\n\nRun `wield <tool> --help` for a tool's arguments.\n"
    );
    assert_eq!(out, tool_list(&r));
}

#[test]
fn version_flag() {
    let r = registry();
    for flag in ["--version", "-V"] {
        let (out, err, code) = exit_of(cli_step(&r, &args(&[flag]), read_float));
        assert_eq!((out.as_str(), err.as_str(), code), ("wield 0.1.0\n", "", 0));
    }
}

#[test]
fn help_flag_prints_the_usage() {
    let r = registry();
    let (out, _, code) = exit_of(cli_step(&r, &args(&["-h"]), read_float));
    assert_eq!(code, 0);
    assert!(out.starts_with(
        "wield 0.1.0 \u{2014} portal-native Linux utility hub\n\nUsage:\n  wield <tool> [<file>] [options]\n"
    ));
    assert_eq!(out, usage(&r));
}

#[test]
fn unknown_tool_is_usage_error() {
    let r = registry();
    let (out, err, code) = exit_of(cli_step(&r, &args(&["no.such.tool"]), read_float));
    assert_eq!(code, 2);
    assert!(out.is_empty());
    assert!(err.starts_with("unknown tool: no.such.tool\n\nAvailable tools:\n"));
}

#[test]
fn image_convert_missing_input_is_usage_error() {
    let r = registry();
    let (out, err, code) = exit_of(cli_step(
        &r,
        &args(&["image.convert", "--format", "png"]),
        read_float,
    ));
    assert_ne!(code, 0);
    assert!(out.is_empty());
    assert_eq!(err, "input: a value is required\n");
}

#[test]
fn a_tool_help_request_prints_its_help() {
    let r = registry();
    let (out, _, code) = exit_of(cli_step(
        &r,
        &args(&["image.convert", "a.png", "--help"]),
        read_float,
    ));
    assert_eq!(code, 0);
    assert!(out.starts_with("image.convert \u{2014} Convert image\n"));
    assert!(out.ends_with("\n\n") || out.ends_with(")\n\n"));
}

#[test]
fn a_parse_error_exits_2_with_its_message() {
    let r = registry();
    let (_, err, code) = exit_of(cli_step(
        &r,
        &args(&["image.convert", "a.png", "--width", "wide"]),
        read_float,
    ));
    assert_eq!(code, 2);
    assert_eq!(err, "--width expects a whole number, got \"wide\"\n");
}

#[test]
fn a_well_formed_invocation_runs_the_tool() {
    let r = registry();
    match cli_step(
        &r,
        &args(&["image.convert", "a.png", "--format", "webp", "--width=800"]),
        read_float,
    ) {
        CliStep::Run { descriptor, args } => {
            assert_eq!(descriptor.id.as_str(), "image.convert");
            assert_eq!(args.get("input"), Some(&ArgValue::Path("a.png".into())));
            assert_eq!(args.get("format"), Some(&ArgValue::Str("webp".into())));
            assert_eq!(args.get("width"), Some(&ArgValue::Int(800)));
            assert_eq!(args.len(), 3);
        }
        CliStep::Exit(r) => panic!("expected a run, got {:?}", r),
    }
}

#[test]
fn a_finished_run_is_written_trimmed_with_one_newline() {
    let r = written(ToolOutcome::File {
        path: "/tmp/out.webp  \n".into(),
    });
    assert_eq!(
        (r.stdout.as_str(), r.stderr.as_str(), r.code),
        ("/tmp/out.webp\n", "", 0)
    );
    let r = written(ToolOutcome::Failed {
        stage: Stage::Command,
        detail: "exited with 1".into(),
        hint: None,
    });
    assert_eq!(
        (r.stdout.as_str(), r.stderr.as_str(), r.code),
        ("", "exited with 1\n", 1)
    );
    let r = written(ToolOutcome::Cancelled);
    assert_eq!((r.stdout.as_str(), r.stderr.as_str(), r.code), ("", "", 130));
}
