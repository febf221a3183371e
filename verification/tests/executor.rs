use wield::time::Duration;
use wield::args::{ArgMap, ArgValue};
use wield::availability::AvailabilityView;
use wield::descriptor::{
    ArgSpec, ArgType, ArgValueLiteral, Capability, Category, CommandSpec, Descriptor, NativeId,
    OutputDir, OutputSpec, ProgressSpec, Requires, SuccessSpec, ToolId, ValueKind,
};
use wield::executor::{
    batch_step, BatchStep,
    batch_input, batch_message, outcome_summary, plan_command, plan_split, preflight,
    shown_name_of, single_input, sort_paths, split_line, split_report, split_target,
    summarize_batch, unavailable_binary, unrouted_outcome, Executor,
};
use wield::outcome::{Stage, ToolOutcome};
use wield::command::BinaryResolver;

fn convert_descriptor(binary: &str) -> Descriptor {
    Descriptor {
        id: ToolId::parse("image.convert").unwrap(),
        title: "Convert".into(),
        keywords: vec![],
        category: Category::Convert,
        args: vec![
            ArgSpec {
                name: "input".into(),
                label: "in".into(),
                help: None,
                arg_type: ArgType::File {
                    filters: vec![],
                    multiple: false,
                },
                default: None,
                required: true,
                when: None,
            },
            ArgSpec {
                name: "format".into(),
                label: "fmt".into(),
                help: None,
                arg_type: ArgType::Enum {
                    options: vec!["out".into()],
                },
                default: Some(ArgValueLiteral::Str("out".into())),
                required: true,
                when: None,
            },
        ],
        requires: Requires::Binary(binary.into()),
        output: OutputSpec::File {
            name: "{input_stem}.{format}".into(),
            dir: OutputDir::SameAsInput,
        },
        capability: Capability::Command(CommandSpec {
            binary: binary.into(),
            args: vec!["{input}".into(), "{output}".into()],
            progress: ProgressSpec::Untracked,
            timeout: Duration::from_secs(5),
            success: SuccessSpec::ExitZero,
            combine_inputs: false,
        }),
    }
}

fn input_args(path: &str) -> ArgMap {
    let mut args = ArgMap::new();
    args.insert("input".into(), ArgValue::Path(path.into()));
    args
}

#[test]
fn preflight_fills_defaults_when_everything_is_there() {
    let mut view = AvailabilityView::default();
    view.binaries.insert("conv".into());
    let effective = preflight(&convert_descriptor("conv"), &input_args("/x/photo.raw"), &view).unwrap();
    assert_eq!(effective.get("format"), Some(&ArgValue::Str("out".into())));
}

#[test]
fn missing_binary_is_unavailable_before_running() {
    let view = AvailabilityView::default();
    let outcome = preflight(&convert_descriptor("nope-missing"), &input_args("/tmp/x.raw"), &view)
        .unwrap_err();
    assert_eq!(
        outcome,
        ToolOutcome::Unavailable {
            reason: "nope-missing is not installed".into(),
            fix: Some("install nope-missing or add it to your PATH".into()),
        }
    );
    assert_eq!(unavailable_binary("nope-missing"), outcome);
}

#[test]
fn invalid_arguments_fail_validation_one_per_line() {
    let mut view = AvailabilityView::default();
    view.binaries.insert("conv".into());
    let mut args = ArgMap::new();
    args.insert("format".into(), ArgValue::Str("gif".into()));
    args.insert("zzz".into(), ArgValue::Int(1));
    let outcome = preflight(&convert_descriptor("conv"), &args, &view).unwrap_err();
    assert_eq!(
        outcome,
        ToolOutcome::Failed {
            stage: Stage::Validation,
            detail: "zzz: unknown argument\ninput: a value is required\nformat: must be one of: out"
                .into(),
            hint: None,
        }
    );
}

#[test]
fn portal_requirement_checks_the_version() {
    let mut descriptor = convert_descriptor("sh");
    descriptor.requires = Requires::Portal {
        iface: "Screenshot".into(),
        min_ver: 2,
    };
    descriptor.output = OutputSpec::Value(ValueKind::Color);
    descriptor.capability = Capability::Portal {
        adapter: "screenshot.pick_color".into(),
    };
    let mut view = AvailabilityView::default();
    view.portals.insert("Screenshot".into(), 1);
    let outcome = preflight(&descriptor, &input_args("/tmp/x"), &view).unwrap_err();
    assert!(matches!(outcome, ToolOutcome::Unavailable { .. }));
    view.portals.insert("Screenshot".into(), 2);
    assert!(preflight(&descriptor, &input_args("/tmp/x"), &view).is_ok());
}

#[test]
fn portal_capability_without_a_runner_fails_at_the_portal_stage() {
    let outcome = unrouted_outcome(
        &Capability::Portal {
            adapter: "screenshot.pick_color".into(),
        },
        false,
    )
    .unwrap();
    assert!(matches!(
        outcome,
        ToolOutcome::Failed {
            stage: Stage::Portal,
            ..
        }
    ));
    assert!(unrouted_outcome(
        &Capability::Portal {
            adapter: "screenshot.pick_color".into()
        },
        true
    )
    .is_none());
    assert!(matches!(
        unrouted_outcome(
            &Capability::Native {
                id: NativeId("screen.ocr".into())
            },
            true
        ),
        Some(ToolOutcome::Failed {
            stage: Stage::Native,
            ..
        })
    ));
}

#[test]
fn a_command_plan_writes_to_a_temporary_file_beside_the_output() {
    let descriptor = convert_descriptor("conv");
    let mut effective = input_args("/x/photo.raw");
    effective.insert("format".into(), ArgValue::Str("out".into()));
    if let Capability::Command(command) = &descriptor.capability {
        let plan = plan_command(&descriptor.output, command, &effective, "t0k").unwrap();
        let output = plan.output.unwrap();
        assert_eq!(output.final_path, "/x/photo.out");
        assert_eq!(output.temp, "/x/.wield-tmp-t0k-photo.out");
        assert_eq!(
            plan.argv,
            vec!["/x/photo.raw".to_string(), "/x/.wield-tmp-t0k-photo.out".to_string()]
        );
        assert_eq!(plan.cwd.as_deref(), Some("/x"));
    } else {
        panic!("expected a command descriptor");
    }
}

#[test]
fn batch_input_finds_the_list_of_paths() {
    let mut effective = ArgMap::new();
    effective.insert("format".into(), ArgValue::Str("out".into()));
    effective.insert(
        "input".into(),
        ArgValue::Paths(vec!["/d/a.raw".into(), "/d/b.raw".into()]),
    );
    let (name, paths) = batch_input(&effective).unwrap();
    assert_eq!(name, "input");
    assert_eq!(paths, vec!["/d/a.raw".to_string(), "/d/b.raw".to_string()]);
    let single = single_input(&effective, "input", "/d/a.raw");
    assert_eq!(single.get("input"), Some(&ArgValue::Path("/d/a.raw".into())));
    assert!(batch_input(&single).is_none());
    assert_eq!(batch_message(0, 2, "a.raw"), "Converting 1 of 2: a.raw");
    assert_eq!(shown_name_of("/d/a.raw"), "a.raw");
}

#[test]
fn batch_summary_counts_conversions() {
    let names = vec!["a.raw".to_string(), "b.raw".to_string()];
    let outcomes = vec![
        ToolOutcome::File {
            path: "/d/a.out".into(),
        },
        ToolOutcome::Failed {
            stage: Stage::Command,
            detail: "exited with 1".into(),
            hint: Some("input file may be corrupt".into()),
        },
    ];
    match summarize_batch(&names, &outcomes) {
        ToolOutcome::Report { title, lines } => {
            assert_eq!(title, "1 of 2 converted");
            assert_eq!(
                lines,
                vec![
                    "\u{2713} a.raw \u{2192} /d/a.out".to_string(),
                    "\u{2717} b.raw: exited with 1 \u{2014} input file may be corrupt".to_string(),
                ]
            );
        }
        other => panic!("expected Report, got {other:?}"),
    }
    let cancelled = vec![
        ToolOutcome::File {
            path: "/d/a.out".into(),
        },
        ToolOutcome::Cancelled,
    ];
    assert_eq!(summarize_batch(&names, &cancelled), ToolOutcome::Cancelled);
    assert_eq!(
        outcome_summary(&ToolOutcome::Unavailable {
            reason: "gone".into(),
            fix: None
        }),
        "gone"
    );
}

#[test]
fn other_outcomes_are_summarized_as_their_debug_text() {
    let value = ToolOutcome::Value {
        kind: wield::descriptor::ValueKind::Color,
        data: "say \"hi\"\n".into(),
    };
    assert_eq!(outcome_summary(&value), format!("{value:?}"));
    let report = ToolOutcome::Report {
        title: "2 of 2 converted".into(),
        lines: vec!["a".into(), "b\tc".into()],
    };
    assert_eq!(outcome_summary(&report), format!("{report:?}"));
    let empty = ToolOutcome::Report {
        title: "none".into(),
        lines: vec![],
    };
    assert_eq!(outcome_summary(&empty), format!("{empty:?}"));
    let file = ToolOutcome::File {
        path: "/tmp/a b.png".into(),
    };
    assert_eq!(outcome_summary(&file), "File { path: \"/tmp/a b.png\" }");
    assert_eq!(outcome_summary(&ToolOutcome::Cancelled), "Cancelled");
}

#[test]
fn split_paths_and_report() {
    let effective = input_args("/docs/book.pdf");
    let paths = plan_split("{input_stem}", &OutputDir::SameAsInput, &effective, "tok").unwrap();
    assert_eq!(paths.destination, "/docs");
    assert_eq!(paths.prefix, "book");
    assert_eq!(paths.scratch, "/docs/.wield-tmp-tok-split");
    assert_eq!(split_target("/docs", "book", 0), "/docs/book-1.pdf");
    assert_eq!(
        split_line(0, "/docs/book-1.pdf", &Ok(())),
        "\u{2713} page 1 \u{2192} /docs/book-1.pdf"
    );
    assert_eq!(
        split_line(1, "/docs/book-2.pdf", &Err("denied".into())),
        "\u{2717} page 2: denied"
    );
    match split_report(vec!["a".into(), "b".into()]) {
        ToolOutcome::Report { title, lines } => {
            assert_eq!(title, "Split into 2 files");
            assert_eq!(lines.len(), 2);
        }
        other => panic!("expected Report, got {other:?}"),
    }
    assert!(matches!(
        split_report(vec![]),
        ToolOutcome::Failed {
            stage: Stage::Output,
            ..
        }
    ));
    assert_eq!(
        sort_paths(&vec!["/s/p2.pdf".into(), "/s/p10.pdf".into(), "/s/p1.pdf".into()]),
        vec![
            "/s/p1.pdf".to_string(),
            "/s/p10.pdf".to_string(),
            "/s/p2.pdf".to_string()
        ]
    );
    let missing = ArgMap::new();
    assert!(matches!(
        plan_split("{input_stem}", &OutputDir::SameAsInput, &missing, "tok"),
        Err(ToolOutcome::Failed {
            stage: Stage::Output,
            ..
        })
    ));
}

#[test]
fn executor_builder_keeps_its_parts() {
    let mut view = AvailabilityView::default();
    view.binaries.insert("magick".into());
    let executor: Executor<u8> = Executor::new(BinaryResolver::with_dirs(vec![]))
        .with_portal(7)
        .with_availability(view);
    assert_eq!(executor.portal, Some(7));
    assert!(executor.availability.binaries.contains("magick"));
}

#[test]
fn a_batch_runs_each_file_then_reports_unless_cancelled() {
    let mut names: Vec<String> = vec![];
    let mut outcomes: Vec<ToolOutcome> = vec![];
    assert_eq!(batch_step(2, &names, &outcomes, false), BatchStep::Next(0));
    assert_eq!(
        batch_step(2, &names, &outcomes, true),
        BatchStep::Done(ToolOutcome::Cancelled)
    );
    names.push("a.png".into());
    outcomes.push(ToolOutcome::File {
        path: "/out/a.jpg".into(),
    });
    assert_eq!(batch_step(2, &names, &outcomes, false), BatchStep::Next(1));
    names.push("b.png".into());
    outcomes.push(ToolOutcome::File {
        path: "/out/b.jpg".into(),
    });
    // A cancellation after the last file no longer stops the report.
    match batch_step(2, &names, &outcomes, true) {
        BatchStep::Done(ToolOutcome::Report { title, lines }) => {
            assert_eq!(title, "2 of 2 converted");
            assert_eq!(lines.len(), 2);
        }
        other => panic!("expected a report, got {other:?}"),
    }
    outcomes[1] = ToolOutcome::Cancelled;
    assert_eq!(
        batch_step(2, &names, &outcomes, false),
        BatchStep::Done(ToolOutcome::Cancelled)
    );
}
