use wield::time::Duration;
use wield::command::{retained_tail, BinaryResolver, CommandResult, FfmpegProgress, OutputPlan};
use wield::descriptor::{CommandSpec, ProgressSpec, SuccessSpec};
use wield::executor::{command_outcome, failure_outcome};
use wield::outcome::{hint_for_stderr, Stage, ToolOutcome};

#[test]
fn version_is_non_empty() {
    assert!(!wield::version().is_empty());
}

#[test]
fn maps_known_stderr_to_hint() {
    assert!(hint_for_stderr("x: Invalid data found when processing input")
        .unwrap()
        .contains("corrupt"));
    assert!(
        hint_for_stderr("convert: no decode delegate for this image format")
            .unwrap()
            .contains("codec")
    );
    assert_eq!(hint_for_stderr("some unrecognised error"), None);
}

#[test]
fn hints_follow_the_rule_order() {
    assert_eq!(
        hint_for_stderr("Permission denied; No such file or directory").as_deref(),
        Some("open the file through the picker so Wield is granted access to it")
    );
    assert_eq!(
        hint_for_stderr("No such file or directory").as_deref(),
        Some("an input path no longer exists")
    );
}

#[test]
fn ffmpeg_progress_reads_percentages_from_captured_output() {
    let captured = "ffmpeg version n9.0 Copyright (c) 2000-2026 the FFmpeg developers
Input #0, mov,mp4,m4a,3gp,3g2,mj2, from 'test-input.mp4':
  Duration: 00:00:08.00, start: 0.000000, bitrate: 47 kb/s
Stream mapping:
  Stream #0:0 -> #0:0 (h264 (native) -> h264 (libx264))
frame=1
fps=0.00
out_time_us=N/A
out_time_ms=N/A
out_time=N/A
progress=continue
frame=98
out_time_us=3840000
out_time_ms=3840000
out_time=00:00:03.840000
progress=continue
frame=  200 fps=0.0 q=-1.0 Lsize=      45KiB time=00:00:07.92 bitrate=  46.3kbits/s speed=9.97x elapsed=0:00:00.79
frame=200
out_time_us=7920000
out_time_ms=7920000
out_time=00:00:07.920000
progress=end";
    let mut reader = FfmpegProgress::new();
    let percents: Vec<u8> = captured
        .lines()
        .filter_map(|line| reader.feed_line(line))
        .collect();
    assert_eq!(percents, vec![48, 99]);
    assert_eq!(reader.duration_us, Some(8_000_000));
}

#[test]
fn progress_is_capped_and_needs_a_duration() {
    let mut reader = FfmpegProgress::new();
    assert_eq!(reader.feed_line("out_time_us=100"), None);
    assert_eq!(reader.feed_line("Duration: 01:00:00.5, start: 0"), None);
    assert_eq!(reader.duration_us, Some(3_600_500_000));
    assert_eq!(reader.feed_line("out_time_us=9000000000"), Some(100));
    assert_eq!(reader.feed_line("out_time_us=36005000"), Some(1));
}

#[test]
fn retained_tail_keeps_the_last_eight_kibibytes() {
    let mut bytes = vec![b'a'; 10_000];
    bytes.extend_from_slice(b"END");
    let tail = retained_tail(&bytes);
    assert_eq!(tail.len(), 8192);
    assert!(tail.ends_with("END"));
    assert_eq!(retained_tail(b"short"), "short");
    assert_eq!(retained_tail(&[0x66, 0xff]), "f\u{fffd}");
}

#[test]
fn output_plan_writes_beside_the_final_path() {
    let plan = OutputPlan::for_final_with("/tmp/out/result.webp".into(), "abc");
    assert_eq!(plan.final_path, "/tmp/out/result.webp");
    assert_eq!(plan.temp, "/tmp/out/.wield-tmp-abc-result.webp");
    let random = OutputPlan::for_final("/tmp/out/x.png".into());
    assert!(random.temp.starts_with("/tmp/out/.wield-tmp-"));
    assert!(random.temp.ends_with("-x.png"));
}

#[test]
fn candidates_search_extra_dirs_then_the_search_path() {
    let resolver = BinaryResolver::with_dirs(vec!["/opt/a".into()])
        .with_search_path(vec!["/usr/bin".into()]);
    assert_eq!(
        resolver.candidates("magick"),
        vec!["/opt/a/magick".to_string(), "/usr/bin/magick".to_string()]
    );
    assert_eq!(resolver.candidates("./tool"), vec!["./tool".to_string()]);
    assert!(BinaryResolver::names_a_path("/bin/sh"));
    assert!(!BinaryResolver::names_a_path("sh"));
}

fn spec() -> CommandSpec {
    CommandSpec {
        binary: "magick".into(),
        args: vec![],
        progress: ProgressSpec::Untracked,
        timeout: Duration::from_secs(5),
        success: SuccessSpec::ExitZero,
        combine_inputs: false,
    }
}

#[test]
fn command_results_become_outcomes() {
    let spec = spec();
    assert_eq!(
        command_outcome(
            &CommandResult::Success {
                output_file: Some("/x/y.png".into())
            },
            &spec
        ),
        ToolOutcome::File {
            path: "/x/y.png".into()
        }
    );
    assert_eq!(
        command_outcome(
            &CommandResult::NonZeroExit {
                code: Some(3),
                stderr_tail: "no decode delegate".into()
            },
            &spec
        ),
        ToolOutcome::Failed {
            stage: Stage::Command,
            detail: "exited with 3".into(),
            hint: Some("this image format needs a codec that isn't installed".into()),
        }
    );
    assert_eq!(
        command_outcome(&CommandResult::Timeout, &spec),
        ToolOutcome::Failed {
            stage: Stage::Command,
            detail: "timed out after 5s".into(),
            hint: None,
        }
    );
    let short = CommandSpec {
        timeout: Duration::from_millis(1500),
        ..spec.clone()
    };
    assert_eq!(
        command_outcome(&CommandResult::Timeout, &short),
        ToolOutcome::Failed {
            stage: Stage::Command,
            detail: "timed out after 1.5s".into(),
            hint: None,
        }
    );
    assert_eq!(
        command_outcome(
            &CommandResult::SpawnFailed {
                detail: "denied".into()
            },
            &spec
        ),
        ToolOutcome::Failed {
            stage: Stage::Command,
            detail: "denied".into(),
            hint: Some("could not start magick".into()),
        }
    );
    assert_eq!(
        command_outcome(&CommandResult::Success { output_file: None }, &spec),
        ToolOutcome::Failed {
            stage: Stage::Output,
            detail: "command produced no output".into(),
            hint: None,
        }
    );
    assert_eq!(
        failure_outcome(
            &CommandResult::NonZeroExit {
                code: None,
                stderr_tail: String::new()
            },
            &spec
        ),
        Some(ToolOutcome::Failed {
            stage: Stage::Command,
            detail: "exited with signal".into(),
            hint: None,
        })
    );
    assert_eq!(
        command_outcome(&CommandResult::Cancelled, &spec),
        ToolOutcome::Cancelled
    );
}
