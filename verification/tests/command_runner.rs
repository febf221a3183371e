use wield::command::{
    AfterExit, CommandResult, CommandRunner, ExitStatus, FinishStep, OutputPlan, RunAction,
    RunEvent, RunWatch,
};
use wield::descriptor::{ProgressSpec, SuccessSpec};
use wield::native::NativeToolRunner;
use wield::outcome::{Stage, ToolOutcome};
use wield::portal::{Adapter, PortalAdapterRunner};

fn plan() -> OutputPlan {
    OutputPlan::for_final_with("/out/result.out".into(), "abc")
}

#[test]
fn a_successful_exit_moves_on_to_finishing() {
    let after = CommandRunner::after_exit(
        ExitStatus::Exited {
            success: true,
            code: Some(0),
        },
        &SuccessSpec::ExitZero,
        b"noise",
    );
    assert_eq!(after, AfterExit::Finish);
}

#[test]
fn nonzero_exit_reports_the_stderr_tail() {
    let after = CommandRunner::after_exit(
        ExitStatus::Exited {
            success: false,
            code: Some(3),
        },
        &SuccessSpec::ExitZero,
        b"no decode delegate for FOO\n",
    );
    assert_eq!(
        after,
        AfterExit::Fail(CommandResult::NonZeroExit {
            code: Some(3),
            stderr_tail: "no decode delegate for FOO\n".into()
        })
    );
    let killed = CommandRunner::after_exit(
        ExitStatus::Exited {
            success: false,
            code: None,
        },
        &SuccessSpec::ExitZero,
        b"",
    );
    assert!(matches!(
        killed,
        AfterExit::Fail(CommandResult::NonZeroExit { code: None, .. })
    ));
    let lost = CommandRunner::after_exit(
        ExitStatus::WaitFailed("interrupted".into()),
        &SuccessSpec::ExitZero,
        b"",
    );
    assert_eq!(
        lost,
        AfterExit::Fail(CommandResult::SpawnFailed {
            detail: "interrupted".into()
        })
    );
}

#[test]
fn finishing_depends_on_the_planned_output() {
    assert_eq!(
        CommandRunner::finish_step(None, false),
        FinishStep::Done(CommandResult::Success { output_file: None })
    );
    let p = plan();
    assert_eq!(
        CommandRunner::finish_step(Some(&p), false),
        FinishStep::Done(CommandResult::OutputMissing)
    );
    assert_eq!(CommandRunner::finish_step(Some(&p), true), FinishStep::Move);
    assert_eq!(
        CommandRunner::moved(&p, Ok(())),
        CommandResult::Success {
            output_file: Some("/out/result.out".into())
        }
    );
    assert_eq!(
        CommandRunner::moved(&p, Err("disk full".into())),
        CommandResult::SpawnFailed {
            detail: "disk full".into()
        }
    );
}

#[test]
fn unknown_id_is_a_clear_failure() {
    let outcome = NativeToolRunner.dispatch("not.a.real.tool");
    assert!(matches!(
        outcome,
        ToolOutcome::Failed {
            stage: Stage::Native,
            ..
        }
    ));
}

#[test]
fn unknown_adapter_is_failed_portal() {
    assert!(matches!(
        PortalAdapterRunner.route("nope.nope"),
        Err(ToolOutcome::Failed {
            stage: Stage::Portal,
            ..
        })
    ));
    assert_eq!(
        PortalAdapterRunner.route("screenshot.pick_color").unwrap(),
        Adapter::PickColor
    );
}

const FFMPEG_STDERR: &str = "ffmpeg version n9.0 Copyright (c) 2000-2026 the FFmpeg developers
  Duration: 00:00:08.00, start: 0.000000, bitrate: 47 kb/s
frame=1
out_time_us=N/A
progress=continue
frame=98
out_time_us=3840000
out_time=00:00:03.840000
progress=continue
frame=  200 fps=0.0 q=-1.0 Lsize=      45KiB time=00:00:07.92 bitrate=  46.3kbits/s
out_time_us=7920000
progress=end";

fn watch_lines(spec: &ProgressSpec) -> Vec<RunAction> {
    let mut watch = RunWatch::new(spec);
    FFMPEG_STDERR
        .lines()
        .map(|line| watch.step(RunEvent::StderrLine(line.to_owned())))
        .filter(|action| *action != RunAction::Wait)
        .collect()
}

#[test]
fn a_tracked_run_reports_ffmpeg_percentages() {
    assert_eq!(
        watch_lines(&ProgressSpec::FfmpegDuration),
        vec![RunAction::Report(48), RunAction::Report(99)]
    );
}

#[test]
fn an_untracked_run_reports_no_percentages() {
    assert!(watch_lines(&ProgressSpec::Untracked).is_empty());
}

#[test]
fn the_time_limit_and_a_cancellation_stop_the_command() {
    let mut watch = RunWatch::new(&ProgressSpec::FfmpegDuration);
    assert_eq!(
        watch.step(RunEvent::TimedOut),
        RunAction::Stop(CommandResult::Timeout)
    );
    assert_eq!(
        watch.step(RunEvent::CancelRequested),
        RunAction::Stop(CommandResult::Cancelled)
    );
    assert_eq!(watch.step(RunEvent::Exited), RunAction::Settle);
}
