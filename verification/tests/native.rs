use wield::command::CommandResult;
use wield::descriptor::ValueKind;
use wield::native::{
    recognition_outcome, screenshot_file, tesseract_argv, text_outcome, unknown_native_tool,
    TESSERACT_TIMEOUT_SECS,
};
use wield::outcome::{Stage, ToolOutcome};
use wield::portal::PortalError;

#[test]
fn empty_stdout_is_a_clear_failure_not_a_silent_empty_value() {
    let outcome = text_outcome("   \n  ");
    assert!(matches!(
        outcome,
        ToolOutcome::Failed {
            stage: Stage::Native,
            ..
        }
    ));
}

#[test]
fn non_empty_stdout_is_trimmed_into_a_value() {
    let outcome = text_outcome("  hello world  \n");
    match outcome {
        ToolOutcome::Value {
            kind: ValueKind::Text,
            data,
        } => assert_eq!(data, "hello world"),
        other => panic!("expected Value, got {other:?}"),
    }
}

#[test]
fn tesseract_runs_in_english_on_the_screenshot() {
    assert_eq!(
        tesseract_argv("/tmp/shot.png", "/tmp/scratch/ocr"),
        vec!["/tmp/shot.png", "/tmp/scratch/ocr", "-l", "eng"]
    );
    assert_eq!(TESSERACT_TIMEOUT_SECS, 30);
}

#[test]
fn recognition_maps_each_command_result() {
    assert_eq!(
        recognition_outcome(
            &CommandResult::Success {
                output_file: Some("/tmp/ocr.txt".into())
            },
            " recognized text\n"
        ),
        ToolOutcome::Value {
            kind: ValueKind::Text,
            data: "recognized text".into()
        }
    );
    assert_eq!(
        recognition_outcome(
            &CommandResult::NonZeroExit {
                code: Some(1),
                stderr_tail: "bad image".into()
            },
            ""
        ),
        ToolOutcome::Failed {
            stage: Stage::Native,
            detail: "tesseract exited with Some(1): bad image".into(),
            hint: None
        }
    );
    assert!(matches!(
        recognition_outcome(
            &CommandResult::SpawnFailed {
                detail: "not found".into()
            },
            ""
        ),
        ToolOutcome::Unavailable { .. }
    ));
    assert_eq!(
        recognition_outcome(&CommandResult::Cancelled, ""),
        ToolOutcome::Cancelled
    );
}

#[test]
fn unknown_id_is_a_clear_native_failure() {
    assert_eq!(
        unknown_native_tool("not.a.real.tool"),
        ToolOutcome::Failed {
            stage: Stage::Native,
            detail: "unknown native tool: not.a.real.tool".into(),
            hint: Some("this is a bug in the tool descriptor".into()),
        }
    );
}

#[test]
fn a_file_uri_names_the_screenshot() {
    assert_eq!(
        screenshot_file("file:///tmp/Screenshot%20one.png").unwrap(),
        b"/tmp/Screenshot one.png".to_vec()
    );
    // A file name that is not UTF-8 keeps its exact bytes.
    assert_eq!(
        screenshot_file("file:///tmp/a%FF.png").unwrap(),
        b"/tmp/a\xff.png".to_vec()
    );
    assert!(matches!(
        screenshot_file("not a uri"),
        Err(PortalError::BadResponse(_))
    ));
    match screenshot_file("https://example.com/x.png") {
        Err(PortalError::BadResponse(d)) => {
            assert_eq!(d, "unexpected screenshot URI: https://example.com/x.png")
        }
        other => panic!("expected BadResponse, got {other:?}"),
    }
}
