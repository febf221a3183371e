//! Tool outcomes, progress events, and the hints derived from a failed
//! command's stderr.

use crate::descriptor::ValueKind;
use crate::text::{seq_contains, str_contains, views};
use vstd::prelude::*;

verus! {

/// The pipeline stage at which a run failed.
#[derive(Debug, Clone, Copy, PartialEq, Eq, Structural)]
pub enum Stage {
    Validation,
    Portal,
    Command,
    Output,
    Native,
}

/// The result of running a tool.
#[derive(Debug, Clone, PartialEq)]
pub enum ToolOutcome {
    Value { kind: ValueKind, data: String },
    File { path: String },
    Report { title: String, lines: Vec<String> },
    Unavailable { reason: String, fix: Option<String> },
    Failed { stage: Stage, detail: String, hint: Option<String> },
    Cancelled,
}

/// The mathematical content of a [`ToolOutcome`].
pub enum OutcomeView {
    Value { kind: ValueKind, data: Seq<char> },
    File { path: Seq<char> },
    Report { title: Seq<char>, lines: Seq<Seq<char>> },
    Unavailable { reason: Seq<char>, fix: Option<Seq<char>> },
    Failed { stage: Stage, detail: Seq<char>, hint: Option<Seq<char>> },
    Cancelled,
}

/// The text of an optional string.
pub open spec fn opt_text(o: Option<String>) -> Option<Seq<char>> {
    match o {
        Some(s) => Some(s@),
        None => None,
    }
}

impl View for ToolOutcome {
    type V = OutcomeView;

    open spec fn view(&self) -> OutcomeView {
        match self {
            ToolOutcome::Value { kind, data } => OutcomeView::Value { kind: *kind, data: data@ },
            ToolOutcome::File { path } => OutcomeView::File { path: path@ },
            ToolOutcome::Report { title, lines } => OutcomeView::Report {
                title: title@,
                lines: views(lines@),
            },
            ToolOutcome::Unavailable { reason, fix } => OutcomeView::Unavailable {
                reason: reason@,
                fix: opt_text(*fix),
            },
            ToolOutcome::Failed { stage, detail, hint } => OutcomeView::Failed {
                stage: *stage,
                detail: detail@,
                hint: opt_text(*hint),
            },
            ToolOutcome::Cancelled => OutcomeView::Cancelled,
        }
    }
}

/// A failure at `stage`, with no hint.
pub fn failed(stage: Stage, detail: String) -> (o: ToolOutcome)
    ensures
        o@ == (OutcomeView::Failed { stage, detail: detail@, hint: None }),
{
    ToolOutcome::Failed { stage, detail, hint: None }
}

/// A progress event of a running tool.
#[derive(Debug, Clone, PartialEq)]
pub enum Progress {
    Started,
    Percent(u8),
    Message(String),
    Finished,
}

pub open spec fn hint_invalid_data() -> Seq<char> {
    "input file may be corrupt or in a different format than its extension"@
}

pub open spec fn hint_codec() -> Seq<char> {
    "this image format needs a codec that isn't installed"@
}

pub open spec fn hint_permission() -> Seq<char> {
    "open the file through the picker so Wield is granted access to it"@
}

pub open spec fn hint_missing_path() -> Seq<char> {
    "an input path no longer exists"@
}

/// The hint for a command's stderr tail: the first rule whose marker the
/// tail contains.
pub open spec fn stderr_hint(tail: Seq<char>) -> Option<Seq<char>> {
    if seq_contains(tail, "Invalid data found"@) {
        Some(hint_invalid_data())
    } else if seq_contains(tail, "no decode delegate"@) || seq_contains(
        tail,
        "no encode delegate"@,
    ) {
        Some(hint_codec())
    } else if seq_contains(tail, "Permission denied"@) {
        Some(hint_permission())
    } else if seq_contains(tail, "No such file or directory"@) {
        Some(hint_missing_path())
    } else {
        None
    }
}

/// A user-facing hint for well-known failure messages on a command's stderr.
pub fn hint_for_stderr(stderr_tail: &str) -> (r: Option<String>)
    ensures
        r matches Some(h) ==> stderr_hint(stderr_tail@) == Some(h@),
        r is None ==> stderr_hint(stderr_tail@) is None,
{
    if str_contains(stderr_tail, "Invalid data found") {
        Some("input file may be corrupt or in a different format than its extension".to_owned())
    } else if str_contains(stderr_tail, "no decode delegate") || str_contains(
        stderr_tail,
        "no encode delegate",
    ) {
        Some("this image format needs a codec that isn't installed".to_owned())
    } else if str_contains(stderr_tail, "Permission denied") {
        Some("open the file through the picker so Wield is granted access to it".to_owned())
    } else if str_contains(stderr_tail, "No such file or directory") {
        Some("an input path no longer exists".to_owned())
    } else {
        None
    }
}

} // verus!
