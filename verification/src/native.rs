//! The native tools: screen text recognition (a portal screenshot read by
//! `tesseract`), and the failure for an unknown native tool.

use crate::command::CommandResult;
use crate::descriptor::ValueKind;
use crate::outcome::{OutcomeView, Stage, ToolOutcome};
use crate::portal::PortalError;
use crate::text::{chars_of, dec_int, i64_to_string, push_str, string_from, trim, trim_chars, views};
use vstd::prelude::*;

verus! {

/// How long `tesseract` may run, in seconds.
pub const TESSERACT_TIMEOUT_SECS: u64 = 30;

/// What recognized text becomes: the trimmed text as a text value, or a
/// clear failure when nothing but whitespace was recognized.
pub open spec fn text_outcome_of(raw: Seq<char>) -> OutcomeView {
    if trim(raw).len() == 0 {
        OutcomeView::Failed {
            stage: Stage::Native,
            detail: "no text was found in the selected region"@,
            hint: Some("try a region with clearer text or more contrast"@),
        }
    } else {
        OutcomeView::Value { kind: ValueKind::Text, data: trim(raw) }
    }
}

/// The outcome of recognized text.
pub fn text_outcome(raw: &str) -> (o: ToolOutcome)
    ensures
        o@ == text_outcome_of(raw@),
{
    let c = chars_of(raw);
    let t = trim_chars(&c);
    if t.len() == 0 {
        ToolOutcome::Failed {
            stage: Stage::Native,
            detail: "no text was found in the selected region".to_owned(),
            hint: Some("try a region with clearer text or more contrast".to_owned()),
        }
    } else {
        ToolOutcome::Value { kind: ValueKind::Text, data: string_from(&t) }
    }
}

/// The arguments `tesseract` is run with: the image, the output base (it
/// appends `.txt`), and English as the language.
pub fn tesseract_argv(image: &str, output_base: &str) -> (v: Vec<String>)
    ensures
        views(v@) == seq![image@, output_base@, "-l"@, "eng"@],
{
    let mut v: Vec<String> = Vec::new();
    v.push(image.to_owned());
    v.push(output_base.to_owned());
    v.push("-l".to_owned());
    v.push("eng".to_owned());
    assert(views(v@) =~= seq![image@, output_base@, "-l"@, "eng"@]);
    v
}

/// `{code:?}` of an exit code.
pub open spec fn code_debug(code: Option<i32>) -> Seq<char> {
    match code {
        Some(c) => "Some("@ + dec_int(c as int) + ")"@,
        None => "None"@,
    }
}

/// What `tesseract`'s result becomes, given the text it wrote (read after
/// a successful run).
pub open spec fn recognition_of(result: CommandResult, text: Seq<char>) -> OutcomeView {
    match result {
        CommandResult::Success { .. } => text_outcome_of(text),
        CommandResult::SpawnFailed { detail } => OutcomeView::Unavailable {
            reason: "tesseract could not be started: "@ + detail@,
            fix: Some("install tesseract or add it to your PATH"@),
        },
        CommandResult::NonZeroExit { code, stderr_tail } => OutcomeView::Failed {
            stage: Stage::Native,
            detail: "tesseract exited with "@ + code_debug(code) + ": "@ + stderr_tail@,
            hint: None,
        },
        CommandResult::Timeout => OutcomeView::Failed {
            stage: Stage::Native,
            detail: "tesseract timed out"@,
            hint: None,
        },
        CommandResult::Cancelled => OutcomeView::Cancelled,
        CommandResult::OutputMissing => OutcomeView::Failed {
            stage: Stage::Native,
            detail: "tesseract did not produce a text file"@,
            hint: None,
        },
    }
}

/// The outcome of a `tesseract` run.
pub fn recognition_outcome(result: &CommandResult, text: &str) -> (o: ToolOutcome)
    ensures
        o@ == recognition_of(*result, text@),
{
    match result {
        CommandResult::Success { .. } => text_outcome(text),
        CommandResult::SpawnFailed { detail } => {
            let mut reason = String::new();
            push_str(&mut reason, "tesseract could not be started: ");
            push_str(&mut reason, detail.as_str());
            ToolOutcome::Unavailable {
                reason,
                fix: Some("install tesseract or add it to your PATH".to_owned()),
            }
        },
        CommandResult::NonZeroExit { code, stderr_tail } => {
            let mut detail = String::new();
            push_str(&mut detail, "tesseract exited with ");
            match code {
                Some(c) => {
                    push_str(&mut detail, "Some(");
                    let t = i64_to_string(*c as i64);
                    push_str(&mut detail, t.as_str());
                    push_str(&mut detail, ")");
                },
                None => push_str(&mut detail, "None"),
            }
            push_str(&mut detail, ": ");
            push_str(&mut detail, stderr_tail.as_str());
            proof {
                reveal_strlit("None");
            }
            assert(detail@ =~= "tesseract exited with "@ + code_debug(*code) + ": "@ + stderr_tail@);
            ToolOutcome::Failed { stage: Stage::Native, detail, hint: None }
        },
        CommandResult::Timeout => ToolOutcome::Failed {
            stage: Stage::Native,
            detail: "tesseract timed out".to_owned(),
            hint: None,
        },
        CommandResult::Cancelled => ToolOutcome::Cancelled,
        CommandResult::OutputMissing => ToolOutcome::Failed {
            stage: Stage::Native,
            detail: "tesseract did not produce a text file".to_owned(),
            hint: None,
        },
    }
}

/// The failure for a native tool id that has no implementation.
pub fn unknown_native_tool(id: &str) -> (o: ToolOutcome)
    ensures
        o@ == (OutcomeView::Failed {
            stage: Stage::Native,
            detail: "unknown native tool: "@ + id@,
            hint: Some("this is a bug in the tool descriptor"@),
        }),
{
    let mut detail = String::new();
    push_str(&mut detail, "unknown native tool: ");
    push_str(&mut detail, id);
    ToolOutcome::Failed {
        stage: Stage::Native,
        detail,
        hint: Some("this is a bug in the tool descriptor".to_owned()),
    }
}

/// Dispatches a descriptor's native tool id to its implementation.
#[derive(Debug, Default, Clone, Copy)]
pub struct NativeToolRunner;

impl NativeToolRunner {
    /// The outcome for a native tool id: no native tool is wired into the
    /// dispatch, so every id gets the unknown-tool failure.
    pub fn dispatch(&self, id: &str) -> (o: ToolOutcome)
        ensures
            o@ == (OutcomeView::Failed {
                stage: Stage::Native,
                detail: "unknown native tool: "@ + id@,
                hint: Some("this is a bug in the tool descriptor"@),
            }),
    {
        unknown_native_tool(id)
    }
}

/// `url::Url::parse` of `uri` followed by `Url::to_file_path`: the parse
/// error's text, or the bytes of the file path as the platform encodes them
/// (`None` when the URL names no local file).
pub uninterp spec fn file_url_path(uri: Seq<char>) -> Result<Option<Seq<u8>>, Seq<char>>;

/// The text `url::Url::parse(uri)` displays as, when it parses.
pub uninterp spec fn url_text(uri: Seq<char>) -> Option<Seq<char>>;

/// Calls `url::Url::parse` and `Url::to_file_path`, and hands the path back
/// as its encoded bytes (`OsString::into_encoded_bytes`, the path's own bytes
/// on Unix); the contract names the result.
#[verifier::external_body]
fn parse_file_url(uri: &str) -> (r: Result<Option<Vec<u8>>, String>)
    ensures
        match (r, file_url_path(uri@)) {
            (Ok(Some(p)), Ok(Some(q))) => p@ == q,
            (Ok(None), Ok(None)) => true,
            (Err(e), Err(f)) => e@ == f,
            _ => false,
        },
{
    match url::Url::parse(uri) {
        Ok(url) => Ok(url.to_file_path().ok().map(|p| p.into_os_string().into_encoded_bytes())),
        Err(error) => Err(error.to_string()),
    }
}

/// Calls `url::Url::parse` and renders the URL; the contract names the
/// result.
#[verifier::external_body]
fn parsed_url_text(uri: &str) -> (r: Option<String>)
    ensures
        match (r, url_text(uri@)) {
            (Some(s), Some(t)) => s@ == t,
            (None, None) => true,
            _ => false,
        },
{
    url::Url::parse(uri).ok().map(|url| url.to_string())
}

/// The local file a screenshot URI names, as the bytes of its path, or why
/// the portal's answer is unusable: the URI does not parse, or names no
/// local file.
pub fn screenshot_file(uri: &str) -> (r: Result<Vec<u8>, PortalError>)
    ensures
        file_url_path(uri@) matches Ok(Some(p)) ==> r matches Ok(s) && s@ == p,
        file_url_path(uri@) matches Err(e) ==> r matches Err(PortalError::BadResponse(d)) && d@ == e,
        file_url_path(uri@) matches Ok(None) ==> r matches Err(PortalError::BadResponse(d)) && d@
            == "unexpected screenshot URI: "@ + match url_text(uri@) {
            Some(t) => t,
            None => uri@,
        },
{
    match parse_file_url(uri) {
        Ok(Some(p)) => Ok(p),
        Err(e) => Err(PortalError::BadResponse(e)),
        Ok(None) => {
            let mut d = String::new();
            push_str(&mut d, "unexpected screenshot URI: ");
            match parsed_url_text(uri) {
                Some(t) => push_str(&mut d, t.as_str()),
                None => push_str(&mut d, uri),
            }
            Err(PortalError::BadResponse(d))
        },
    }
}

} // verus!
