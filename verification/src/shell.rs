//! Small values of the desktop shell: run ids, the state of the global
//! shortcut, and the application's name and version.

use crate::command::{fresh_token, is_uuid_text};
use crate::portal::BindOutcome;
use vstd::prelude::*;

verus! {

/// The identifier of one run in flight.
#[derive(Debug, Clone, PartialEq, Eq, Hash)]
pub struct RunId(pub String);

impl RunId {
    /// A fresh, random id (a UUID in its hyphenated form).
    pub fn new() -> (r: Self)
        ensures
            is_uuid_text(r.0@),
    {
        RunId(fresh_token())
    }
}

impl Default for RunId {
    fn default() -> (r: Self)
        ensures
            is_uuid_text(r.0@),
    {
        RunId::new()
    }
}

/// Whether the global shortcut is bound, and if not, what the user can
/// bind by hand.
#[derive(Debug, Clone, PartialEq, Eq)]
pub enum HotkeyState {
    /// The bind attempt has not finished yet.
    Pending,
    /// The shortcut is bound.
    Registered,
    /// The portal is missing or binding failed.
    Unavailable { fallback_command: String },
}

impl HotkeyState {
    /// The state a finished bind attempt leaves.
    pub fn after_bind(outcome: BindOutcome) -> (s: Self)
        ensures
            outcome is Bound ==> s is Registered,
            outcome matches BindOutcome::Unavailable { fallback_command } ==> (s matches HotkeyState::Unavailable {
                fallback_command: f,
            } && f@ == fallback_command@),
    {
        match outcome {
            BindOutcome::Bound => HotkeyState::Registered,
            BindOutcome::Unavailable { fallback_command } => HotkeyState::Unavailable { fallback_command },
        }
    }
}

/// The application's name and version.
#[derive(Debug, Clone, PartialEq, Eq)]
pub struct AppInfo {
    pub name: String,
    pub version: String,
}

/// The application's name and the library's version.
pub fn app_info() -> (a: AppInfo)
    ensures
        a.name@ == "Wield"@,
        a.version@ == "0.1.0"@,
{
    AppInfo { name: "Wield".to_owned(), version: crate::version().to_owned() }
}

} // verus!
