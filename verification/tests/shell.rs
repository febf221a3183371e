use wield::portal::BindOutcome;
use wield::shell::{app_info, HotkeyState, RunId};

#[test]
fn a_finished_bind_settles_the_hotkey_state() {
    assert_eq!(HotkeyState::after_bind(BindOutcome::Bound), HotkeyState::Registered);
    assert_eq!(
        HotkeyState::after_bind(BindOutcome::Unavailable {
            fallback_command: "wield-app".into()
        }),
        HotkeyState::Unavailable {
            fallback_command: "wield-app".into()
        }
    );
}

#[test]
fn run_ids_are_fresh_uuids() {
    let a = RunId::new();
    let b = RunId::new();
    assert_ne!(a, b);
    assert_eq!(a.0.len(), 36);
}

#[test]
fn app_info_names_the_app_and_its_version() {
    let info = app_info();
    assert_eq!(info.name, "Wield");
    assert_eq!(info.version, "0.1.0");
}
