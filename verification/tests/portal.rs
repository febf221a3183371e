use wield::availability::AvailabilityView;
use wield::descriptor::ValueKind;
use wield::outcome::{Stage, ToolOutcome};
use wield::portal::{
    bind_outcome, parse_portal_versions, picked_outcome, route_adapter, started_outcome,
    toggle_step, Adapter, BindOutcome, PortalError, PortalMap, Rgb, ToggleStep, FALLBACK_COMMAND,
    PORTAL_PREFIX,
};

const SAMPLE: &str = r#"<!DOCTYPE node PUBLIC "-//freedesktop//DTD D-BUS Object Introspection 1.0//EN" "http://www.freedesktop.org/standards/dbus/1.0/introspect.dtd">
<node>
  <interface name="org.freedesktop.DBus.Introspectable">
    <method name="Introspect"><arg type="s" direction="out"/></method>
  </interface>
  <interface name="org.freedesktop.portal.Screenshot">
    <method name="PickColor"><arg type="s"/><arg type="a{sv}"/><arg type="o" direction="out"/></method>
    <property name="version" type="u" access="read"/>
  </interface>
  <interface name="org.freedesktop.portal.Inhibit">
    <property name="version" type="u" access="read"/>
  </interface>
</node>"#;

#[test]
fn converts_channels_to_hex_and_rgb() {
    let color = Rgb { r: 0, g: 128, b: 255 };
    assert_eq!(color.hex(), "#0080ff");
    assert_eq!(color.rgb_string(), "rgb(0, 128, 255)");
    assert_eq!(Rgb { r: 10, g: 20, b: 30 }.hex(), "#0a141e");
    assert_eq!(Rgb { r: 255, g: 255, b: 255 }.rgb_string(), "rgb(255, 255, 255)");
}

#[test]
fn value_payload_is_json_with_all_three() {
    let payload = Rgb { r: 255, g: 255, b: 255 }.value_payload("hsl(0, 0%, 100%)");
    let value: serde_json::Value = serde_json::from_str(&payload).unwrap();
    assert_eq!(value["hex"], "#ffffff");
    assert_eq!(value["rgb"], "rgb(255, 255, 255)");
    assert_eq!(value["hsl"], "hsl(0, 0%, 100%)");
}

#[test]
fn a_dismissed_response_maps_to_cancelled() {
    let error = ashpd::Error::Response(ashpd::desktop::ResponseError::Cancelled);
    assert!(matches!(PortalError::from(error), PortalError::Cancelled));
}

#[test]
fn any_other_ashpd_error_maps_to_transport() {
    let error = ashpd::Error::NoResponse;
    assert!(matches!(PortalError::from(error), PortalError::Transport(_)));
}

#[test]
fn portal_errors_become_outcomes() {
    assert_eq!(PortalError::Cancelled.into_outcome(), ToolOutcome::Cancelled);
    assert_eq!(
        PortalError::Transport("boom".into()).into_outcome(),
        ToolOutcome::Failed {
            stage: Stage::Portal,
            detail: "boom".into(),
            hint: Some("the desktop portal service may not be running".into()),
        }
    );
    assert_eq!(
        PortalError::BadResponse("odd".into()).into_outcome(),
        ToolOutcome::Failed {
            stage: Stage::Portal,
            detail: "odd".into(),
            hint: None,
        }
    );
    assert_eq!(
        PortalError::Transport("boom".into()).message(),
        "portal transport failed: boom"
    );
}

#[test]
fn fallback_command_relaunches_the_shell_binary() {
    assert_eq!(FALLBACK_COMMAND, "wield-app");
}

#[test]
fn a_failed_bind_offers_the_fallback_command() {
    assert_eq!(bind_outcome(true), BindOutcome::Bound);
    assert_eq!(
        bind_outcome(false),
        BindOutcome::Unavailable {
            fallback_command: "wield-app".into()
        }
    );
}

#[test]
fn parses_portal_interface_names() {
    let map = parse_portal_versions(SAMPLE);
    assert_eq!(map.get("Screenshot"), Some(0));
    assert_eq!(map.get("Inhibit"), Some(0));
    assert_eq!(map.get("Introspectable"), None);
    assert_eq!(map.get("GlobalShortcuts"), None);
}

#[test]
fn unparseable_introspection_gives_an_empty_map() {
    assert!(parse_portal_versions("<node").is_empty());
    assert_eq!(PORTAL_PREFIX, "org.freedesktop.portal.");
}

#[test]
fn a_portal_map_fills_an_availability_view() {
    let mut map = PortalMap::new();
    map.insert("Screenshot".into(), 2);
    let mut view = AvailabilityView::default();
    map.apply_to(&mut view);
    assert_eq!(view.portals.get("Screenshot"), Some(2));
    assert_eq!(view.portals.get("Inhibit"), None);
}

#[test]
fn unknown_adapter_key_is_a_portal_failure() {
    assert_eq!(route_adapter("screenshot.pick_color").unwrap(), Adapter::PickColor);
    assert_eq!(
        route_adapter("nope.nope").unwrap_err(),
        ToolOutcome::Failed {
            stage: Stage::Portal,
            detail: "unknown portal adapter: nope.nope".into(),
            hint: Some("this is a bug in the tool descriptor".into()),
        }
    );
}

#[test]
fn maps_a_picked_colour_to_a_value_outcome() {
    match picked_outcome(Ok((Rgb { r: 10, g: 20, b: 30 }, "hsl(210, 50%, 8%)".to_string()))) {
        ToolOutcome::Value {
            kind: ValueKind::Color,
            data,
        } => assert!(data.contains("#0a141e") && data.contains("hsl(210, 50%, 8%)")),
        other => panic!("expected Value, got {other:?}"),
    }
    assert_eq!(picked_outcome(Err(PortalError::Cancelled)), ToolOutcome::Cancelled);
    assert!(matches!(
        picked_outcome(Err(PortalError::Transport("boom".into()))),
        ToolOutcome::Failed {
            stage: Stage::Portal,
            ..
        }
    ));
}

#[test]
fn keep_awake_toggles_between_on_and_off() {
    match toggle_step(true) {
        ToggleStep::TurnOff(ToolOutcome::Report { title, lines }) => {
            assert_eq!(title, "Keep awake");
            assert_eq!(
                lines,
                vec!["Turned off - normal sleep and screensaver behavior is restored.".to_string()]
            );
        }
        other => panic!("expected TurnOff, got {other:?}"),
    }
    assert!(matches!(toggle_step(false), ToggleStep::Start));
    let (held, outcome) = started_outcome(Ok(()));
    assert!(held);
    assert!(matches!(outcome, ToolOutcome::Report { .. }));
    let (held, outcome) = started_outcome(Err(PortalError::Cancelled));
    assert!(!held);
    assert_eq!(outcome, ToolOutcome::Cancelled);
    let (held, outcome) = started_outcome(Err(PortalError::Transport("boom".into())));
    assert!(!held);
    assert!(matches!(
        outcome,
        ToolOutcome::Failed {
            stage: Stage::Portal,
            ..
        }
    ));
}

#[test]
fn a_dbus_error_is_a_transport_failure_with_its_text() {
    let error = zbus::Error::Failure("bus went away".into());
    match PortalError::from(error) {
        PortalError::Transport(text) => assert_eq!(text, "bus went away"),
        other => panic!("expected Transport, got {other:?}"),
    }
    match PortalError::from(ashpd::Error::NoResponse) {
        PortalError::Transport(text) => assert!(!text.is_empty()),
        other => panic!("expected Transport, got {other:?}"),
    }
}
