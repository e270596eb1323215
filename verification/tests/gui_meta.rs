use openlink::atc_flights::SessionSummary;
use openlink::gui_meta::{apply_session_update, meta_action, MetaAction, MetaEvent};
use openlink::gui_state::{CpdlcConnectionPhase, StationType};

fn summary(aircraft: &str, phase: Option<CpdlcConnectionPhase>) -> SessionSummary {
    SessionSummary {
        aircraft: Some(aircraft.to_string()),
        aircraft_address: Some("A1B2C3".to_string()),
        active_phase: phase,
        inactive_phase: None,
    }
}

#[test]
fn aircraft_accepts_connection_requests() {
    assert_eq!(
        meta_action(Some(StationType::Aircraft), "LFPG", &MetaEvent::ConnectionRequest),
        MetaAction::AcceptConnection { to: "LFPG".to_string() }
    );
    assert_eq!(meta_action(Some(StationType::Atc), "LFPG", &MetaEvent::ConnectionRequest), MetaAction::Nothing);
    assert_eq!(meta_action(None, "LFPG", &MetaEvent::ConnectionRequest), MetaAction::Nothing);
    assert_eq!(meta_action(Some(StationType::Aircraft), "LFPG", &MetaEvent::LogonResponse), MetaAction::Nothing);
}

#[test]
fn ground_station_requests_connection_of_forwarded_flight() {
    let ev = MetaEvent::LogonForward { flight: "AFR123".to_string() };
    assert_eq!(
        meta_action(Some(StationType::Atc), "LFPG", &ev),
        MetaAction::RequestConnection {
            flight: "AFR123".to_string(),
            note: "CONNECTION REQUEST \u{2192} AFR123".to_string(),
        }
    );
    assert_eq!(meta_action(Some(StationType::Aircraft), "LFPG", &ev), MetaAction::Nothing);
}

#[test]
fn session_snapshots_are_kept_per_flight() {
    let mut sessions: Vec<(String, SessionSummary)> = Vec::new();
    let mut selected = Some(1);
    apply_session_update(
        &mut sessions,
        &mut selected,
        Some("AFR123"),
        Some("LFPG"),
        None,
        summary("AFR123", Some(CpdlcConnectionPhase::Connected)),
    );
    assert_eq!(sessions.len(), 1);
    assert_eq!(sessions[0].0, "AFR123");
    assert_eq!(selected, None);
    // Keyed by the active peer when the aircraft is unknown.
    selected = Some(0);
    apply_session_update(&mut sessions, &mut selected, None, Some("BAW456"), None, summary("X", None));
    assert_eq!(sessions.len(), 2);
    assert_eq!(sessions[1].0, "BAW456");
    assert_eq!(selected, Some(0));
    // A snapshot with no connection left drops the flight.
    selected = Some(1);
    apply_session_update(&mut sessions, &mut selected, Some("BAW456"), None, None, summary("BAW456", None));
    assert_eq!(sessions.len(), 1);
    assert_eq!(selected, None);
    // An update replaces the snapshot kept for the flight.
    apply_session_update(
        &mut sessions,
        &mut selected,
        Some("AFR123"),
        None,
        Some("EGTT"),
        summary("AFR123", Some(CpdlcConnectionPhase::LoggedOn)),
    );
    assert_eq!(sessions.len(), 1);
    assert_eq!(sessions[0].1.active_phase, Some(CpdlcConnectionPhase::LoggedOn));
}
