use openlink::atc_flights::{
    can_compose, compose_flight, find_linked_flight, linked_flights, pending_logons,
    SessionSummary,
};
use openlink::gui_state::CpdlcConnectionPhase::{self, Connected, LoggedOn, LogonPending, Terminated};

fn session(
    aircraft: Option<&str>,
    address: Option<&str>,
    active: Option<CpdlcConnectionPhase>,
    inactive: Option<CpdlcConnectionPhase>,
) -> SessionSummary {
    SessionSummary {
        aircraft: aircraft.map(|s| s.to_string()),
        aircraft_address: address.map(|s| s.to_string()),
        active_phase: active,
        inactive_phase: inactive,
    }
}

fn sessions() -> Vec<SessionSummary> {
    vec![
        session(Some("DLH4"), Some("3C4B26"), Some(Connected), None),
        session(None, Some("000001"), Some(Connected), None),
        session(Some("AFR1"), Some("39401A"), None, Some(LogonPending)),
        session(Some("BAW2"), None, Some(Connected), None),
        session(Some("KLM9"), Some("484C5A"), None, None),
    ]
}

#[test]
fn flights_are_listed_by_callsign() {
    let flights = linked_flights(&sessions());
    let names: Vec<&str> = flights.iter().map(|f| f.callsign.as_str()).collect();
    assert_eq!(names, vec!["AFR1", "DLH4", "KLM9"]);
    assert_eq!(flights[0].phase, LogonPending);
    assert_eq!(flights[0].aircraft_address, "39401A");
    assert_eq!(flights[2].phase, Terminated);
}

#[test]
fn pending_logons_are_picked_out() {
    let flights = linked_flights(&sessions());
    let pending = pending_logons(&flights);
    assert_eq!(pending.len(), 1);
    assert_eq!(pending[0].aircraft_callsign, "AFR1");
}

#[test]
fn composed_messages_go_to_the_target_or_the_selection() {
    let flights = linked_flights(&sessions());
    assert_eq!(compose_flight(&flights, Some("KLM9"), Some(0)).unwrap().callsign, "KLM9");
    assert_eq!(compose_flight(&flights, Some("XXX"), Some(1)).unwrap().callsign, "DLH4");
    assert_eq!(compose_flight(&flights, None, Some(0)).unwrap().callsign, "AFR1");
    assert!(compose_flight(&flights, None, Some(7)).is_none());
    assert!(compose_flight(&flights, None, None).is_none());
    assert!(can_compose(flights.get(1)));
    assert!(!can_compose(flights.get(0)));
    assert!(!can_compose(None));
}

#[test]
fn linked_flight_lookup() {
    let s = sessions();
    assert_eq!(find_linked_flight(&s, "AFR1").unwrap().phase, LogonPending);
    assert!(find_linked_flight(&s, "BAW2").is_none());
    assert!(find_linked_flight(&s, "ZZZ").is_none());
    let more = vec![session(Some("AFR1"), Some("1"), Some(LoggedOn), None)];
    assert_eq!(find_linked_flight(&more, "AFR1").unwrap().phase, LoggedOn);
}
