use openlink::atc_session::{atc_envelope_step, AtcConnectionState, AtcEvent, AtcState};
use openlink::pilot_session::{pilot_envelope_step, EnvelopeEvent, PilotStatus};

fn s(x: &str) -> String {
    x.to_string()
}

#[test]
fn logon_then_connection_on_the_aircraft() {
    let st = PilotStatus::LogonSent;
    let r = pilot_envelope_step(&st, "ME", "LFPG", &EnvelopeEvent::LogonResponse { accepted: Some(true) });
    assert_eq!(r.status, PilotStatus::LogonAccepted(s("LFPG")));
    assert_eq!(r.notifications, vec![s("Logon Accepted by LFPG")]);
    assert_eq!(r.log_line, Some(s("LOGON RESPONSE")));
    let r = pilot_envelope_step(&r.status, "ME", "LFPG", &EnvelopeEvent::ConnectionRequest);
    assert_eq!(r.status, PilotStatus::ConnectionRequested(s("LFPG")));
    assert_eq!(r.log_line, Some(s("CONNECTION REQUEST")));
    let r = pilot_envelope_step(&r.status, "ME", "LFPG", &EnvelopeEvent::ConnectionConfirm);
    assert_eq!(r.status, PilotStatus::Connected(s("LFPG"), None));
}

#[test]
fn own_envelopes_change_nothing() {
    let st = PilotStatus::Connected(s("LFPG"), None);
    let r = pilot_envelope_step(&st, "ME", "ME", &EnvelopeEvent::TerminationRequest);
    assert_eq!(r.status, st);
    assert!(r.notifications.is_empty());
    assert_eq!(r.log_line, None);
}

#[test]
fn rejected_logon_disconnects() {
    let r = pilot_envelope_step(
        &PilotStatus::LogonSent,
        "ME",
        "LFPG",
        &EnvelopeEvent::LogonResponse { accepted: Some(false) },
    );
    assert_eq!(r.status, PilotStatus::Disconnected);
    assert_eq!(r.notifications, vec![s("Logon REJECTED by LFPG")]);
}

#[test]
fn transfer_with_next_data_authority() {
    let st = PilotStatus::Connected(s("LFPG"), None);
    let r = pilot_envelope_step(
        &st,
        "ME",
        "LFPG",
        &EnvelopeEvent::NextDataAuthority { next_authority: Some(s("EGTT")) },
    );
    assert_eq!(r.status, PilotStatus::Connected(s("LFPG"), Some(s("EGTT"))));
    assert_eq!(
        r.notifications,
        vec![s("Received Handoff instruction from LFPG"), s("NDA Updated: EGTT")]
    );
    // The next station asks for a connection: a forwarded switch begins.
    let r = pilot_envelope_step(&r.status, "ME", "EGTT", &EnvelopeEvent::ConnectionRequest);
    let expected = PilotStatus::Switching {
        current: s("LFPG"),
        next: s("EGTT"),
        next_logon_sent: true,
        next_conn_req: true,
        next_connected: false,
        is_forwarding: true,
    };
    assert_eq!(r.status, expected);
    assert_eq!(r.log_line, Some(s("CONNECTION REQUEST (FWD)")));
    // Terminated before the next connection is confirmed: disconnected.
    let r2 = pilot_envelope_step(&r.status, "ME", "LFPG", &EnvelopeEvent::TerminationRequest);
    assert_eq!(r2.status, PilotStatus::Disconnected);
    assert_eq!(r2.notifications, vec![s("Service Terminated (Incomplete Handoff)")]);
    // Terminated once connected to the next: the next becomes current.
    let connected = PilotStatus::Switching {
        current: s("LFPG"),
        next: s("EGTT"),
        next_logon_sent: true,
        next_conn_req: true,
        next_connected: true,
        is_forwarding: true,
    };
    let r3 = pilot_envelope_step(&connected, "ME", "LFPG", &EnvelopeEvent::TerminationRequest);
    assert_eq!(r3.status, PilotStatus::Connected(s("EGTT"), None));
    assert_eq!(r3.notifications, vec![s("Service Terminated. Connected to EGTT")]);
}

#[test]
fn connection_request_from_the_next_station_while_switching() {
    let st = PilotStatus::Switching {
        current: s("LFPG"),
        next: s("EGTT"),
        next_logon_sent: true,
        next_conn_req: false,
        next_connected: false,
        is_forwarding: false,
    };
    let r = pilot_envelope_step(&st, "ME", "EGTT_CTR", &EnvelopeEvent::ConnectionRequest);
    match r.status {
        PilotStatus::Switching { next, next_conn_req, is_forwarding, .. } => {
            assert_eq!(next, "EGTT_CTR");
            assert!(next_conn_req);
            assert!(!is_forwarding);
        },
        _ => panic!("expected a switch"),
    }
    assert_eq!(r.notifications, vec![s("Connection Request from NDA EGTT_CTR")]);
}

#[test]
fn contact_request_and_log_lines() {
    let st = PilotStatus::Connected(s("LFPG"), None);
    let r = pilot_envelope_step(
        &st,
        "ME",
        "LFPG",
        &EnvelopeEvent::ContactRequest { facility: Some(s("EGTT")), frequency: None },
    );
    assert_eq!(r.status, PilotStatus::ContactReceived(s("LFPG"), s("EGTT")));
    assert_eq!(r.log_line, Some(s("CONTACT EGTT (---)")));
    let bad = pilot_envelope_step(
        &st,
        "ME",
        "LFPG",
        &EnvelopeEvent::ContactRequest { facility: None, frequency: None },
    );
    assert_eq!(bad.status, st);
    assert_eq!(bad.notifications, vec![s("Invalid Contact Request Payload")]);
    let m = pilot_envelope_step(&st, "ME", "LFPG", &EnvelopeEvent::Message { content: None });
    assert_eq!(m.log_line, Some(s("Empty Message")));
    let o = pilot_envelope_step(&st, "ME", "LFPG", &EnvelopeEvent::Other(s("cpdlc.x")));
    assert_eq!(o.log_line, Some(s("MSG: cpdlc.x (Src: LFPG)")));
}

fn state_of(st: &AtcState, cid: &str) -> Option<AtcConnectionState> {
    st.states.iter().find(|(k, _)| k.as_str() == cid).map(|(_, v)| v.clone())
}

#[test]
fn atc_logon_lists_the_flight() {
    let mut st = AtcState::new();
    let out = atc_envelope_step(
        &mut st,
        "ATC1",
        "P42",
        &AtcEvent::LogonRequest { callsign: Some(s("AFR123")) },
    );
    assert_eq!(st.flights, vec![s("P42")]);
    assert_eq!(st.selected, Some(0));
    assert_eq!(state_of(&st, "P42"), Some(AtcConnectionState::LogonReceived));
    assert_eq!(out.notification, Some(s("New message from AFR123")));
    assert_eq!(out.log.len(), 1);
    assert_eq!(out.log[0].source, "AFR123");
    assert_eq!(out.log[0].content, "LOGON REQUEST");
    let out = atc_envelope_step(&mut st, "ATC1", "P42", &AtcEvent::ConnectionConfirm);
    assert_eq!(state_of(&st, "P42"), Some(AtcConnectionState::Connected));
    assert_eq!(out.log[0].content, "CONNECTION CONFIRMED");
    assert_eq!(st.flights.len(), 1);
}

#[test]
fn atc_unknown_envelope_adds_an_unknown_flight() {
    let mut st = AtcState::new();
    let out = atc_envelope_step(&mut st, "ATC1", "P7", &AtcEvent::Other(s("cpdlc.level_change_request")));
    assert_eq!(out.log[0].content, "REQ: cpdlc.level_change_request");
    assert_eq!(out.log[0].source, "P7");
    assert_eq!(state_of(&st, "P7"), Some(AtcConnectionState::Unknown));
    let out = atc_envelope_step(&mut st, "ATC1", "P7", &AtcEvent::Message { min: Some(300) });
    assert_eq!(out.log[0].content, "REQ: cpdlc.message");
    assert_eq!(st.last_received_mins, vec![(s("P7"), 44)]);
}

#[test]
fn atc_transfer_request_and_handover() {
    let mut st = AtcState::new();
    let out = atc_envelope_step(
        &mut st,
        "ATC2",
        "ATC1",
        &AtcEvent::TransferRequest { callsign: Some(s("AFR123")), pilot_cid: Some(s("P42")) },
    );
    assert_eq!(st.flights, vec![s("P42")]);
    assert_eq!(state_of(&st, "P42"), Some(AtcConnectionState::TransferReceived(s("ATC1"))));
    assert_eq!(out.notification, Some(s("Transfer Request for AFR123 from ATC1")));
    assert_eq!(out.log[0].flight, "P42");
    assert_eq!(out.log[0].content, "TRANSFER REQUEST from ATC1");
    let out = atc_envelope_step(&mut st, "ATC2", "ATC1", &AtcEvent::TransferResponse { accepted: None });
    assert_eq!(out.log[0].content, "TRANSFER REJECTED");
    // Handover complete: the flight leaves and a termination goes out.
    st.selected = Some(0);
    let out = atc_envelope_step(&mut st, "ATC2", "P42", &AtcEvent::ContactComplete);
    assert!(st.flights.is_empty());
    assert_eq!(st.selected, None);
    assert_eq!(state_of(&st, "P42"), None);
    assert_eq!(out.terminate, Some(s("P42")));
    assert_eq!(out.notification, Some(s("P42 Disconnected (Handover Complete)")));
    assert_eq!(out.log.len(), 2);
    assert_eq!(out.log[1].source, "ME");
    assert!(!out.log[1].is_incoming);
}

#[test]
fn atc_ignores_its_own_envelopes() {
    let mut st = AtcState::new();
    let out = atc_envelope_step(&mut st, "ATC1", "ATC1", &AtcEvent::ConnectionConfirm);
    assert!(st.flights.is_empty());
    assert!(out.log.is_empty());
    assert_eq!(out.notification, None);
}
