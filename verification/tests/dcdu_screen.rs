use openlink::dcdu_screen::{
    dcdu_screen, downlink_menu, edit_logon_input, has_compose_queue, logon_request_text, msg_next,
    msg_prev, phase_badge, short_response_sent,
};
use openlink::gui_state::{AppState, CpdlcConnectionPhase, ReceivedMessage, TabState};
use openlink::translator::{MessageDefinition, MessageDirection};
use openlink::responses::CpdlcResponseIntent::{Standby, Unable, Wilco};

fn row(ts: i64, outgoing: bool, min: Option<u8>, mrn: Option<u8>, text: &str) -> ReceivedMessage {
    ReceivedMessage {
        timestamp: ts,
        raw_json: String::new(),
        from_callsign: None,
        to_callsign: None,
        display_text: Some(text.to_string()),
        is_outgoing: outgoing,
        min,
        mrn,
        response_attr: None,
        responded: false,
    }
}

#[test]
fn empty_screen() {
    let s = dcdu_screen(&[], &[], -1, &[], true, false, "");
    assert!(s.visible.is_empty());
    assert_eq!(s.effective_idx, -1);
    assert_eq!(s.current, None);
    assert!(!s.show_responses);
    assert_eq!(s.lower_status, "");
}

#[test]
fn latest_uplink_is_shown_with_its_buttons() {
    let msgs = vec![
        row(1, false, Some(4), None, "CLIMB TO FL350"),
        row(2, true, Some(0), Some(4), "WILCO"),
        row(3, false, Some(5), None, "DESCEND TO FL100"),
    ];
    let offered = vec![vec![Wilco, Unable, Standby], vec![], vec![Wilco, Unable, Standby]];
    let s = dcdu_screen(&msgs, &offered, 99, &[], true, false, "");
    // The WILCO answers MIN 4 and is not a page of its own.
    assert_eq!(s.visible, vec![0, 2]);
    assert_eq!(s.effective_idx, 1);
    assert_eq!(s.current, Some(2));
    assert_eq!(s.current_min, Some(5));
    assert!(s.linked.is_empty());
    assert!(s.show_responses);
    assert_eq!(s.response_grid.top_left, Some(Unable));
    assert_eq!(s.response_grid.top_right, Some(Standby));
    assert_eq!(s.response_grid.bot_left, None);
    assert_eq!(s.response_grid.bot_right, Some(Wilco));
    assert_eq!(s.current_open_min, Some(5));
    assert_eq!(s.lower_status, "SENT");
}

#[test]
fn paging_back_shows_the_answers_to_an_uplink() {
    let msgs = vec![
        row(1, false, Some(4), None, "CLIMB TO FL350"),
        row(2, true, Some(0), Some(4), "STANDBY"),
        row(3, false, Some(5), None, "DESCEND TO FL100"),
    ];
    let offered = vec![vec![Wilco, Unable, Standby], vec![], vec![Wilco]];
    let s = dcdu_screen(&msgs, &offered, 0, &[4], true, true, "");
    assert_eq!(s.current, Some(0));
    assert_eq!(s.linked, vec![1]);
    // A STANDBY was sent for MIN 4: it is no longer offered.
    assert_eq!(s.effective_intents, vec![Wilco, Unable]);
    assert_eq!(s.lower_status, "SENDING");
    // A draft reply hides the buttons; a status line takes precedence.
    let s = dcdu_screen(&msgs, &offered, 0, &[], false, false, "STBY SENT");
    assert!(!s.show_responses);
    assert_eq!(s.response_grid.top_left, None);
    assert_eq!(s.lower_status, "STBY SENT");
}

#[test]
fn answered_or_sent_rows_offer_nothing() {
    let mut msgs = vec![row(1, false, Some(4), None, "CLIMB TO FL350")];
    msgs[0].responded = true;
    let s = dcdu_screen(&msgs, &[vec![Wilco]], 0, &[], true, false, "");
    assert!(!s.show_responses);
    assert_eq!(s.current_open_min, None);
    let out = vec![row(1, true, Some(2), None, "REQUEST CLIMB")];
    let s = dcdu_screen(&out, &[vec![Wilco]], 0, &[], true, false, "");
    assert!(!s.show_responses);
    assert!(s.linked.is_empty());
}

#[test]
fn msg_keys_page_through() {
    assert_eq!(msg_prev(3), Some(2));
    assert_eq!(msg_prev(0), None);
    assert_eq!(msg_next(0, 3), Some(1));
    assert_eq!(msg_next(2, 3), None);
    assert_eq!(msg_next(-1, 0), None);
}

fn down(id: &str, template: &str) -> MessageDefinition {
    MessageDefinition {
        id: id.to_string(),
        template: template.to_string(),
        args: Vec::new(),
        direction: MessageDirection::Downlink,
    }
}

#[test]
fn downlink_menu_is_numbered_and_searchable() {
    let reg = vec![
        down("DM9", "REQUEST CLIMB TO [level]"),
        MessageDefinition {
            id: "UM20".to_string(),
            template: "CLIMB TO [level]".to_string(),
            args: Vec::new(),
            direction: MessageDirection::Uplink,
        },
        down("DM6", "REQUEST [level]"),
        down("DM67", "[freetext]"),
        down("DMX", "request voice contact"),
        down("DM6B", "REQUEST LEVEL B"),
    ];
    // Numbers order the menu; "DMX" and "DM6B" have none (65535), registry order among them.
    assert_eq!(downlink_menu(&reg, ""), vec![2, 0, 3, 4, 5]);
    assert_eq!(downlink_menu(&reg, "CLIMB"), vec![0]);
    assert_eq!(downlink_menu(&reg, "VOICE"), vec![4]);
    assert!(downlink_menu(&reg, "climb").is_empty());
}

#[test]
fn logon_field_takes_four_bytes() {
    let mut app = AppState::new(Vec::new(), 1);
    edit_logon_input(&mut app, 1, "lfpg");
    assert_eq!(app.tabs[0].logon_input, "LFPG");
    edit_logon_input(&mut app, 1, "lfpgx");
    assert_eq!(app.tabs[0].logon_input, "LFPG");
    assert_eq!(logon_request_text(&app.tabs[0]), Some("LOGON REQUEST → LFPG".to_string()));
    edit_logon_input(&mut app, 1, "eg");
    assert_eq!(logon_request_text(&app.tabs[0]), None);
    // A non-ASCII letter takes two bytes.
    edit_logon_input(&mut app, 1, "ééé");
    assert_eq!(app.tabs[0].logon_input, "EG");
}

#[test]
fn compose_queue_and_badges() {
    let mut tab = TabState::new(1);
    assert!(!has_compose_queue(&tab));
    tab.compose_mode = true;
    assert!(!has_compose_queue(&tab));
    tab.compose_mrn = Some(3);
    assert!(has_compose_queue(&tab));
    assert_eq!(phase_badge(CpdlcConnectionPhase::LoggedOn), "logon");
    assert_eq!(phase_badge(CpdlcConnectionPhase::Terminated), "terminated");
}

#[test]
fn standby_is_remembered_until_another_response() {
    let mut sent: Vec<u8> = vec![3];
    assert_eq!(short_response_sent(&mut sent, Standby, 5), "STBY SENT");
    assert_eq!(sent, vec![3, 5]);
    assert_eq!(short_response_sent(&mut sent, Standby, 5), "STBY SENT");
    assert_eq!(sent, vec![3, 5]);
    assert_eq!(short_response_sent(&mut sent, Wilco, 5), "SENT");
    assert_eq!(sent, vec![3]);
    assert_eq!(short_response_sent(&mut sent, Unable, 9), "SENT");
    assert_eq!(sent, vec![3]);
}
