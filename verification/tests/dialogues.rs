use openlink::dialogues::{
    build_pending_dialogues, is_within_retention, DialogueFlag, MessageFacts, PayloadFacts, PendingDialogue,
};
use openlink::gui_state::ReceivedMessage;
use openlink::responses::CpdlcResponseIntent::{self, Affirm, Standby, Unable, Wilco};
use openlink::translator::ResponseAttribute;

fn row(
    ts: i64,
    outgoing: bool,
    peer: &str,
    text: &str,
    min: Option<u8>,
    mrn: Option<u8>,
) -> ReceivedMessage {
    ReceivedMessage {
        timestamp: ts,
        raw_json: String::new(),
        from_callsign: if outgoing { None } else { Some(peer.to_string()) },
        to_callsign: if outgoing { Some(peer.to_string()) } else { None },
        display_text: Some(text.to_string()),
        is_outgoing: outgoing,
        min,
        mrn,
        response_attr: None,
        responded: false,
    }
}

fn app(ids: &[&str], closes: bool, short: &[CpdlcResponseIntent]) -> MessageFacts {
    MessageFacts {
        payload: PayloadFacts::Application {
            element_ids: ids.iter().map(|s| s.to_string()).collect(),
            logical_ack: false,
            closes_dialogue: closes,
            short_intents: short.to_vec(),
        },
        attr_intents: Vec::new(),
    }
}

fn local() -> MessageFacts {
    MessageFacts { payload: PayloadFacts::Local, attr_intents: Vec::new() }
}

/// A moment shortly after every row of the tests.
const NOW: i64 = 1_000;

fn ids(cards: &[PendingDialogue]) -> Vec<(String, u8)> {
    cards.iter().map(|c| (c.aircraft_callsign.clone(), c.priority)).collect()
}

#[test]
fn received_request_needs_a_response() {
    let msgs = vec![row(100, false, "AFR123", "REQUEST CLIMB TO FL350", Some(5), None)];
    let mut facts = vec![app(&["DM9"], false, &[Wilco, Unable])];
    facts[0].attr_intents = vec![Standby, Unable];
    let cards = build_pending_dialogues(&msgs, &facts, NOW);
    assert_eq!(cards.len(), 1);
    let c = &cards[0];
    assert_eq!(c.aircraft_callsign, "AFR123");
    assert_eq!(c.action_min, Some(5));
    assert_eq!(c.display_text, "REQUEST CLIMB TO FL350");
    assert_eq!(c.response_intents, vec![Wilco, Unable, Standby]);
    assert!(!c.is_y_response);
    assert_eq!(c.card_class, "pending-request-item");
    assert_eq!(c.flag, DialogueFlag::Unmarked);
    assert_eq!(c.priority, 0);
    assert_eq!(c.timestamp, 100);
}

#[test]
fn request_without_offered_responses_gets_the_default_buttons() {
    let msgs = vec![row(100, false, "AFR123", "FREE TEXT", Some(5), None)];
    let facts = vec![app(&["DM67"], false, &[])];
    let cards = build_pending_dialogues(&msgs, &facts, NOW);
    assert_eq!(cards[0].response_intents, vec![Wilco, Unable, Standby]);
}

#[test]
fn y_request_offers_unable_and_standby() {
    let mut msgs = vec![row(100, false, "AFR123", "WHEN CAN WE EXPECT", Some(5), None)];
    msgs[0].response_attr = Some(ResponseAttribute::Y);
    let facts = vec![app(&["DM49"], false, &[Affirm])];
    let cards = build_pending_dialogues(&msgs, &facts, NOW);
    assert!(cards[0].is_y_response);
    assert_eq!(cards[0].response_intents, vec![Unable, Standby]);
}

#[test]
fn recent_closing_response_shows_a_closed_card() {
    let msgs = vec![
        row(100, false, "AFR123", "REQUEST CLIMB TO FL350", Some(5), None),
        row(200, true, "AFR123", "WILCO", Some(1), Some(5)),
    ];
    let facts = vec![app(&["DM9"], false, &[Wilco, Unable]), local()];
    let cards = build_pending_dialogues(&msgs, &facts, NOW);
    assert_eq!(cards.len(), 1);
    let c = &cards[0];
    assert_eq!(c.priority, 2);
    assert_eq!(c.card_class, "pending-request-item closed-positive");
    assert_eq!(c.flag, DialogueFlag::Closed { intent: Wilco, positive: true });
    assert_eq!(c.display_text, "REQUEST CLIMB TO FL350");
    assert_eq!(c.action_min, Some(5));
    assert!(c.response_intents.is_empty());
    assert_eq!(c.timestamp, 200);
}

#[test]
fn old_closed_dialogue_is_dropped() {
    let msgs = vec![
        row(100, false, "AFR123", "REQUEST CLIMB TO FL350", Some(5), None),
        row(200, true, "AFR123", "UNABLE", Some(1), Some(5)),
    ];
    let facts = vec![app(&["DM9"], false, &[Wilco, Unable]), local()];
    // 61 seconds after the UNABLE the dialogue is gone; 60.999 s after, it is kept.
    assert!(build_pending_dialogues(&msgs, &facts, 61_200).is_empty());
    assert_eq!(build_pending_dialogues(&msgs, &facts, 61_199).len(), 1);
}

#[test]
fn negative_closure_is_marked_negative() {
    let msgs = vec![
        row(100, false, "AFR123", "REQUEST CLIMB TO FL350", Some(5), None),
        row(200, true, "AFR123", "UNABLE", Some(1), Some(5)),
    ];
    let facts = vec![app(&["DM9"], false, &[Wilco, Unable]), local()];
    let cards = build_pending_dialogues(&msgs, &facts, NOW);
    assert_eq!(cards[0].card_class, "pending-request-item closed-negative");
    assert_eq!(cards[0].flag, DialogueFlag::Closed { intent: Unable, positive: false });
}

#[test]
fn sent_uplink_waits_as_monitoring_card() {
    let msgs = vec![row(300, true, "DLH1", "CLIMB TO FL350", Some(3), None)];
    let facts = vec![app(&["UM20"], false, &[Wilco, Unable])];
    let cards = build_pending_dialogues(&msgs, &facts, NOW);
    assert_eq!(cards.len(), 1);
    let c = &cards[0];
    assert_eq!(c.aircraft_callsign, "DLH1");
    assert_eq!(c.action_min, None);
    assert!(c.response_intents.is_empty());
    assert_eq!(c.flag, DialogueFlag::Received(300));
    assert_eq!(c.priority, 1);
}

#[test]
fn standby_from_aircraft_points_at_the_uplink() {
    let msgs = vec![
        row(300, true, "DLH1", "CLIMB TO FL350", Some(2), None),
        row(400, false, "DLH1", "STANDBY", Some(6), Some(2)),
    ];
    let facts = vec![app(&["UM20"], false, &[Wilco, Unable]), app(&["DM2"], false, &[])];
    let cards = build_pending_dialogues(&msgs, &facts, NOW);
    assert_eq!(cards.len(), 1);
    let c = &cards[0];
    assert_eq!(c.card_class, "pending-request-item standby-aircraft");
    assert_eq!(c.flag, DialogueFlag::Standby(400));
    assert_eq!(c.display_text, "CLIMB TO FL350");
    assert_eq!(c.action_min, Some(2));
    assert_eq!(c.response_intents, vec![Wilco, Unable]);
    assert_eq!(c.priority, 0);
}

#[test]
fn standby_from_atc_drops_the_standby_button() {
    let msgs = vec![
        row(100, false, "AFR123", "REQUEST DIRECT TO LACOU", Some(4), None),
        row(150, true, "AFR123", " standby ", Some(1), Some(4)),
    ];
    let facts = vec![app(&["DM22"], false, &[Wilco, Unable, Standby]), local()];
    let cards = build_pending_dialogues(&msgs, &facts, NOW);
    assert_eq!(cards.len(), 1);
    let c = &cards[0];
    assert_eq!(c.card_class, "pending-request-item standby-atc");
    assert_eq!(c.flag, DialogueFlag::Standby(150));
    assert_eq!(c.response_intents, vec![Wilco, Unable]);
    assert_eq!(c.display_text, "REQUEST DIRECT TO LACOU");
    assert_eq!(c.priority, 0);
}

#[test]
fn acknowledgements_and_logon_lines_are_not_dialogues() {
    let msgs = vec![
        row(100, false, "AFR123", "LOGICAL ACKNOWLEDGMENT", Some(7), Some(1)),
        row(110, true, "AFR123", "LOGON ACCEPTED", Some(8), None),
        row(120, false, "AFR123", "REQUEST", None, None),
    ];
    let facts = vec![local(), local(), app(&["DM6"], false, &[])];
    assert!(build_pending_dialogues(&msgs, &facts, NOW).is_empty());
}

#[test]
fn queue_is_ordered_by_priority_then_latest_first() {
    let msgs = vec![
        row(100, true, "DLH1", "CLIMB TO FL350", Some(3), None),
        row(200, false, "AFR1", "REQUEST A", Some(1), None),
        row(300, false, "AFR2", "REQUEST B", Some(1), None),
        row(400, false, "AFR3", "REQUEST C", Some(9), None),
        row(500, true, "AFR3", "ROGER", Some(2), Some(9)),
    ];
    let facts = vec![
        app(&["UM20"], false, &[Wilco]),
        app(&["DM6"], false, &[Wilco]),
        app(&["DM6"], false, &[Wilco]),
        app(&["DM6"], false, &[Wilco]),
        local(),
    ];
    let cards = build_pending_dialogues(&msgs, &facts, NOW);
    assert_eq!(
        ids(&cards),
        vec![
            ("AFR2".to_string(), 0),
            ("AFR1".to_string(), 0),
            ("DLH1".to_string(), 1),
            ("AFR3".to_string(), 2),
        ]
    );
}

#[test]
fn same_min_of_two_aircraft_are_two_dialogues() {
    let msgs = vec![
        row(100, false, "AFR1", "REQUEST A", Some(1), None),
        row(200, false, "AFR2", "REQUEST B", Some(1), None),
    ];
    let facts = vec![app(&["DM6"], false, &[]), app(&["DM6"], false, &[])];
    assert_eq!(build_pending_dialogues(&msgs, &facts, NOW).len(), 2);
}

#[test]
fn closed_dialogues_are_kept_for_a_minute() {
    assert!(is_within_retention(0, 60_999));
    assert!(!is_within_retention(0, 61_000));
    assert!(is_within_retention(5_000, 0));
}
