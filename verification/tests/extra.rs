use openlink::auth::{default_network, extract_cid_from_token, AuthError};
use openlink::bridge::{
    bridge_callsigns,
    determine_aircraft_station, hoppie_message_action, logon_response_packet,
    openlink_message_action, HoppieAction, OpenLinkAction, OpenLinkPayloadKind,
};
use openlink::arguments::CpdlcArgument;
use openlink::config::BridgeMode;
use openlink::numbers::{parse_u8, u8_to_text};
use openlink::gui_state::{AppState, SavedStation, SetupFields, StationType};
use openlink::i18n::Locale;
use openlink::hoppie_client::{
    format_cpdlc_packet, parse_cpdlc_packet, parse_message_block, parse_poll_response,
    HoppieError, HoppieMessage, HoppieMessageType,
};
use openlink::session::{hoppie_message_hash, SessionKey, SessionTracker};
use openlink::translator::{
    extract_values_between_segments, hoppie_ra_to_openlink, hoppie_to_openlink,
    is_logon_body, is_logon_response_body, match_body_to_element, openlink_to_hoppie,
    split_template, template_specificity, text_to_argument, try_match_template, ArgType,
    MessageDefinition, MessageDirection, OpenLinkCpdlc, OpenLinkCpdlcMessage, ResponseAttribute,
    TranslateError,
};

fn registry() -> Vec<MessageDefinition> {
    vec![
        MessageDefinition {
            id: "UM19".to_string(),
            template: "MAINTAIN [level]".to_string(),
            args: vec![ArgType::Level],
            direction: MessageDirection::Uplink,
        },
        MessageDefinition {
            id: "UM20".to_string(),
            template: "CLIMB TO [level]".to_string(),
            args: vec![ArgType::Level],
            direction: MessageDirection::Uplink,
        },
        MessageDefinition {
            id: "UM26".to_string(),
            template: "CLIMB TO REACH [level] BY [time]".to_string(),
            args: vec![ArgType::Level, ArgType::Time],
            direction: MessageDirection::Uplink,
        },
        MessageDefinition {
            id: "DM0".to_string(),
            template: "WILCO".to_string(),
            args: vec![],
            direction: MessageDirection::Downlink,
        },
    ]
}

// ── Hoppie wire format ───────────────────────────────────────────────

#[test]
fn format_then_parse_gives_fields_back() {
    let pkt = format_cpdlc_packet("17", Some("12"), "WU", "DESCEND TO FL240/VIA ABC");
    let back = parse_cpdlc_packet(&pkt).unwrap();
    assert_eq!(back.min, "17");
    assert_eq!(back.mrn.as_deref(), Some("12"));
    assert_eq!(back.response_attr, "WU");
    assert_eq!(back.body, "DESCEND TO FL240/VIA ABC");
}

#[test]
fn parse_packet_without_prefix_is_none() {
    assert!(parse_cpdlc_packet("/data1/5//WU/CLIMB").is_none());
    assert!(parse_cpdlc_packet("hello").is_none());
}

#[test]
fn parse_packet_with_too_few_fields_is_none() {
    assert!(parse_cpdlc_packet("/data2/5").is_none());
    assert!(parse_cpdlc_packet("/data2/5/").is_none());
}

#[test]
fn parse_packet_without_text_has_empty_body() {
    let pkt = parse_cpdlc_packet("  /data2/5//NE  ").unwrap();
    assert_eq!(pkt.min, "5");
    assert!(pkt.mrn.is_none());
    assert_eq!(pkt.response_attr, "NE");
    assert_eq!(pkt.body, "");
}

#[test]
fn poll_ok_with_empty_braces_has_no_messages() {
    assert!(parse_poll_response("  ok {}\n").unwrap().is_empty());
}

#[test]
fn poll_error_holds_trimmed_body() {
    match parse_poll_response("  error {illegal logon code}  ") {
        Err(HoppieError::UnexpectedResponse(s)) => assert_eq!(s, "error {illegal logon code}"),
        other => panic!("unexpected {other:?}"),
    }
}

#[test]
fn poll_stops_at_garbage_and_unbalanced_blocks() {
    let msgs = parse_poll_response("ok {A cpdlc {X}} junk {B telex {Y}}").unwrap();
    assert_eq!(msgs.len(), 1);
    let msgs = parse_poll_response("ok {A cpdlc {X}}\n{B telex {Y}").unwrap();
    assert_eq!(msgs.len(), 1);
    assert_eq!(msgs[0].from, "A");
}

#[test]
fn poll_type_is_case_insensitive() {
    let msgs = parse_poll_response("ok {AFR1 CPDLC {/data2/1//N/ROGER}}{X Progress {P}}").unwrap();
    assert_eq!(msgs[0].msg_type, HoppieMessageType::Cpdlc);
    assert_eq!(msgs[1].msg_type, HoppieMessageType::Other("progress".to_string()));
    assert_eq!(msgs[1].msg_type.as_str(), "progress");
}

#[test]
fn message_block_without_braces() {
    let m = parse_message_block("AFR1 telex HELLO WORLD").unwrap();
    assert_eq!(m.from, "AFR1");
    assert_eq!(m.msg_type, HoppieMessageType::Telex);
    assert_eq!(m.packet, "HELLO WORLD");
    assert!(parse_message_block("AFR1").is_none());
    assert!(parse_message_block("AFR1 telex").is_none());
}

// ── Session tracker ─────────────────────────────────────────────────

#[test]
fn session_key_is_upper_case() {
    let key = SessionKey::new("afr123", "lfpg");
    assert_eq!(key.aircraft, "AFR123");
    assert_eq!(key.station, "LFPG");
}

#[test]
fn sessions_count_independently() {
    let mut t = SessionTracker::new();
    let a = SessionKey::new("AFR1", "LFPG");
    let b = SessionKey::new("AFR2", "LFPG");
    assert_eq!(t.next_min(&a), 1);
    assert_eq!(t.next_min(&a), 2);
    assert_eq!(t.next_min(&b), 1);
    t.reset_session(&a);
    assert_eq!(t.next_min(&a), 1);
    assert_eq!(t.next_min(&b), 2);
}

#[test]
fn openlink_mapping_roundtrip_and_reset_scope() {
    let mut t = SessionTracker::default();
    let a = SessionKey::new("AFR1", "LFPG");
    let b = SessionKey::new("AFR2", "LFPG");
    t.record_openlink_min(&a, 4, 9);
    t.record_openlink_min(&b, 4, 7);
    t.record_openlink_min(&a, 4, 11);
    assert_eq!(t.translate_openlink_mrn(&a, 4), Some(11));
    assert_eq!(t.translate_openlink_mrn(&b, 4), Some(7));
    t.reset_session(&a);
    assert_eq!(t.translate_openlink_mrn(&a, 4), None);
    assert_eq!(t.translate_openlink_mrn(&b, 4), Some(7));
}

#[test]
fn hoppie_memory_clears_past_limit() {
    let mut t = SessionTracker::new();
    for h in 0..10_000u64 {
        t.mark_hoppie_seen(h);
    }
    assert!(t.is_hoppie_seen(0));
    t.mark_hoppie_seen(10_000);
    assert!(!t.is_hoppie_seen(0));
    assert!(!t.is_hoppie_seen(10_000));
}

#[test]
fn message_hash_depends_on_both_parts() {
    assert_eq!(hoppie_message_hash("A", "B"), hoppie_message_hash("A", "B"));
    assert_ne!(hoppie_message_hash("AB", ""), hoppie_message_hash("A", "B"));
}

// ── Translation helpers ─────────────────────────────────────────────

#[test]
fn response_attr_shorthands() {
    assert_eq!(hoppie_ra_to_openlink("w/u"), ResponseAttribute::WU);
    assert_eq!(hoppie_ra_to_openlink("A/N"), ResponseAttribute::AN);
    assert_eq!(hoppie_ra_to_openlink("ne"), ResponseAttribute::NE);
    assert_eq!(hoppie_ra_to_openlink("??"), ResponseAttribute::N);
}

#[test]
fn logon_response_bodies() {
    assert_eq!(is_logon_response_body(" logon accepted "), Some(true));
    assert_eq!(is_logon_response_body("LOGON REJECTED"), Some(false));
    assert_eq!(is_logon_response_body("LOGON"), None);
    assert!(is_logon_body("  Logon \n"));
}

#[test]
fn template_specificity_counts_static_text() {
    assert_eq!(template_specificity("CLIMB TO [level]"), 8);
    assert_eq!(template_specificity("AT [time] CLIMB TO [level]"), 10);
    assert_eq!(template_specificity("WILCO"), 5);
    // Static text counts in UTF-8 bytes, as `str::len` does.
    assert_eq!(template_specificity("ÉTÉ [x]"), 5);
}

#[test]
fn split_template_unclosed_placeholder() {
    assert_eq!(split_template("CLIMB TO [level"), vec!["CLIMB TO "]);
    assert_eq!(split_template("[a][b]"), vec!["", "", ""]);
}

#[test]
fn extract_values_prefix_mismatch_and_missing_segment() {
    let segs = vec!["CLIMB TO ".to_string(), "".to_string()];
    assert!(extract_values_between_segments("DESCEND TO FL100", &segs).is_empty());
    let segs = vec!["AT ".to_string(), " CLIMB TO ".to_string(), "".to_string()];
    assert_eq!(extract_values_between_segments("AT 1430 DESCEND", &segs), vec!["1430 DESCEND"]);
}

#[test]
fn try_match_no_arg_template_ignores_case() {
    let reg = registry();
    assert_eq!(try_match_template("wilco", &reg[3]), Some(vec![]));
    assert_eq!(try_match_template("UNABLE", &reg[3]), None);
    assert_eq!(try_match_template("CLIMB TO FL350", &reg[1]), Some(vec![CpdlcArgument::Level(350)]));
    assert_eq!(
        try_match_template("CLIMB TO HIGH", &reg[1]),
        Some(vec![CpdlcArgument::FreeText("HIGH".to_string())])
    );
    assert_eq!(try_match_template("CLIMB TO ", &reg[1]), None);
}

#[test]
fn most_specific_template_wins() {
    let reg = registry();
    let (id, vals) =
        match_body_to_element("CLIMB TO REACH FL350 BY 1200", MessageDirection::Uplink, &reg);
    assert_eq!(id, "UM26");
    assert_eq!(vals, vec![CpdlcArgument::Level(350), CpdlcArgument::Time("1200".to_string())]);
}

#[test]
fn unmatched_body_is_free_text() {
    let reg = registry();
    let (id, vals) = match_body_to_element("  HELLO THERE ", MessageDirection::Downlink, &reg);
    assert_eq!(id, "DM67");
    assert_eq!(vals, vec![CpdlcArgument::FreeText("HELLO THERE".to_string())]);
    let (id, vals) = match_body_to_element("WILCO", MessageDirection::Uplink, &reg);
    assert_eq!(id, "UM67");
    assert_eq!(vals, vec![CpdlcArgument::FreeText("WILCO".to_string())]);
}

#[test]
fn climb_text_matches_um20() {
    let env = hoppie_to_openlink(
        "AFR123",
        "LFPG",
        "/data2/5//WU/CLIMB TO FL350",
        1,
        MessageDirection::Uplink,
        &registry(),
    )
    .unwrap();
    assert_eq!(env.source, "AFR123");
    assert_eq!(env.destination, "LFPG");
    assert_eq!(env.min, 1);
    assert!(env.mrn.is_none());
    assert_eq!(env.element.id, "UM20");
    assert_eq!(env.element.args, vec![CpdlcArgument::Level(350)]);
}

#[test]
fn malformed_packet_is_an_error() {
    let r = hoppie_to_openlink("A", "B", "CLIMB", 1, MessageDirection::Uplink, &registry());
    assert_eq!(r.err(), Some(TranslateError::MalformedPacket));
}

#[test]
fn meta_messages_have_no_hoppie_packet() {
    let env = OpenLinkCpdlc {
        source: "A".to_string(),
        destination: "B".to_string(),
        message: OpenLinkCpdlcMessage::Meta,
    };
    assert!(openlink_to_hoppie(&env).is_none());
}

#[test]
fn openlink_packet_reads_back() {
    let env = OpenLinkCpdlc {
        source: "LFPG".to_string(),
        destination: "AFR123".to_string(),
        message: OpenLinkCpdlcMessage::Application {
            min: 63,
            mrn: None,
            response_attr: ResponseAttribute::WU,
            text: "CLIMB TO FL350".to_string(),
        },
    };
    let out = openlink_to_hoppie(&env).unwrap();
    assert_eq!(out.packet, "/data2/63//WU/CLIMB TO FL350");
    assert_eq!(out.min, 63);
    let back = parse_cpdlc_packet(&out.packet).unwrap();
    assert_eq!(parse_u8(&back.min), Some(63));
    assert_eq!(hoppie_ra_to_openlink(&back.response_attr), ResponseAttribute::WU);
}

#[test]
fn u8_decimal_text() {
    assert_eq!(u8_to_text(0), "0");
    assert_eq!(u8_to_text(7), "7");
    assert_eq!(u8_to_text(42), "42");
    assert_eq!(u8_to_text(255), "255");
}

// ── Bridge decisions ────────────────────────────────────────────────

#[test]
fn parse_u8_like_std() {
    assert_eq!(parse_u8("5"), Some(5));
    assert_eq!(parse_u8("+7"), Some(7));
    assert_eq!(parse_u8("007"), Some(7));
    assert_eq!(parse_u8("255"), Some(255));
    assert_eq!(parse_u8("256"), None);
    assert_eq!(parse_u8(""), None);
    assert_eq!(parse_u8("+"), None);
    assert_eq!(parse_u8("-1"), None);
    assert_eq!(parse_u8("1a"), None);
    for s in ["0", "12", "+200", "999", " 1", "x"] {
        assert_eq!(parse_u8(s), s.parse::<u8>().ok());
    }
}

#[test]
fn aircraft_and_station_by_bridge_callsigns() {
    let bridge = vec!["LFPG".to_string()];
    assert_eq!(
        determine_aircraft_station("AFR1", "LFPG", &bridge),
        ("AFR1".to_string(), "LFPG".to_string())
    );
    assert_eq!(
        determine_aircraft_station("LFPG", "AFR1", &bridge),
        ("AFR1".to_string(), "LFPG".to_string())
    );
}

fn hoppie_msg(from: &str, ty: HoppieMessageType, packet: &str) -> HoppieMessage {
    HoppieMessage { from: from.to_string(), msg_type: ty, packet: packet.to_string() }
}

#[test]
fn hoppie_actions() {
    let mut t = SessionTracker::new();
    let bridge = vec!["LFPG".to_string()];
    let telex = hoppie_msg("AFR1", HoppieMessageType::Telex, "HI");
    assert!(matches!(hoppie_message_action(&mut t, &telex, "LFPG", &bridge), HoppieAction::NotCpdlc));

    let logon = hoppie_msg("AFR1", HoppieMessageType::Cpdlc, "/data2/1//Y/REQUEST LOGON");
    match hoppie_message_action(&mut t, &logon, "LFPG", &bridge) {
        HoppieAction::Logon { aircraft, station } => {
            assert_eq!(aircraft, "AFR1");
            assert_eq!(station, "LFPG");
        }
        other => panic!("unexpected {other:?}"),
    }
    assert!(matches!(hoppie_message_action(&mut t, &logon, "LFPG", &bridge), HoppieAction::Duplicate));

    let echo = hoppie_msg("lfpg", HoppieMessageType::Cpdlc, "/data2/1//N/ROGER");
    assert!(matches!(hoppie_message_action(&mut t, &echo, "LFPG", &bridge), HoppieAction::Echo));

    let bad = hoppie_msg("AFR1", HoppieMessageType::Cpdlc, "GARBAGE");
    assert!(matches!(hoppie_message_action(&mut t, &bad, "LFPG", &bridge), HoppieAction::Malformed));

    let key = SessionKey::new("AFR1", "LFPG");
    t.record_hoppie_min(&key, 3, 40);
    let reply = hoppie_msg("AFR1", HoppieMessageType::Cpdlc, "/data2/9/3/N/WILCO");
    match hoppie_message_action(&mut t, &reply, "LFPG", &bridge) {
        HoppieAction::Relay { aircraft, station, packet, bridge_min, mrn } => {
            assert_eq!(aircraft, "AFR1");
            assert_eq!(station, "LFPG");
            assert_eq!(packet.body, "WILCO");
            assert_eq!(bridge_min, 1);
            assert_eq!(mrn, Some(40));
        }
        other => panic!("unexpected {other:?}"),
    }
    assert_eq!(t.translate_hoppie_mrn(&key, 1), Some(1));
}

#[test]
fn openlink_actions() {
    let mut t = SessionTracker::new();
    let bridge = vec!["LFPG".to_string()];
    let a = openlink_message_action(
        &mut t,
        "id-1",
        OpenLinkPayloadKind::CpdlcApplication { min: 5 },
        false,
        "afr1",
        "lfpg",
        &bridge,
    );
    match a {
        OpenLinkAction::Relay { aircraft, station } => {
            assert_eq!(aircraft, "AFR1");
            assert_eq!(station, "LFPG");
        }
        other => panic!("unexpected {other:?}"),
    }
    assert_eq!(t.translate_openlink_mrn(&SessionKey::new("AFR1", "LFPG"), 5), Some(5));
    let again = openlink_message_action(
        &mut t,
        "id-1",
        OpenLinkPayloadKind::CpdlcApplication { min: 5 },
        false,
        "afr1",
        "lfpg",
        &bridge,
    );
    assert!(matches!(again, OpenLinkAction::Duplicate));
    let own = openlink_message_action(&mut t, "id-2", OpenLinkPayloadKind::CpdlcMeta, true, "X", "Y", &bridge);
    assert!(matches!(own, OpenLinkAction::Echo));
    let net = openlink_message_action(&mut t, "id-3", OpenLinkPayloadKind::NetworkMeta, false, "X", "Y", &bridge);
    assert!(matches!(net, OpenLinkAction::NotCpdlc));
    match openlink_message_action(&mut t, "id-4", OpenLinkPayloadKind::CpdlcMeta, false, "lfpg", "afr1", &bridge) {
        OpenLinkAction::Meta { source, dest } => {
            assert_eq!(source, "LFPG");
            assert_eq!(dest, "AFR1");
        }
        other => panic!("unexpected {other:?}"),
    }
}

#[test]
fn logon_answer_packets() {
    assert_eq!(logon_response_packet(true), "/data2/1//N/LOGON ACCEPTED");
    assert_eq!(logon_response_packet(false), "/data2/1//N/LOGON REJECTED");
}

// ── Configuration, auth, GUI state ──────────────────────────────────

#[test]
fn bridge_mode_names() {
    for m in [BridgeMode::Ground, BridgeMode::Aircraft, BridgeMode::Full] {
        assert_eq!(BridgeMode::from_str(m.as_str()), Ok(m));
    }
    assert_eq!(BridgeMode::from_str("GROUND"), Ok(BridgeMode::Ground));
    assert_eq!(BridgeMode::from_str("Sky"), Err("unknown bridge mode: sky".to_string()));
    assert!(BridgeMode::Full.polls_hoppie() && BridgeMode::Full.relays_openlink());
    assert!(BridgeMode::Ground.polls_hoppie() && !BridgeMode::Ground.relays_openlink());
    assert!(!BridgeMode::Aircraft.polls_hoppie() && BridgeMode::Aircraft.relays_openlink());
}

#[test]
fn auth_errors_and_defaults() {
    assert_eq!(default_network(), "demonetwork");
    match extract_cid_from_token("vatsim_") {
        Err(AuthError::OidcExchangeFailed(m)) => {
            assert_eq!(m, "unexpected access_token format: vatsim_")
        }
        other => panic!("unexpected {other:?}"),
    }
    assert_eq!(AuthError::UnknownNetwork("x".to_string()).status_code(), 400);
    assert_eq!(AuthError::OidcExchangeFailed("x".to_string()).status_code(), 401);
    assert_eq!(AuthError::NKeyError("x".to_string()).status_code(), 500);
    assert_eq!(extract_cid_from_token("_").is_err(), true);
}

fn station(callsign: &str) -> SavedStation {
    SavedStation {
        station_type: StationType::Atc,
        network_id: "vatsim".to_string(),
        network_address: "1".to_string(),
        callsign: callsign.to_string(),
        acars_address: "X".to_string(),
    }
}

#[test]
fn saved_stations_have_no_duplicates() {
    let mut app = AppState::new(Vec::new(), 1);
    assert!(app.save_station(station("LFPG")));
    assert!(!app.save_station(station("LFPG")));
    assert!(app.save_station(station("EGLL")));
    assert_eq!(app.saved_stations.len(), 2);
    assert_eq!(app.saved_stations[1].callsign, "EGLL");
}

#[test]
fn locale_and_setup_defaults() {
    assert_eq!(Locale::Fr.label(), "FR");
    assert_eq!(Locale::Fr.next(), Locale::En);
    assert_eq!(Locale::En.next().next(), Locale::En);
    let s = SetupFields::default();
    assert_eq!(s.network_id, "demonetwork");
    assert_eq!(s.station_type, StationType::Aircraft);
}

#[test]
fn bridge_serves_each_callsign_once_in_upper_case() {
    let cs = vec!["afr1".to_string(), "AFR1".to_string(), "dlh2".to_string()];
    assert_eq!(bridge_callsigns(&cs), vec!["AFR1".to_string(), "DLH2".to_string()]);
    assert!(bridge_callsigns(&[]).is_empty());
}

#[test]
fn argument_texts_become_typed_arguments() {
    assert_eq!(text_to_argument("FL350", ArgType::Level), CpdlcArgument::Level(350));
    assert_eq!(text_to_argument("12000", ArgType::Level), CpdlcArgument::Level(12000));
    assert_eq!(
        text_to_argument("HIGH", ArgType::Level),
        CpdlcArgument::FreeText("HIGH".to_string())
    );
    assert_eq!(text_to_argument("270", ArgType::Degrees), CpdlcArgument::Degrees(270));
    assert_eq!(text_to_argument("WEST", ArgType::Degrees), CpdlcArgument::Degrees(0));
    assert_eq!(
        text_to_argument("250 KT", ArgType::Speed),
        CpdlcArgument::Speed("250 KT".to_string())
    );
}
