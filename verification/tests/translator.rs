use openlink::arguments::CpdlcArgument;
use openlink::translator::{
    extract_values_between_segments, hoppie_ra_to_openlink, is_logon_body,
    response_attr_to_hoppie, split_template, ResponseAttribute,
};

#[test]
fn test_split_template() {
    let segments = split_template("CLIMB TO [level]");
    assert_eq!(segments, vec!["CLIMB TO ", ""]);
}

#[test]
fn test_split_template_multi_arg() {
    let segments = split_template("AT [time] CLIMB TO [level]");
    assert_eq!(segments, vec!["AT ", " CLIMB TO ", ""]);
}

#[test]
fn test_extract_values_single() {
    let segments = vec!["CLIMB TO ".to_string(), "".to_string()];
    let values = extract_values_between_segments("CLIMB TO FL350", &segments);
    assert_eq!(values, vec!["FL350"]);
}

#[test]
fn test_extract_values_multi() {
    let segments = vec!["AT ".to_string(), " CLIMB TO ".to_string(), "".to_string()];
    let values = extract_values_between_segments("AT 1430 CLIMB TO FL350", &segments);
    assert_eq!(values, vec!["1430", "FL350"]);
}

#[test]
fn test_response_attr_roundtrip() {
    for ra in [
        ResponseAttribute::WU,
        ResponseAttribute::AN,
        ResponseAttribute::R,
        ResponseAttribute::Y,
        ResponseAttribute::N,
        ResponseAttribute::NE,
    ] {
        let hoppie = response_attr_to_hoppie(ra);
        let back = hoppie_ra_to_openlink(hoppie);
        assert_eq!(ra, back, "roundtrip failed for {ra:?}");
    }
}

#[test]
fn test_is_logon_body() {
    assert!(is_logon_body("REQUEST LOGON"));
    assert!(is_logon_body("request logon"));
    assert!(is_logon_body("LOGON"));
    assert!(!is_logon_body("CLIMB TO FL350"));
}

use openlink::translator::{
    hoppie_to_openlink, openlink_to_hoppie, ArgType, MessageDefinition, MessageDirection,
    OpenLinkCpdlc, OpenLinkCpdlcMessage,
};

fn registry() -> Vec<MessageDefinition> {
    vec![
        MessageDefinition {
            id: "UM20".to_string(),
            template: "CLIMB TO [level]".to_string(),
            args: vec![ArgType::Level],
            direction: MessageDirection::Uplink,
        },
        MessageDefinition {
            id: "DM0".to_string(),
            template: "WILCO".to_string(),
            args: vec![],
            direction: MessageDirection::Downlink,
        },
    ]
}

#[test]
fn test_hoppie_to_openlink_wilco() {
    let env = hoppie_to_openlink(
        "AFR123",
        "LFPG",
        "/data2/6/5/N/WILCO",
        2,
        MessageDirection::Downlink,
        &registry(),
    )
    .unwrap();

    assert_eq!(env.min, 2);
    assert_eq!(env.mrn, Some(5));
    assert_eq!(env.element.id, "DM0");
}

#[test]
fn test_openlink_to_hoppie_wilco() {
    // DM0 renders as "WILCO" with the effective response attribute N.
    let env = OpenLinkCpdlc {
        source: "AFR123".to_string(),
        destination: "LFPG".to_string(),
        message: OpenLinkCpdlcMessage::Application {
            min: 2,
            mrn: Some(1),
            response_attr: ResponseAttribute::N,
            text: "WILCO".to_string(),
        },
    };

    let out = openlink_to_hoppie(&env).unwrap();
    assert_eq!(out.from, "AFR123");
    assert_eq!(out.peer, "LFPG");
    assert_eq!(out.packet, "/data2/2/1/N/WILCO");
}

#[test]
fn test_hoppie_to_openlink_climb() {
    let env = hoppie_to_openlink(
        "AFR123",
        "LFPG",
        "/data2/5//WU/CLIMB TO FL350",
        1,
        MessageDirection::Uplink,
        &registry(),
    )
    .unwrap();

    assert_eq!(env.source, "AFR123");
    assert_eq!(env.destination, "LFPG");
    assert_eq!(env.min, 1);
    assert!(env.mrn.is_none());
    assert_eq!(env.element.id, "UM20");
    assert_eq!(env.element.args, vec![CpdlcArgument::Level(350)]);
}
