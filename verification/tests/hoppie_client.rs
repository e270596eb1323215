use openlink::hoppie_client::{
    format_cpdlc_packet, parse_cpdlc_packet, parse_poll_response, HoppieMessageType,
};

#[test]
fn parse_empty_poll() {
    let msgs = parse_poll_response("ok").unwrap();
    assert!(msgs.is_empty());
}

#[test]
fn parse_single_message() {
    let body = "ok {AFR123 cpdlc {/data2/5//WU/CLIMB TO FL350}}";
    let msgs = parse_poll_response(body).unwrap();
    assert_eq!(msgs.len(), 1);
    assert_eq!(msgs[0].from, "AFR123");
    assert_eq!(msgs[0].msg_type, HoppieMessageType::Cpdlc);
    assert_eq!(msgs[0].packet, "/data2/5//WU/CLIMB TO FL350");
}

#[test]
fn parse_multiple_messages() {
    let body = "ok {AFR123 cpdlc {/data2/5//WU/CLIMB TO FL350}}{BAW456 telex {HELLO}}";
    let msgs = parse_poll_response(body).unwrap();
    assert_eq!(msgs.len(), 2);
    assert_eq!(msgs[0].from, "AFR123");
    assert_eq!(msgs[1].from, "BAW456");
    assert_eq!(msgs[1].msg_type, HoppieMessageType::Telex);
}

#[test]
fn parse_cpdlc_packet_basic() {
    let pkt = parse_cpdlc_packet("/data2/5//WU/CLIMB TO FL350").unwrap();
    assert_eq!(pkt.min, "5");
    assert!(pkt.mrn.is_none());
    assert_eq!(pkt.response_attr, "WU");
    assert_eq!(pkt.body, "CLIMB TO FL350");
}

#[test]
fn parse_cpdlc_packet_with_mrn() {
    let pkt = parse_cpdlc_packet("/data2/6/5/N/WILCO").unwrap();
    assert_eq!(pkt.min, "6");
    assert_eq!(pkt.mrn.as_deref(), Some("5"));
    assert_eq!(pkt.response_attr, "N");
    assert_eq!(pkt.body, "WILCO");
}

#[test]
fn parse_cpdlc_logon_request() {
    let pkt = parse_cpdlc_packet("/data2/5//Y/REQUEST LOGON").unwrap();
    assert_eq!(pkt.min, "5");
    assert!(pkt.mrn.is_none());
    assert_eq!(pkt.response_attr, "Y");
    assert_eq!(pkt.body, "REQUEST LOGON");
}

#[test]
fn format_cpdlc_packet_basic() {
    let pkt = format_cpdlc_packet("5", None, "WU", "CLIMB TO FL350");
    assert_eq!(pkt, "/data2/5//WU/CLIMB TO FL350");
}

#[test]
fn format_cpdlc_packet_with_mrn() {
    let pkt = format_cpdlc_packet("6", Some("5"), "N", "WILCO");
    assert_eq!(pkt, "/data2/6/5/N/WILCO");
}

#[test]
fn hoppie_error_response() {
    let result = parse_poll_response("error {illegal logon code}");
    assert!(result.is_err());
}
