use openlink::nats_claims::{inbox, outbox, server_claims, user_claims};

#[test]
fn station_subjects() {
    assert_eq!(outbox("vatsim", "42"), "openlink.v1.vatsim.outbox.42");
    assert_eq!(inbox("vatsim", "42"), "openlink.v1.vatsim.inbox.42");
}

#[test]
fn user_claims_are_scoped_to_the_cid() {
    let c = user_claims("id-1", "AISSUER", "UABC123", "42", "vatsim", 1_000, 3_600);
    assert_eq!(c.publish_allow, vec!["openlink.v1.vatsim.outbox.42".to_string()]);
    assert_eq!(c.subscribe_allow, vec!["openlink.v1.vatsim.inbox.42".to_string()]);
    assert_eq!(c.sub, "UABC123");
    assert_eq!(c.name, "42");
    assert_eq!(c.iss, "AISSUER");
    assert_eq!(c.exp - c.iat, 3_600);
    assert_eq!(c.claim_type, "user");
    assert_eq!(c.version, 2);
}

#[test]
fn server_claims_cover_the_network() {
    let c = server_claims("id-2", "AISSUER", "USERVER", "icao", 5, 7_200);
    assert_eq!(c.name, "openlink-server-icao");
    assert!(c.publish_allow.contains(&"openlink.v1.icao.inbox.>".to_string()));
    assert!(c.publish_allow.contains(&"$JS.API.>".to_string()));
    assert!(c.subscribe_allow.contains(&"openlink.v1.icao.outbox.>".to_string()));
    assert!(c.subscribe_allow.contains(&"_INBOX.>".to_string()));
    assert_eq!(c.exp, 7_205);
}
