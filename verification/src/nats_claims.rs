//! The claims of the NATS user tokens that the auth service signs: each
//! station may publish only on its own outbox subject and subscribe only to
//! its own inbox subject; the bridge server gets every inbox and outbox of
//! its network and the JetStream API. Signing itself needs the NKey
//! library and stays outside.
use vstd::prelude::*;
use vstd::string::*;
use crate::text::joined;

verus! {

broadcast use vstd::string::group_string_axioms;

/// The subject prefix of a network: `openlink.v1.{network}.`.
pub open spec fn network_prefix(network: Seq<char>) -> Seq<char> {
    "openlink.v1."@ + network + "."@
}

/// The outbox subject of a station: `openlink.v1.{network}.outbox.{address}`.
pub open spec fn spec_outbox(network: Seq<char>, address: Seq<char>) -> Seq<char> {
    network_prefix(network) + "outbox."@ + address
}

/// The inbox subject of a station: `openlink.v1.{network}.inbox.{address}`.
pub open spec fn spec_inbox(network: Seq<char>, address: Seq<char>) -> Seq<char> {
    network_prefix(network) + "inbox."@ + address
}

/// The outbox subject of a station on a network.
pub fn outbox(network: &str, address: &str) -> (r: String)
    ensures
        r@ == spec_outbox(network@, address@),
{
    let a = joined("openlink.v1.", network);
    let b = joined(a.as_str(), ".outbox.");
    let r = joined(b.as_str(), address);
    proof {
        reveal_strlit(".outbox.");
        reveal_strlit(".");
        reveal_strlit("outbox.");
        assert(r@ =~= spec_outbox(network@, address@));
    }
    r
}

/// The inbox subject of a station on a network.
pub fn inbox(network: &str, address: &str) -> (r: String)
    ensures
        r@ == spec_inbox(network@, address@),
{
    let a = joined("openlink.v1.", network);
    let b = joined(a.as_str(), ".inbox.");
    let r = joined(b.as_str(), address);
    proof {
        reveal_strlit(".inbox.");
        reveal_strlit(".");
        reveal_strlit("inbox.");
        assert(r@ =~= spec_inbox(network@, address@));
    }
    r
}

/// The claims of a NATS user token.
#[derive(Debug, Clone)]
pub struct NatsUserClaims {
    pub jti: String,
    pub iat: u64,
    pub exp: u64,
    pub iss: String,
    pub name: String,
    pub sub: String,
    pub claim_type: String,
    pub version: i32,
    pub publish_allow: Vec<String>,
    pub subscribe_allow: Vec<String>,
}

/// The views of a list of texts.
pub open spec fn subjects(v: Seq<String>) -> Seq<Seq<char>> {
    v.map_values(|s: String| s@)
}

/// The claims fields every token shares: id `jti`, issued at `now`, expiring
/// `ttl_secs` later, issued by `issuer` for the key `user_nkey`, a version 2
/// user claim.
pub open spec fn common_claims(
    c: NatsUserClaims,
    jti: Seq<char>,
    issuer: Seq<char>,
    user_nkey: Seq<char>,
    now: u64,
    ttl_secs: u64,
) -> bool {
    &&& c.jti@ == jti
    &&& c.iat == now
    &&& c.exp == now + ttl_secs
    &&& c.iss@ == issuer
    &&& c.sub@ == user_nkey
    &&& c.claim_type@ == "user"@
    &&& c.version == 2
}

fn one_subject(s: String) -> (r: Vec<String>)
    ensures
        subjects(r@) == seq![s@],
{
    let mut v: Vec<String> = Vec::new();
    v.push(s);
    proof {
        assert(subjects(v@) =~= seq![s@]);
    }
    v
}

/// The claims of a station's token: named by its CID, it may publish on its
/// outbox and subscribe to its inbox on `network`, and nothing else.
pub fn user_claims(
    jti: &str,
    issuer: &str,
    user_nkey: &str,
    cid: &str,
    network: &str,
    now: u64,
    ttl_secs: u64,
) -> (r: NatsUserClaims)
    requires
        now + ttl_secs <= u64::MAX,
    ensures
        common_claims(r, jti@, issuer@, user_nkey@, now, ttl_secs),
        r.name@ == cid@,
        subjects(r.publish_allow@) == seq![spec_outbox(network@, cid@)],
        subjects(r.subscribe_allow@) == seq![spec_inbox(network@, cid@)],
{
    NatsUserClaims {
        jti: jti.to_owned(),
        iat: now,
        exp: now + ttl_secs,
        iss: issuer.to_owned(),
        name: cid.to_owned(),
        sub: user_nkey.to_owned(),
        claim_type: "user".to_owned(),
        version: 2,
        publish_allow: one_subject(outbox(network, cid)),
        subscribe_allow: one_subject(inbox(network, cid)),
    }
}

/// The claims of the bridge server's token on `network`: named
/// `openlink-server-{network}`, it may publish to every inbox and subscribe
/// to every outbox of the network, and use the JetStream API and reply
/// inboxes both ways.
pub fn server_claims(
    jti: &str,
    issuer: &str,
    user_nkey: &str,
    network: &str,
    now: u64,
    ttl_secs: u64,
) -> (r: NatsUserClaims)
    requires
        now + ttl_secs <= u64::MAX,
    ensures
        common_claims(r, jti@, issuer@, user_nkey@, now, ttl_secs),
        r.name@ == "openlink-server-"@ + network@,
        subjects(r.publish_allow@) == seq![
            spec_inbox(network@, ">"@),
            "$JS.API.>"@,
            "_INBOX.>"@,
        ],
        subjects(r.subscribe_allow@) == seq![
            spec_outbox(network@, ">"@),
            "$JS.API.>"@,
            "_INBOX.>"@,
        ],
{
    let mut publish: Vec<String> = Vec::new();
    publish.push(inbox(network, ">"));
    publish.push("$JS.API.>".to_owned());
    publish.push("_INBOX.>".to_owned());
    let mut subscribe: Vec<String> = Vec::new();
    subscribe.push(outbox(network, ">"));
    subscribe.push("$JS.API.>".to_owned());
    subscribe.push("_INBOX.>".to_owned());
    proof {
        assert(subjects(publish@) =~= seq![
            spec_inbox(network@, ">"@),
            "$JS.API.>"@,
            "_INBOX.>"@,
        ]);
        assert(subjects(subscribe@) =~= seq![
            spec_outbox(network@, ">"@),
            "$JS.API.>"@,
            "_INBOX.>"@,
        ]);
    }
    NatsUserClaims {
        jti: jti.to_owned(),
        iat: now,
        exp: now + ttl_secs,
        iss: issuer.to_owned(),
        name: joined("openlink-server-", network),
        sub: user_nkey.to_owned(),
        claim_type: "user".to_owned(),
        version: 2,
        publish_allow: publish,
        subscribe_allow: subscribe,
    }
}

} // verus!
