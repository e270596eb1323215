//! The bridge's decisions: what to do with each message that arrives from
//! Hoppie or from OpenLink, given the session tracker's state.
//!
//! The relay loop that polls Hoppie, listens on NATS and sends the results
//! belongs to the application; it hands each event to the functions here and
//! performs the action they return.
use vstd::prelude::*;
use vstd::string::*;
use crate::hoppie_client::{
    format_cpdlc_packet, parse_cpdlc_packet, spec_cpdlc_packet, spec_format_cpdlc_packet,
    HoppieCpdlcPacket, HoppieMessage,
};
use crate::session::{
    hoppie_message_hash, last_min, next_in_cycle, remember, spec_message_hash, SessionKey,
    SessionKeyView, SessionTracker,
};
use crate::text::{str_eq, to_uppercase, trim, upper_text};
use crate::numbers::{parse_u8, spec_parse_u8};
use crate::translator::{is_logon_body, is_logon_text, texts};

verus! {

broadcast use vstd::string::group_string_axioms;

/// Whether `list` holds the text `s`.
pub fn contains_text(list: &[String], s: &str) -> (r: bool)
    ensures
        r == texts(list@).contains(s@),
{
    let mut i: usize = 0;
    while i < list.len()
        invariant
            i <= list@.len(),
            forall|j: int| 0 <= j < i ==> list@[j]@ != s@,
        decreases list@.len() - i,
    {
        if str_eq(list[i].as_str(), s) {
            proof {
                assert(texts(list@)[i as int] == s@);
            }
            return true;
        }
        i = i + 1;
    }
    proof {
        if texts(list@).contains(s@) {
            let j = choose|j: int| 0 <= j < texts(list@).len() && texts(list@)[j] == s@;
            assert(list@[j]@ == s@);
        }
    }
    false
}

/// Determine which callsign is the aircraft and which is the station:
/// when the destination is one of the bridge's callsigns, the source is the
/// aircraft; otherwise the destination is.
pub fn determine_aircraft_station(source: &str, dest: &str, bridge_callsigns: &[String]) -> (r: (
    String,
    String,
))
    ensures
        texts(bridge_callsigns@).contains(dest@) ==> r.0@ == source@ && r.1@ == dest@,
        !texts(bridge_callsigns@).contains(dest@) ==> r.0@ == dest@ && r.1@ == source@,
{
    if contains_text(bridge_callsigns, dest) {
        (source.to_owned(), dest.to_owned())
    } else {
        (dest.to_owned(), source.to_owned())
    }
}

/// What the bridge does with a message polled from Hoppie.
#[derive(Debug)]
pub enum HoppieAction {
    /// Not a CPDLC message: nothing to relay.
    NotCpdlc,
    /// Already relayed.
    Duplicate,
    /// Sent by one of the bridge's own callsigns.
    Echo,
    /// The packet is not a `/data2/` CPDLC packet.
    Malformed,
    /// A logon request from `aircraft` to `station`: register the aircraft
    /// and send an OpenLink logon request.
    Logon { aircraft: String, station: String },
    /// A CPDLC message to relay to OpenLink under the bridge MIN, with the
    /// MRN translated to the OpenLink side where a mapping is known.
    Relay {
        aircraft: String,
        station: String,
        packet: HoppieCpdlcPacket,
        bridge_min: u8,
        mrn: Option<u8>,
    },
}

/// The MRN that a relayed message carries: the packet's MRN read as a byte,
/// replaced by its OpenLink counterpart where the session knows one.
pub open spec fn relayed_mrn(
    links: Map<(SessionKeyView, u8), u8>,
    key: SessionKeyView,
    mrn_text: Option<Seq<char>>,
) -> Option<u8> {
    match mrn_text {
        None => None,
        Some(t) => match spec_parse_u8(t) {
            None => None,
            Some(m) => if links.contains_key((key, m)) {
                Some(links[(key, m)])
            } else {
                Some(m)
            },
        },
    }
}

/// Decide what to do with a message polled from Hoppie as `polled_as`, and
/// update the tracker: remember the message, and for a relayed CPDLC message
/// allocate the bridge MIN and record it.
pub fn hoppie_message_action(
    tracker: &mut SessionTracker,
    msg: &HoppieMessage,
    polled_as: &str,
    bridge_callsigns: &[String],
) -> (r: HoppieAction)
    requires
        old(tracker).wf(),
    ensures
        final(tracker).wf(),
        !(msg.msg_type is Cpdlc) ==> r is NotCpdlc && final(tracker)@ == old(tracker)@,
        msg.msg_type is Cpdlc && old(tracker)@.seen_hoppie_hashes.contains(
            spec_message_hash(msg.from@, msg.packet@),
        ) ==> r is Duplicate && final(tracker)@ == old(tracker)@,
        msg.msg_type is Cpdlc && !old(tracker)@.seen_hoppie_hashes.contains(
            spec_message_hash(msg.from@, msg.packet@),
        ) ==> {
            &&& final(tracker)@.seen_hoppie_hashes == remember(
                old(tracker)@.seen_hoppie_hashes,
                spec_message_hash(msg.from@, msg.packet@),
            )
            &&& final(tracker)@.seen_openlink_ids == old(tracker)@.seen_openlink_ids
            &&& final(tracker)@.openlink_to_hoppie == old(tracker)@.openlink_to_hoppie
            &&& if texts(bridge_callsigns@).contains(upper_text(msg.from@)) {
                &&& r is Echo
                &&& final(tracker)@.counters == old(tracker)@.counters
                &&& final(tracker)@.hoppie_to_openlink == old(tracker)@.hoppie_to_openlink
            } else if spec_cpdlc_packet(msg.packet@) is None {
                &&& r is Malformed
                &&& final(tracker)@.counters == old(tracker)@.counters
                &&& final(tracker)@.hoppie_to_openlink == old(tracker)@.hoppie_to_openlink
            } else if is_logon_text(upper_text(trim(spec_cpdlc_packet(msg.packet@)->0.body))) {
                &&& r matches HoppieAction::Logon { aircraft, station }
                &&& aircraft@ == msg.from@
                &&& station@ == polled_as@
                &&& final(tracker)@.counters == old(tracker)@.counters
                &&& final(tracker)@.hoppie_to_openlink == old(tracker)@.hoppie_to_openlink
            } else {
                let key = (upper_text(msg.from@), upper_text(polled_as@));
                let bm = next_in_cycle(last_min(old(tracker)@.counters, key));
                &&& r matches HoppieAction::Relay { aircraft, station, packet, bridge_min, mrn }
                &&& aircraft@ == msg.from@
                &&& station@ == polled_as@
                &&& Some(packet@) == spec_cpdlc_packet(msg.packet@)
                &&& bridge_min == bm
                &&& mrn == relayed_mrn(
                    old(tracker)@.hoppie_to_openlink,
                    key,
                    spec_cpdlc_packet(msg.packet@)->0.mrn,
                )
                &&& final(tracker)@.counters == old(tracker)@.counters.insert(key, bm)
                &&& final(tracker)@.hoppie_to_openlink == old(
                    tracker,
                )@.hoppie_to_openlink.insert((key, bm), bm)
            }
        },
{
    if !msg.msg_type.is_cpdlc() {
        return HoppieAction::NotCpdlc;
    }
    let hash = hoppie_message_hash(msg.from.as_str(), msg.packet.as_str());
    if tracker.is_hoppie_seen(hash) {
        return HoppieAction::Duplicate;
    }
    tracker.mark_hoppie_seen(hash);
    let from_upper = to_uppercase(msg.from.as_str());
    if contains_text(bridge_callsigns, from_upper.as_str()) {
        return HoppieAction::Echo;
    }
    let pkt = match parse_cpdlc_packet(msg.packet.as_str()) {
        Some(p) => p,
        None => {
            return HoppieAction::Malformed;
        },
    };
    if is_logon_body(pkt.body.as_str()) {
        return HoppieAction::Logon {
            aircraft: msg.from.clone(),
            station: polled_as.to_owned(),
        };
    }
    let key = SessionKey::new(msg.from.as_str(), polled_as);
    let bridge_min = tracker.next_min(&key);
    let parsed_mrn = match &pkt.mrn {
        Some(t) => parse_u8(t.as_str()),
        None => None,
    };
    let mrn = match parsed_mrn {
        Some(m) => match tracker.translate_hoppie_mrn(&key, m) {
            Some(mapped) => Some(mapped),
            None => Some(m),
        },
        None => None,
    };
    tracker.record_hoppie_min(&key, bridge_min, bridge_min);
    HoppieAction::Relay {
        aircraft: msg.from.clone(),
        station: polled_as.to_owned(),
        packet: pkt,
        bridge_min,
        mrn,
    }
}

/// What an OpenLink envelope carries, as far as the bridge's decisions go.
#[derive(Debug, Clone, Copy, PartialEq, Eq, Structural)]
pub enum OpenLinkPayloadKind {
    /// A network-level meta message.
    NetworkMeta,
    /// A CPDLC meta message (logon, connection, session update).
    CpdlcMeta,
    /// A CPDLC application message with its MIN.
    CpdlcApplication { min: u8 },
}

/// What the bridge does with an envelope received from OpenLink.
#[derive(Debug)]
pub enum OpenLinkAction {
    /// Already relayed.
    Duplicate,
    /// A network-level meta message: nothing to relay.
    NotCpdlc,
    /// The bridge's own message coming back.
    Echo,
    /// A CPDLC meta message between the upper-cased `source` and `dest`.
    Meta { source: String, dest: String },
    /// An application message to send to Hoppie; its MIN was recorded for
    /// the (aircraft, station) session.
    Relay { aircraft: String, station: String },
}

/// Decide what to do with an OpenLink envelope with id `msg_id`, sent by the
/// CPDLC `source` to `dest`, and update the tracker.
pub fn openlink_message_action(
    tracker: &mut SessionTracker,
    msg_id: &str,
    kind: OpenLinkPayloadKind,
    from_own_cid: bool,
    source: &str,
    dest: &str,
    bridge_callsigns: &[String],
) -> (r: OpenLinkAction)
    requires
        old(tracker).wf(),
    ensures
        final(tracker).wf(),
        old(tracker)@.seen_openlink_ids.contains(msg_id@) ==> r is Duplicate && final(tracker)@
            == old(tracker)@,
        !old(tracker)@.seen_openlink_ids.contains(msg_id@) ==> {
            &&& final(tracker)@.seen_openlink_ids == remember(
                old(tracker)@.seen_openlink_ids,
                msg_id@,
            )
            &&& final(tracker)@.seen_hoppie_hashes == old(tracker)@.seen_hoppie_hashes
            &&& final(tracker)@.counters == old(tracker)@.counters
            &&& final(tracker)@.hoppie_to_openlink == old(tracker)@.hoppie_to_openlink
            &&& if kind is NetworkMeta {
                &&& r is NotCpdlc
                &&& final(tracker)@.openlink_to_hoppie == old(tracker)@.openlink_to_hoppie
            } else if from_own_cid {
                &&& r is Echo
                &&& final(tracker)@.openlink_to_hoppie == old(tracker)@.openlink_to_hoppie
            } else if kind is CpdlcMeta {
                &&& r matches OpenLinkAction::Meta { source: s, dest: d }
                &&& s@ == upper_text(source@)
                &&& d@ == upper_text(dest@)
                &&& final(tracker)@.openlink_to_hoppie == old(tracker)@.openlink_to_hoppie
            } else {
                let su = upper_text(source@);
                let du = upper_text(dest@);
                let (ac, st) = if texts(bridge_callsigns@).contains(du) {
                    (su, du)
                } else {
                    (du, su)
                };
                let min = kind->min;
                &&& r matches OpenLinkAction::Relay { aircraft, station }
                &&& aircraft@ == ac
                &&& station@ == st
                &&& final(tracker)@.openlink_to_hoppie == old(
                    tracker,
                )@.openlink_to_hoppie.insert(((upper_text(ac), upper_text(st)), min), min)
            }
        },
{
    if tracker.is_openlink_seen(msg_id) {
        return OpenLinkAction::Duplicate;
    }
    tracker.mark_openlink_seen(msg_id);
    let min = match kind {
        OpenLinkPayloadKind::NetworkMeta => {
            return OpenLinkAction::NotCpdlc;
        },
        OpenLinkPayloadKind::CpdlcMeta => 0,
        OpenLinkPayloadKind::CpdlcApplication { min } => min,
    };
    if from_own_cid {
        return OpenLinkAction::Echo;
    }
    let source_up = to_uppercase(source);
    let dest_up = to_uppercase(dest);
    if let OpenLinkPayloadKind::CpdlcMeta = kind {
        return OpenLinkAction::Meta { source: source_up, dest: dest_up };
    }
    let (aircraft, station) = determine_aircraft_station(
        source_up.as_str(),
        dest_up.as_str(),
        bridge_callsigns,
    );
    let key = SessionKey::new(aircraft.as_str(), station.as_str());
    tracker.record_openlink_min(&key, min, min);
    OpenLinkAction::Relay { aircraft, station }
}

/// The Hoppie body that relays a logon answer.
pub open spec fn logon_answer_text(accepted: bool) -> Seq<char> {
    if accepted {
        "LOGON ACCEPTED"@
    } else {
        "LOGON REJECTED"@
    }
}

/// The CPDLC packet that relays an OpenLink logon answer to a Hoppie
/// aircraft: MIN 1, no MRN, response attribute `N`.
pub fn logon_response_packet(accepted: bool) -> (r: String)
    ensures
        r@ == spec_format_cpdlc_packet("1"@, None, "N"@, logon_answer_text(accepted)),
{
    let body = if accepted {
        "LOGON ACCEPTED"
    } else {
        "LOGON REJECTED"
    };
    format_cpdlc_packet("1", None, "N", body)
}

/// `c` is one of the callsigns in upper case.
pub open spec fn upper_of_some(callsigns: Seq<String>, c: Seq<char>) -> bool {
    exists|k: int| 0 <= k < callsigns.len() && c == upper_text((#[trigger] callsigns[k])@)
}

/// The Hoppie callsigns a bridge serves: its configured callsigns in upper
/// case, each once.
pub fn bridge_callsigns(callsigns: &[String]) -> (r: Vec<String>)
    ensures
        forall|i: int| 0 <= i < r@.len() ==> upper_of_some(callsigns@, (#[trigger] r@[i])@),
        forall|j: int|
            0 <= j < callsigns@.len() ==> texts(r@).contains(
                upper_text((#[trigger] callsigns@[j])@),
            ),
        forall|a: int, b: int| 0 <= a < b < r@.len() ==> (#[trigger] r@[a])@ != (#[trigger] r@[b])@,
{
    let mut out: Vec<String> = Vec::new();
    let ghost mut origin: Seq<int> = Seq::empty();
    let mut j: usize = 0;
    while j < callsigns.len()
        invariant
            j <= callsigns@.len(),
            origin.len() == out@.len(),
            forall|i: int|
                0 <= i < out@.len() ==> 0 <= #[trigger] origin[i] < j && out@[i]@ == upper_text(
                    callsigns@[origin[i]]@,
                ),
            forall|k: int|
                0 <= k < j ==> texts(out@).contains(upper_text((#[trigger] callsigns@[k])@)),
            forall|a: int, b: int| 0 <= a < b < out@.len() ==> (#[trigger] out@[a])@ != (#[trigger] out@[b])@,
        decreases callsigns@.len() - j,
    {
        let u = to_uppercase(callsigns[j].as_str());
        if !contains_text(out.as_slice(), u.as_str()) {
            let ghost before = out@;
            out.push(u);
            proof {
                let ob = origin;
                origin = origin.push(j as int);
                assert forall|i: int| 0 <= i < out@.len() implies 0 <= #[trigger] origin[i] < j + 1
                    && out@[i]@ == upper_text(callsigns@[origin[i]]@) by {
                    if i < before.len() {
                        assert(out@[i] == before[i]);
                        assert(origin[i] == ob[i]);
                    }
                }
                assert forall|k: int| 0 <= k < j + 1 implies texts(out@).contains(
                    upper_text((#[trigger] callsigns@[k])@),
                ) by {
                    if k < j {
                        assert(texts(before).contains(upper_text(callsigns@[k]@)));
                        let q = choose|q: int|
                            0 <= q < texts(before).len() && texts(before)[q] == upper_text(
                                callsigns@[k]@,
                            );
                        assert(texts(out@)[q] == texts(before)[q]);
                    } else {
                        assert(texts(out@)[before.len() as int] == u@);
                    }
                }
                assert forall|a: int, b: int| 0 <= a < b < out@.len() implies (#[trigger] out@[a])@
                    != (#[trigger] out@[b])@ by {
                    if b < before.len() {
                        assert(out@[a] == before[a] && out@[b] == before[b]);
                    } else {
                        assert(out@[a] == before[a]);
                        assert(texts(before)[a] == before[a]@);
                    }
                }
            }
        }
        j = j + 1;
    }
    proof {
        assert forall|i: int| 0 <= i < out@.len() implies upper_of_some(callsigns@, (#[trigger] out@[i])@) by {
            let k = origin[i];
            assert(out@[i]@ == upper_text(callsigns@[k]@));
        }
    }
    out
}


/// The MRN a relayed Hoppie message carries: a packet without an MRN relays
/// none; a numeric MRN is always relayed, as its OpenLink counterpart where
/// the session recorded one and unchanged where it did not; an MRN that is
/// not a byte is dropped.
pub proof fn law_relayed_mrn(
    links: Map<(SessionKeyView, u8), u8>,
    key: SessionKeyView,
    mrn_text: Seq<char>,
)
    ensures
        relayed_mrn(links, key, None) is None,
        spec_parse_u8(mrn_text) is None ==> relayed_mrn(links, key, Some(mrn_text)) is None,
        spec_parse_u8(mrn_text) is Some ==> relayed_mrn(links, key, Some(mrn_text)) is Some,
        forall|m: u8|
            spec_parse_u8(mrn_text) == Some(m) && !links.contains_key((key, m)) ==> relayed_mrn(
                links,
                key,
                Some(mrn_text),
            ) == Some(m),
        forall|m: u8|
            spec_parse_u8(mrn_text) == Some(m) && #[trigger] links.contains_key((key, m))
                ==> relayed_mrn(links, key, Some(mrn_text)) == Some(links[(key, m)]),
{
}

/// With a session that has recorded no MIN, a relayed message keeps the
/// MRN of its packet.
pub proof fn law_fresh_session_keeps_mrn(key: SessionKeyView, mrn_text: Seq<char>)
    ensures
        relayed_mrn(Map::empty(), key, Some(mrn_text)) == spec_parse_u8(mrn_text),
{
}

} // verus!
