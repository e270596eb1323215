//! The ATC pending-requests queue: received and sent CPDLC rows grouped into
//! dialogues per aircraft, and one card per dialogue that still needs
//! attention, with the response buttons it offers.
use vstd::prelude::*;
use vstd::string::*;
use vstd::multiset::Multiset;
use crate::gui_state::{copy_opt_string, ReceivedMessage};
use crate::session::{assoc_map, keys_unique, lemma_assoc_absent, lemma_assoc_lookup, lemma_assoc_push, lemma_assoc_update};
use crate::responses::{
    intent_of_text, is_positive_closure_intent, local_short_response_intent, CpdlcResponseIntent,
};
use crate::translator::ResponseAttribute;
use crate::text::{
    ascii_upper, chars_of, contains_seq, substring, trim, trim_bounds, upper_contains,
};
use crate::translator::{eq_ignore_ascii_case, eq_ignore_case};

verus! {

broadcast use vstd::string::group_string_axioms;

/// What the CPDLC message catalogue says of the payload of a row.
#[derive(Debug, Clone)]
pub enum PayloadFacts {
    /// A row recorded locally, without an envelope.
    Local,
    /// An envelope that carries no CPDLC application message.
    Other,
    /// A CPDLC application message: the identifiers of its elements, whether
    /// they are a logical acknowledgement, whether they close a dialogue, and
    /// the short responses the catalogue offers for them.
    Application {
        element_ids: Vec<String>,
        logical_ack: bool,
        closes_dialogue: bool,
        short_intents: Vec<CpdlcResponseIntent>,
    },
}

/// What is known of a row besides its own fields.
#[derive(Debug, Clone)]
pub struct MessageFacts {
    pub payload: PayloadFacts,
    /// The short responses that the row's response attribute offers (none
    /// without an attribute).
    pub attr_intents: Vec<CpdlcResponseIntent>,
}

/// A text field, empty when absent.
pub open spec fn opt_text(o: Option<String>) -> Seq<char> {
    match o {
        Some(t) => t@,
        None => Seq::empty(),
    }
}

/// The row is a CPDLC logical acknowledgement.
pub open spec fn is_logical_ack(m: ReceivedMessage, f: MessageFacts) -> bool {
    match f.payload {
        PayloadFacts::Local => m.display_text matches Some(t) && contains_seq(
            ascii_upper(t@),
            "LOGICAL ACKNOWLEDGMENT"@,
        ),
        PayloadFacts::Other => false,
        PayloadFacts::Application { logical_ack, .. } => logical_ack,
    }
}

/// The row is a line of the logon protocol.
pub open spec fn is_logon_line(m: ReceivedMessage) -> bool {
    contains_seq(ascii_upper(opt_text(m.display_text)), "LOGON"@)
}

/// The short response that the row's text names, if any.
pub open spec fn local_intent(m: ReceivedMessage) -> Option<CpdlcResponseIntent> {
    match m.display_text {
        Some(t) => intent_of_text(ascii_upper(trim(t@))),
        None => None,
    }
}

/// The row closes its dialogue.
pub open spec fn is_closing(m: ReceivedMessage, f: MessageFacts) -> bool {
    match f.payload {
        PayloadFacts::Local => local_intent(m) matches Some(i) && i
            != CpdlcResponseIntent::Standby,
        PayloadFacts::Other => false,
        PayloadFacts::Application { closes_dialogue, .. } => closes_dialogue,
    }
}

/// An element identifier of a STANDBY: DM2, UM1 or UM2.
pub open spec fn is_standby_id(id: Seq<char>) -> bool {
    id == "DM2"@ || id == "UM1"@ || id == "UM2"@
}

/// The row is a STANDBY.
pub open spec fn is_standby(m: ReceivedMessage, f: MessageFacts) -> bool {
    match f.payload {
        PayloadFacts::Local => m.display_text matches Some(t) && eq_ignore_ascii_case(
            trim(t@),
            "STANDBY"@,
        ),
        PayloadFacts::Other => false,
        PayloadFacts::Application { element_ids, .. } => exists|j: int|
            0 <= j < element_ids@.len() && is_standby_id(#[trigger] element_ids@[j]@),
    }
}

/// `base` followed by the intents of `extra` that it lacks, in order.
pub open spec fn merged_intents(
    base: Seq<CpdlcResponseIntent>,
    extra: Seq<CpdlcResponseIntent>,
) -> Seq<CpdlcResponseIntent>
    decreases extra.len(),
{
    if extra.len() == 0 {
        base
    } else {
        let b = merged_intents(base, extra.drop_last());
        if b.contains(extra.last()) {
            b
        } else {
            b.push(extra.last())
        }
    }
}

/// The short responses offered for a row: those of its elements, then those
/// of its response attribute.
pub open spec fn response_intents(m: ReceivedMessage, f: MessageFacts) -> Seq<CpdlcResponseIntent> {
    match f.payload {
        PayloadFacts::Application { short_intents, .. } => merged_intents(
            short_intents@,
            f.attr_intents@,
        ),
        _ => f.attr_intents@,
    }
}

/// How long a closed dialogue stays listed, in seconds.
pub const CLOSED_DIALOGUE_RETENTION_SECS: i64 = 60;

/// A row recorded at `timestamp` is at most a minute old at `now` (both in
/// milliseconds since the epoch): its age in whole seconds, rounded toward
/// zero, is at most the retention; a row from the future counts as recent.
pub open spec fn within_retention(timestamp: i64, now: i64) -> bool {
    now - timestamp < (CLOSED_DIALOGUE_RETENTION_SECS + 1) * 1000
}

/// Whether a row recorded at `timestamp` is still within the retention at
/// `now`.
pub fn is_within_retention(timestamp: i64, now: i64) -> (r: bool)
    ensures
        r == within_retention(timestamp, now),
{
    let age: i128 = now as i128 - timestamp as i128;
    age < (CLOSED_DIALOGUE_RETENTION_SECS as i128 + 1) * 1000
}

/// The row closed its dialogue within the last minute before `now`.
pub open spec fn is_recent_closure(m: ReceivedMessage, f: MessageFacts, now: i64) -> bool {
    is_closing(m, f) && within_retention(m.timestamp, now)
}

/// The closing responses in the order in which a card shows the first one
/// offered.
pub open spec fn closure_order() -> Seq<CpdlcResponseIntent> {
    seq![
        CpdlcResponseIntent::Unable,
        CpdlcResponseIntent::Negative,
        CpdlcResponseIntent::Wilco,
        CpdlcResponseIntent::Roger,
        CpdlcResponseIntent::Affirm,
    ]
}

/// The first intent of `order` that `offered` holds.
pub open spec fn first_offered(
    order: Seq<CpdlcResponseIntent>,
    offered: Seq<CpdlcResponseIntent>,
) -> Option<CpdlcResponseIntent>
    decreases order.len(),
{
    if order.len() == 0 {
        None
    } else if offered.contains(order[0]) {
        Some(order[0])
    } else {
        first_offered(order.drop_first(), offered)
    }
}

/// The response a closing row stands for: the one its text names, else the
/// first closing response it offers.
pub open spec fn closing_flag_intent(m: ReceivedMessage, f: MessageFacts) -> Option<
    CpdlcResponseIntent,
> {
    if !is_closing(m, f) {
        None
    } else if local_intent(m) is Some {
        local_intent(m)
    } else {
        first_offered(closure_order(), response_intents(m, f))
    }
}

/// The aircraft a row talks with: its addressee when we sent it, its sender
/// otherwise.
pub open spec fn dialogue_callsign(m: ReceivedMessage) -> Option<Seq<char>> {
    let o = if m.is_outgoing {
        m.to_callsign
    } else {
        m.from_callsign
    };
    match o {
        Some(c) => Some(c@),
        None => None,
    }
}

/// The row takes part in a dialogue: it is numbered, and neither a logical
/// acknowledgement nor a logon line.
pub open spec fn is_dialogue_candidate(m: ReceivedMessage, f: MessageFacts) -> bool {
    !is_logical_ack(m, f) && !is_logon_line(m) && m.min is Some
}

fn text_or_empty(o: &Option<String>) -> (r: &str)
    ensures
        r@ == opt_text(*o),
{
    match o {
        Some(t) => t.as_str(),
        None => {
            proof {
                reveal_strlit("");
            }
            ""
        },
    }
}

fn logical_ack(m: &ReceivedMessage, f: &MessageFacts) -> (r: bool)
    ensures
        r == is_logical_ack(*m, *f),
{
    match &f.payload {
        PayloadFacts::Local => match &m.display_text {
            Some(t) => upper_contains(t.as_str(), "LOGICAL ACKNOWLEDGMENT"),
            None => false,
        },
        PayloadFacts::Other => false,
        PayloadFacts::Application { logical_ack, .. } => *logical_ack,
    }
}

fn logon_line(m: &ReceivedMessage) -> (r: bool)
    ensures
        r == is_logon_line(*m),
{
    upper_contains(text_or_empty(&m.display_text), "LOGON")
}

fn row_intent(m: &ReceivedMessage) -> (r: Option<CpdlcResponseIntent>)
    ensures
        r == local_intent(*m),
{
    match &m.display_text {
        Some(t) => local_short_response_intent(Some(t.as_str())),
        None => local_short_response_intent(None),
    }
}

fn closing(m: &ReceivedMessage, f: &MessageFacts) -> (r: bool)
    ensures
        r == is_closing(*m, *f),
{
    match &f.payload {
        PayloadFacts::Local => match row_intent(m) {
            Some(CpdlcResponseIntent::Standby) => false,
            Some(_) => true,
            None => false,
        },
        PayloadFacts::Other => false,
        PayloadFacts::Application { closes_dialogue, .. } => *closes_dialogue,
    }
}

fn standby_id(id: &str) -> (r: bool)
    ensures
        r == is_standby_id(id@),
{
    crate::text::str_eq(id, "DM2") || crate::text::str_eq(id, "UM1") || crate::text::str_eq(
        id,
        "UM2",
    )
}

fn standby(m: &ReceivedMessage, f: &MessageFacts) -> (r: bool)
    ensures
        r == is_standby(*m, *f),
{
    match &f.payload {
        PayloadFacts::Local => match &m.display_text {
            Some(t) => {
                let v = chars_of(t.as_str());
                let (a, b) = trim_bounds(&v, 0, v.len());
                proof {
                    assert(v@.subrange(0, v@.len() as int) =~= v@);
                }
                let trimmed = substring(t.as_str(), a, b);
                eq_ignore_case(trimmed.as_str(), "STANDBY")
            },
            None => false,
        },
        PayloadFacts::Other => false,
        PayloadFacts::Application { element_ids, .. } => {
            let mut j: usize = 0;
            while j < element_ids.len()
                invariant
                    j <= element_ids@.len(),
                    f.payload is Application,
                    f.payload->element_ids == *element_ids,
                    forall|k: int| 0 <= k < j ==> !is_standby_id(#[trigger] element_ids@[k]@),
                decreases element_ids@.len() - j,
            {
                if standby_id(element_ids[j].as_str()) {
                    proof {
                        assert(is_standby_id(element_ids@[j as int]@));
                    }
                    return true;
                }
                j = j + 1;
            }
            false
        },
    }
}

fn contains_intent(v: &Vec<CpdlcResponseIntent>, x: CpdlcResponseIntent) -> (r: bool)
    ensures
        r == v@.contains(x),
{
    let mut j: usize = 0;
    while j < v.len()
        invariant
            j <= v@.len(),
            forall|k: int| 0 <= k < j ==> v@[k] != x,
        decreases v@.len() - j,
    {
        if v[j] == x {
            return true;
        }
        j = j + 1;
    }
    false
}

fn intents_of(m: &ReceivedMessage, f: &MessageFacts) -> (r: Vec<CpdlcResponseIntent>)
    ensures
        r@ == response_intents(*m, *f),
{
    match &f.payload {
        PayloadFacts::Application { short_intents, .. } => {
            let mut out = short_intents.clone();
            let mut j: usize = 0;
            while j < f.attr_intents.len()
                invariant
                    j <= f.attr_intents@.len(),
                    out@ == merged_intents(short_intents@, f.attr_intents@.subrange(0, j as int)),
                decreases f.attr_intents@.len() - j,
            {
                let x = f.attr_intents[j];
                proof {
                    let e = f.attr_intents@.subrange(0, j + 1);
                    assert(e.drop_last() =~= f.attr_intents@.subrange(0, j as int));
                    assert(e.last() == x);
                }
                if !contains_intent(&out, x) {
                    out.push(x);
                }
                j = j + 1;
            }
            proof {
                assert(f.attr_intents@.subrange(0, f.attr_intents@.len() as int) =~= f.attr_intents@);
            }
            out
        },
        _ => f.attr_intents.clone(),
    }
}

fn flag_intent(m: &ReceivedMessage, f: &MessageFacts) -> (r: Option<CpdlcResponseIntent>)
    ensures
        r == closing_flag_intent(*m, *f),
{
    if !closing(m, f) {
        return None;
    }
    let local = row_intent(m);
    if local.is_some() {
        return local;
    }
    let offered = intents_of(m, f);
    let order = [
        CpdlcResponseIntent::Unable,
        CpdlcResponseIntent::Negative,
        CpdlcResponseIntent::Wilco,
        CpdlcResponseIntent::Roger,
        CpdlcResponseIntent::Affirm,
    ];
    let ghost all = closure_order();
    proof {
        assert(order@ =~= all);
        assert(all.subrange(0, 5) =~= all);
    }
    let mut k: usize = 0;
    while k < 5
        invariant
            k <= 5,
            all == closure_order(),
            order@ == all,
            closing_flag_intent(*m, *f) == first_offered(all, offered@),
            first_offered(all, offered@) == first_offered(all.subrange(k as int, 5), offered@),
        decreases 5 - k,
    {
        let x = order[k];
        proof {
            let rest = all.subrange(k as int, 5);
            assert(rest[0] == x);
            assert(rest.drop_first() =~= all.subrange(k + 1, 5));
        }
        if contains_intent(&offered, x) {
            return Some(x);
        }
        k = k + 1;
    }
    proof {
        assert(all.subrange(5, 5).len() == 0);
    }
    None
}

/// The view of an optional callsign.
pub open spec fn callsign_view(o: Option<String>) -> Option<Seq<char>> {
    match o {
        Some(c) => Some(c@),
        None => None,
    }
}

fn row_callsign(m: &ReceivedMessage) -> (r: Option<String>)
    ensures
        callsign_view(r) == dialogue_callsign(*m),
{
    if m.is_outgoing {
        copy_opt_string(&m.to_callsign)
    } else {
        copy_opt_string(&m.from_callsign)
    }
}

fn dialogue_candidate(m: &ReceivedMessage, f: &MessageFacts) -> (r: bool)
    ensures
        r == is_dialogue_candidate(*m, *f),
{
    !logical_ack(m, f) && !logon_line(m) && m.min.is_some()
}

/// `k` is the first row of the list numbered `min` that talks with `cs` and
/// is neither a logical acknowledgement nor a logon line.
pub open spec fn is_dialogue_row(
    msgs: Seq<ReceivedMessage>,
    facts: Seq<MessageFacts>,
    min: u8,
    cs: Seq<char>,
    k: int,
) -> bool {
    msgs[k].min == Some(min) && !is_logical_ack(msgs[k], facts[k]) && !is_logon_line(msgs[k])
        && dialogue_callsign(msgs[k]) == Some(cs)
}

/// The first such row, if any.
pub open spec fn find_dialogue_row(
    msgs: Seq<ReceivedMessage>,
    facts: Seq<MessageFacts>,
    min: u8,
    cs: Seq<char>,
) -> Option<int> {
    if exists|k: int| 0 <= k < msgs.len() && is_dialogue_row(msgs, facts, min, cs, k) {
        Some(
            choose|k: int|
                0 <= k < msgs.len() && is_dialogue_row(msgs, facts, min, cs, k) && forall|j: int|
                    0 <= j < k ==> !is_dialogue_row(msgs, facts, min, cs, j),
        )
    } else {
        None
    }
}

fn find_row_by_min(
    msgs: &[ReceivedMessage],
    facts: &[MessageFacts],
    min: u8,
    cs: &str,
) -> (r: Option<usize>)
    requires
        msgs@.len() == facts@.len(),
    ensures
        match r {
            Some(k) => k < msgs@.len() && find_dialogue_row(msgs@, facts@, min, cs@) == Some(
                k as int,
            ),
            None => find_dialogue_row(msgs@, facts@, min, cs@) is None,
        },
{
    let mut k: usize = 0;
    while k < msgs.len()
        invariant
            k <= msgs@.len(),
            msgs@.len() == facts@.len(),
            forall|j: int| 0 <= j < k ==> !is_dialogue_row(msgs@, facts@, min, cs@, j),
        decreases msgs@.len() - k,
    {
        let m = &msgs[k];
        let numbered = match m.min {
            Some(x) => x == min,
            None => false,
        };
        if numbered && !logical_ack(m, &facts[k]) && !logon_line(m) {
            let c = row_callsign(m);
            let same = match &c {
                Some(c) => crate::text::str_eq(c.as_str(), cs),
                None => false,
            };
            if same {
                proof {
                    assert(is_dialogue_row(msgs@, facts@, min, cs@, k as int));
                    let q = choose|q: int|
                        0 <= q < msgs@.len() && is_dialogue_row(msgs@, facts@, min, cs@, q)
                            && forall|j: int|
                            0 <= j < q ==> !is_dialogue_row(msgs@, facts@, min, cs@, j);
                    // the first such row can be neither before nor after row k
                    assert(!(q < k));
                    assert(!(q > k));
                }
                return Some(k);
            }
        }
        k = k + 1;
    }
    None
}

/// A dialogue is keyed by the aircraft and the MIN of its first row.
pub type DialogueKey = (Seq<char>, u8);

/// A tracked dialogue: its key, the position of its latest row, and whether
/// one of its rows closed it.
pub type DialogueTrack = (DialogueKey, (int, bool));

/// The dialogue list after row `i` joined dialogue `key`: the entry of that
/// key takes `i` as its latest row and stays closed once closed; a new key
/// is added at the end.
pub open spec fn upsert_track(
    dl: Seq<DialogueTrack>,
    key: DialogueKey,
    i: int,
    closing: bool,
) -> Seq<DialogueTrack> {
    if exists|k: int| 0 <= k < dl.len() && (#[trigger] dl[k]).0 == key {
        let k = choose|k: int| 0 <= k < dl.len() && (#[trigger] dl[k]).0 == key;
        dl.update(k, (key, (i, dl[k].1.1 || closing)))
    } else {
        dl.push((key, (i, closing)))
    }
}

/// Rows `0..n` grouped into dialogues: the root MIN of each (aircraft, MIN),
/// and the dialogues in the order of their first rows. A row answering
/// (MRN) a known MIN joins that MIN's dialogue; any other row opens its own.
pub open spec fn scan(msgs: Seq<ReceivedMessage>, facts: Seq<MessageFacts>, n: nat) -> (
    Map<DialogueKey, u8>,
    Seq<DialogueTrack>,
)
    decreases n,
{
    if n == 0 {
        (Map::empty(), Seq::empty())
    } else {
        let prev = scan(msgs, facts, (n - 1) as nat);
        let i = n - 1;
        let m = msgs[i];
        let f = facts[i];
        if !is_dialogue_candidate(m, f) || dialogue_callsign(m) is None {
            prev
        } else {
            let min = m.min->0;
            let cs = dialogue_callsign(m)->0;
            let root = match m.mrn {
                Some(p) => if prev.0.contains_key((cs, p)) {
                    prev.0[(cs, p)]
                } else {
                    min
                },
                None => min,
            };
            (prev.0.insert((cs, min), root), upsert_track(prev.1, (cs, root), i, is_closing(m, f)))
        }
    }
}

/// The abstract entries of the root table.
pub open spec fn roots_view(v: Seq<(String, u8, u8)>) -> Seq<(DialogueKey, u8)> {
    v.map_values(|e: (String, u8, u8)| ((e.0@, e.1), e.2))
}

/// The abstract entries of the dialogue table.
pub open spec fn tracks_view(v: Seq<(String, u8, usize, bool)>) -> Seq<DialogueTrack> {
    v.map_values(|e: (String, u8, usize, bool)| ((e.0@, e.1), (e.2 as int, e.3)))
}

fn find_root(roots: &Vec<(String, u8, u8)>, cs: &str, min: u8) -> (r: Option<usize>)
    ensures
        match r {
            Some(k) => k < roots@.len() && roots_view(roots@)[k as int].0 == (cs@, min),
            None => forall|k: int|
                0 <= k < roots@.len() ==> (#[trigger] roots_view(roots@)[k]).0 != (cs@, min),
        },
{
    let mut k: usize = 0;
    while k < roots.len()
        invariant
            k <= roots@.len(),
            forall|j: int| 0 <= j < k ==> (#[trigger] roots_view(roots@)[j]).0 != (cs@, min),
        decreases roots@.len() - k,
    {
        if roots[k].1 == min && crate::text::str_eq(roots[k].0.as_str(), cs) {
            return Some(k);
        }
        k = k + 1;
    }
    None
}

fn root_of(roots: &Vec<(String, u8, u8)>, cs: &str, p: u8) -> (r: Option<u8>)
    requires
        keys_unique(roots_view(roots@)),
    ensures
        r == (if assoc_map(roots_view(roots@)).contains_key((cs@, p)) {
            Some(assoc_map(roots_view(roots@))[(cs@, p)])
        } else {
            None
        }),
{
    match find_root(roots, cs, p) {
        Some(k) => {
            proof {
                lemma_assoc_lookup(roots_view(roots@), k as int);
            }
            Some(roots[k].2)
        },
        None => {
            proof {
                lemma_assoc_absent(roots_view(roots@), (cs@, p));
            }
            None
        },
    }
}

fn set_root(roots: &mut Vec<(String, u8, u8)>, cs: &str, min: u8, root: u8)
    requires
        keys_unique(roots_view(old(roots)@)),
    ensures
        keys_unique(roots_view(final(roots)@)),
        assoc_map(roots_view(final(roots)@)) == assoc_map(roots_view(old(roots)@)).insert(
            (cs@, min),
            root,
        ),
{
    let ghost before = roots_view(roots@);
    match find_root(roots, cs, min) {
        Some(k) => {
            let name = roots[k].0.clone();
            roots.set(k, (name, min, root));
            proof {
                lemma_assoc_update(before, k as int, root);
                assert(roots_view(roots@) =~= before.update(k as int, (before[k as int].0, root)));
            }
        },
        None => {
            roots.push((cs.to_owned(), min, root));
            proof {
                lemma_assoc_push(before, (cs@, min), root);
                assert(roots_view(roots@) =~= before.push(((cs@, min), root)));
                assert forall|a: int, b: int|
                    0 <= a < roots_view(roots@).len() && 0 <= b < roots_view(roots@).len() && a
                        != b implies roots_view(roots@)[a].0 != roots_view(roots@)[b].0 by {
                    if a < before.len() && b < before.len() {
                        assert(roots_view(roots@)[a] == before[a]);
                        assert(roots_view(roots@)[b] == before[b]);
                    } else if a < before.len() {
                        assert(roots_view(roots@)[a] == before[a]);
                    } else {
                        assert(roots_view(roots@)[b] == before[b]);
                    }
                }
            }
        },
    }
}

fn upsert_dialogue(
    tracks: &mut Vec<(String, u8, usize, bool)>,
    cs: &str,
    root: u8,
    i: usize,
    closing: bool,
)
    requires
        keys_unique(tracks_view(old(tracks)@)),
    ensures
        keys_unique(tracks_view(final(tracks)@)),
        tracks_view(final(tracks)@) == upsert_track(
            tracks_view(old(tracks)@),
            (cs@, root),
            i as int,
            closing,
        ),
        forall|j: int|
            0 <= j < final(tracks)@.len() ==> (#[trigger] final(tracks)@[j]).2 == i || (j < old(
                tracks,
            )@.len() && final(tracks)@[j].2 == old(tracks)@[j].2),
{
    let ghost before = tracks_view(tracks@);
    let ghost raw = tracks@;
    let mut k: usize = 0;
    while k < tracks.len()
        invariant
            k <= tracks@.len(),
            before == tracks_view(tracks@),
            raw == tracks@,
            raw == old(tracks)@,
            keys_unique(before),
            forall|j: int| 0 <= j < k ==> (#[trigger] before[j]).0 != (cs@, root),
        decreases tracks@.len() - k,
    {
        if tracks[k].1 == root && crate::text::str_eq(tracks[k].0.as_str(), cs) {
            let name = tracks[k].0.clone();
            let was_closed = tracks[k].3;
            tracks.set(k, (name, root, i, was_closed || closing));
            proof {
                assert(before[k as int].0 == (cs@, root));
                let c = choose|c: int| 0 <= c < before.len() && (#[trigger] before[c]).0 == (
                    cs@,
                    root,
                );
                assert(c == k);
                assert(tracks_view(tracks@) =~= before.update(
                    k as int,
                    ((cs@, root), (i as int, before[k as int].1.1 || closing)),
                ));
                assert forall|a: int, b: int|
                    0 <= a < before.len() && 0 <= b < before.len() && a != b implies
                    tracks_view(tracks@)[a].0 != tracks_view(tracks@)[b].0 by {
                    assert(tracks_view(tracks@)[a].0 == before[a].0);
                    assert(tracks_view(tracks@)[b].0 == before[b].0);
                }
            }
            return;
        }
        k = k + 1;
    }
    tracks.push((cs.to_owned(), root, i, closing));
    proof {
        assert(tracks_view(tracks@) =~= before.push(((cs@, root), (i as int, closing))));
        assert forall|a: int, b: int|
            0 <= a < tracks_view(tracks@).len() && 0 <= b < tracks_view(tracks@).len() && a
                != b implies tracks_view(tracks@)[a].0 != tracks_view(tracks@)[b].0 by {
            if a < before.len() && b < before.len() {
                assert(tracks_view(tracks@)[a] == before[a]);
                assert(tracks_view(tracks@)[b] == before[b]);
            } else if a < before.len() {
                assert(tracks_view(tracks@)[a] == before[a]);
            } else {
                assert(tracks_view(tracks@)[b] == before[b]);
            }
        }
    }
}

/// Group the rows into dialogues, as `scan` describes.
fn group_dialogues(msgs: &[ReceivedMessage], facts: &[MessageFacts]) -> (r: Vec<
    (String, u8, usize, bool),
>)
    requires
        msgs@.len() == facts@.len(),
    ensures
        tracks_view(r@) == scan(msgs@, facts@, msgs@.len() as nat).1,
        forall|j: int| 0 <= j < r@.len() ==> (#[trigger] r@[j]).2 < msgs@.len(),
{
    let mut roots: Vec<(String, u8, u8)> = Vec::new();
    let mut tracks: Vec<(String, u8, usize, bool)> = Vec::new();
    let mut i: usize = 0;
    while i < msgs.len()
        invariant
            i <= msgs@.len(),
            msgs@.len() == facts@.len(),
            keys_unique(roots_view(roots@)),
            keys_unique(tracks_view(tracks@)),
            assoc_map(roots_view(roots@)) == scan(msgs@, facts@, i as nat).0,
            tracks_view(tracks@) == scan(msgs@, facts@, i as nat).1,
            forall|j: int| 0 <= j < tracks@.len() ==> (#[trigger] tracks@[j]).2 < i,
        decreases msgs@.len() - i,
    {
        let m = &msgs[i];
        let f = &facts[i];
        proof {
            assert(scan(msgs@, facts@, (i + 1) as nat) == {
                let prev = scan(msgs@, facts@, i as nat);
                let m = msgs@[i as int];
                let f = facts@[i as int];
                if !is_dialogue_candidate(m, f) || dialogue_callsign(m) is None {
                    prev
                } else {
                    let min = m.min->0;
                    let cs = dialogue_callsign(m)->0;
                    let root = match m.mrn {
                        Some(p) => if prev.0.contains_key((cs, p)) {
                            prev.0[(cs, p)]
                        } else {
                            min
                        },
                        None => min,
                    };
                    (
                        prev.0.insert((cs, min), root),
                        upsert_track(prev.1, (cs, root), i as int, is_closing(m, f)),
                    )
                }
            });
        }
        if dialogue_candidate(m, f) {
            match row_callsign(m) {
                Some(cs) => {
                    let min = match m.min {
                        Some(x) => x,
                        None => 0,
                    };
                    let root = match m.mrn {
                        Some(p) => match root_of(&roots, cs.as_str(), p) {
                            Some(r) => r,
                            None => min,
                        },
                        None => min,
                    };
                    set_root(&mut roots, cs.as_str(), min, root);
                    let ghost before = tracks@;
                    upsert_dialogue(&mut tracks, cs.as_str(), root, i, closing(m, f));
                    proof {
                        assert forall|j: int| 0 <= j < tracks@.len() implies (#[trigger] tracks@[j]).2 < i + 1 by {
                            if tracks@[j].2 != i {
                                assert(before[j].2 < i);
                            }
                        }
                    }
                },
                None => {},
            }
        }
        i = i + 1;
    }
    tracks
}

/// The mark shown on a pending dialogue card.
#[derive(Debug, Clone, Copy, PartialEq, Eq, Structural)]
pub enum DialogueFlag {
    /// No mark.
    Unmarked,
    /// A STANDBY, with the time of the row (milliseconds since the epoch).
    Standby(i64),
    /// A closing response and whether it closed positively.
    Closed { intent: CpdlcResponseIntent, positive: bool },
    /// A row we sent, received, with its time.
    Received(i64),
}

/// A card of the pending requests queue.
#[derive(Debug, Clone)]
pub struct PendingDialogue {
    /// The aircraft the dialogue is with.
    pub aircraft_callsign: String,
    /// MIN of the request to respond to (the MRN of the response).
    pub action_min: Option<u8>,
    /// Text of the request.
    pub display_text: String,
    /// Response buttons offered (none when no response is owed).
    pub response_intents: Vec<CpdlcResponseIntent>,
    /// The request asks for a Y (any) response.
    pub is_y_response: bool,
    /// Time of the dialogue's latest row.
    pub timestamp: i64,
    /// Style class of the card.
    pub card_class: &'static str,
    pub flag: DialogueFlag,
    /// 0: needs action, 1: monitoring, 2: closing.
    pub priority: u8,
}

/// What a card shows.
pub struct PendingDialogueView {
    pub aircraft_callsign: Seq<char>,
    pub action_min: Option<u8>,
    pub display_text: Seq<char>,
    pub response_intents: Seq<CpdlcResponseIntent>,
    pub is_y_response: bool,
    pub timestamp: i64,
    pub card_class: Seq<char>,
    pub flag: DialogueFlag,
    pub priority: u8,
}

impl View for PendingDialogue {
    type V = PendingDialogueView;

    open spec fn view(&self) -> PendingDialogueView {
        PendingDialogueView {
            aircraft_callsign: self.aircraft_callsign@,
            action_min: self.action_min,
            display_text: self.display_text@,
            response_intents: self.response_intents@,
            is_y_response: self.is_y_response,
            timestamp: self.timestamp,
            card_class: self.card_class@,
            flag: self.flag,
            priority: self.priority,
        }
    }
}

/// The row a card acts on: for a STANDBY or a recent closure, the row its
/// MRN answers (in the same aircraft's dialogue); for a received request,
/// the request itself; none for a request we sent.
pub open spec fn action_source(
    msgs: Seq<ReceivedMessage>,
    facts: Seq<MessageFacts>,
    li: int,
    now: i64,
) -> Option<int> {
    let req = msgs[li];
    let cs = opt_callsign(dialogue_callsign(req));
    if is_standby(req, facts[li]) || is_recent_closure(req, facts[li], now) {
        match req.mrn {
            Some(mrn) => find_dialogue_row(msgs, facts, mrn, cs),
            None => None,
        }
    } else if !req.is_outgoing {
        Some(li)
    } else {
        None
    }
}

/// A callsign, empty when absent.
pub open spec fn opt_callsign(o: Option<Seq<char>>) -> Seq<char> {
    match o {
        Some(c) => c,
        None => Seq::empty(),
    }
}

/// The response buttons of a card before it is known whether a response is
/// owed: a Y request offers UNABLE and STANDBY; a request that offers
/// nothing offers WILCO, UNABLE and STANDBY; a STANDBY we sent does not
/// offer STANDBY again.
pub open spec fn card_intents(
    msgs: Seq<ReceivedMessage>,
    facts: Seq<MessageFacts>,
    li: int,
    now: i64,
) -> Seq<CpdlcResponseIntent> {
    let src = action_source(msgs, facts, li, now);
    let is_y = match src {
        Some(k) => msgs[k].response_attr == Some(ResponseAttribute::Y),
        None => false,
    };
    let base = match src {
        Some(k) => response_intents(msgs[k], facts[k]),
        None => Seq::empty(),
    };
    let ints = if is_y {
        seq![CpdlcResponseIntent::Unable, CpdlcResponseIntent::Standby]
    } else if src is Some && base.len() == 0 {
        seq![CpdlcResponseIntent::Wilco, CpdlcResponseIntent::Unable, CpdlcResponseIntent::Standby]
    } else {
        base
    };
    if msgs[li].is_outgoing && is_standby(msgs[li], facts[li]) {
        ints.filter(|i: CpdlcResponseIntent| i != CpdlcResponseIntent::Standby)
    } else {
        ints
    }
}

/// The card of the dialogue whose latest row is `li` (closed or not), or
/// none when it closed more than a minute ago.
pub open spec fn card_of(
    msgs: Seq<ReceivedMessage>,
    facts: Seq<MessageFacts>,
    li: int,
    closed: bool,
    now: i64,
) -> Option<PendingDialogueView> {
    let req = msgs[li];
    let rf = facts[li];
    let rc = is_recent_closure(req, rf, now);
    if closed && !rc {
        None
    } else {
        let cs = opt_callsign(dialogue_callsign(req));
        let standby = is_standby(req, rf);
        let src = action_source(msgs, facts, li, now);
        let sa = !req.is_outgoing && standby;
        let satc = req.is_outgoing && standby;
        let ci = if rc {
            closing_flag_intent(req, rf)
        } else {
            None
        };
        let cp = match ci {
            Some(i) => i == CpdlcResponseIntent::Wilco || i == CpdlcResponseIntent::Roger || i
                == CpdlcResponseIntent::Affirm,
            None => false,
        };
        let amin = match src {
            Some(k) => msgs[k].min,
            None => None,
        };
        let is_y = match src {
            Some(k) => msgs[k].response_attr == Some(ResponseAttribute::Y),
            None => false,
        };
        let ints = card_intents(msgs, facts, li, now);
        let needs = !rc && amin is Some && ints.len() > 0;
        let own_text = match req.display_text {
            Some(t) => t@,
            None => "Unknown request"@,
        };
        let text = if sa || satc || rc {
            match src {
                Some(k) => match msgs[k].display_text {
                    Some(t) => t@,
                    None => own_text,
                },
                None => own_text,
            }
        } else {
            own_text
        };
        let acs = if sa || satc || rc {
            match src {
                Some(k) => match dialogue_callsign(msgs[k]) {
                    Some(c) => c,
                    None => cs,
                },
                None => cs,
            }
        } else {
            cs
        };
        let class = if sa {
            "pending-request-item standby-aircraft"@
        } else if satc {
            "pending-request-item standby-atc"@
        } else if rc && cp {
            "pending-request-item closed-positive"@
        } else if rc {
            "pending-request-item closed-negative"@
        } else {
            "pending-request-item"@
        };
        let flag = if sa || satc {
            DialogueFlag::Standby(req.timestamp)
        } else if ci is Some {
            DialogueFlag::Closed { intent: ci->0, positive: cp }
        } else if req.is_outgoing && !rc && !is_closing(req, rf) && !satc {
            DialogueFlag::Received(req.timestamp)
        } else {
            DialogueFlag::Unmarked
        };
        let priority: u8 = if rc {
            2
        } else if needs || !req.is_outgoing {
            0
        } else {
            1
        };
        Some(
            PendingDialogueView {
                aircraft_callsign: acs,
                action_min: amin,
                display_text: text,
                response_intents: if needs {
                    ints
                } else {
                    Seq::empty()
                },
                is_y_response: is_y,
                timestamp: req.timestamp,
                card_class: class,
                flag,
                priority,
            },
        )
    }
}

pub(crate) fn without_standby(v: Vec<CpdlcResponseIntent>) -> (r: Vec<CpdlcResponseIntent>)
    ensures
        r@ == v@.filter(|i: CpdlcResponseIntent| i != CpdlcResponseIntent::Standby),
{
    let ghost keep = |i: CpdlcResponseIntent| i != CpdlcResponseIntent::Standby;
    let mut out: Vec<CpdlcResponseIntent> = Vec::new();
    let mut j: usize = 0;
    while j < v.len()
        invariant
            j <= v@.len(),
            keep == (|i: CpdlcResponseIntent| i != CpdlcResponseIntent::Standby),
            out@ == v@.subrange(0, j as int).filter(keep),
        decreases v@.len() - j,
    {
        proof {
            reveal_with_fuel(Seq::<CpdlcResponseIntent>::filter, 1);
            assert(v@.subrange(0, j + 1).drop_last() =~= v@.subrange(0, j as int));
        }
        if v[j] != CpdlcResponseIntent::Standby {
            out.push(v[j]);
        }
        j = j + 1;
    }
    proof {
        assert(v@.subrange(0, v@.len() as int) =~= v@);
    }
    out
}

fn text_copy(o: &Option<String>, fallback: &String) -> (r: String)
    ensures
        r@ == (match *o {
            Some(t) => t@,
            None => fallback@,
        }),
{
    match o {
        Some(t) => t.clone(),
        None => fallback.clone(),
    }
}

/// The card of the dialogue whose latest row is `li`, as `card_of` says.
fn build_card(msgs: &[ReceivedMessage], facts: &[MessageFacts], li: usize, closed: bool, now: i64) -> (r:
    Option<PendingDialogue>)
    requires
        msgs@.len() == facts@.len(),
        li < msgs@.len(),
    ensures
        match r {
            Some(c) => card_of(msgs@, facts@, li as int, closed, now) == Some(c@),
            None => card_of(msgs@, facts@, li as int, closed, now) is None,
        },
{
    let req = &msgs[li];
    let rf = &facts[li];
    let rc = closing(req, rf) && is_within_retention(req.timestamp, now);
    if closed && !rc {
        return None;
    }
    let cs = match row_callsign(req) {
        Some(c) => c,
        None => String::new(),
    };
    let standby_row = standby(req, rf);
    let src: Option<usize> = if standby_row || rc {
        match req.mrn {
            Some(mrn) => find_row_by_min(msgs, facts, mrn, cs.as_str()),
            None => None,
        }
    } else if !req.is_outgoing {
        Some(li)
    } else {
        None
    };
    proof {
        assert(match src {
            Some(k) => action_source(msgs@, facts@, li as int, now) == Some(k as int),
            None => action_source(msgs@, facts@, li as int, now) is None,
        });
    }
    let sa = !req.is_outgoing && standby_row;
    let satc = req.is_outgoing && standby_row;
    let ci = if rc {
        flag_intent(req, rf)
    } else {
        None
    };
    let cp = match ci {
        Some(i) => is_positive_closure_intent(i),
        None => false,
    };
    let amin = match src {
        Some(k) => msgs[k].min,
        None => None,
    };
    let is_y = match src {
        Some(k) => match msgs[k].response_attr {
            Some(ResponseAttribute::Y) => true,
            _ => false,
        },
        None => false,
    };
    let base = match src {
        Some(k) => intents_of(&msgs[k], &facts[k]),
        None => Vec::new(),
    };
    let ints1 = if is_y {
        vec![CpdlcResponseIntent::Unable, CpdlcResponseIntent::Standby]
    } else if src.is_some() && base.len() == 0 {
        vec![CpdlcResponseIntent::Wilco, CpdlcResponseIntent::Unable, CpdlcResponseIntent::Standby]
    } else {
        base
    };
    let ints = if satc {
        without_standby(ints1)
    } else {
        ints1
    };
    proof {
        assert(ints@ == card_intents(msgs@, facts@, li as int, now));
    }
    let needs = !rc && amin.is_some() && ints.len() > 0;
    let unknown = "Unknown request".to_owned();
    let own_text = text_copy(&req.display_text, &unknown);
    let text = if sa || satc || rc {
        match src {
            Some(k) => text_copy(&msgs[k].display_text, &own_text),
            None => own_text,
        }
    } else {
        own_text
    };
    let acs = if sa || satc || rc {
        match src {
            Some(k) => match row_callsign(&msgs[k]) {
                Some(c) => c,
                None => cs,
            },
            None => cs,
        }
    } else {
        cs
    };
    let class = if sa {
        "pending-request-item standby-aircraft"
    } else if satc {
        "pending-request-item standby-atc"
    } else if rc && cp {
        "pending-request-item closed-positive"
    } else if rc {
        "pending-request-item closed-negative"
    } else {
        "pending-request-item"
    };
    let flag = if sa || satc {
        DialogueFlag::Standby(req.timestamp)
    } else if let Some(i) = ci {
        DialogueFlag::Closed { intent: i, positive: cp }
    } else if req.is_outgoing && !rc && !closing(req, rf) && !satc {
        DialogueFlag::Received(req.timestamp)
    } else {
        DialogueFlag::Unmarked
    };
    let priority: u8 = if rc {
        2
    } else if needs || !req.is_outgoing {
        0
    } else {
        1
    };
    let response_intents = if needs {
        ints
    } else {
        Vec::new()
    };
    Some(
        PendingDialogue {
            aircraft_callsign: acs,
            action_min: amin,
            display_text: text,
            response_intents,
            is_y_response: is_y,
            timestamp: req.timestamp,
            card_class: class,
            flag,
            priority,
        },
    )
}

/// The cards of the dialogues of `dl`, in its order.
pub open spec fn cards_of(
    msgs: Seq<ReceivedMessage>,
    facts: Seq<MessageFacts>,
    dl: Seq<DialogueTrack>,
    now: i64,
) -> Seq<PendingDialogueView>
    decreases dl.len(),
{
    if dl.len() == 0 {
        Seq::empty()
    } else {
        let rest = cards_of(msgs, facts, dl.drop_last(), now);
        match card_of(msgs, facts, dl.last().1.0, dl.last().1.1, now) {
            Some(c) => rest.push(c),
            None => rest,
        }
    }
}

/// One card per dialogue of the rows that still needs attention.
pub open spec fn pending_cards(msgs: Seq<ReceivedMessage>, facts: Seq<MessageFacts>, now: i64) -> Seq<
    PendingDialogueView,
> {
    cards_of(msgs, facts, scan(msgs, facts, msgs.len() as nat).1, now)
}

/// Card `a` may come before card `b`: lower priority value first, and among
/// equal priorities the later first.
pub open spec fn card_le(a: PendingDialogueView, b: PendingDialogueView) -> bool {
    a.priority < b.priority || (a.priority == b.priority && a.timestamp >= b.timestamp)
}

/// The cards are in queue order.
pub open spec fn sorted_cards(s: Seq<PendingDialogueView>) -> bool {
    forall|i: int, j: int| 0 <= i < j < s.len() ==> card_le(#[trigger] s[i], #[trigger] s[j])
}

/// The views of a list of cards.
pub open spec fn card_views(s: Seq<PendingDialogue>) -> Seq<PendingDialogueView> {
    s.map_values(|c: PendingDialogue| c@)
}

fn card_lt(a: &PendingDialogue, b: &PendingDialogue) -> (r: bool)
    ensures
        r == !card_le(b@, a@),
{
    a.priority < b.priority || (a.priority == b.priority && a.timestamp > b.timestamp)
}

/// The cards in queue order.
fn sort_cards(v: Vec<PendingDialogue>) -> (r: Vec<PendingDialogue>)
    ensures
        card_views(r@).to_multiset() == card_views(v@).to_multiset(),
        sorted_cards(card_views(r@)),
{
    let mut rest = v;
    let mut out: Vec<PendingDialogue> = Vec::new();
    proof {
        assert(card_views(out@) =~= Seq::<PendingDialogueView>::empty());
        assert(card_views(out@).to_multiset() =~= Multiset::empty()) by {
            broadcast use vstd::seq_lib::to_multiset_len;
            assert(card_views(out@).to_multiset().len() == 0);
        }
    }
    while rest.len() > 0
        invariant
            card_views(out@).to_multiset().add(card_views(rest@).to_multiset())
                == card_views(v@).to_multiset(),
            sorted_cards(card_views(out@)),
        decreases rest@.len(),
    {
        let ghost rest_before = rest@;
        let c = rest.remove(0);
        proof {
            assert(card_views(rest@) =~= card_views(rest_before).remove(0));
            assert(card_views(rest_before)[0] == c@);
        }
        let mut j: usize = 0;
        while j < out.len() && !card_lt(&c, &out[j])
            invariant
                j <= out@.len(),
                forall|i: int| 0 <= i < j ==> card_le(#[trigger] card_views(out@)[i], c@),
            decreases out@.len() - j,
        {
            j = j + 1;
        }
        let ghost out_before = out@;
        out.insert(j, c);
        proof {
            let ob = card_views(out_before);
            let nb = card_views(out@);
            assert(nb =~= ob.insert(j as int, c@));
            assert forall|a: int, b: int| 0 <= a < b < nb.len() implies card_le(
                #[trigger] nb[a],
                #[trigger] nb[b],
            ) by {
                if b < j {
                    assert(nb[a] == ob[a] && nb[b] == ob[b]);
                } else if b == j {
                    assert(nb[a] == ob[a]);
                } else if a == j {
                    assert(nb[b] == ob[b - 1]);
                    assert(!card_le(ob[j as int], c@));
                    if b - 1 > j {
                        assert(card_le(ob[j as int], ob[b - 1]));
                    }
                } else if a < j {
                    assert(nb[a] == ob[a] && nb[b] == ob[b - 1]);
                } else {
                    assert(nb[a] == ob[a - 1] && nb[b] == ob[b - 1]);
                }
            }
            vstd::seq_lib::to_multiset_insert(ob, j as int, c@);
            vstd::seq_lib::to_multiset_remove(card_views(rest_before), 0);
            assert(card_views(rest_before).to_multiset().contains(c@)) by {
                broadcast use vstd::seq_lib::to_multiset_contains;
                assert(card_views(rest_before).contains(c@)) by {
                    assert(card_views(rest_before)[0] == c@);
                }
            }
            assert(nb.to_multiset().add(card_views(rest@).to_multiset()) =~= ob.to_multiset().add(
                card_views(rest_before).to_multiset(),
            ));
        }
    }
    proof {
        assert(card_views(rest@) =~= Seq::<PendingDialogueView>::empty());
        assert(card_views(rest@).to_multiset() =~= Multiset::empty()) by {
            broadcast use vstd::seq_lib::to_multiset_len;
            assert(card_views(rest@).to_multiset().len() == 0);
        }
        assert(card_views(out@).to_multiset().add(Multiset::empty()) =~= card_views(out@).to_multiset());
    }
    out
}

/// The pending requests queue of an ATC tab: the rows grouped into
/// dialogues per aircraft (a row joins the dialogue of the MIN it answers),
/// one card for each dialogue that is open or closed within the last
/// minute, lowest priority value first and, within a priority, the latest
/// first. `facts[i]` tells what the message catalogue says of `messages[i]`.
pub fn build_pending_dialogues(messages: &[ReceivedMessage], facts: &[MessageFacts], now: i64) -> (r: Vec<
    PendingDialogue,
>)
    requires
        messages@.len() == facts@.len(),
    ensures
        card_views(r@).to_multiset() == pending_cards(messages@, facts@, now).to_multiset(),
        sorted_cards(card_views(r@)),
{
    let tracks = group_dialogues(messages, facts);
    let ghost dl = tracks_view(tracks@);
    let mut unsorted: Vec<PendingDialogue> = Vec::new();
    let mut k: usize = 0;
    while k < tracks.len()
        invariant
            k <= tracks@.len(),
            messages@.len() == facts@.len(),
            dl == tracks_view(tracks@),
            forall|j: int| 0 <= j < tracks@.len() ==> (#[trigger] tracks@[j]).2 < messages@.len(),
            card_views(unsorted@) == cards_of(messages@, facts@, dl.subrange(0, k as int), now),
        decreases tracks@.len() - k,
    {
        let li = tracks[k].2;
        let closed = tracks[k].3;
        proof {
            let sub = dl.subrange(0, k + 1);
            assert(sub.drop_last() =~= dl.subrange(0, k as int));
            assert(sub.last() == dl[k as int]);
            assert(dl[k as int].1 == (li as int, closed));
        }
        match build_card(messages, facts, li, closed, now) {
            Some(c) => {
                let ghost before = unsorted@;
                unsorted.push(c);
                proof {
                    assert(card_views(unsorted@) =~= card_views(before).push(c@));
                }
            },
            None => {},
        }
        k = k + 1;
    }
    proof {
        assert(dl.subrange(0, dl.len() as int) =~= dl);
    }
    sort_cards(unsorted)
}

} // verus!
