//! The ground side of the terminal client's CPDLC sessions: what each
//! envelope from an aircraft or another station does to the flight list and
//! to each flight's connection state (logon, connection, transfer, contact,
//! handover), which lines it adds to the message logs, and when a
//! termination goes out on its own.
use vstd::prelude::*;
use vstd::string::*;
use crate::session::{
    assoc_map, keys_unique, lemma_assoc_absent, lemma_assoc_lookup, lemma_assoc_push,
    lemma_assoc_remove, lemma_assoc_update,
};
use crate::text::{joined, str_eq};

verus! {

broadcast use vstd::string::group_string_axioms;

/// Where a flight stands with this station.
#[derive(Debug, Clone, PartialEq, Eq)]
pub enum AtcConnectionState {
    Unknown,
    LogonReceived,
    LogonAccepted,
    ConnectionRequested,
    Connected,
    /// Handed off to this station.
    HandoffInitiated(String),
    /// Transferred from this station.
    TransferReceived(String),
}

/// A connection state as the library reasons about it.
pub enum AtcConnectionView {
    Unknown,
    LogonReceived,
    LogonAccepted,
    ConnectionRequested,
    Connected,
    HandoffInitiated(Seq<char>),
    TransferReceived(Seq<char>),
}

impl View for AtcConnectionState {
    type V = AtcConnectionView;

    open spec fn view(&self) -> AtcConnectionView {
        match self {
            AtcConnectionState::Unknown => AtcConnectionView::Unknown,
            AtcConnectionState::LogonReceived => AtcConnectionView::LogonReceived,
            AtcConnectionState::LogonAccepted => AtcConnectionView::LogonAccepted,
            AtcConnectionState::ConnectionRequested => AtcConnectionView::ConnectionRequested,
            AtcConnectionState::Connected => AtcConnectionView::Connected,
            AtcConnectionState::HandoffInitiated(s) => AtcConnectionView::HandoffInitiated(s@),
            AtcConnectionState::TransferReceived(s) => AtcConnectionView::TransferReceived(s@),
        }
    }
}

/// The entries of a table keyed by text, by their views.
pub open spec fn table_entries<V: View>(t: Seq<(String, V)>) -> Seq<(Seq<char>, V::V)> {
    t.map_values(|e: (String, V)| (e.0@, e.1@))
}

/// What a table keyed by text holds.
pub open spec fn table_view<V: View>(t: Seq<(String, V)>) -> Map<Seq<char>, V::V> {
    assoc_map(table_entries(t))
}

/// The state of the ground station's client: the flights on its list (in
/// the order they appeared), each flight's connection state, callsign and
/// last MIN received, keyed by the flight's network address, and the
/// selected line of the list.
pub struct AtcState {
    pub flights: Vec<String>,
    pub states: Vec<(String, AtcConnectionState)>,
    pub callsigns: Vec<(String, String)>,
    pub last_received_mins: Vec<(String, u8)>,
    pub selected: Option<usize>,
}

pub struct AtcStateView {
    pub flights: Seq<Seq<char>>,
    pub states: Map<Seq<char>, AtcConnectionView>,
    pub callsigns: Map<Seq<char>, Seq<char>>,
    pub last_received_mins: Map<Seq<char>, u8>,
    pub selected: Option<usize>,
}

/// The views of a list of texts.
pub open spec fn texts_of(v: Seq<String>) -> Seq<Seq<char>> {
    v.map_values(|s: String| s@)
}

impl View for AtcState {
    type V = AtcStateView;

    open spec fn view(&self) -> AtcStateView {
        AtcStateView {
            flights: texts_of(self.flights@),
            states: table_view(self.states@),
            callsigns: table_view(self.callsigns@),
            last_received_mins: table_view(self.last_received_mins@),
            selected: self.selected,
        }
    }
}

impl AtcState {
    /// No table holds a key twice.
    pub open spec fn wf(&self) -> bool {
        &&& keys_unique(table_entries(self.states@))
        &&& keys_unique(table_entries(self.callsigns@))
        &&& keys_unique(table_entries(self.last_received_mins@))
    }

    /// No flight yet; the first line is selected.
    pub fn new() -> (r: AtcState)
        ensures
            r.wf(),
            r@.flights == Seq::<Seq<char>>::empty(),
            r@.states == Map::<Seq<char>, AtcConnectionView>::empty(),
            r@.callsigns == Map::<Seq<char>, Seq<char>>::empty(),
            r@.last_received_mins == Map::<Seq<char>, u8>::empty(),
            r@.selected == Some(0usize),
    {
        let r = AtcState {
            flights: Vec::new(),
            states: Vec::new(),
            callsigns: Vec::new(),
            last_received_mins: Vec::new(),
            selected: Some(0),
        };
        proof {
            assert(texts_of(r.flights@) =~= Seq::<Seq<char>>::empty());
            assert(table_entries(r.states@) =~= Seq::empty());
            assert(table_entries(r.callsigns@) =~= Seq::empty());
            assert(table_entries(r.last_received_mins@) =~= Seq::empty());
        }
        r
    }
}

/// The position of the entry for `key`, if there is one.
pub(crate) fn table_find<V: View>(t: &Vec<(String, V)>, key: &str) -> (r: Option<usize>)
    ensures
        match r {
            Some(i) => i < t@.len() && table_entries(t@)[i as int].0 == key@,
            None => forall|j: int| 0 <= j < t@.len() ==> (#[trigger] table_entries(t@)[j]).0 != key@,
        },
{
    let mut i: usize = 0;
    while i < t.len()
        invariant
            i <= t@.len(),
            forall|j: int| 0 <= j < i ==> (#[trigger] table_entries(t@)[j]).0 != key@,
        decreases t@.len() - i,
    {
        if str_eq(t[i].0.as_str(), key) {
            return Some(i);
        }
        i = i + 1;
    }
    None
}

/// Whether the table holds `key`.
pub(crate) fn table_has<V: View>(t: &Vec<(String, V)>, key: &str) -> (r: bool)
    requires
        keys_unique(table_entries(t@)),
    ensures
        r == table_view(t@).contains_key(key@),
{
    match table_find(t, key) {
        Some(i) => {
            proof {
                lemma_assoc_lookup(table_entries(t@), i as int);
            }
            true
        },
        None => {
            proof {
                lemma_assoc_absent(table_entries(t@), key@);
            }
            false
        },
    }
}

/// Set the value of `key`.
pub(crate) fn table_put<V: View>(t: &mut Vec<(String, V)>, key: String, v: V)
    requires
        keys_unique(table_entries(old(t)@)),
    ensures
        keys_unique(table_entries(final(t)@)),
        table_view(final(t)@) == table_view(old(t)@).insert(key@, v@),
{
    let ghost s = table_entries(t@);
    match table_find(t, key.as_str()) {
        Some(i) => {
            let ghost kv = key@;
            let ghost vv = v@;
            t.set(i, (key, v));
            proof {
                lemma_assoc_update(s, i as int, vv);
                assert(table_entries(t@) =~= s.update(i as int, (s[i as int].0, vv)));
            }
        },
        None => {
            let ghost kv = key@;
            let ghost vv = v@;
            t.push((key, v));
            proof {
                lemma_assoc_push(s, kv, vv);
                assert(table_entries(t@) =~= s.push((kv, vv)));
                assert(keys_unique(table_entries(t@))) by {
                    assert forall|a: int, b: int|
                        0 <= a < table_entries(t@).len() && 0 <= b < table_entries(t@).len() && a
                            != b implies table_entries(t@)[a].0 != table_entries(t@)[b].0 by {
                        if a < s.len() && b < s.len() {
                            assert(table_entries(t@)[a] == s[a]);
                            assert(table_entries(t@)[b] == s[b]);
                        } else if a < s.len() {
                            assert(table_entries(t@)[a] == s[a]);
                        } else {
                            assert(table_entries(t@)[b] == s[b]);
                        }
                    }
                }
            }
        },
    }
}

/// Drop the entry for `key`, if there is one.
pub(crate) fn table_remove<V: View>(t: &mut Vec<(String, V)>, key: &str)
    requires
        keys_unique(table_entries(old(t)@)),
    ensures
        keys_unique(table_entries(final(t)@)),
        table_view(final(t)@) == table_view(old(t)@).remove(key@),
{
    let ghost s = table_entries(t@);
    match table_find(t, key) {
        Some(i) => {
            t.remove(i);
            proof {
                lemma_assoc_remove(s, i as int);
                assert(table_entries(t@) =~= s.remove(i as int));
            }
        },
        None => {
            proof {
                lemma_assoc_absent(s, key@);
                assert(assoc_map(s).remove(key@) =~= assoc_map(s));
            }
        },
    }
}

/// The value of `key`, if the table holds one.
pub(crate) fn table_get<'a, V: View>(t: &'a Vec<(String, V)>, key: &str) -> (r: Option<&'a V>)
    requires
        keys_unique(table_entries(t@)),
    ensures
        match r {
            Some(v) => table_view(t@).contains_key(key@) && table_view(t@)[key@] == v@,
            None => !table_view(t@).contains_key(key@),
        },
{
    match table_find(t, key) {
        Some(i) => {
            proof {
                lemma_assoc_lookup(table_entries(t@), i as int);
            }
            Some(&t[i].1)
        },
        None => {
            proof {
                lemma_assoc_absent(table_entries(t@), key@);
            }
            None
        },
    }
}

/// An envelope received by the ground station, by its type, with the
/// payload fields that the session reads (`None` where the payload lacks
/// them).
#[derive(Debug, Clone)]
pub enum AtcEvent {
    /// `cpdlc.logon.request`, with the aircraft's callsign.
    LogonRequest { callsign: Option<String> },
    /// `cpdlc.message`, with its MIN.
    Message { min: Option<i64> },
    /// `cpdlc.connection.confirm`.
    ConnectionConfirm,
    /// `cpdlc.transfer.response` from another station.
    TransferResponse { accepted: Option<bool> },
    /// `cpdlc.contact.response` from the aircraft.
    ContactResponse { accepted: Option<bool> },
    /// `cpdlc.contact.complete` from the aircraft.
    ContactComplete,
    /// `cpdlc.transfer.request` from another station, with the aircraft's
    /// callsign and network address.
    TransferRequest { callsign: Option<String>, pilot_cid: Option<String> },
    /// Any other envelope type.
    Other(String),
}

pub enum AtcEventView {
    LogonRequest { callsign: Option<Seq<char>> },
    Message { min: Option<i64> },
    ConnectionConfirm,
    TransferResponse { accepted: Option<bool> },
    ContactResponse { accepted: Option<bool> },
    ContactComplete,
    TransferRequest { callsign: Option<Seq<char>>, pilot_cid: Option<Seq<char>> },
    Other(Seq<char>),
}

/// The view of an optional text.
pub open spec fn opt_text(o: Option<String>) -> Option<Seq<char>> {
    match o {
        Some(s) => Some(s@),
        None => None,
    }
}

impl View for AtcEvent {
    type V = AtcEventView;

    open spec fn view(&self) -> AtcEventView {
        match self {
            AtcEvent::LogonRequest { callsign } => AtcEventView::LogonRequest {
                callsign: opt_text(*callsign),
            },
            AtcEvent::Message { min } => AtcEventView::Message { min: *min },
            AtcEvent::ConnectionConfirm => AtcEventView::ConnectionConfirm,
            AtcEvent::TransferResponse { accepted } => AtcEventView::TransferResponse {
                accepted: *accepted,
            },
            AtcEvent::ContactResponse { accepted } => AtcEventView::ContactResponse {
                accepted: *accepted,
            },
            AtcEvent::ContactComplete => AtcEventView::ContactComplete,
            AtcEvent::TransferRequest { callsign, pilot_cid } => AtcEventView::TransferRequest {
                callsign: opt_text(*callsign),
                pilot_cid: opt_text(*pilot_cid),
            },
            AtcEvent::Other(t) => AtcEventView::Other(t@),
        }
    }
}

/// A line added to the message log of `flight`.
pub struct AtcLogLine {
    pub flight: String,
    pub source: String,
    pub content: String,
    pub is_incoming: bool,
}

pub struct AtcLogLineView {
    pub flight: Seq<char>,
    pub source: Seq<char>,
    pub content: Seq<char>,
    pub is_incoming: bool,
}

impl View for AtcLogLine {
    type V = AtcLogLineView;

    open spec fn view(&self) -> AtcLogLineView {
        AtcLogLineView {
            flight: self.flight@,
            source: self.source@,
            content: self.content@,
            is_incoming: self.is_incoming,
        }
    }
}

/// What an envelope does besides changing the state: the log lines added,
/// the notification shown, and the flight a termination request goes to.
pub struct AtcOutput {
    pub log: Vec<AtcLogLine>,
    pub notification: Option<String>,
    pub terminate: Option<String>,
}

pub struct AtcOutputView {
    pub log: Seq<AtcLogLineView>,
    pub notification: Option<Seq<char>>,
    pub terminate: Option<Seq<char>>,
}

impl View for AtcOutput {
    type V = AtcOutputView;

    open spec fn view(&self) -> AtcOutputView {
        AtcOutputView {
            log: self.log@.map_values(|l: AtcLogLine| l@),
            notification: opt_text(self.notification),
            terminate: opt_text(self.terminate),
        }
    }
}

/// The new state and what goes out.
pub struct AtcStepView {
    pub state: AtcStateView,
    pub out: AtcOutputView,
}

/// A state paired with an output.
pub open spec fn step_of(state: AtcStateView, out: AtcOutputView) -> AtcStepView {
    AtcStepView { state, out }
}

/// An incoming log line.
pub open spec fn incoming(flight: Seq<char>, source: Seq<char>, content: Seq<char>) -> AtcLogLineView {
    AtcLogLineView { flight, source, content, is_incoming: true }
}

/// `i` is the first position of `x` in `s`.
pub open spec fn is_first_index(s: Seq<Seq<char>>, x: Seq<char>, i: int) -> bool {
    &&& 0 <= i < s.len()
    &&& s[i] == x
    &&& forall|j: int| 0 <= j < i ==> s[j] != x
}

/// The first position of `x` in `s`, if any.
pub open spec fn first_index(s: Seq<Seq<char>>, x: Seq<char>) -> Option<int> {
    if exists|i: int| is_first_index(s, x, i) {
        Some(choose|i: int| is_first_index(s, x, i))
    } else {
        None
    }
}

/// After the envelope's own handling: the flight joins the list if it is
/// new (selected when it is the first one, with an unknown state unless it
/// has one), a line naming the envelope goes to its log from its callsign
/// (or address), and a notification tells of it.
pub open spec fn generic_tail(s: AtcStateView, src: Seq<char>, content: Seq<char>) -> AtcStepView {
    let name = if s.callsigns.contains_key(src) {
        s.callsigns[src]
    } else {
        src
    };
    let s2 = if s.flights.contains(src) {
        s
    } else {
        AtcStateView {
            flights: s.flights.push(src),
            selected: if s.flights.len() == 0 {
                Some(0usize)
            } else {
                s.selected
            },
            states: if s.states.contains_key(src) {
                s.states
            } else {
                s.states.insert(src, AtcConnectionView::Unknown)
            },
            ..s
        }
    };
    AtcStepView {
        state: s2,
        out: AtcOutputView {
            log: seq![incoming(src, name, content)],
            notification: Some("New message from "@ + name),
            terminate: None,
        },
    }
}

/// A handover complete: the flight leaves the list and its state is
/// dropped (the selection is cleared when it was on that line), and a
/// termination request goes to it on its own.
pub open spec fn on_contact_complete(s: AtcStateView, src: Seq<char>) -> AtcStepView {
    let (flights, selected) = match first_index(s.flights, src) {
        Some(i) => (s.flights.remove(i), if s.selected == Some(i as usize) {
            None
        } else {
            s.selected
        }),
        None => (s.flights, s.selected),
    };
    AtcStepView {
        state: AtcStateView { flights, selected, states: s.states.remove(src), ..s },
        out: AtcOutputView {
            log: seq![
                incoming(src, src, "CONTACT COMPLETE"@),
                AtcLogLineView {
                    flight: src,
                    source: "ME"@,
                    content: "TERMINATION SENT (AUTO)"@,
                    is_incoming: false,
                },
            ],
            notification: Some(src + " Disconnected (Handover Complete)"@),
            terminate: Some(src),
        },
    }
}

/// What an envelope from `src` does to the ground station whose own network
/// address is `own`; its own envelopes, echoed back, do nothing.
pub open spec fn spec_atc_step(
    s: AtcStateView,
    own: Seq<char>,
    src: Seq<char>,
    ev: AtcEventView,
) -> AtcStepView {
    let quiet = AtcOutputView { log: seq![], notification: None, terminate: None };
    if src == own {
        AtcStepView { state: s, out: quiet }
    } else {
        match ev {
            AtcEventView::LogonRequest { callsign } => {
                let cs = match callsign {
                    Some(c) => s.callsigns.insert(src, c),
                    None => s.callsigns,
                };
                generic_tail(
                    AtcStateView {
                        callsigns: cs,
                        states: s.states.insert(src, AtcConnectionView::LogonReceived),
                        ..s
                    },
                    src,
                    "LOGON REQUEST"@,
                )
            },
            AtcEventView::Message { min } => {
                let mins = match min {
                    Some(m) => s.last_received_mins.insert(src, m as u8),
                    None => s.last_received_mins,
                };
                generic_tail(
                    AtcStateView { last_received_mins: mins, ..s },
                    src,
                    "REQ: cpdlc.message"@,
                )
            },
            AtcEventView::ConnectionConfirm => generic_tail(
                AtcStateView {
                    states: s.states.insert(src, AtcConnectionView::Connected),
                    ..s
                },
                src,
                "CONNECTION CONFIRMED"@,
            ),
            AtcEventView::TransferResponse { accepted } => AtcStepView {
                state: s,
                out: AtcOutputView {
                    log: seq![
                        incoming(src, src, if accepted == Some(true) {
                            "TRANSFER ACCEPTED"@
                        } else {
                            "TRANSFER REJECTED"@
                        }),
                    ],
                    notification: None,
                    terminate: None,
                },
            },
            AtcEventView::ContactResponse { accepted } => AtcStepView {
                state: s,
                out: AtcOutputView {
                    log: seq![
                        incoming(src, src, if accepted == Some(true) {
                            "CONTACT WILCO"@
                        } else {
                            "CONTACT UNABLE"@
                        }),
                    ],
                    notification: None,
                    terminate: None,
                },
            },
            AtcEventView::ContactComplete => on_contact_complete(s, src),
            AtcEventView::TransferRequest { callsign, pilot_cid } => match callsign {
                Some(cs) => {
                    let pilot = match pilot_cid {
                        Some(p) => p,
                        None => cs,
                    };
                    AtcStepView {
                        state: AtcStateView {
                            callsigns: s.callsigns.insert(pilot, cs),
                            states: s.states.insert(pilot, AtcConnectionView::TransferReceived(src)),
                            flights: if s.flights.contains(pilot) {
                                s.flights
                            } else {
                                s.flights.push(pilot)
                            },
                            ..s
                        },
                        out: AtcOutputView {
                            log: seq![incoming(pilot, src, "TRANSFER REQUEST from "@ + src)],
                            notification: Some(
                                "Transfer Request for "@ + cs + " from "@ + src,
                            ),
                            terminate: None,
                        },
                    }
                },
                None => generic_tail(s, src, "REQ: cpdlc.transfer.request"@),
            },
            AtcEventView::Other(t) => generic_tail(s, src, "REQ: "@ + t),
        }
    }
}

/// Whether `x` is on the list, and where first.
fn find_flight(flights: &Vec<String>, x: &str) -> (r: Option<usize>)
    ensures
        match r {
            Some(i) => first_index(texts_of(flights@), x@) == Some(i as int),
            None => first_index(texts_of(flights@), x@) is None && !texts_of(flights@).contains(
                x@,
            ),
        },
{
    let ghost fs = texts_of(flights@);
    let mut i: usize = 0;
    while i < flights.len()
        invariant
            i <= flights@.len(),
            fs == texts_of(flights@),
            forall|j: int| 0 <= j < i ==> fs[j] != x@,
        decreases flights@.len() - i,
    {
        if str_eq(flights[i].as_str(), x) {
            proof {
                assert(is_first_index(fs, x@, i as int));
                let c = choose|k: int| is_first_index(fs, x@, k);
                if c < i {
                    assert(fs[c] != x@);
                }
                if c > i {
                    assert(fs[i as int] != x@);
                }
            }
            return Some(i);
        }
        i = i + 1;
    }
    proof {
        if exists|k: int| is_first_index(fs, x@, k) {
            let c = choose|k: int| is_first_index(fs, x@, k);
            assert(fs[c] != x@);
        }
        if fs.contains(x@) {
            let k = choose|k: int| 0 <= k < fs.len() && fs[k] == x@;
            assert(fs[k] != x@);
        }
    }
    None
}

/// The views of a list of log lines.
pub open spec fn lines_of(v: Seq<AtcLogLine>) -> Seq<AtcLogLineView> {
    v.map_values(|l: AtcLogLine| l@)
}

fn one_line(l: AtcLogLine) -> (r: Vec<AtcLogLine>)
    ensures
        lines_of(r@) == seq![l@],
{
    let mut v: Vec<AtcLogLine> = Vec::new();
    v.push(l);
    proof {
        assert(lines_of(v@) =~= seq![l@]);
    }
    v
}

fn generic_tail_exec(state: &mut AtcState, source: &str, content: String) -> (r: AtcOutput)
    requires
        old(state).wf(),
    ensures
        final(state).wf(),
        step_of(final(state)@, r@) == generic_tail(old(state)@, source@, content@),
{
    let name = match table_get(&state.callsigns, source) {
        Some(c) => c.clone(),
        None => source.to_owned(),
    };
    let ghost s0 = state@;
    match find_flight(&state.flights, source) {
        Some(_) => {
            proof {
                let k = choose|k: int| is_first_index(texts_of(state.flights@), source@, k);
                assert(texts_of(state.flights@)[k] == source@);
            }
        },
        None => {
            let was_empty = state.flights.len() == 0;
            let ghost before = state.flights@;
            state.flights.push(source.to_owned());
            proof {
                assert(texts_of(state.flights@) =~= texts_of(before).push(source@));
            }
            if was_empty {
                state.selected = Some(0);
            }
            if !table_has(&state.states, source) {
                table_put(&mut state.states, source.to_owned(), AtcConnectionState::Unknown);
            }
        },
    }
    let line = AtcLogLine {
        flight: source.to_owned(),
        source: name.clone(),
        content,
        is_incoming: true,
    };
    let out = AtcOutput {
        log: one_line(line),
        notification: Some(joined("New message from ", name.as_str())),
        terminate: None,
    };
    proof {
        assert(state@.flights == generic_tail(s0, source@, content@).state.flights);
        assert(state@.states == generic_tail(s0, source@, content@).state.states);
    }
    out
}

fn contact_complete_exec(state: &mut AtcState, source: &str) -> (r: AtcOutput)
    requires
        old(state).wf(),
    ensures
        final(state).wf(),
        step_of(final(state)@, r@) == on_contact_complete(old(state)@, source@),
{
    let ghost s0 = state@;
    table_remove(&mut state.states, source);
    match find_flight(&state.flights, source) {
        Some(i) => {
            let ghost before = state.flights@;
            state.flights.remove(i);
            proof {
                assert(texts_of(state.flights@) =~= texts_of(before).remove(i as int));
            }
            if state.selected == Some(i) {
                state.selected = None;
            }
        },
        None => {},
    }
    let mut log: Vec<AtcLogLine> = Vec::new();
    log.push(
        AtcLogLine {
            flight: source.to_owned(),
            source: source.to_owned(),
            content: "CONTACT COMPLETE".to_owned(),
            is_incoming: true,
        },
    );
    log.push(
        AtcLogLine {
            flight: source.to_owned(),
            source: "ME".to_owned(),
            content: "TERMINATION SENT (AUTO)".to_owned(),
            is_incoming: false,
        },
    );
    let out = AtcOutput {
        log,
        notification: Some(joined(source, " Disconnected (Handover Complete)")),
        terminate: Some(source.to_owned()),
    };
    proof {
        assert(lines_of(out.log@) =~= on_contact_complete(s0, source@).out.log);
        assert(state@.flights == on_contact_complete(s0, source@).state.flights);
        assert(state@.selected == on_contact_complete(s0, source@).state.selected);
    }
    out
}

/// What an envelope from `source` does to the ground station in `state`
/// whose own network address is `own_id`.
pub fn atc_envelope_step(state: &mut AtcState, own_id: &str, source: &str, ev: &AtcEvent) -> (r:
    AtcOutput)
    requires
        old(state).wf(),
    ensures
        final(state).wf(),
        step_of(final(state)@, r@) == spec_atc_step(
            old(state)@,
            own_id@,
            source@,
            ev@,
        ),
{
    let quiet_log: Vec<AtcLogLine> = Vec::new();
    proof {
        assert(lines_of(quiet_log@) =~= Seq::<AtcLogLineView>::empty());
    }
    if str_eq(source, own_id) {
        return AtcOutput { log: quiet_log, notification: None, terminate: None };
    }
    let ghost s0 = state@;
    match ev {
        AtcEvent::LogonRequest { callsign } => {
            match callsign {
                Some(c) => table_put(&mut state.callsigns, source.to_owned(), c.clone()),
                None => {},
            }
            table_put(&mut state.states, source.to_owned(), AtcConnectionState::LogonReceived);
            generic_tail_exec(state, source, "LOGON REQUEST".to_owned())
        },
        AtcEvent::Message { min } => {
            match min {
                Some(m) => table_put(&mut state.last_received_mins, source.to_owned(), *m as u8),
                None => {},
            }
            generic_tail_exec(state, source, "REQ: cpdlc.message".to_owned())
        },
        AtcEvent::ConnectionConfirm => {
            table_put(&mut state.states, source.to_owned(), AtcConnectionState::Connected);
            generic_tail_exec(state, source, "CONNECTION CONFIRMED".to_owned())
        },
        AtcEvent::TransferResponse { accepted } => {
            let content = if *accepted == Some(true) {
                "TRANSFER ACCEPTED".to_owned()
            } else {
                "TRANSFER REJECTED".to_owned()
            };
            let line = AtcLogLine {
                flight: source.to_owned(),
                source: source.to_owned(),
                content,
                is_incoming: true,
            };
            AtcOutput { log: one_line(line), notification: None, terminate: None }
        },
        AtcEvent::ContactResponse { accepted } => {
            let content = if *accepted == Some(true) {
                "CONTACT WILCO".to_owned()
            } else {
                "CONTACT UNABLE".to_owned()
            };
            let line = AtcLogLine {
                flight: source.to_owned(),
                source: source.to_owned(),
                content,
                is_incoming: true,
            };
            AtcOutput { log: one_line(line), notification: None, terminate: None }
        },
        AtcEvent::ContactComplete => contact_complete_exec(state, source),
        AtcEvent::TransferRequest { callsign, pilot_cid } => match callsign {
            Some(cs) => {
                let pilot = match pilot_cid {
                    Some(p) => p.clone(),
                    None => cs.clone(),
                };
                table_put(&mut state.callsigns, pilot.clone(), cs.clone());
                table_put(
                    &mut state.states,
                    pilot.clone(),
                    AtcConnectionState::TransferReceived(source.to_owned()),
                );
                match find_flight(&state.flights, pilot.as_str()) {
                    Some(_) => {
                        proof {
                            let k = choose|k: int|
                                is_first_index(texts_of(state.flights@), pilot@, k);
                            assert(texts_of(state.flights@)[k] == pilot@);
                        }
                    },
                    None => {
                        let ghost before = state.flights@;
                        state.flights.push(pilot.clone());
                        proof {
                            assert(texts_of(state.flights@) =~= texts_of(before).push(pilot@));
                        }
                    },
                }
                let line = AtcLogLine {
                    flight: pilot,
                    source: source.to_owned(),
                    content: joined("TRANSFER REQUEST from ", source),
                    is_incoming: true,
                };
                let a = joined("Transfer Request for ", cs.as_str());
                let b = joined(a.as_str(), " from ");
                AtcOutput {
                    log: one_line(line),
                    notification: Some(joined(b.as_str(), source)),
                    terminate: None,
                }
            },
            None => generic_tail_exec(state, source, "REQ: cpdlc.transfer.request".to_owned()),
        },
        AtcEvent::Other(t) => generic_tail_exec(state, source, joined("REQ: ", t.as_str())),
    }
}


/// The ground station's own envelopes, echoed back, change nothing and say
/// nothing.
pub proof fn law_atc_own_envelopes_change_nothing(s: AtcStateView, own: Seq<char>, ev: AtcEventView)
    ensures
        spec_atc_step(s, own, own, ev).state == s,
        spec_atc_step(s, own, own, ev).out.log == Seq::<AtcLogLineView>::empty(),
        spec_atc_step(s, own, own, ev).out.notification is None,
        spec_atc_step(s, own, own, ev).out.terminate is None,
{
}

/// A contact or transfer response from `src` only adds one incoming line
/// to `src`'s log: `CONTACT WILCO` / `TRANSFER ACCEPTED` exactly when the
/// response accepts, `CONTACT UNABLE` / `TRANSFER REJECTED` otherwise (an
/// unreadable answer counts as a refusal); nothing else changes.
pub proof fn law_responses_are_logged(
    s: AtcStateView,
    own: Seq<char>,
    src: Seq<char>,
    accepted: Option<bool>,
)
    requires
        src != own,
    ensures
        ({
            let r = spec_atc_step(s, own, src, AtcEventView::ContactResponse { accepted });
            &&& r.state == s
            &&& r.out.notification is None
            &&& r.out.terminate is None
            &&& r.out.log.len() == 1
            &&& r.out.log[0].flight == src
            &&& r.out.log[0].source == src
            &&& r.out.log[0].is_incoming
            &&& (r.out.log[0].content == "CONTACT WILCO"@ <==> accepted == Some(true))
            &&& (r.out.log[0].content == "CONTACT UNABLE"@ <==> accepted != Some(true))
        }),
        ({
            let r = spec_atc_step(s, own, src, AtcEventView::TransferResponse { accepted });
            &&& r.state == s
            &&& r.out.notification is None
            &&& r.out.terminate is None
            &&& r.out.log.len() == 1
            &&& r.out.log[0].flight == src
            &&& r.out.log[0].is_incoming
            &&& (r.out.log[0].content == "TRANSFER ACCEPTED"@ <==> accepted == Some(true))
            &&& (r.out.log[0].content == "TRANSFER REJECTED"@ <==> accepted != Some(true))
        }),
{
    reveal_strlit("CONTACT WILCO");
    reveal_strlit("CONTACT UNABLE");
    reveal_strlit("TRANSFER ACCEPTED");
    reveal_strlit("TRANSFER REJECTED");
    assert("CONTACT WILCO"@[8] != "CONTACT UNABLE"@[8]);
    assert("TRANSFER ACCEPTED"@[9] != "TRANSFER REJECTED"@[9]);
}

/// A completed handover ends the flight here: its state is dropped, it
/// leaves the list, and a termination request goes to it.
pub proof fn law_handover_complete(s: AtcStateView, own: Seq<char>, src: Seq<char>)
    requires
        src != own,
    ensures
        ({
            let r = spec_atc_step(s, own, src, AtcEventView::ContactComplete);
            &&& !r.state.states.contains_key(src)
            &&& r.out.terminate == Some(src)
            &&& s.flights.contains(src) ==> r.state.flights.len() == s.flights.len() - 1
            &&& !s.flights.contains(src) ==> r.state.flights == s.flights
            &&& r.state.callsigns == s.callsigns
        }),
{
    if s.flights.contains(src) {
        let k = choose|k: int| 0 <= k < s.flights.len() && s.flights[k] == src;
        assert(exists|i: int| is_first_index(s.flights, src, i)) by {
            lemma_first_occurrence(s.flights, src, k);
        }
    } else {
        if exists|i: int| is_first_index(s.flights, src, i) {
            let i = choose|i: int| is_first_index(s.flights, src, i);
            assert(s.flights[i] == src);
        }
    }
}

proof fn lemma_first_occurrence(s: Seq<Seq<char>>, x: Seq<char>, k: int)
    requires
        0 <= k < s.len(),
        s[k] == x,
    ensures
        exists|i: int| is_first_index(s, x, i),
    decreases k,
{
    if exists|j: int| 0 <= j < k && s[j] == x {
        let j = choose|j: int| 0 <= j < k && s[j] == x;
        lemma_first_occurrence(s, x, j);
    } else {
        assert(is_first_index(s, x, k));
    }
}

/// A logon request lists the flight, with the logon received, and names it
/// by the callsign it gives; a confirmed connection marks the flight
/// connected.
pub proof fn law_logon_and_connection(
    s: AtcStateView,
    own: Seq<char>,
    src: Seq<char>,
    callsign: Option<Seq<char>>,
)
    requires
        src != own,
    ensures
        ({
            let r = spec_atc_step(s, own, src, AtcEventView::LogonRequest { callsign });
            &&& r.state.flights.contains(src)
            &&& r.state.states[src] == AtcConnectionView::LogonReceived
            &&& callsign matches Some(c) ==> r.state.callsigns[src] == c
        }),
        ({
            let r = spec_atc_step(s, own, src, AtcEventView::ConnectionConfirm);
            &&& r.state.flights.contains(src)
            &&& r.state.states[src] == AtcConnectionView::Connected
        }),
{
    let r1 = spec_atc_step(s, own, src, AtcEventView::LogonRequest { callsign });
    let r2 = spec_atc_step(s, own, src, AtcEventView::ConnectionConfirm);
    if !s.flights.contains(src) {
        assert(s.flights.push(src)[s.flights.len() as int] == src);
    }
}


/// A transfer request naming an aircraft lists the aircraft under its
/// network address (its callsign when the address is not given), marks it
/// as transferred from the requesting station, records its callsign, logs
/// the request on that flight and tells of it.
pub proof fn law_transfer_request(
    s: AtcStateView,
    own: Seq<char>,
    src: Seq<char>,
    cs: Seq<char>,
    pilot_cid: Option<Seq<char>>,
)
    requires
        src != own,
    ensures
        ({
            let r = spec_atc_step(
                s,
                own,
                src,
                AtcEventView::TransferRequest { callsign: Some(cs), pilot_cid },
            );
            let flight = match pilot_cid {
                Some(p) => p,
                None => cs,
            };
            &&& r.state.flights.contains(flight)
            &&& s.flights.contains(flight) ==> r.state.flights == s.flights
            &&& r.state.states[flight] == AtcConnectionView::TransferReceived(src)
            &&& r.state.callsigns[flight] == cs
            &&& r.out.log.len() == 1
            &&& r.out.log[0].flight == flight
            &&& r.out.log[0].content == "TRANSFER REQUEST from "@ + src
            &&& r.out.notification == Some("Transfer Request for "@ + cs + " from "@ + src)
            &&& r.out.terminate is None
        }),
{
    let flight = match pilot_cid {
        Some(p) => p,
        None => cs,
    };
    if !s.flights.contains(flight) {
        assert(s.flights.push(flight)[s.flights.len() as int] == flight);
    }
}

/// Any other envelope from a flight lists the flight if it is new (with an
/// unknown state unless it has one, selected when it is the only one), and
/// logs it on that flight under the flight's callsign (its address when the
/// callsign is unknown), with a notification naming the same.
pub proof fn law_other_envelopes_are_listed(s: AtcStateView, own: Seq<char>, src: Seq<char>, t: Seq<char>)
    requires
        src != own,
    ensures
        ({
            let r = spec_atc_step(s, own, src, AtcEventView::Other(t));
            let name = if s.callsigns.contains_key(src) {
                s.callsigns[src]
            } else {
                src
            };
            &&& r.state.flights.contains(src)
            &&& s.flights.contains(src) ==> r.state == s
            &&& !s.flights.contains(src) ==> r.state.flights == s.flights.push(src)
            &&& !s.flights.contains(src) && !s.states.contains_key(src) ==> r.state.states[src]
                == AtcConnectionView::Unknown
            &&& !s.flights.contains(src) && s.flights.len() == 0 ==> r.state.selected == Some(
                0usize,
            )
            &&& r.state.callsigns == s.callsigns
            &&& r.out.log == seq![incoming(src, name, "REQ: "@ + t)]
            &&& r.out.notification == Some("New message from "@ + name)
            &&& r.out.terminate is None
        }),
{
    if !s.flights.contains(src) {
        assert(s.flights.push(src)[s.flights.len() as int] == src);
    }
}

} // verus!
