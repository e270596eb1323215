//! What the A320 DCDU shows: which message rows it pages through, the row on
//! screen, the rows that answer it, and the response buttons it offers.
use vstd::prelude::*;
use vstd::string::*;
use crate::gui_state::{
    first_tab_changed, is_linked_to_uplink, lemma_first_tab_unique, linked_to_uplink,
    AppState, CpdlcConnectionPhase, ReceivedMessage, TabState,
};
use crate::numbers::{message_numeric_id, spec_message_numeric_id};
use crate::text::{contains_seq, str_contains, to_uppercase, upper_text, utf8_len, utf8_len_upto};
use crate::translator::{MessageDefinition, MessageDirection};
use crate::dialogues::without_standby;
use crate::responses::{arrange_responses, spec_arrange, CpdlcResponseIntent, ResponseGrid};

verus! {

broadcast use vstd::string::group_string_axioms;

/// The positions `0..n` of the rows shown at the top level: those that do
/// not answer a received row of the list.
pub open spec fn visible_upto(msgs: Seq<ReceivedMessage>, n: int) -> Seq<int>
    decreases n,
{
    if n <= 0 {
        Seq::empty()
    } else if !linked_to_uplink(msgs, msgs[n - 1]) {
        visible_upto(msgs, n - 1).push(n - 1)
    } else {
        visible_upto(msgs, n - 1)
    }
}

/// The row of the visible list that the screen shows: the chosen one when
/// it is in range, else the last one; -1 when there is none.
pub open spec fn effective_index(visible_len: int, view_index: int) -> int {
    if visible_len == 0 {
        -1
    } else if 0 <= view_index < visible_len {
        view_index
    } else {
        visible_len - 1
    }
}

/// The positions of the rows that answer (by MRN) the numbered row `cur`.
pub open spec fn answers_upto(msgs: Seq<ReceivedMessage>, min: Option<u8>, n: int) -> Seq<int>
    decreases n,
{
    if n <= 0 {
        Seq::empty()
    } else if msgs[n - 1].mrn is Some && msgs[n - 1].mrn == min {
        answers_upto(msgs, min, n - 1).push(n - 1)
    } else {
        answers_upto(msgs, min, n - 1)
    }
}

/// What the DCDU shows.
#[derive(Debug, Clone)]
pub struct DcduScreen {
    /// Positions of the rows it pages through.
    pub visible: Vec<usize>,
    /// Which of them is on screen (-1: none).
    pub effective_idx: i32,
    /// Position of the row on screen.
    pub current: Option<usize>,
    /// Positions of the rows that answer a received row on screen.
    pub linked: Vec<usize>,
    /// MIN of the row on screen.
    pub current_min: Option<u8>,
    /// Responses offered for the row on screen.
    pub effective_intents: Vec<CpdlcResponseIntent>,
    /// Whether the response buttons are shown.
    pub show_responses: bool,
    pub response_grid: ResponseGrid,
    /// MIN of the row on screen when it is a received row not yet answered.
    pub current_open_min: Option<u8>,
    /// The status line under the message.
    pub lower_status: String,
}

/// The screen's responses: those offered for the row, without STANDBY once a
/// STANDBY was sent for its MIN.
pub open spec fn screen_intents(
    offered: Seq<CpdlcResponseIntent>,
    min: Option<u8>,
    stby_sent: Seq<u8>,
) -> Seq<CpdlcResponseIntent> {
    match min {
        Some(m) => if stby_sent.contains(m) {
            offered.filter(|i: CpdlcResponseIntent| i != CpdlcResponseIntent::Standby)
        } else {
            offered
        },
        None => offered,
    }
}

fn contains_min(v: &[u8], x: u8) -> (r: bool)
    ensures
        r == v@.contains(x),
{
    let mut i: usize = 0;
    while i < v.len()
        invariant
            i <= v@.len(),
            forall|j: int| 0 <= j < i ==> v@[j] != x,
        decreases v@.len() - i,
    {
        if v[i] == x {
            proof {
                assert(v@[i as int] == x);
            }
            return true;
        }
        i = i + 1;
    }
    false
}

/// The positions of a list as integers.
pub open spec fn positions(v: Seq<usize>) -> Seq<int> {
    v.map_values(|i: usize| i as int)
}

/// What the DCDU shows for a tab's rows. `offered[k]` holds the responses
/// offered for row `k`; `view_index` is the page chosen with MSG-/MSG+;
/// `stby_sent` the MINs a STANDBY was sent for; `draft_empty` whether no
/// reply is being composed; `sending` whether a reply is on its way;
/// `status_line` a status set by the last action (empty when none).
pub fn dcdu_screen(
    msgs: &[ReceivedMessage],
    offered: &[Vec<CpdlcResponseIntent>],
    view_index: i32,
    stby_sent: &[u8],
    draft_empty: bool,
    sending: bool,
    status_line: &str,
) -> (r: DcduScreen)
    requires
        offered@.len() == msgs@.len(),
        msgs@.len() < 0x8000_0000,
    ensures
        positions(r.visible@) == visible_upto(msgs@, msgs@.len() as int),
        r.effective_idx == effective_index(r.visible@.len() as int, view_index as int),
        r.current == (if r.effective_idx >= 0 {
            Some(r.visible@[r.effective_idx as int])
        } else {
            None::<usize>
        }),
        match r.current {
            Some(k) => {
                let cur = msgs@[k as int];
                &&& r.current_min == cur.min
                &&& positions(r.linked@) == (if !cur.is_outgoing {
                    answers_upto(msgs@, cur.min, msgs@.len() as int)
                } else {
                    Seq::empty()
                })
                &&& r.effective_intents@ == screen_intents(offered@[k as int]@, cur.min, stby_sent@)
                &&& r.show_responses == (!cur.is_outgoing && !cur.responded && draft_empty
                    && r.effective_intents@.len() > 0)
                &&& r.current_open_min == (if !cur.is_outgoing && !cur.responded {
                    cur.min
                } else {
                    None
                })
            },
            None => {
                &&& r.current_min is None
                &&& r.linked@.len() == 0
                &&& r.effective_intents@.len() == 0
                &&& !r.show_responses
                &&& r.current_open_min is None
            },
        },
        r.response_grid == (if r.show_responses {
            spec_arrange(r.effective_intents@)
        } else {
            ResponseGrid { top_left: None, top_right: None, bot_left: None, bot_right: None }
        }),
        r.lower_status@ == (if status_line@.len() > 0 {
            status_line@
        } else if sending {
            "SENDING"@
        } else if r.current is Some {
            "SENT"@
        } else {
            Seq::empty()
        }),
{
    let mut visible: Vec<usize> = Vec::new();
    let mut k: usize = 0;
    while k < msgs.len()
        invariant
            k <= msgs@.len(),
            positions(visible@) == visible_upto(msgs@, k as int),
            visible@.len() <= k,
            msgs@.len() < 0x8000_0000,
            forall|j: int| 0 <= j < visible@.len() ==> (#[trigger] visible@[j]) < k,
        decreases msgs@.len() - k,
    {
        if !is_linked_to_uplink(msgs, &msgs[k]) {
            let ghost before = visible@;
            visible.push(k);
            proof {
                assert(positions(visible@) =~= positions(before).push(k as int));
            }
        }
        k = k + 1;
    }
    let vlen = visible.len();
    proof {
        assert(positions(visible@).len() == visible@.len());
    }
    let effective_idx: i32 = if vlen == 0 {
        -1
    } else if view_index >= 0 && (view_index as usize) < vlen {
        view_index
    } else {
        (vlen as i32) - 1
    };
    let current: Option<usize> = if effective_idx >= 0 {
        Some(visible[effective_idx as usize])
    } else {
        None
    };
    let mut linked: Vec<usize> = Vec::new();
    let mut current_min: Option<u8> = None;
    let mut effective_intents: Vec<CpdlcResponseIntent> = Vec::new();
    let mut show_responses = false;
    let mut current_open_min: Option<u8> = None;
    match current {
        Some(c) => {
            let cur = &msgs[c];
            current_min = cur.min;
            if !cur.is_outgoing {
                let mut j: usize = 0;
                while j < msgs.len()
                    invariant
                        j <= msgs@.len(),
                        positions(linked@) == answers_upto(msgs@, cur.min, j as int),
                    decreases msgs@.len() - j,
                {
                    let same = match (msgs[j].mrn, cur.min) {
                        (Some(a), Some(b)) => a == b,
                        _ => false,
                    };
                    if same {
                        let ghost before = linked@;
                        linked.push(j);
                        proof {
                            assert(positions(linked@) =~= positions(before).push(j as int));
                        }
                    }
                    j = j + 1;
                }
            }
            let stby = match cur.min {
                Some(m) => contains_min(stby_sent, m),
                None => false,
            };
            effective_intents = if stby {
                without_standby(offered[c].clone())
            } else {
                offered[c].clone()
            };
            show_responses = !cur.is_outgoing && !cur.responded && draft_empty
                && effective_intents.len() > 0;
            current_open_min = if !cur.is_outgoing && !cur.responded {
                cur.min
            } else {
                None
            };
        },
        None => {},
    }
    let response_grid = if show_responses {
        arrange_responses(effective_intents.as_slice())
    } else {
        ResponseGrid { top_left: None, top_right: None, bot_left: None, bot_right: None }
    };
    let lower_status = if !status_line.is_empty() {
        status_line.to_owned()
    } else if sending {
        "SENDING".to_owned()
    } else if current.is_some() {
        "SENT".to_owned()
    } else {
        String::new()
    };
    proof {
        if current is None {
            reveal_strlit("");
        }
    }
    DcduScreen {
        visible,
        effective_idx,
        current,
        linked,
        current_min,
        effective_intents,
        show_responses,
        response_grid,
        current_open_min,
        lower_status,
    }
}

/// The page MSG- goes to: the previous one, when the chosen page is past
/// the first.
pub fn msg_prev(view_index: i32) -> (r: Option<i32>)
    ensures
        r == (if view_index > 0 {
            Some((view_index - 1) as i32)
        } else {
            None::<i32>
        }),
{
    if view_index > 0 {
        Some(view_index - 1)
    } else {
        None
    }
}

/// The page MSG+ goes to: the next one, when the chosen page is before the
/// last of `visible_len` pages.
pub fn msg_next(view_index: i32, visible_len: usize) -> (r: Option<i32>)
    requires
        visible_len < 0x8000_0000,
    ensures
        r == (if view_index < visible_len - 1 {
            Some((view_index + 1) as i32)
        } else {
            None::<i32>
        }),
{
    let max = (visible_len as i32) - 1;
    if view_index < max {
        Some(view_index + 1)
    } else {
        None
    }
}

/// The DCDU offers a downlink message of the registry for the search query:
/// any downlink message when the query is empty, else those whose template,
/// upper-cased, contains it.
pub open spec fn downlink_picked(d: MessageDefinition, query: Seq<char>) -> bool {
    d.direction == MessageDirection::Downlink && (query.len() == 0 || contains_seq(
        upper_text(d.template@),
        query,
    ))
}

/// The positions `0..n` of the registry that the menu offers, in registry order.
pub open spec fn picked_upto(reg: Seq<MessageDefinition>, query: Seq<char>, n: int) -> Seq<int>
    decreases n,
{
    if n <= 0 {
        Seq::empty()
    } else if downlink_picked(reg[n - 1], query) {
        picked_upto(reg, query, n - 1).push(n - 1)
    } else {
        picked_upto(reg, query, n - 1)
    }
}

/// Entry `a` of the menu comes before entry `b`: lower message number first,
/// registry order among equal numbers.
pub open spec fn menu_before(reg: Seq<MessageDefinition>, a: int, b: int) -> bool {
    let ka = spec_message_numeric_id(reg[a].id@);
    let kb = spec_message_numeric_id(reg[b].id@);
    ka < kb || (ka == kb && a < b)
}

/// The downlink menu of the DCDU: the positions of the offered messages of
/// the registry, ordered by message number and, among equal numbers, by
/// registry order.
pub fn downlink_menu(registry: &[MessageDefinition], query: &str) -> (r: Vec<usize>)
    ensures
        positions(r@).to_multiset() == picked_upto(registry@, query@, registry@.len() as int).to_multiset(),
        forall|a: int, b: int|
            0 <= a < b < r@.len() ==> menu_before(registry@, #[trigger] r@[a] as int, #[trigger] r@[b] as int),
{
    let mut out: Vec<usize> = Vec::new();
    let mut keys: Vec<u16> = Vec::new();
    let mut i: usize = 0;
    proof {
        assert(positions(out@) =~= Seq::<int>::empty());
        assert(picked_upto(registry@, query@, 0) =~= Seq::<int>::empty());
        assert(positions(out@).to_multiset() =~= vstd::multiset::Multiset::<int>::empty()) by {
            broadcast use vstd::seq_lib::to_multiset_len;
            assert(positions(out@).to_multiset().len() == 0);
        }
    }
    while i < registry.len()
        invariant
            i <= registry@.len(),
            keys@.len() == out@.len(),
            forall|a: int| 0 <= a < out@.len() ==> (#[trigger] out@[a]) < i,
            forall|a: int|
                0 <= a < out@.len() ==> #[trigger] keys@[a] == spec_message_numeric_id(
                    registry@[out@[a] as int].id@,
                ),
            positions(out@).to_multiset() == picked_upto(registry@, query@, i as int).to_multiset(),
            forall|a: int, b: int|
                0 <= a < b < out@.len() ==> menu_before(registry@, #[trigger] out@[a] as int, #[trigger] out@[b] as int),
        decreases registry@.len() - i,
    {
        let d = &registry[i];
        let picked = match d.direction {
            MessageDirection::Downlink => {
                if query.is_empty() {
                    true
                } else {
                    let upper = to_uppercase(d.template.as_str());
                    str_contains(upper.as_str(), query)
                }
            },
            MessageDirection::Uplink => false,
        };
        if picked {
            let key = message_numeric_id(d.id.as_str());
            let mut j: usize = 0;
            while j < out.len() && keys[j] <= key
                invariant
                    j <= out@.len(),
                    keys@.len() == out@.len(),
                    forall|a: int| 0 <= a < j ==> #[trigger] keys@[a] <= key,
                decreases out@.len() - j,
            {
                j = j + 1;
            }
            let ghost ob = out@;
            let ghost kb = keys@;
            out.insert(j, i);
            keys.insert(j, key);
            proof {
                assert(positions(out@) =~= positions(ob).insert(j as int, i as int));
                vstd::seq_lib::to_multiset_insert(positions(ob), j as int, i as int);
                vstd::seq_lib::to_multiset_build(picked_upto(registry@, query@, i as int), i as int);
                assert(picked_upto(registry@, query@, i + 1) == picked_upto(registry@, query@, i as int).push(i as int));
                assert forall|a: int| 0 <= a < out@.len() implies #[trigger] keys@[a]
                    == spec_message_numeric_id(registry@[out@[a] as int].id@) by {
                    if a < j {
                        assert(out@[a] == ob[a] && keys@[a] == kb[a]);
                    } else if a > j {
                        assert(out@[a] == ob[a - 1] && keys@[a] == kb[a - 1]);
                    }
                }
                assert forall|a: int, b: int| 0 <= a < b < out@.len() implies menu_before(
                    registry@,
                    #[trigger] out@[a] as int,
                    #[trigger] out@[b] as int,
                ) by {
                    if b < j {
                        assert(out@[a] == ob[a] && out@[b] == ob[b]);
                    } else if b == j {
                        assert(out@[a] == ob[a]);
                        assert(kb[a] <= key);
                    } else if a == j {
                        assert(out@[b] == ob[b - 1]);
                        assert(kb[j as int] > key);
                        if b - 1 > j {
                            assert(menu_before(registry@, ob[j as int] as int, ob[b - 1] as int));
                        }
                    } else if a < j {
                        assert(out@[a] == ob[a] && out@[b] == ob[b - 1]);
                    } else {
                        assert(out@[a] == ob[a - 1] && out@[b] == ob[b - 1]);
                    }
                }
            }
        } else {
            proof {
                assert(picked_upto(registry@, query@, i + 1) == picked_upto(registry@, query@, i as int));
            }
        }
        i = i + 1;
    }
    out
}

/// Store what was typed into the logon field of a tab, upper-cased, when it
/// is at most 4 bytes long; otherwise the field keeps its text.
pub fn edit_logon_input(app_state: &mut AppState, tab_id: u128, typed: &str)
    ensures
        final(app_state).active_tab == old(app_state).active_tab,
        final(app_state).saved_stations == old(app_state).saved_stations,
        utf8_len(upper_text(typed@)) > 4 ==> final(app_state).tabs@ == old(app_state).tabs@,
        utf8_len(upper_text(typed@)) <= 4 ==> first_tab_changed(
            old(app_state).tabs@,
            final(app_state).tabs@,
            tab_id,
            |a: TabState, b: TabState|
                b == (TabState { logon_input: b.logon_input, ..a }) && b.logon_input@ == upper_text(typed@),
        ),
{
    let val = to_uppercase(typed);
    if utf8_len_upto(val.as_str(), 4) <= 4 {
        let ghost before = app_state.tabs@;
        match app_state.tab_mut_by_id(tab_id) {
            Some(t) => {
                t.logon_input = val;
            },
            None => {},
        }
        proof {
            lemma_first_tab_unique(before, tab_id);
        }
    }
}

/// The line recorded when the LOGON key sends a logon request: only a
/// 4-byte ground station code can be sent.
pub fn logon_request_text(tab: &TabState) -> (r: Option<String>)
    ensures
        utf8_len(tab.logon_input@) == 4 ==> (r matches Some(t) && t@
            == "LOGON REQUEST → "@ + tab.logon_input@),
        utf8_len(tab.logon_input@) != 4 ==> r is None,
{
    if utf8_len_upto(tab.logon_input.as_str(), 4) == 4 {
        let mut t = "LOGON REQUEST → ".to_owned();
        t.append(tab.logon_input.as_str());
        Some(t)
    } else {
        None
    }
}

/// Whether the tab has a composed reply waiting: compose mode with queued
/// elements or an MRN to answer.
pub fn has_compose_queue(tab: &TabState) -> (r: bool)
    ensures
        r == (tab.compose_mode && (tab.compose_elements@.len() > 0 || tab.compose_mrn is Some)),
{
    tab.compose_mode && (tab.compose_elements.len() > 0 || tab.compose_mrn.is_some())
}

/// The badge of the inactive connection's phase.
pub fn phase_badge(phase: CpdlcConnectionPhase) -> (r: &'static str)
    ensures
        r@ == (match phase {
            CpdlcConnectionPhase::LogonPending => "pending"@,
            CpdlcConnectionPhase::LoggedOn => "logon"@,
            CpdlcConnectionPhase::Connected => "connected"@,
            CpdlcConnectionPhase::Terminated => "terminated"@,
        }),
{
    match phase {
        CpdlcConnectionPhase::LogonPending => "pending",
        CpdlcConnectionPhase::LoggedOn => "logon",
        CpdlcConnectionPhase::Connected => "connected",
        CpdlcConnectionPhase::Terminated => "terminated",
    }
}


/// After a short response to the row numbered `min`: a STANDBY joins `min`
/// to the MINs a STANDBY was sent for and the status line reads
/// `STBY SENT`; any other response takes `min` out of them and the status
/// line reads `SENT`. The answered row is marked responded (see
/// `mark_dialogue_responded`) for any response but STANDBY.
pub fn short_response_sent(stby_sent: &mut Vec<u8>, intent: CpdlcResponseIntent, min: u8) -> (r:
    String)
    ensures
        intent == CpdlcResponseIntent::Standby ==> final(stby_sent)@.to_set() == old(
            stby_sent,
        )@.to_set().insert(min) && r@ == "STBY SENT"@,
        intent != CpdlcResponseIntent::Standby ==> final(stby_sent)@.to_set() == old(
            stby_sent,
        )@.to_set().remove(min) && r@ == "SENT"@,
        old(stby_sent)@.no_duplicates() ==> final(stby_sent)@.no_duplicates(),
{
    let ghost before = stby_sent@;
    if intent == CpdlcResponseIntent::Standby {
        if !contains_min(stby_sent.as_slice(), min) {
            stby_sent.push(min);
            proof {
                assert(stby_sent@ =~= before.push(min));
                assert(stby_sent@.to_set() =~= before.to_set().insert(min)) by {
                    assert forall|x: u8| stby_sent@.contains(x) <==> (before.contains(x) || x == min) by {
                        if stby_sent@.contains(x) {
                            let j = choose|j: int| 0 <= j < stby_sent@.len() && stby_sent@[j] == x;
                            if j < before.len() {
                                assert(before[j] == x);
                            }
                        }
                        if before.contains(x) {
                            let j = choose|j: int| 0 <= j < before.len() && before[j] == x;
                            assert(stby_sent@[j] == x);
                        }
                        if x == min {
                            assert(stby_sent@[before.len() as int] == x);
                        }
                    }
                }
            }
        } else {
            proof {
                assert(before.to_set() =~= before.to_set().insert(min));
            }
        }
        "STBY SENT".to_owned()
    } else {
        let mut kept: Vec<u8> = Vec::new();
        let mut i: usize = 0;
        while i < stby_sent.len()
            invariant
                i <= stby_sent@.len(),
                stby_sent@ == before,
                forall|x: u8| #[trigger] kept@.contains(x) <==> (x != min && exists|j: int|
                    0 <= j < i && before[j] == x),
                before.no_duplicates() ==> kept@.no_duplicates(),
            decreases stby_sent@.len() - i,
        {
            let ghost k0 = kept@;
            if stby_sent[i] != min {
                kept.push(stby_sent[i]);
                proof {
                    assert(kept@ =~= k0.push(before[i as int]));
                    assert forall|x: u8| #[trigger] kept@.contains(x) <==> (x != min && exists|j: int|
                        0 <= j < i + 1 && before[j] == x) by {
                        if kept@.contains(x) {
                            let q = choose|q: int| 0 <= q < kept@.len() && kept@[q] == x;
                            if q < k0.len() {
                                assert(k0[q] == x);
                                assert(k0.contains(x));
                            }
                        }
                        if x != min && exists|j: int| 0 <= j < i + 1 && before[j] == x {
                            let j = choose|j: int| 0 <= j < i + 1 && before[j] == x;
                            if j < i {
                                assert(k0.contains(x));
                                let q = choose|q: int| 0 <= q < k0.len() && k0[q] == x;
                                assert(kept@[q] == x);
                            } else {
                                assert(kept@[k0.len() as int] == x);
                            }
                        }
                    }
                    if before.no_duplicates() {
                        assert(!k0.contains(before[i as int])) by {
                            if k0.contains(before[i as int]) {
                                let j = choose|j: int| 0 <= j < i && before[j] == before[i as int];
                                assert(before[j] == before[i as int]);
                            }
                        }
                        assert forall|a: int, b: int|
                            0 <= a < kept@.len() && 0 <= b < kept@.len() && a != b implies kept@[a]
                            != kept@[b] by {
                            if a < k0.len() && b < k0.len() {
                            } else if a < k0.len() {
                                assert(k0.contains(kept@[a]));
                            } else {
                                assert(k0.contains(kept@[b]));
                            }
                        }
                    }
                }
            } else {
                proof {
                    assert forall|x: u8| #[trigger] kept@.contains(x) <==> (x != min && exists|j: int|
                        0 <= j < i + 1 && before[j] == x) by {
                        if x != min && exists|j: int| 0 <= j < i + 1 && before[j] == x {
                            let j = choose|j: int| 0 <= j < i + 1 && before[j] == x;
                            assert(j < i);
                        }
                    }
                }
            }
            i = i + 1;
        }
        proof {
            assert(kept@.to_set() =~= before.to_set().remove(min)) by {
                assert forall|x: u8| kept@.contains(x) <==> (before.contains(x) && x != min) by {
                    if before.contains(x) && x != min {
                        let j = choose|j: int| 0 <= j < before.len() && before[j] == x;
                        assert(exists|j2: int| 0 <= j2 < i && before[j2] == x);
                    }
                    if kept@.contains(x) {
                        let j = choose|j: int| 0 <= j < i && before[j] == x;
                        assert(before.contains(x));
                    }
                }
            }
        }
        *stby_sent = kept;
        "SENT".to_owned()
    }
}

} // verus!
