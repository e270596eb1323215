//! The flight list of the ATC view: one entry per CPDLC session that names
//! an aircraft with an address, sorted by callsign, and the flights that the
//! view acts on.
use vstd::prelude::*;
use vstd::string::*;
use vstd::multiset::Multiset;
use crate::gui_state::{text_less, text_lt, CpdlcConnectionPhase};

verus! {

broadcast use vstd::string::group_string_axioms;

/// What the ATC view reads of one of its CPDLC sessions.
#[derive(Debug, Clone)]
pub struct SessionSummary {
    /// Callsign of the aircraft, when the session knows it.
    pub aircraft: Option<String>,
    /// ACARS address of the aircraft, when the session knows it.
    pub aircraft_address: Option<String>,
    /// Phase of the active connection, if any.
    pub active_phase: Option<CpdlcConnectionPhase>,
    /// Phase of the inactive connection, if any.
    pub inactive_phase: Option<CpdlcConnectionPhase>,
}

/// What the library reads of a session summary.
pub type SessionSummaryView = (
    Option<Seq<char>>,
    Option<Seq<char>>,
    Option<CpdlcConnectionPhase>,
    Option<CpdlcConnectionPhase>,
);

impl View for SessionSummary {
    type V = SessionSummaryView;

    open spec fn view(&self) -> SessionSummaryView {
        (
            match self.aircraft {
                Some(c) => Some(c@),
                None => None,
            },
            match self.aircraft_address {
                Some(a) => Some(a@),
                None => None,
            },
            self.active_phase,
            self.inactive_phase,
        )
    }
}

/// A flight of the ATC view.
#[derive(Debug, Clone)]
pub struct AtcLinkedFlight {
    pub callsign: String,
    pub aircraft_callsign: String,
    pub aircraft_address: String,
    pub phase: CpdlcConnectionPhase,
}

/// What a flight shows: callsign, aircraft callsign, address, phase.
pub type FlightView = (Seq<char>, Seq<char>, Seq<char>, CpdlcConnectionPhase);

impl View for AtcLinkedFlight {
    type V = FlightView;

    open spec fn view(&self) -> FlightView {
        (self.callsign@, self.aircraft_callsign@, self.aircraft_address@, self.phase)
    }
}

/// The flight of a session: none without an aircraft callsign or address;
/// its phase is the active connection's, else the inactive one's, else
/// terminated.
pub open spec fn flight_of(s: SessionSummary) -> Option<FlightView> {
    match (s.aircraft, s.aircraft_address) {
        (Some(c), Some(a)) => Some(
            (
                c@,
                c@,
                a@,
                match s.active_phase {
                    Some(p) => p,
                    None => match s.inactive_phase {
                        Some(p) => p,
                        None => CpdlcConnectionPhase::Terminated,
                    },
                },
            ),
        ),
        _ => None,
    }
}

/// The flights of the sessions `0..n`, in session order.
pub open spec fn flights_upto(sessions: Seq<SessionSummary>, n: int) -> Seq<FlightView>
    decreases n,
{
    if n <= 0 {
        Seq::empty()
    } else {
        match flight_of(sessions[n - 1]) {
            Some(f) => flights_upto(sessions, n - 1).push(f),
            None => flights_upto(sessions, n - 1),
        }
    }
}

/// The flights are in callsign order.
pub open spec fn sorted_by_callsign(s: Seq<FlightView>) -> bool {
    forall|i: int, j: int| 0 <= i < j < s.len() ==> !text_lt(#[trigger] s[j].0, #[trigger] s[i].0)
}

/// The views of a list of flights.
pub open spec fn flight_views(s: Seq<AtcLinkedFlight>) -> Seq<FlightView> {
    s.map_values(|f: AtcLinkedFlight| f@)
}

/// The text order is transitive.
pub proof fn lemma_text_lt_transitive(a: Seq<char>, b: Seq<char>, c: Seq<char>)
    requires
        text_lt(a, b),
        text_lt(b, c),
    ensures
        text_lt(a, c),
    decreases a.len(),
{
    if a.len() > 0 && b.len() > 0 && c.len() > 0 && a[0] == b[0] && b[0] == c[0] {
        lemma_text_lt_transitive(a.drop_first(), b.drop_first(), c.drop_first());
    }
}

/// No text sorts before itself.
pub proof fn lemma_text_lt_irreflexive(a: Seq<char>)
    ensures
        !text_lt(a, a),
    decreases a.len(),
{
    if a.len() > 0 {
        lemma_text_lt_irreflexive(a.drop_first());
    }
}

fn copy_flight(f: &AtcLinkedFlight) -> (r: AtcLinkedFlight)
    ensures
        r@ == f@,
{
    AtcLinkedFlight {
        callsign: f.callsign.clone(),
        aircraft_callsign: f.aircraft_callsign.clone(),
        aircraft_address: f.aircraft_address.clone(),
        phase: f.phase,
    }
}

/// The flight of one session, as `flight_of` says.
pub fn linked_flight_of(s: &SessionSummary) -> (r: Option<AtcLinkedFlight>)
    ensures
        match r {
            Some(f) => flight_of(*s) == Some(f@),
            None => flight_of(*s) is None,
        },
{
    match (&s.aircraft, &s.aircraft_address) {
        (Some(c), Some(a)) => {
            let phase = match s.active_phase {
                Some(p) => p,
                None => match s.inactive_phase {
                    Some(p) => p,
                    None => CpdlcConnectionPhase::Terminated,
                },
            };
            Some(
                AtcLinkedFlight {
                    callsign: c.clone(),
                    aircraft_callsign: c.clone(),
                    aircraft_address: a.clone(),
                    phase,
                },
            )
        },
        _ => None,
    }
}

/// The flights of the view: one per session that names an aircraft with an
/// address, in callsign order (sessions come in no particular order, so
/// flights with the same callsign may come in any order).
pub fn linked_flights(sessions: &[SessionSummary]) -> (r: Vec<AtcLinkedFlight>)
    ensures
        flight_views(r@).to_multiset() == flights_upto(sessions@, sessions@.len() as int).to_multiset(),
        sorted_by_callsign(flight_views(r@)),
{
    let mut out: Vec<AtcLinkedFlight> = Vec::new();
    let mut k: usize = 0;
    proof {
        assert(flight_views(out@) =~= Seq::<FlightView>::empty());
        assert(flight_views(out@).to_multiset() =~= Multiset::empty()) by {
            broadcast use vstd::seq_lib::to_multiset_len;
            assert(flight_views(out@).to_multiset().len() == 0);
        }
        assert(flights_upto(sessions@, 0) =~= Seq::<FlightView>::empty());
    }
    while k < sessions.len()
        invariant
            k <= sessions@.len(),
            flight_views(out@).to_multiset() == flights_upto(sessions@, k as int).to_multiset(),
            sorted_by_callsign(flight_views(out@)),
        decreases sessions@.len() - k,
    {
        match linked_flight_of(&sessions[k]) {
            Some(c) => {
                let mut j: usize = 0;
                while j < out.len() && !text_less(c.callsign.as_str(), out[j].callsign.as_str())
                    invariant
                        j <= out@.len(),
                        forall|i: int|
                            0 <= i < j ==> !text_lt(c@.0, (#[trigger] flight_views(out@)[i]).0),
                    decreases out@.len() - j,
                {
                    j = j + 1;
                }
                let ghost out_before = out@;
                out.insert(j, c);
                proof {
                    let ob = flight_views(out_before);
                    let nb = flight_views(out@);
                    assert(nb =~= ob.insert(j as int, c@));
                    assert forall|a: int, b: int| 0 <= a < b < nb.len() implies !text_lt(
                        #[trigger] nb[b].0,
                        #[trigger] nb[a].0,
                    ) by {
                        if b < j {
                            assert(nb[a] == ob[a] && nb[b] == ob[b]);
                        } else if b == j {
                            assert(nb[a] == ob[a]);
                        } else if a == j {
                            assert(nb[b] == ob[b - 1]);
                            assert(text_lt(c@.0, ob[j as int].0));
                            if b - 1 > j {
                                assert(!text_lt(ob[b - 1].0, ob[j as int].0));
                            }
                            if text_lt(ob[b - 1].0, c@.0) {
                                lemma_text_lt_transitive(ob[b - 1].0, c@.0, ob[j as int].0);
                                lemma_text_lt_irreflexive(ob[j as int].0);
                            }
                        } else if a < j {
                            assert(nb[a] == ob[a] && nb[b] == ob[b - 1]);
                        } else {
                            assert(nb[a] == ob[a - 1] && nb[b] == ob[b - 1]);
                        }
                    }
                    vstd::seq_lib::to_multiset_insert(ob, j as int, c@);
                    assert(flights_upto(sessions@, k + 1) == flights_upto(sessions@, k as int).push(c@));
                    vstd::seq_lib::to_multiset_build(flights_upto(sessions@, k as int), c@);
                }
            },
            None => {
                proof {
                    assert(flights_upto(sessions@, k + 1) == flights_upto(sessions@, k as int));
                }
            },
        }
        k = k + 1;
    }
    out
}

/// The flights whose logon awaits an answer, in list order.
pub fn pending_logons(flights: &[AtcLinkedFlight]) -> (r: Vec<AtcLinkedFlight>)
    ensures
        flight_views(r@) == flight_views(flights@).filter(
            |f: FlightView| f.3 == CpdlcConnectionPhase::LogonPending,
        ),
{
    let ghost keep = |f: FlightView| f.3 == CpdlcConnectionPhase::LogonPending;
    let ghost all = flight_views(flights@);
    let mut out: Vec<AtcLinkedFlight> = Vec::new();
    let mut j: usize = 0;
    while j < flights.len()
        invariant
            j <= flights@.len(),
            all == flight_views(flights@),
            keep == (|f: FlightView| f.3 == CpdlcConnectionPhase::LogonPending),
            flight_views(out@) == all.subrange(0, j as int).filter(keep),
        decreases flights@.len() - j,
    {
        proof {
            reveal_with_fuel(Seq::<FlightView>::filter, 1);
            assert(all.subrange(0, j + 1).drop_last() =~= all.subrange(0, j as int));
        }
        if flights[j].phase == CpdlcConnectionPhase::LogonPending {
            let ghost before = out@;
            out.push(copy_flight(&flights[j]));
            proof {
                assert(flight_views(out@) =~= flight_views(before).push(all[j as int]));
            }
        }
        j = j + 1;
    }
    proof {
        assert(all.subrange(0, all.len() as int) =~= all);
    }
    out
}

/// Some flight of the list is the aircraft's.
pub open spec fn lists_aircraft(flights: Seq<AtcLinkedFlight>, t: Seq<char>) -> bool {
    exists|i: int| 0 <= i < flights.len() && (#[trigger] flights[i]).aircraft_callsign@ == t
}

/// `i` is the first flight of the list that is the aircraft's.
pub open spec fn is_first_flight_of(flights: Seq<AtcLinkedFlight>, t: Seq<char>, i: int) -> bool {
    &&& 0 <= i < flights.len()
    &&& flights[i].aircraft_callsign@ == t
    &&& forall|j: int| 0 <= j < i ==> (#[trigger] flights[j]).aircraft_callsign@ != t
}

/// The flight a composed message goes to: the flight of the aircraft a
/// response is being composed for when it is listed, else the selected
/// flight.
pub fn compose_flight(
    flights: &[AtcLinkedFlight],
    target: Option<&str>,
    selected_idx: Option<usize>,
) -> (r: Option<AtcLinkedFlight>)
    ensures
        forall|t: &str|
            #![trigger lists_aircraft(flights@, t@)]
            target == Some(t) && lists_aircraft(flights@, t@) ==> exists|i: int|
                is_first_flight_of(flights@, t@, i) && (r matches Some(f) && f@
                    == (#[trigger] flights@[i])@),
        (target is None || !lists_aircraft(flights@, target->0@)) ==> (match selected_idx {
            Some(s) => if s < flights@.len() {
                r matches Some(f) && f@ == flights@[s as int]@
            } else {
                r is None
            },
            None => r is None,
        }),
{
    match target {
        Some(t) => {
            let mut i: usize = 0;
            while i < flights.len()
                invariant
                    i <= flights@.len(),
                    target == Some(t),
                    forall|j: int| 0 <= j < i ==> (#[trigger] flights@[j]).aircraft_callsign@ != t@,
                decreases flights@.len() - i,
            {
                if crate::text::str_eq(flights[i].aircraft_callsign.as_str(), t) {
                    proof {
                        assert(is_first_flight_of(flights@, t@, i as int));
                        assert(lists_aircraft(flights@, t@));
                    }
                    return Some(copy_flight(&flights[i]));
                }
                i = i + 1;
            }
        },
        None => {},
    }
    match selected_idx {
        Some(s) => if s < flights.len() {
            Some(copy_flight(&flights[s]))
        } else {
            None
        },
        None => None,
    }
}

/// A message can be composed for the flight when it is connected.
pub fn can_compose(flight: Option<&AtcLinkedFlight>) -> (r: bool)
    ensures
        r == (flight matches Some(f) && f.phase == CpdlcConnectionPhase::Connected),
{
    match flight {
        Some(f) => f.phase == CpdlcConnectionPhase::Connected,
        None => false,
    }
}

/// Session `i` gives a flight of the aircraft.
pub open spec fn is_flight_of(sessions: Seq<SessionSummary>, t: Seq<char>, i: int) -> bool {
    &&& 0 <= i < sessions.len()
    &&& flight_of(sessions[i]) matches Some(f) && f.0 == t
}

/// The flight of the aircraft: that of the first session (in the order
/// given) that names the aircraft with an address.
pub fn find_linked_flight(sessions: &[SessionSummary], aircraft_callsign: &str) -> (r: Option<
    AtcLinkedFlight,
>)
    ensures
        match r {
            Some(f) => exists|i: int|
                is_flight_of(sessions@, aircraft_callsign@, i) && flight_of(sessions@[i]) == Some(
                    f@,
                ) && forall|j: int|
                    0 <= j < i ==> !is_flight_of(sessions@, aircraft_callsign@, j),
            None => forall|i: int|
                0 <= i < sessions@.len() ==> !is_flight_of(sessions@, aircraft_callsign@, i),
        },
{
    let mut i: usize = 0;
    while i < sessions.len()
        invariant
            i <= sessions@.len(),
            forall|j: int| 0 <= j < i ==> !is_flight_of(sessions@, aircraft_callsign@, j),
        decreases sessions@.len() - i,
    {
        match linked_flight_of(&sessions[i]) {
            Some(f) => {
                if crate::text::str_eq(f.callsign.as_str(), aircraft_callsign) {
                    proof {
                        assert(is_flight_of(sessions@, aircraft_callsign@, i as int));
                    }
                    return Some(f);
                }
            },
            None => {},
        }
        i = i + 1;
    }
    None
}

} // verus!
