//! Session tracker for bridged CPDLC connections.
//!
//! Maintains the state needed to:
//! - Map between Hoppie and OpenLink MIN sequences.
//! - Track which callsign pairs have active bridged sessions.
//! - Prevent duplicate bridging of messages.
//! - Assign bridge-side MINs in the 1–63 circular range.
//!
//! The tables are association lists whose keys never repeat; their meaning
//! is given as maps and sets in [`SessionTrackerView`].
use vstd::prelude::*;
use vstd::std_specs::hash::DefaultHasherAdditionalSpecFns;
use vstd::string::*;
use std::collections::hash_map::DefaultHasher;
use std::collections::HashSet;
use std::hash::Hasher;
use crate::text::{all_ascii, ascii_upper, str_eq, to_uppercase, upper_text};

verus! {

broadcast use vstd::std_specs::hash::group_hash_axioms;

/// Largest number of remembered message ids before the memory is cleared.
pub const SEEN_LIMIT: usize = 10_000;

/// Identifies one side of a CPDLC session.
#[derive(Debug, Clone, PartialEq, Eq, Hash)]
pub struct SessionKey {
    /// Aircraft callsign.
    pub aircraft: String,
    /// Ground station callsign.
    pub station: String,
}

/// A session key as text: (aircraft, station).
pub type SessionKeyView = (Seq<char>, Seq<char>);

impl View for SessionKey {
    type V = SessionKeyView;

    open spec fn view(&self) -> SessionKeyView {
        (self.aircraft@, self.station@)
    }
}

impl SessionKey {
    /// Create a new session key; both callsigns are upper-cased.
    pub fn new(aircraft: &str, station: &str) -> (r: SessionKey)
        ensures
            r@ == (upper_text(aircraft@), upper_text(station@)),
            all_ascii(aircraft@) && all_ascii(station@) ==> r@ == (
                ascii_upper(aircraft@),
                ascii_upper(station@),
            ),
    {
        SessionKey { aircraft: to_uppercase(aircraft), station: to_uppercase(station) }
    }

    /// Whether two keys name the same session.
    pub fn same_as(&self, other: &SessionKey) -> (r: bool)
        ensures
            r == (self@ == other@),
    {
        self.aircraft == other.aircraft && self.station == other.station
    }

    /// A copy of this key.
    pub fn duplicate(&self) -> (r: SessionKey)
        ensures
            r@ == self@,
    {
        SessionKey { aircraft: self.aircraft.clone(), station: self.station.clone() }
    }
}

/// The map that an association list stands for (later entries win).
pub open spec fn assoc_map<K, V>(s: Seq<(K, V)>) -> Map<K, V>
    decreases s.len(),
{
    if s.len() == 0 {
        Map::empty()
    } else {
        assoc_map(s.drop_last()).insert(s.last().0, s.last().1)
    }
}

/// No key occurs twice in the association list.
pub open spec fn keys_unique<K, V>(s: Seq<(K, V)>) -> bool {
    forall|i: int, j: int| 0 <= i < s.len() && 0 <= j < s.len() && i != j ==> s[i].0 != s[j].0
}

/// Appending an entry inserts it.
pub proof fn lemma_assoc_push<K, V>(s: Seq<(K, V)>, k: K, v: V)
    ensures
        assoc_map(s.push((k, v))) == assoc_map(s).insert(k, v),
{
    assert(s.push((k, v)).drop_last() =~= s);
}

/// An entry of a list with unique keys is what the map holds for its key.
pub proof fn lemma_assoc_lookup<K, V>(s: Seq<(K, V)>, i: int)
    requires
        keys_unique(s),
        0 <= i < s.len(),
    ensures
        assoc_map(s).contains_key(s[i].0),
        assoc_map(s)[s[i].0] == s[i].1,
    decreases s.len(),
{
    if i < s.len() - 1 {
        let t = s.drop_last();
        assert(keys_unique(t));
        assert(t[i] == s[i]);
        lemma_assoc_lookup(t, i);
        assert(s.last().0 != s[i].0);
    }
}

/// A key that no entry holds is outside the map.
pub proof fn lemma_assoc_absent<K, V>(s: Seq<(K, V)>, k: K)
    requires
        forall|i: int| 0 <= i < s.len() ==> s[i].0 != k,
    ensures
        !assoc_map(s).contains_key(k),
    decreases s.len(),
{
    if s.len() > 0 {
        let t = s.drop_last();
        assert forall|i: int| 0 <= i < t.len() implies t[i].0 != k by {
            assert(t[i] == s[i]);
        }
        lemma_assoc_absent(t, k);
    }
}

/// Overwriting the value of an entry, in a list with unique keys, updates the map.
pub proof fn lemma_assoc_update<K, V>(s: Seq<(K, V)>, i: int, v: V)
    requires
        keys_unique(s),
        0 <= i < s.len(),
    ensures
        assoc_map(s.update(i, (s[i].0, v))) == assoc_map(s).insert(s[i].0, v),
        keys_unique(s.update(i, (s[i].0, v))),
    decreases s.len(),
{
    let k = s[i].0;
    let u = s.update(i, (k, v));
    assert(keys_unique(u)) by {
        assert forall|a: int, b: int|
            0 <= a < u.len() && 0 <= b < u.len() && a != b implies u[a].0 != u[b].0 by {
            assert(u[a].0 == s[a].0);
            assert(u[b].0 == s[b].0);
        }
    }
    if i == s.len() - 1 {
        assert(u.drop_last() =~= s.drop_last());
        assert(assoc_map(u) =~= assoc_map(s).insert(k, v));
    } else {
        let t = s.drop_last();
        assert(keys_unique(t));
        assert(t[i] == s[i]);
        lemma_assoc_update(t, i, v);
        assert(u.drop_last() =~= t.update(i, (k, v)));
        assert(s.last().0 != k);
        assert(assoc_map(u) =~= assoc_map(s).insert(k, v));
    }
}

/// The entries of a pair-keyed map whose session is not `key`.
pub open spec fn without_session(m: Map<(SessionKeyView, u8), u8>, key: SessionKeyView) -> Map<
    (SessionKeyView, u8),
    u8,
> {
    m.restrict(m.dom().filter(|kk: (SessionKeyView, u8)| kk.0 != key))
}

/// What a session tracker remembers.
pub struct SessionTrackerView {
    /// Last bridge-side MIN handed out per session.
    pub counters: Map<SessionKeyView, u8>,
    /// (session, Hoppie MIN) → bridge MIN.
    pub hoppie_to_openlink: Map<(SessionKeyView, u8), u8>,
    /// (session, OpenLink MIN) → bridge MIN.
    pub openlink_to_hoppie: Map<(SessionKeyView, u8), u8>,
    /// OpenLink message ids already relayed.
    pub seen_openlink_ids: Set<Seq<char>>,
    /// Hashes of Hoppie messages already relayed.
    pub seen_hoppie_hashes: Set<u64>,
}

/// Tracks bridged sessions and MIN mappings.
pub struct SessionTracker {
    /// MIN counter per session key — used to assign bridge-side MINs.
    min_counters: Vec<(SessionKey, u8)>,
    /// Maps (session_key, source_side_min) → bridge_side_min.
    min_map_hoppie_to_openlink: Vec<(SessionKey, u8, u8)>,
    min_map_openlink_to_hoppie: Vec<(SessionKey, u8, u8)>,
    /// Recently processed message ids to prevent re-bridging.
    seen_openlink_ids: Vec<String>,
    /// Recently seen Hoppie messages (hash of from + packet) to deduplicate.
    seen_hoppie_hashes: HashSet<u64>,
}

/// A counter table as an association list of texts.
pub open spec fn counter_entries(v: Seq<(SessionKey, u8)>) -> Seq<(SessionKeyView, u8)> {
    v.map_values(|e: (SessionKey, u8)| (e.0@, e.1))
}

/// A MIN table as an association list of texts.
pub open spec fn link_entries(v: Seq<(SessionKey, u8, u8)>) -> Seq<((SessionKeyView, u8), u8)> {
    v.map_values(|e: (SessionKey, u8, u8)| ((e.0@, e.1), e.2))
}

/// The texts of a list of ids.
pub open spec fn id_texts(v: Seq<String>) -> Seq<Seq<char>> {
    v.map_values(|s: String| s@)
}

/// The counter a session starts from: its last MIN, or 0 when it has none.
pub open spec fn last_min(counters: Map<SessionKeyView, u8>, key: SessionKeyView) -> u8 {
    if counters.contains_key(key) {
        counters[key]
    } else {
        0
    }
}

/// The MIN that follows `c` in the 1–63 cycle.
pub open spec fn next_in_cycle(c: u8) -> u8 {
    ((c % 63) + 1) as u8
}

/// A set after remembering one more element: cleared once it grows past the limit.
pub open spec fn remember<T>(s: Set<T>, x: T) -> Set<T> {
    if s.insert(x).len() > SEEN_LIMIT {
        Set::empty()
    } else {
        s.insert(x)
    }
}

impl View for SessionTracker {
    type V = SessionTrackerView;

    closed spec fn view(&self) -> SessionTrackerView {
        SessionTrackerView {
            counters: assoc_map(counter_entries(self.min_counters@)),
            hoppie_to_openlink: assoc_map(link_entries(self.min_map_hoppie_to_openlink@)),
            openlink_to_hoppie: assoc_map(link_entries(self.min_map_openlink_to_hoppie@)),
            seen_openlink_ids: id_texts(self.seen_openlink_ids@).to_set(),
            seen_hoppie_hashes: self.seen_hoppie_hashes@,
        }
    }
}

/// Index of the entry for `key` in a MIN table, if any.
fn find_link(v: &Vec<(SessionKey, u8, u8)>, key: &SessionKey, min: u8) -> (r: Option<usize>)
    ensures
        match r {
            Some(i) => i < v@.len() && link_entries(v@)[i as int].0 == (key@, min),
            None => forall|i: int|
                0 <= i < v@.len() ==> link_entries(v@)[i].0 != (key@, min),
        },
{
    let mut i: usize = 0;
    while i < v.len()
        invariant
            i <= v@.len(),
            forall|j: int| 0 <= j < i ==> link_entries(v@)[j].0 != (key@, min),
        decreases v@.len() - i,
    {
        if v[i].1 == min && v[i].0.same_as(key) {
            return Some(i);
        }
        i = i + 1;
    }
    None
}

/// Index of the entry for `key` in a counter table, if any.
fn find_counter(v: &Vec<(SessionKey, u8)>, key: &SessionKey) -> (r: Option<usize>)
    ensures
        match r {
            Some(i) => i < v@.len() && counter_entries(v@)[i as int].0 == key@,
            None => forall|i: int| 0 <= i < v@.len() ==> counter_entries(v@)[i].0 != key@,
        },
{
    let mut i: usize = 0;
    while i < v.len()
        invariant
            i <= v@.len(),
            forall|j: int| 0 <= j < i ==> counter_entries(v@)[j].0 != key@,
        decreases v@.len() - i,
    {
        if v[i].0.same_as(key) {
            return Some(i);
        }
        i = i + 1;
    }
    None
}

/// Record `(key, min) → to` in a MIN table.
fn put_link(v: &mut Vec<(SessionKey, u8, u8)>, key: &SessionKey, min: u8, to: u8)
    requires
        keys_unique(link_entries(old(v)@)),
    ensures
        keys_unique(link_entries(final(v)@)),
        assoc_map(link_entries(final(v)@)) == assoc_map(link_entries(old(v)@)).insert(
            (key@, min),
            to,
        ),
{
    let ghost s = link_entries(v@);
    match find_link(v, key, min) {
        Some(i) => {
            let k = v[i].0.duplicate();
            v.set(i, (k, min, to));
            proof {
                lemma_assoc_update(s, i as int, to);
                assert(link_entries(v@) =~= s.update(i as int, (s[i as int].0, to)));
            }
        },
        None => {
            v.push((key.duplicate(), min, to));
            proof {
                lemma_assoc_push(s, (key@, min), to);
                assert(link_entries(v@) =~= s.push(((key@, min), to)));
            }
        },
    }
}

/// Look up `(key, min)` in a MIN table.
fn get_link(v: &Vec<(SessionKey, u8, u8)>, key: &SessionKey, min: u8) -> (r: Option<u8>)
    requires
        keys_unique(link_entries(v@)),
    ensures
        r == (if assoc_map(link_entries(v@)).contains_key((key@, min)) {
            Some(assoc_map(link_entries(v@))[(key@, min)])
        } else {
            None
        }),
{
    match find_link(v, key, min) {
        Some(i) => {
            proof {
                lemma_assoc_lookup(link_entries(v@), i as int);
            }
            Some(v[i].2)
        },
        None => {
            proof {
                lemma_assoc_absent(link_entries(v@), (key@, min));
            }
            None
        },
    }
}

/// Drop every entry of a MIN table that belongs to session `key`.
fn drop_session(v: &mut Vec<(SessionKey, u8, u8)>, key: &SessionKey)
    requires
        keys_unique(link_entries(old(v)@)),
    ensures
        keys_unique(link_entries(final(v)@)),
        assoc_map(link_entries(final(v)@)) == without_session(
            assoc_map(link_entries(old(v)@)),
            key@,
        ),
{
    let ghost s = link_entries(v@);
    let mut kept: Vec<(SessionKey, u8, u8)> = Vec::new();
    let mut j: usize = 0;
    proof {
        assert(s.take(0) =~= Seq::<((SessionKeyView, u8), u8)>::empty());
        assert(assoc_map(link_entries(kept@)) =~= without_session(assoc_map(s.take(0)), key@));
    }
    while j < v.len()
        invariant
            s == link_entries(v@),
            keys_unique(s),
            j <= v@.len(),
            keys_unique(link_entries(kept@)),
            forall|a: int|
                0 <= a < kept@.len() ==> exists|b: int|
                    0 <= b < j && #[trigger] link_entries(kept@)[a] == s[b],
            assoc_map(link_entries(kept@)) == without_session(assoc_map(s.take(j as int)), key@),
        decreases v@.len() - j,
    {
        let ghost before = link_entries(kept@);
        proof {
            assert(s.take(j + 1).drop_last() =~= s.take(j as int));
            assert(s.take(j + 1).last() == s[j as int]);
        }
        if !v[j].0.same_as(key) {
            let e = (v[j].0.duplicate(), v[j].1, v[j].2);
            kept.push(e);
            proof {
                assert(link_entries(kept@) =~= before.push(s[j as int]));
                lemma_assoc_push(before, s[j as int].0, s[j as int].1);
                assert(assoc_map(link_entries(kept@)) =~= without_session(
                    assoc_map(s.take(j + 1)),
                    key@,
                ));
                assert forall|a: int, b: int|
                    0 <= a < link_entries(kept@).len() && 0 <= b < link_entries(kept@).len() && a
                        != b implies link_entries(kept@)[a].0 != link_entries(kept@)[b].0 by {
                    if a < before.len() && b < before.len() {
                        assert(link_entries(kept@)[a] == before[a]);
                        assert(link_entries(kept@)[b] == before[b]);
                    } else if a < before.len() {
                        assert(link_entries(kept@)[a] == before[a]);
                        let c = choose|c: int| 0 <= c < j && before[a] == s[c];
                        assert(s[c].0 != s[j as int].0);
                    } else {
                        assert(link_entries(kept@)[b] == before[b]);
                        let c = choose|c: int| 0 <= c < j && before[b] == s[c];
                        assert(s[c].0 != s[j as int].0);
                    }
                }
                assert forall|a: int| 0 <= a < kept@.len() implies exists|b: int|
                    0 <= b < j + 1 && #[trigger] link_entries(kept@)[a] == s[b] by {
                    if a < before.len() {
                        assert(link_entries(kept@)[a] == before[a]);
                        let c = choose|c: int| 0 <= c < j && before[a] == s[c];
                        assert(link_entries(kept@)[a] == s[c]);
                    } else {
                        assert(link_entries(kept@)[a] == s[j as int]);
                    }
                }
            }
        } else {
            proof {
                assert(assoc_map(link_entries(kept@)) =~= without_session(
                    assoc_map(s.take(j + 1)),
                    key@,
                ));
            }
        }
        j = j + 1;
    }
    proof {
        assert(s.take(v@.len() as int) =~= s);
    }
    *v = kept;
}

impl SessionTracker {
    /// The tables hold each key once, and the id memory holds each id once.
    pub closed spec fn wf(&self) -> bool {
        &&& keys_unique(counter_entries(self.min_counters@))
        &&& keys_unique(link_entries(self.min_map_hoppie_to_openlink@))
        &&& keys_unique(link_entries(self.min_map_openlink_to_hoppie@))
        &&& id_texts(self.seen_openlink_ids@).no_duplicates()
    }

    /// Create a new empty tracker.
    pub fn new() -> (r: SessionTracker)
        ensures
            r.wf(),
            r@.counters == Map::<SessionKeyView, u8>::empty(),
            r@.hoppie_to_openlink == Map::<(SessionKeyView, u8), u8>::empty(),
            r@.openlink_to_hoppie == Map::<(SessionKeyView, u8), u8>::empty(),
            r@.seen_openlink_ids == Set::<Seq<char>>::empty(),
            r@.seen_hoppie_hashes == Set::<u64>::empty(),
    {
        let r = SessionTracker {
            min_counters: Vec::new(),
            min_map_hoppie_to_openlink: Vec::new(),
            min_map_openlink_to_hoppie: Vec::new(),
            seen_openlink_ids: Vec::new(),
            seen_hoppie_hashes: HashSet::new(),
        };
        proof {
            assert(counter_entries(r.min_counters@) =~= Seq::empty());
            assert(link_entries(r.min_map_hoppie_to_openlink@) =~= Seq::empty());
            assert(link_entries(r.min_map_openlink_to_hoppie@) =~= Seq::empty());
            assert(id_texts(r.seen_openlink_ids@) =~= Seq::empty());
            assert(id_texts(r.seen_openlink_ids@).to_set() =~= Set::empty());
        }
        r
    }

    /// Allocate the next MIN for a given session on the bridge side.
    /// Cycles 1–63 as per CPDLC spec.
    pub fn next_min(&mut self, key: &SessionKey) -> (r: u8)
        requires
            old(self).wf(),
        ensures
            final(self).wf(),
            r == next_in_cycle(last_min(old(self)@.counters, key@)),
            1 <= r <= 63,
            final(self)@.counters == old(self)@.counters.insert(key@, r),
            final(self)@.hoppie_to_openlink == old(self)@.hoppie_to_openlink,
            final(self)@.openlink_to_hoppie == old(self)@.openlink_to_hoppie,
            final(self)@.seen_openlink_ids == old(self)@.seen_openlink_ids,
            final(self)@.seen_hoppie_hashes == old(self)@.seen_hoppie_hashes,
    {
        let ghost s = counter_entries(self.min_counters@);
        match find_counter(&self.min_counters, key) {
            Some(i) => {
                let c = self.min_counters[i].1;
                let r = (c % 63) + 1;
                let k = self.min_counters[i].0.duplicate();
                self.min_counters.set(i, (k, r));
                proof {
                    lemma_assoc_lookup(s, i as int);
                    lemma_assoc_update(s, i as int, r);
                    assert(counter_entries(self.min_counters@) =~= s.update(
                        i as int,
                        (s[i as int].0, r),
                    ));
                }
                return r;
            },
            None => {},
        }
        proof {
            lemma_assoc_absent(s, key@);
            lemma_assoc_push(s, key@, 1u8);
        }
        self.min_counters.push((key.duplicate(), 1));
        proof {
            assert(counter_entries(self.min_counters@) =~= s.push((key@, 1u8)));
            assert forall|a: int, b: int|
                0 <= a < s.len() + 1 && 0 <= b < s.len() + 1 && a != b implies s.push(
                (key@, 1u8),
            )[a].0 != s.push((key@, 1u8))[b].0 by {
                if a < s.len() && b < s.len() {
                } else if a < s.len() {
                    assert(s[a].0 != key@);
                } else {
                    assert(s[b].0 != key@);
                }
            }
        }
        1
    }

    /// Record a MIN mapping: Hoppie MIN → bridge MIN (for OpenLink side).
    pub fn record_hoppie_min(&mut self, key: &SessionKey, hoppie_min: u8, bridge_min: u8)
        requires
            old(self).wf(),
        ensures
            final(self).wf(),
            final(self)@.hoppie_to_openlink == old(self)@.hoppie_to_openlink.insert(
                (key@, hoppie_min),
                bridge_min,
            ),
            final(self)@.counters == old(self)@.counters,
            final(self)@.openlink_to_hoppie == old(self)@.openlink_to_hoppie,
            final(self)@.seen_openlink_ids == old(self)@.seen_openlink_ids,
            final(self)@.seen_hoppie_hashes == old(self)@.seen_hoppie_hashes,
    {
        put_link(&mut self.min_map_hoppie_to_openlink, key, hoppie_min, bridge_min);
    }

    /// Record a MIN mapping: OpenLink MIN → bridge MIN (for Hoppie side).
    pub fn record_openlink_min(&mut self, key: &SessionKey, openlink_min: u8, bridge_min: u8)
        requires
            old(self).wf(),
        ensures
            final(self).wf(),
            final(self)@.openlink_to_hoppie == old(self)@.openlink_to_hoppie.insert(
                (key@, openlink_min),
                bridge_min,
            ),
            final(self)@.counters == old(self)@.counters,
            final(self)@.hoppie_to_openlink == old(self)@.hoppie_to_openlink,
            final(self)@.seen_openlink_ids == old(self)@.seen_openlink_ids,
            final(self)@.seen_hoppie_hashes == old(self)@.seen_hoppie_hashes,
    {
        put_link(&mut self.min_map_openlink_to_hoppie, key, openlink_min, bridge_min);
    }

    /// Translate a Hoppie-side MRN to the corresponding OpenLink-side MIN.
    pub fn translate_hoppie_mrn(&self, key: &SessionKey, hoppie_mrn: u8) -> (r: Option<u8>)
        requires
            self.wf(),
        ensures
            r == (if self@.hoppie_to_openlink.contains_key((key@, hoppie_mrn)) {
                Some(self@.hoppie_to_openlink[(key@, hoppie_mrn)])
            } else {
                None
            }),
    {
        get_link(&self.min_map_hoppie_to_openlink, key, hoppie_mrn)
    }

    /// Translate an OpenLink-side MRN to the corresponding Hoppie-side MIN.
    pub fn translate_openlink_mrn(&self, key: &SessionKey, openlink_mrn: u8) -> (r: Option<u8>)
        requires
            self.wf(),
        ensures
            r == (if self@.openlink_to_hoppie.contains_key((key@, openlink_mrn)) {
                Some(self@.openlink_to_hoppie[(key@, openlink_mrn)])
            } else {
                None
            }),
    {
        get_link(&self.min_map_openlink_to_hoppie, key, openlink_mrn)
    }

    /// Check if an OpenLink message id has already been processed.
    pub fn is_openlink_seen(&self, id: &str) -> (r: bool)
        requires
            self.wf(),
        ensures
            r == self@.seen_openlink_ids.contains(id@),
    {
        let ghost s = id_texts(self.seen_openlink_ids@);
        let mut i: usize = 0;
        while i < self.seen_openlink_ids.len()
            invariant
                s == id_texts(self.seen_openlink_ids@),
                i <= self.seen_openlink_ids@.len(),
                forall|j: int| 0 <= j < i ==> s[j] != id@,
            decreases self.seen_openlink_ids@.len() - i,
        {
            if str_eq(self.seen_openlink_ids[i].as_str(), id) {
                proof {
                    assert(s[i as int] == id@);
                    assert(s.to_set().contains(s[i as int]));
                }
                return true;
            }
            i = i + 1;
        }
        proof {
            assert(!s.contains(id@));
        }
        false
    }

    /// Mark an OpenLink message id as processed.
    /// The memory is cleared once it holds more than [`SEEN_LIMIT`] ids.
    pub fn mark_openlink_seen(&mut self, id: &str)
        requires
            old(self).wf(),
        ensures
            final(self).wf(),
            final(self)@.seen_openlink_ids == remember(old(self)@.seen_openlink_ids, id@),
            final(self)@.counters == old(self)@.counters,
            final(self)@.hoppie_to_openlink == old(self)@.hoppie_to_openlink,
            final(self)@.openlink_to_hoppie == old(self)@.openlink_to_hoppie,
            final(self)@.seen_hoppie_hashes == old(self)@.seen_hoppie_hashes,
    {
        let ghost s = id_texts(self.seen_openlink_ids@);
        if !self.is_openlink_seen(id) {
            self.seen_openlink_ids.push(id.to_owned());
            proof {
                assert(id_texts(self.seen_openlink_ids@) =~= s.push(id@));
                assert(!s.contains(id@));
                assert(s.push(id@).no_duplicates()) by {
                    assert forall|a: int, b: int|
                        0 <= a < s.len() + 1 && 0 <= b < s.len() + 1 && a != b implies s.push(
                        id@,
                    )[a] != s.push(id@)[b] by {
                        if a < s.len() && b < s.len() {
                        } else if a < s.len() {
                            assert(s.contains(s[a]));
                        } else {
                            assert(s.contains(s[b]));
                        }
                    }
                }
                s.lemma_push_to_set_commute(id@);
            }
        } else {
            proof {
                assert(s.to_set().insert(id@) =~= s.to_set());
            }
        }
        proof {
            id_texts(self.seen_openlink_ids@).unique_seq_to_set();
            assert(id_texts(self.seen_openlink_ids@).to_set() == old(self)@.seen_openlink_ids.insert(
                id@,
            ));
        }
        if self.seen_openlink_ids.len() > SEEN_LIMIT {
            self.seen_openlink_ids.clear();
            proof {
                assert(id_texts(self.seen_openlink_ids@) =~= Seq::empty());
                assert(id_texts(self.seen_openlink_ids@).to_set() =~= Set::empty());
            }
        }
    }

    /// Check if a Hoppie message has already been processed (by content hash).
    pub fn is_hoppie_seen(&self, hash: u64) -> (r: bool)
        ensures
            r == self@.seen_hoppie_hashes.contains(hash),
    {
        self.seen_hoppie_hashes.contains(&hash)
    }

    /// Mark a Hoppie message hash as processed.
    /// The memory is cleared once it holds more than [`SEEN_LIMIT`] hashes.
    pub fn mark_hoppie_seen(&mut self, hash: u64)
        requires
            old(self).wf(),
        ensures
            final(self).wf(),
            final(self)@.seen_hoppie_hashes == remember(old(self)@.seen_hoppie_hashes, hash),
            final(self)@.counters == old(self)@.counters,
            final(self)@.hoppie_to_openlink == old(self)@.hoppie_to_openlink,
            final(self)@.openlink_to_hoppie == old(self)@.openlink_to_hoppie,
            final(self)@.seen_openlink_ids == old(self)@.seen_openlink_ids,
    {
        self.seen_hoppie_hashes.insert(hash);
        if self.seen_hoppie_hashes.len() > SEEN_LIMIT {
            self.seen_hoppie_hashes.clear();
        }
    }

    /// Reset all state for a given session (e.g. on disconnect).
    pub fn reset_session(&mut self, key: &SessionKey)
        requires
            old(self).wf(),
        ensures
            final(self).wf(),
            final(self)@.counters == old(self)@.counters.remove(key@),
            final(self)@.hoppie_to_openlink == without_session(
                old(self)@.hoppie_to_openlink,
                key@,
            ),
            final(self)@.openlink_to_hoppie == without_session(
                old(self)@.openlink_to_hoppie,
                key@,
            ),
            final(self)@.seen_openlink_ids == old(self)@.seen_openlink_ids,
            final(self)@.seen_hoppie_hashes == old(self)@.seen_hoppie_hashes,
    {
        let ghost s = counter_entries(self.min_counters@);
        match find_counter(&self.min_counters, key) {
            Some(i) => {
                self.min_counters.remove(i);
                proof {
                    lemma_assoc_remove(s, i as int);
                    assert(counter_entries(self.min_counters@) =~= s.remove(i as int));
                }
            },
            None => {
                proof {
                    lemma_assoc_absent(s, key@);
                    assert(assoc_map(s).remove(key@) =~= assoc_map(s));
                }
            },
        }
        drop_session(&mut self.min_map_hoppie_to_openlink, key);
        drop_session(&mut self.min_map_openlink_to_hoppie, key);
    }
}

/// Removing an entry, from a list with unique keys, removes its key from the map.
pub proof fn lemma_assoc_remove<K, V>(s: Seq<(K, V)>, i: int)
    requires
        keys_unique(s),
        0 <= i < s.len(),
    ensures
        assoc_map(s.remove(i)) == assoc_map(s).remove(s[i].0),
        keys_unique(s.remove(i)),
    decreases s.len(),
{
    let k = s[i].0;
    let u = s.remove(i);
    assert(keys_unique(u)) by {
        assert forall|a: int, b: int|
            0 <= a < u.len() && 0 <= b < u.len() && a != b implies u[a].0 != u[b].0 by {
            let sa = if a < i {
                a
            } else {
                a + 1
            };
            let sb = if b < i {
                b
            } else {
                b + 1
            };
            assert(u[a] == s[sa]);
            assert(u[b] == s[sb]);
        }
    }
    if i == s.len() - 1 {
        assert(u =~= s.drop_last());
        let t = s.drop_last();
        assert forall|j: int| 0 <= j < t.len() implies t[j].0 != k by {
            assert(t[j] == s[j]);
        }
        lemma_assoc_absent(t, k);
        assert(assoc_map(u) =~= assoc_map(s).remove(k));
    } else {
        let t = s.drop_last();
        assert(keys_unique(t));
        assert(t[i] == s[i]);
        lemma_assoc_remove(t, i);
        assert(u.drop_last() =~= t.remove(i));
        assert(u.last() == s.last());
        assert(s.last().0 != k);
        assert(assoc_map(u) =~= assoc_map(s).remove(k));
    }
}

impl Default for SessionTracker {
    fn default() -> (r: SessionTracker)
        ensures
            r.wf(),
            r@.counters == Map::<SessionKeyView, u8>::empty(),
            r@.hoppie_to_openlink == Map::<(SessionKeyView, u8), u8>::empty(),
            r@.openlink_to_hoppie == Map::<(SessionKeyView, u8), u8>::empty(),
            r@.seen_openlink_ids == Set::<Seq<char>>::empty(),
            r@.seen_hoppie_hashes == Set::<u64>::empty(),
    {
        SessionTracker::new()
    }
}

/// The hash value of a Hoppie message: `DefaultHasher` fed the sender and the
/// packet, each written as a string is hashed (its UTF-8 bytes, then `0xff`).
pub open spec fn spec_message_hash(from: Seq<char>, packet: Seq<char>) -> u64 {
    DefaultHasher::spec_finish(
        seq![
            vstd::utf8::encode_utf8(from),
            seq![0xffu8],
            vstd::utf8::encode_utf8(packet),
            seq![0xffu8],
        ],
    )
}

/// Compute a simple hash for deduplication of Hoppie messages.
pub fn hoppie_message_hash(from: &str, packet: &str) -> (r: u64)
    ensures
        r == spec_message_hash(from@, packet@),
{
    let sep: [u8; 1] = [0xff];
    let mut hasher = DefaultHasher::new();
    hasher.write(from.as_bytes());
    hasher.write(sep.as_slice());
    hasher.write(packet.as_bytes());
    hasher.write(sep.as_slice());
    let r = hasher.finish();
    proof {
        assert(sep@ =~= seq![0xffu8]);
        assert(hasher@ =~= seq![
            vstd::utf8::encode_utf8(from@),
            seq![0xffu8],
            vstd::utf8::encode_utf8(packet@),
            seq![0xffu8],
        ]);
    }
    r
}

/// The MINs of one session run 1, 2, …, 63 and then start again at 1; a
/// session that has none yet starts at 1.
pub proof fn law_min_cycle(counters: Map<SessionKeyView, u8>, key: SessionKeyView)
    ensures
        1 <= next_in_cycle(last_min(counters, key)) <= 63,
        !counters.contains_key(key) ==> next_in_cycle(last_min(counters, key)) == 1,
        forall|r: u8|
            1 <= r < 63 ==> next_in_cycle(last_min(counters.insert(key, r), key)) == r + 1,
        next_in_cycle(last_min(counters.insert(key, 63u8), key)) == 1,
{
}

/// A recorded MIN mapping is what translation reads back for its session and
/// MIN, and recording it leaves every other mapping as it was.
pub proof fn law_record_then_translate(
    links: Map<(SessionKeyView, u8), u8>,
    key: SessionKeyView,
    from: u8,
    to: u8,
    other: (SessionKeyView, u8),
)
    ensures
        links.insert((key, from), to).contains_key((key, from)),
        links.insert((key, from), to)[(key, from)] == to,
        other != (key, from) ==> (links.insert((key, from), to).contains_key(other)
            == links.contains_key(other)),
        other != (key, from) && links.contains_key(other) ==> links.insert((key, from), to)[other]
            == links[other],
{
}

/// After a reset, a session starts again at MIN 1 and has no MIN mapping
/// left, while every other session keeps its counter and its mappings.
pub proof fn law_reset_session(v: SessionTrackerView, key: SessionKeyView, other: SessionKeyView, min: u8)
    ensures
        next_in_cycle(last_min(v.counters.remove(key), key)) == 1,
        !without_session(v.hoppie_to_openlink, key).contains_key((key, min)),
        !without_session(v.openlink_to_hoppie, key).contains_key((key, min)),
        other != key ==> last_min(v.counters.remove(key), other) == last_min(v.counters, other),
        other != key ==> without_session(v.hoppie_to_openlink, key).contains_key((other, min))
            == v.hoppie_to_openlink.contains_key((other, min)),
        other != key && v.hoppie_to_openlink.contains_key((other, min)) ==> without_session(
            v.hoppie_to_openlink,
            key,
        )[(other, min)] == v.hoppie_to_openlink[(other, min)],
{
}

/// A remembered message counts as seen, unless remembering it filled the
/// memory past its limit and cleared it; nothing else is ever added.
pub proof fn law_remember<T>(s: Set<T>, x: T, y: T)
    ensures
        remember(s, x).contains(x) || remember(s, x) == Set::<T>::empty(),
        remember(s, x).contains(y) ==> y == x || s.contains(y),
        s.finite() && s.len() < SEEN_LIMIT ==> remember(s, x) == s.insert(x),
{
    if s.finite() && s.len() < SEEN_LIMIT {
        assert(s.insert(x).len() <= s.len() + 1);
    }
}

} // verus!
