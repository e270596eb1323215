//! Plain state of the OpenLink GUI: station presets, setup fields, tab
//! phases and the interface language.
use vstd::prelude::*;
use vstd::string::*;
use crate::text::{chars_of, str_eq, to_uppercase, upper_text};
use crate::arguments::{build_command_element, element_view, spec_command_element, MessageElement};
use crate::atc_commands::{command_needs_param, spec_needs_param};
use crate::translator::{MessageDefinition, ResponseAttribute};

verus! {

broadcast use vstd::string::group_string_axioms;

/// Kind of station a tab operates.
#[derive(Debug, Clone, Copy, PartialEq, Eq, Structural)]
pub enum StationType {
    Aircraft,
    Atc,
}

/// A saved station preset.
#[derive(Debug, Clone, PartialEq)]
pub struct SavedStation {
    pub station_type: StationType,
    pub network_id: String,
    pub network_address: String,
    pub callsign: String,
    pub acars_address: String,
}

/// Two presets name the same station: same callsign, network and address.
pub open spec fn same_station(a: SavedStation, b: SavedStation) -> bool {
    a.callsign@ == b.callsign@ && a.network_id@ == b.network_id@ && a.network_address@
        == b.network_address@
}

/// No two presets of the list name the same station.
pub open spec fn stations_distinct(s: Seq<SavedStation>) -> bool {
    forall|i: int, j: int| 0 <= i < s.len() && 0 <= j < s.len() && i != j ==> !same_station(s[i], s[j])
}

/// Add a preset unless one for the same station is saved already; returns
/// whether it was added (and the list must be written back).
fn add_station(stations: &mut Vec<SavedStation>, station: SavedStation) -> (r: bool)
    ensures
        r == !(exists|i: int| 0 <= i < old(stations)@.len() && same_station(old(stations)@[i], station)),
        r ==> final(stations)@ == old(stations)@.push(station),
        !r ==> final(stations)@ == old(stations)@,
        stations_distinct(old(stations)@) ==> stations_distinct(final(stations)@),
{
    let mut i: usize = 0;
    while i < stations.len()
        invariant
            i <= stations@.len(),
            forall|j: int| 0 <= j < i ==> !same_station(stations@[j], station),
        decreases stations@.len() - i,
    {
        let s = &stations[i];
        if str_eq(s.callsign.as_str(), station.callsign.as_str()) && str_eq(
            s.network_id.as_str(),
            station.network_id.as_str(),
        ) && str_eq(s.network_address.as_str(), station.network_address.as_str()) {
            return false;
        }
        i = i + 1;
    }
    let ghost before = stations@;
    stations.push(station);
    proof {
        assert forall|a: int, b: int|
            0 <= a < stations@.len() && 0 <= b < stations@.len() && a != b && stations_distinct(
                before,
            ) implies !same_station(stations@[a], stations@[b]) by {
            if a < before.len() && b < before.len() {
                assert(stations@[a] == before[a]);
                assert(stations@[b] == before[b]);
            } else if a < before.len() {
                assert(stations@[a] == before[a]);
            } else {
                assert(stations@[b] == before[b]);
            }
        }
    }
    true
}

/// Phase of a tab.
#[derive(Debug, Clone, PartialEq)]
pub enum TabPhase {
    Setup,
    Connected(StationType),
}

/// Fields of the station setup form.
#[derive(Debug, Clone, PartialEq)]
pub struct SetupFields {
    pub station_type: StationType,
    pub network_id: String,
    pub network_address: String,
    pub callsign: String,
    pub acars_address: String,
}

impl Default for SetupFields {
    fn default() -> (r: SetupFields)
        ensures
            r.station_type == StationType::Aircraft,
            r.network_id@ == "demonetwork"@,
            r.network_address@ == Seq::<char>::empty(),
            r.callsign@ == Seq::<char>::empty(),
            r.acars_address@ == Seq::<char>::empty(),
    {
        SetupFields {
            station_type: StationType::Aircraft,
            network_id: "demonetwork".to_owned(),
            network_address: String::new(),
            callsign: String::new(),
            acars_address: String::new(),
        }
    }
}

/// A message row of a tab: what was received or sent, with its CPDLC
/// numbering and whether a closing response was sent to it.
#[derive(Debug, Clone)]
pub struct ReceivedMessage {
    /// When the row was recorded, in milliseconds since the Unix epoch.
    pub timestamp: i64,
    pub raw_json: String,
    pub from_callsign: Option<String>,
    /// Target callsign (who the message is addressed to).
    pub to_callsign: Option<String>,
    /// Human-readable message text.
    pub display_text: Option<String>,
    /// True if this message was sent by us, false for received.
    pub is_outgoing: bool,
    /// Message Identification Number (0-63) assigned by the server.
    pub min: Option<u8>,
    /// Message Reference Number: the MIN of the message this replies to.
    pub mrn: Option<u8>,
    /// Effective response attribute for this message.
    pub response_attr: Option<ResponseAttribute>,
    /// Whether a closing response (WILCO/UNABLE/...) has been sent to this message.
    pub responded: bool,
}

pub(crate) fn copy_opt_string(s: &Option<String>) -> (r: Option<String>)
    ensures
        r == *s,
{
    match s {
        Some(x) => Some(x.clone()),
        None => None,
    }
}

impl ReceivedMessage {
    /// A field-for-field copy of the row.
    pub fn duplicate(&self) -> (r: ReceivedMessage)
        ensures
            r == *self,
    {
        ReceivedMessage {
            timestamp: self.timestamp,
            raw_json: self.raw_json.clone(),
            from_callsign: copy_opt_string(&self.from_callsign),
            to_callsign: copy_opt_string(&self.to_callsign),
            display_text: copy_opt_string(&self.display_text),
            is_outgoing: self.is_outgoing,
            min: self.min,
            mrn: self.mrn,
            response_attr: self.response_attr,
            responded: self.responded,
        }
    }
}

/// The row answers (by its MRN) a received message of the list recorded at
/// another moment.
pub open spec fn linked_to_uplink(messages: Seq<ReceivedMessage>, m: ReceivedMessage) -> bool {
    m.mrn is Some && exists|j: int|
        0 <= j < messages.len() && !(#[trigger] messages[j]).is_outgoing && messages[j].min is Some
            && messages[j].min == m.mrn && messages[j].timestamp != m.timestamp
}

/// The rows shown at the top level of a message list: those that do not
/// answer a received message of the same list.
pub open spec fn root_visible(messages: Seq<ReceivedMessage>) -> Seq<ReceivedMessage> {
    messages.filter(|m: ReceivedMessage| !linked_to_uplink(messages, m))
}

pub(crate) fn is_linked_to_uplink(messages: &[ReceivedMessage], m: &ReceivedMessage) -> (r: bool)
    ensures
        r == linked_to_uplink(messages@, *m),
{
    if m.mrn.is_none() {
        return false;
    }
    let mut j: usize = 0;
    while j < messages.len()
        invariant
            j <= messages@.len(),
            m.mrn is Some,
            forall|k: int|
                0 <= k < j ==> !(!(#[trigger] messages@[k]).is_outgoing && messages@[k].min is Some
                    && messages@[k].min == m.mrn && messages@[k].timestamp != m.timestamp),
        decreases messages@.len() - j,
    {
        let u = &messages[j];
        let same_min = match (u.min, m.mrn) {
            (Some(a), Some(b)) => a == b,
            _ => false,
        };
        if !u.is_outgoing && same_min && u.timestamp != m.timestamp {
            return true;
        }
        j = j + 1;
    }
    false
}

/// Keep the rows that do not answer a received message of the same list,
/// in their order.
pub fn root_visible_messages(messages: &[ReceivedMessage]) -> (r: Vec<ReceivedMessage>)
    ensures
        r@ == root_visible(messages@),
{
    let ghost all = messages@;
    let ghost keep = |m: ReceivedMessage| !linked_to_uplink(all, m);
    let mut out: Vec<ReceivedMessage> = Vec::new();
    let mut i: usize = 0;
    while i < messages.len()
        invariant
            i <= all.len(),
            all == messages@,
            keep == (|m: ReceivedMessage| !linked_to_uplink(all, m)),
            out@ == all.subrange(0, i as int).filter(keep),
        decreases all.len() - i,
    {
        let m = &messages[i];
        proof {
            reveal_with_fuel(Seq::<ReceivedMessage>::filter, 1);
            assert(all.subrange(0, i + 1).drop_last() == all.subrange(0, i as int));
        }
        if !is_linked_to_uplink(messages, m) {
            out.push(m.duplicate());
        }
        i = i + 1;
    }
    proof {
        assert(all.subrange(0, all.len() as int) == all);
    }
    out
}

/// Per-tab state: its identity, setup form, input fields and message list.
#[derive(Debug, Clone)]
pub struct TabState {
    pub id: u128,
    pub label: String,
    pub phase: TabPhase,
    pub setup: SetupFields,
    pub logon_input: String,
    pub selected_flight_idx: Option<usize>,
    pub contact_input: String,
    pub conn_mgmt_open: bool,
    /// Which connection management action is being parameterized.
    pub pending_conn_mgmt_cmd: Option<String>,
    pub atc_uplink_open: bool,
    pub pilot_downlink_open: bool,
    /// Argument inputs for the command being parameterized.
    pub cmd_arg_inputs: Vec<String>,
    /// Search query used in command menus.
    pub cmd_search_query: String,
    pub compose_mode: bool,
    /// Elements queued for the next composed message.
    pub compose_elements: Vec<MessageElement>,
    /// MRN used when composing a response with additional elements.
    pub compose_mrn: Option<u8>,
    pub compose_send_after_param: bool,
    /// Which downlink command is being parameterized.
    pub pending_downlink_cmd: Option<String>,
    /// Which uplink command is being parameterized.
    pub pending_uplink_cmd: Option<String>,
    /// Restriction set for the uplink menu.
    pub suggested_uplink_ids: Vec<String>,
    pub messages: Vec<ReceivedMessage>,
    pub nats_task_active: bool,
}

/// The setup form as it stands before the user touches it.
pub open spec fn is_default_setup(s: SetupFields) -> bool {
    &&& s.station_type == StationType::Aircraft
    &&& s.network_id@ == "demonetwork"@
    &&& s.network_address@ == Seq::<char>::empty()
    &&& s.callsign@ == Seq::<char>::empty()
    &&& s.acars_address@ == Seq::<char>::empty()
}

/// A tab as it is opened: labelled "New", in setup, with every input empty.
pub open spec fn is_fresh_tab(t: TabState, id: u128) -> bool {
    &&& t.id == id
    &&& t.label@ == "New"@
    &&& t.phase == TabPhase::Setup
    &&& is_default_setup(t.setup)
    &&& t.logon_input@ == Seq::<char>::empty()
    &&& t.selected_flight_idx is None
    &&& t.contact_input@ == Seq::<char>::empty()
    &&& !t.conn_mgmt_open
    &&& t.pending_conn_mgmt_cmd is None
    &&& !t.atc_uplink_open
    &&& !t.pilot_downlink_open
    &&& t.cmd_arg_inputs@ == Seq::<String>::empty()
    &&& t.cmd_search_query@ == Seq::<char>::empty()
    &&& !t.compose_mode
    &&& t.compose_elements@ == Seq::<MessageElement>::empty()
    &&& t.compose_mrn is None
    &&& !t.compose_send_after_param
    &&& t.pending_downlink_cmd is None
    &&& t.pending_uplink_cmd is None
    &&& t.suggested_uplink_ids@ == Seq::<String>::empty()
    &&& t.messages@ == Seq::<ReceivedMessage>::empty()
    &&& !t.nats_task_active
}

impl TabState {
    /// A fresh tab with the given identifier.
    pub fn new(id: u128) -> (r: TabState)
        ensures
            is_fresh_tab(r, id),
    {
        TabState {
            id,
            label: "New".to_owned(),
            phase: TabPhase::Setup,
            setup: SetupFields::default(),
            logon_input: String::new(),
            selected_flight_idx: None,
            contact_input: String::new(),
            conn_mgmt_open: false,
            pending_conn_mgmt_cmd: None,
            atc_uplink_open: false,
            pilot_downlink_open: false,
            cmd_arg_inputs: Vec::new(),
            cmd_search_query: String::new(),
            compose_mode: false,
            compose_elements: Vec::new(),
            compose_mrn: None,
            compose_send_after_param: false,
            pending_downlink_cmd: None,
            pending_uplink_cmd: None,
            suggested_uplink_ids: Vec::new(),
            messages: Vec::new(),
            nats_task_active: false,
        }
    }
}

/// Some tab of the list has the given identifier.
pub open spec fn has_tab_with_id(tabs: Seq<TabState>, id: u128) -> bool {
    exists|i: int| 0 <= i < tabs.len() && (#[trigger] tabs[i]).id == id
}

/// `i` is the index of the first tab of the list with the given identifier.
pub open spec fn is_first_tab_with_id(tabs: Seq<TabState>, id: u128, i: int) -> bool {
    &&& 0 <= i < tabs.len()
    &&& tabs[i].id == id
    &&& forall|j: int| 0 <= j < i ==> (#[trigger] tabs[j]).id != id
}

/// Whole-application GUI state: the open tabs, the active one and the saved
/// station presets.
#[derive(Debug, Clone)]
pub struct AppState {
    pub tabs: Vec<TabState>,
    pub active_tab: usize,
    pub saved_stations: Vec<SavedStation>,
}

impl AppState {
    /// The active tab is one of the tabs whenever there is any.
    pub open spec fn active_in_range(&self) -> bool {
        self.tabs@.len() > 0 ==> self.active_tab < self.tabs@.len()
    }

    /// The state at start-up: the saved presets and one fresh, active tab.
    pub fn new(saved_stations: Vec<SavedStation>, first_tab_id: u128) -> (r: AppState)
        ensures
            r.tabs@.len() == 1,
            is_fresh_tab(r.tabs@[0], first_tab_id),
            r.active_tab == 0,
            r.saved_stations@ == saved_stations@,
            r.active_in_range(),
    {
        let mut s = AppState { tabs: Vec::new(), active_tab: 0, saved_stations };
        s.add_tab(first_tab_id);
        s
    }

    /// Open a fresh tab at the end of the bar and make it the active one.
    pub fn add_tab(&mut self, id: u128)
        ensures
            final(self).tabs@.len() == old(self).tabs@.len() + 1,
            final(self).tabs@.subrange(0, old(self).tabs@.len() as int) == old(self).tabs@,
            is_fresh_tab(final(self).tabs@.last(), id),
            final(self).active_tab == old(self).tabs@.len(),
            final(self).saved_stations@ == old(self).saved_stations@,
            final(self).active_in_range(),
    {
        self.tabs.push(TabState::new(id));
        self.active_tab = self.tabs.len() - 1;
        proof {
            assert(self.tabs@.subrange(0, old(self).tabs@.len() as int) == old(self).tabs@);
        }
    }

    /// Close the tab at `idx` if there is one; the active index moves to the
    /// last tab when it would fall past the end.
    pub fn close_tab(&mut self, idx: usize)
        ensures
            idx >= old(self).tabs@.len() ==> *final(self) == *old(self),
            idx < old(self).tabs@.len() ==> {
                &&& final(self).tabs@ == old(self).tabs@.remove(idx as int)
                &&& final(self).saved_stations@ == old(self).saved_stations@
                &&& final(self).active_tab == (if old(self).active_tab >= final(self).tabs@.len()
                    && final(self).tabs@.len() > 0 {
                    (final(self).tabs@.len() - 1) as usize
                } else {
                    old(self).active_tab
                })
            },
            old(self).active_in_range() ==> final(self).active_in_range(),
    {
        if idx < self.tabs.len() {
            self.tabs.remove(idx);
            if self.active_tab >= self.tabs.len() && self.tabs.len() > 0 {
                self.active_tab = self.tabs.len() - 1;
            }
        }
    }

    /// Position of the first tab with the given identifier.
    fn tab_index(&self, id: u128) -> (r: Option<usize>)
        ensures
            r is None <==> !has_tab_with_id(self.tabs@, id),
            r matches Some(i) ==> is_first_tab_with_id(self.tabs@, id, i as int),
    {
        let mut i: usize = 0;
        while i < self.tabs.len()
            invariant
                i <= self.tabs@.len(),
                forall|j: int| 0 <= j < i ==> (#[trigger] self.tabs@[j]).id != id,
            decreases self.tabs@.len() - i,
        {
            if self.tabs[i].id == id {
                return Some(i);
            }
            i = i + 1;
        }
        None
    }

    /// The first tab with the given identifier, if any, to change in place.
    pub fn tab_mut_by_id(&mut self, id: u128) -> (r: Option<&mut TabState>)
        ensures
            r is None <==> !has_tab_with_id(old(self).tabs@, id),
            r is None ==> *final(self) == *old(self),
            match r {
                Some(t) => exists|i: int|
                    is_first_tab_with_id(old(self).tabs@, id, i) && *t == #[trigger] old(self).tabs@[i]
                        && final(self).tabs@ == old(self).tabs@.update(i, *final(t)),
                None => true,
            },
            final(self).active_tab == old(self).active_tab,
            final(self).saved_stations == old(self).saved_stations,
    {
        match self.tab_index(id) {
            Some(i) => Some(&mut self.tabs[i]),
            None => None,
        }
    }

    /// The first tab with the given identifier, if any.
    pub fn tab_by_id(&self, id: u128) -> (r: Option<&TabState>)
        ensures
            r is None <==> !has_tab_with_id(self.tabs@, id),
            r matches Some(t) ==> exists|i: int|
                is_first_tab_with_id(self.tabs@, id, i) && *t == #[trigger] self.tabs@[i],
    {
        match self.tab_index(id) {
            Some(i) => Some(&self.tabs[i]),
            None => None,
        }
    }

    /// Add a preset unless one for the same station is saved already; returns
    /// whether it was added (and the list must be written back).
    pub fn save_station(&mut self, station: SavedStation) -> (r: bool)
        ensures
            r == !(exists|i: int|
                0 <= i < old(self).saved_stations@.len() && same_station(
                    old(self).saved_stations@[i],
                    station,
                )),
            r ==> final(self).saved_stations@ == old(self).saved_stations@.push(station),
            !r ==> final(self).saved_stations@ == old(self).saved_stations@,
            stations_distinct(old(self).saved_stations@) ==> stations_distinct(
                final(self).saved_stations@,
            ),
            final(self).tabs@ == old(self).tabs@,
            final(self).active_tab == old(self).active_tab,
    {
        add_station(&mut self.saved_stations, station)
    }
}

/// Two tabs agree on everything but their message lists.
pub open spec fn same_but_messages(a: TabState, b: TabState) -> bool {
    &&& a.id == b.id
    &&& a.label == b.label
    &&& a.phase == b.phase
    &&& a.setup == b.setup
    &&& a.logon_input == b.logon_input
    &&& a.selected_flight_idx == b.selected_flight_idx
    &&& a.contact_input == b.contact_input
    &&& a.conn_mgmt_open == b.conn_mgmt_open
    &&& a.pending_conn_mgmt_cmd == b.pending_conn_mgmt_cmd
    &&& a.atc_uplink_open == b.atc_uplink_open
    &&& a.pilot_downlink_open == b.pilot_downlink_open
    &&& a.cmd_arg_inputs == b.cmd_arg_inputs
    &&& a.cmd_search_query == b.cmd_search_query
    &&& a.compose_mode == b.compose_mode
    &&& a.compose_elements == b.compose_elements
    &&& a.compose_mrn == b.compose_mrn
    &&& a.compose_send_after_param == b.compose_send_after_param
    &&& a.pending_downlink_cmd == b.pending_downlink_cmd
    &&& a.pending_uplink_cmd == b.pending_uplink_cmd
    &&& a.suggested_uplink_ids == b.suggested_uplink_ids
    &&& a.nats_task_active == b.nats_task_active
}

/// The row recorded for a message we sent: its text, its addressee and the
/// moment, with no numbering and not yet answered.
pub open spec fn is_outgoing_row(
    m: ReceivedMessage,
    display_text: Seq<char>,
    to_callsign: Option<Seq<char>>,
    timestamp: i64,
) -> bool {
    &&& m.timestamp == timestamp
    &&& m.raw_json@ == Seq::<char>::empty()
    &&& m.from_callsign is None
    &&& (match (m.to_callsign, to_callsign) {
        (Some(a), Some(b)) => a@ == b,
        (None, None) => true,
        _ => false,
    })
    &&& m.display_text matches Some(t) && t@ == display_text
    &&& m.is_outgoing
    &&& m.min is None
    &&& m.mrn is None
    &&& m.response_attr is None
    &&& !m.responded
}

/// The tab list after the message list of the tab at `i` was replaced by
/// `messages`, every other tab and field unchanged.
pub open spec fn tabs_with_messages(
    before: Seq<TabState>,
    after: Seq<TabState>,
    i: int,
    messages: Seq<ReceivedMessage>,
) -> bool {
    &&& after.len() == before.len()
    &&& forall|j: int| 0 <= j < before.len() && j != i ==> after[j] == before[j]
    &&& same_but_messages(after[i], before[i])
    &&& after[i].messages@ == messages
}

/// Record a message we sent in the tab with the given identifier, addressed
/// to `to_callsign` when the ATC sends to a given flight; nothing happens
/// when no tab has that identifier.
pub fn push_outgoing_message_to(
    app_state: &mut AppState,
    tab_id: u128,
    display_text: &str,
    to_callsign: Option<&str>,
    timestamp: i64,
)
    ensures
        final(app_state).active_tab == old(app_state).active_tab,
        final(app_state).saved_stations == old(app_state).saved_stations,
        !has_tab_with_id(old(app_state).tabs@, tab_id) ==> final(app_state).tabs@ == old(
            app_state,
        ).tabs@,
        forall|i: int|
            is_first_tab_with_id(old(app_state).tabs@, tab_id, i) ==> exists|m: ReceivedMessage|
                is_outgoing_row(
                    m,
                    display_text@,
                    match to_callsign {
                        Some(c) => Some(c@),
                        None => None,
                    },
                    timestamp,
                ) && tabs_with_messages(
                    old(app_state).tabs@,
                    final(app_state).tabs@,
                    i,
                    #[trigger] old(app_state).tabs@[i].messages@.push(m),
                ),
{
    let msg = ReceivedMessage {
        timestamp,
        raw_json: String::new(),
        from_callsign: None,
        to_callsign: match to_callsign {
            Some(c) => Some(c.to_owned()),
            None => None,
        },
        display_text: Some(display_text.to_owned()),
        is_outgoing: true,
        min: None,
        mrn: None,
        response_attr: None,
        responded: false,
    };
    match app_state.tab_index(tab_id) {
        Some(i) => {
            let ghost m = msg;
            app_state.tabs[i].messages.push(msg);
            proof {
                let old_tabs = old(app_state).tabs@;
                assert forall|k: int| is_first_tab_with_id(old_tabs, tab_id, k) implies k == i by {
                    if k < i {
                        assert(old_tabs[k].id == tab_id);
                    } else if k > i {
                        assert(old_tabs[i as int].id != tab_id);
                    }
                }
                assert(tabs_with_messages(
                    old_tabs,
                    app_state.tabs@,
                    i as int,
                    old_tabs[i as int].messages@.push(m),
                ));
            }
        },
        None => {},
    }
}

/// Record a message we sent in the tab with the given identifier.
pub fn push_outgoing_message(
    app_state: &mut AppState,
    tab_id: u128,
    display_text: &str,
    timestamp: i64,
)
    ensures
        final(app_state).active_tab == old(app_state).active_tab,
        final(app_state).saved_stations == old(app_state).saved_stations,
        !has_tab_with_id(old(app_state).tabs@, tab_id) ==> final(app_state).tabs@ == old(
            app_state,
        ).tabs@,
        forall|i: int|
            is_first_tab_with_id(old(app_state).tabs@, tab_id, i) ==> exists|m: ReceivedMessage|
                is_outgoing_row(m, display_text@, None, timestamp) && tabs_with_messages(
                    old(app_state).tabs@,
                    final(app_state).tabs@,
                    i,
                    #[trigger] old(app_state).tabs@[i].messages@.push(m),
                ),
{
    push_outgoing_message_to(app_state, tab_id, display_text, None, timestamp);
}

/// `k` is the first received row of the list numbered `min`.
pub open spec fn is_first_received_with_min(messages: Seq<ReceivedMessage>, min: u8, k: int) -> bool {
    &&& 0 <= k < messages.len()
    &&& messages[k].min == Some(min) && !messages[k].is_outgoing
    &&& forall|j: int|
        0 <= j < k ==> !((#[trigger] messages[j]).min == Some(min) && !messages[j].is_outgoing)
}

/// A row that is the same but marked as answered.
pub open spec fn marked_responded(a: ReceivedMessage, b: ReceivedMessage) -> bool {
    a == ReceivedMessage { responded: true, ..b }
}

fn first_received_with_min(messages: &Vec<ReceivedMessage>, min: u8) -> (r: Option<usize>)
    ensures
        r matches Some(k) ==> is_first_received_with_min(messages@, min, k as int),
        r is None ==> forall|j: int|
            0 <= j < messages@.len() ==> !((#[trigger] messages@[j]).min == Some(min)
                && !messages@[j].is_outgoing),
{
    let mut k: usize = 0;
    while k < messages.len()
        invariant
            k <= messages@.len(),
            forall|j: int|
                0 <= j < k ==> !((#[trigger] messages@[j]).min == Some(min)
                    && !messages@[j].is_outgoing),
        decreases messages@.len() - k,
    {
        let m = &messages[k];
        let numbered = match m.min {
            Some(x) => x == min,
            None => false,
        };
        if numbered && !m.is_outgoing {
            return Some(k);
        }
        k = k + 1;
    }
    None
}

/// After a response that closes a dialogue (`closes_dialogue`) and answers
/// MIN `mrn`, mark the first received row of that tab numbered `mrn` as
/// answered; in every other case nothing changes.
pub fn mark_dialogue_responded(
    app_state: &mut AppState,
    tab_id: u128,
    mrn: Option<u8>,
    closes_dialogue: bool,
)
    ensures
        final(app_state).active_tab == old(app_state).active_tab,
        final(app_state).saved_stations == old(app_state).saved_stations,
        (mrn is None || !closes_dialogue || !has_tab_with_id(old(app_state).tabs@, tab_id))
            ==> final(app_state).tabs@ == old(app_state).tabs@,
        forall|i: int|
            #![trigger is_first_tab_with_id(old(app_state).tabs@, tab_id, i)]
            mrn is Some && closes_dialogue && is_first_tab_with_id(
                old(app_state).tabs@,
                tab_id,
                i,
            ) ==> {
                let before = old(app_state).tabs@[i].messages@;
                let after = final(app_state).tabs@[i].messages@;
                &&& tabs_with_messages(old(app_state).tabs@, final(app_state).tabs@, i, after)
                &&& after.len() == before.len()
                &&& forall|k: int|
                    0 <= k < before.len() ==> (if is_first_received_with_min(
                        before,
                        mrn->0,
                        k,
                    ) {
                        marked_responded(#[trigger] after[k], before[k])
                    } else {
                        after[k] == before[k]
                    })
            },
{
    let n = match mrn {
        Some(n) => n,
        None => return,
    };
    if !closes_dialogue {
        return;
    }
    let i = match app_state.tab_index(tab_id) {
        Some(i) => i,
        None => return,
    };
    let ghost old_tabs = app_state.tabs@;
    proof {
        assert forall|k: int| is_first_tab_with_id(old_tabs, tab_id, k) implies k == i by {
            if k < i {
                assert(old_tabs[k].id == tab_id);
            } else if k > i {
                assert(old_tabs[i as int].id != tab_id);
            }
        }
    }
    match first_received_with_min(&app_state.tabs[i].messages, n) {
        Some(k) => {
            app_state.tabs[i].messages[k].responded = true;
            proof {
                let before = old_tabs[i as int].messages@;
                let after = app_state.tabs@[i as int].messages@;
                assert forall|q: int| 0 <= q < before.len() implies (if is_first_received_with_min(
                    before,
                    n,
                    q,
                ) {
                    marked_responded(#[trigger] after[q], before[q])
                } else {
                    after[q] == before[q]
                }) by {
                    if q != k && is_first_received_with_min(before, n, q) {
                        if q < k {
                            assert(before[q].min == Some(n) && !before[q].is_outgoing);
                        } else {
                            assert(before[k as int].min == Some(n) && !before[k as int].is_outgoing);
                        }
                    }
                }
            }
        },
        None => {
            proof {
                let before = old_tabs[i as int].messages@;
                assert(app_state.tabs@ == old_tabs);
                assert forall|q: int| 0 <= q < before.len() implies !is_first_received_with_min(
                    before,
                    n,
                    q,
                ) by {
                    assert(!(before[q].min == Some(n) && !before[q].is_outgoing));
                }
            }
        },
    }
}

/// A tab opened with an identifier that no open tab has is the one that a
/// look-up by that identifier then finds.
pub proof fn law_added_tab_is_found(before: Seq<TabState>, after: Seq<TabState>, id: u128)
    requires
        !has_tab_with_id(before, id),
        after.len() == before.len() + 1,
        after.subrange(0, before.len() as int) == before,
        is_fresh_tab(after.last(), id),
    ensures
        has_tab_with_id(after, id),
        is_first_tab_with_id(after, id, before.len() as int),
{
    assert(after[before.len() as int].id == id);
    assert forall|j: int| 0 <= j < before.len() implies (#[trigger] after[j]).id != id by {
        assert(after[j] == after.subrange(0, before.len() as int)[j]);
        assert(before[j].id != id);
    }
}

/// The connect form can be submitted: network address, callsign and ACARS
/// address are all filled in.
pub open spec fn setup_complete(s: SetupFields) -> bool {
    s.network_address@.len() > 0 && s.callsign@.len() > 0 && s.acars_address@.len() > 0
}

/// Whether the connect form can be submitted; when it cannot, the form shows
/// that every field is required.
pub fn setup_is_complete(setup: &SetupFields) -> (r: bool)
    ensures
        r == setup_complete(*setup),
{
    !setup.network_address.as_str().is_empty() && !setup.callsign.as_str().is_empty()
        && !setup.acars_address.as_str().is_empty()
}

/// A text field of the setup form.
#[derive(Debug, Clone, Copy, PartialEq, Eq, Structural)]
pub enum SetupField {
    NetworkId,
    NetworkAddress,
    Callsign,
    AcarsAddress,
}

/// What a field keeps of what was typed: callsign and ACARS address are kept
/// in upper case, the network fields as typed.
pub open spec fn field_value(field: SetupField, typed: Seq<char>) -> Seq<char> {
    match field {
        SetupField::Callsign | SetupField::AcarsAddress => upper_text(typed),
        _ => typed,
    }
}

/// The text held by one field of the form.
pub open spec fn field_of(s: SetupFields, field: SetupField) -> Seq<char> {
    match field {
        SetupField::NetworkId => s.network_id@,
        SetupField::NetworkAddress => s.network_address@,
        SetupField::Callsign => s.callsign@,
        SetupField::AcarsAddress => s.acars_address@,
    }
}

/// `after` is `before` with only the given field changed.
pub open spec fn other_fields_kept(before: SetupFields, after: SetupFields, field: SetupField) -> bool {
    &&& after.station_type == before.station_type
    &&& field != SetupField::NetworkId ==> after.network_id == before.network_id
    &&& field != SetupField::NetworkAddress ==> after.network_address == before.network_address
    &&& field != SetupField::Callsign ==> after.callsign == before.callsign
    &&& field != SetupField::AcarsAddress ==> after.acars_address == before.acars_address
}

/// The tab list after the first tab with identifier `id` was changed into a
/// tab satisfying `changed`, every other tab kept; the list is kept whole
/// when no tab has the identifier.
pub open spec fn first_tab_changed(
    before: Seq<TabState>,
    after: Seq<TabState>,
    id: u128,
    changed: spec_fn(TabState, TabState) -> bool,
) -> bool {
    &&& !has_tab_with_id(before, id) ==> after == before
    &&& forall|i: int| #[trigger]
        is_first_tab_with_id(before, id, i) ==> {
            &&& after.len() == before.len()
            &&& forall|j: int| 0 <= j < before.len() && j != i ==> after[j] == before[j]
            &&& changed(before[i], after[i])
        }
}

/// Two tabs agree on everything but their setup forms.
pub open spec fn same_but_setup(a: TabState, b: TabState) -> bool {
    a == TabState { setup: a.setup, ..b }
}

/// Store what was typed into one text field of a tab's setup form.
pub fn edit_setup_field(app_state: &mut AppState, tab_id: u128, field: SetupField, typed: &str)
    ensures
        final(app_state).active_tab == old(app_state).active_tab,
        final(app_state).saved_stations == old(app_state).saved_stations,
        first_tab_changed(
            old(app_state).tabs@,
            final(app_state).tabs@,
            tab_id,
            |a: TabState, b: TabState|
                same_but_setup(b, a) && field_of(b.setup, field) == field_value(field, typed@)
                    && other_fields_kept(a.setup, b.setup, field),
        ),
{
    let value = match field {
        SetupField::Callsign | SetupField::AcarsAddress => to_uppercase(typed),
        _ => typed.to_owned(),
    };
    let ghost before = app_state.tabs@;
    match app_state.tab_mut_by_id(tab_id) {
        Some(t) => {
            match field {
                SetupField::NetworkId => { t.setup.network_id = value; },
                SetupField::NetworkAddress => { t.setup.network_address = value; },
                SetupField::Callsign => { t.setup.callsign = value; },
                SetupField::AcarsAddress => { t.setup.acars_address = value; },
            }
        },
        None => {},
    }
    proof { lemma_first_tab_unique(before, tab_id); }
}

/// There is at most one first tab with a given identifier.
pub proof fn lemma_first_tab_unique(tabs: Seq<TabState>, id: u128)
    ensures
        forall|i: int, k: int|
            #![trigger is_first_tab_with_id(tabs, id, i), is_first_tab_with_id(tabs, id, k)]
            is_first_tab_with_id(tabs, id, i) && is_first_tab_with_id(tabs, id, k) ==> i == k,
{
    assert forall|i: int, k: int|
        is_first_tab_with_id(tabs, id, i) && is_first_tab_with_id(tabs, id, k) implies i == k by {
        if k < i {
            assert(tabs[k].id == id);
        } else if k > i {
            assert(tabs[i].id != id);
        }
    }
}

/// Choose the station type of a tab's setup form.
pub fn set_station_type(app_state: &mut AppState, tab_id: u128, station_type: StationType)
    ensures
        final(app_state).active_tab == old(app_state).active_tab,
        final(app_state).saved_stations == old(app_state).saved_stations,
        first_tab_changed(
            old(app_state).tabs@,
            final(app_state).tabs@,
            tab_id,
            |a: TabState, b: TabState|
                same_but_setup(b, a) && b.setup == SetupFields { station_type, ..a.setup },
        ),
{
    let ghost before = app_state.tabs@;
    match app_state.tab_mut_by_id(tab_id) {
        Some(t) => {
            t.setup.station_type = station_type;
        },
        None => {},
    }
    proof { lemma_first_tab_unique(before, tab_id); }
}

/// The setup form filled in from a saved preset.
pub open spec fn setup_of_station(s: SetupFields, station: SavedStation) -> bool {
    &&& s.station_type == station.station_type
    &&& s.network_id@ == station.network_id@
    &&& s.network_address@ == station.network_address@
    &&& s.callsign@ == station.callsign@
    &&& s.acars_address@ == station.acars_address@
}

/// Fill a tab's setup form from a saved station preset.
pub fn apply_saved_station(app_state: &mut AppState, tab_id: u128, station: &SavedStation)
    ensures
        final(app_state).active_tab == old(app_state).active_tab,
        final(app_state).saved_stations == old(app_state).saved_stations,
        first_tab_changed(
            old(app_state).tabs@,
            final(app_state).tabs@,
            tab_id,
            |a: TabState, b: TabState| same_but_setup(b, a) && setup_of_station(b.setup, *station),
        ),
{
    let ghost before = app_state.tabs@;
    match app_state.tab_mut_by_id(tab_id) {
        Some(t) => {
            t.setup = SetupFields {
                station_type: station.station_type,
                network_id: station.network_id.clone(),
                network_address: station.network_address.clone(),
                callsign: station.callsign.clone(),
                acars_address: station.acars_address.clone(),
            };
        },
        None => {},
    }
    proof { lemma_first_tab_unique(before, tab_id); }
}

/// The preset saved for a setup form.
pub open spec fn station_of_setup(station: SavedStation, s: SetupFields) -> bool {
    setup_of_station(s, station)
}

/// Once a tab's station is connected: remember the station as a preset, and
/// turn the tab into a connected tab labelled with the callsign, whose inbox
/// listener is still to be started. Returns whether the preset list changed
/// (and must be written back).
pub fn complete_connection(app_state: &mut AppState, tab_id: u128, setup: &SetupFields) -> (r: bool)
    ensures
        final(app_state).active_tab == old(app_state).active_tab,
        r == !(exists|i: int|
            0 <= i < old(app_state).saved_stations@.len() && same_station_as_setup(
                old(app_state).saved_stations@[i],
                *setup,
            )),
        r ==> final(app_state).saved_stations@.len() == old(app_state).saved_stations@.len() + 1
            && final(app_state).saved_stations@.drop_last() == old(app_state).saved_stations@
            && station_of_setup(final(app_state).saved_stations@.last(), *setup),
        !r ==> final(app_state).saved_stations@ == old(app_state).saved_stations@,
        stations_distinct(old(app_state).saved_stations@) ==> stations_distinct(
            final(app_state).saved_stations@,
        ),
        first_tab_changed(
            old(app_state).tabs@,
            final(app_state).tabs@,
            tab_id,
            |a: TabState, b: TabState|
                b == TabState {
                    label: b.label,
                    phase: TabPhase::Connected(setup.station_type),
                    nats_task_active: false,
                    ..a
                } && b.label@ == setup.callsign@,
        ),
{
    let saved = SavedStation {
        station_type: setup.station_type,
        network_id: setup.network_id.clone(),
        network_address: setup.network_address.clone(),
        callsign: setup.callsign.clone(),
        acars_address: setup.acars_address.clone(),
    };
    let r = app_state.save_station(saved);
    let ghost before = app_state.tabs@;
    match app_state.tab_mut_by_id(tab_id) {
        Some(t) => {
            t.label = setup.callsign.clone();
            t.phase = TabPhase::Connected(setup.station_type);
            t.nats_task_active = false;
        },
        None => {},
    }
    proof { lemma_first_tab_unique(before, tab_id); }
    r
}

/// A preset names the station of a setup form: same callsign, network and
/// address.
pub open spec fn same_station_as_setup(a: SavedStation, s: SetupFields) -> bool {
    a.callsign@ == s.callsign@ && a.network_id@ == s.network_id@ && a.network_address@
        == s.network_address@
}

/// A connected tab whose inbox listener has not been started.
pub open spec fn needs_listener(t: TabState) -> bool {
    t.phase is Connected && !t.nats_task_active
}

/// Mark every connected tab that has no inbox listener as having one, and
/// return the identifiers and setup forms of those tabs, in tab order, so
/// that a listener is started for each exactly once.
pub fn claim_listener_tabs(app_state: &mut AppState) -> (r: Vec<(u128, SetupFields)>)
    ensures
        final(app_state).active_tab == old(app_state).active_tab,
        final(app_state).saved_stations == old(app_state).saved_stations,
        final(app_state).tabs@.len() == old(app_state).tabs@.len(),
        forall|j: int|
            0 <= j < old(app_state).tabs@.len() ==> #[trigger] final(app_state).tabs@[j] == (
            if needs_listener(old(app_state).tabs@[j]) {
                TabState { nats_task_active: true, ..old(app_state).tabs@[j] }
            } else {
                old(app_state).tabs@[j]
            }),
        r@ == old(app_state).tabs@.filter(|t: TabState| needs_listener(t)).map_values(
            |t: TabState| (t.id, t.setup),
        ),
{
    let ghost before = app_state.tabs@;
    let ghost pick = |t: TabState| needs_listener(t);
    let ghost proj = |t: TabState| (t.id, t.setup);
    let mut out: Vec<(u128, SetupFields)> = Vec::new();
    let mut i: usize = 0;
    while i < app_state.tabs.len()
        invariant
            app_state.tabs@.len() == before.len(),
            i <= before.len(),
            app_state.active_tab == old(app_state).active_tab,
            app_state.saved_stations == old(app_state).saved_stations,
            before == old(app_state).tabs@,
            pick == (|t: TabState| needs_listener(t)),
            proj == (|t: TabState| (t.id, t.setup)),
            forall|j: int| i <= j < before.len() ==> #[trigger] app_state.tabs@[j] == before[j],
            forall|j: int|
                0 <= j < i ==> #[trigger] app_state.tabs@[j] == (if needs_listener(before[j]) {
                    TabState { nats_task_active: true, ..before[j] }
                } else {
                    before[j]
                }),
            out@ == before.subrange(0, i as int).filter(pick).map_values(proj),
        decreases before.len() - i,
    {
        proof {
            reveal_with_fuel(Seq::<TabState>::filter, 1);
            assert(before.subrange(0, i + 1).drop_last() == before.subrange(0, i as int));
        }
        let connected = match app_state.tabs[i].phase {
            TabPhase::Connected(_) => true,
            TabPhase::Setup => false,
        };
        if connected && !app_state.tabs[i].nats_task_active {
            let setup = SetupFields {
                station_type: app_state.tabs[i].setup.station_type,
                network_id: app_state.tabs[i].setup.network_id.clone(),
                network_address: app_state.tabs[i].setup.network_address.clone(),
                callsign: app_state.tabs[i].setup.callsign.clone(),
                acars_address: app_state.tabs[i].setup.acars_address.clone(),
            };
            out.push((app_state.tabs[i].id, setup));
            app_state.tabs[i].nats_task_active = true;
        }
        i = i + 1;
    }
    proof {
        assert(before.subrange(0, before.len() as int) == before);
    }
    out
}

/// What the window shows for the active tab.
#[derive(Debug, Clone, Copy, PartialEq, Eq, Structural)]
pub enum ActiveView {
    /// The station setup form of the tab with this identifier.
    Setup(u128),
    /// The aircraft DCDU of the tab with this identifier.
    Dcdu(u128),
    /// The ATC view of the tab with this identifier.
    Atc(u128),
    /// No tab is active: the prompt to create one.
    Empty,
}

/// The view of the active tab, chosen by its phase and station type.
pub fn active_view(app_state: &AppState) -> (r: ActiveView)
    ensures
        r == (if app_state.active_tab < app_state.tabs@.len() {
            let t = app_state.tabs@[app_state.active_tab as int];
            match t.phase {
                TabPhase::Setup => ActiveView::Setup(t.id),
                TabPhase::Connected(StationType::Aircraft) => ActiveView::Dcdu(t.id),
                TabPhase::Connected(StationType::Atc) => ActiveView::Atc(t.id),
            }
        } else {
            ActiveView::Empty
        }),
{
    if app_state.active_tab < app_state.tabs.len() {
        let t = &app_state.tabs[app_state.active_tab];
        match t.phase {
            TabPhase::Setup => ActiveView::Setup(t.id),
            TabPhase::Connected(StationType::Aircraft) => ActiveView::Dcdu(t.id),
            TabPhase::Connected(StationType::Atc) => ActiveView::Atc(t.id),
        }
    } else {
        ActiveView::Empty
    }
}

/// Phase of a CPDLC connection.
#[derive(Debug, Clone, Copy, PartialEq, Eq, Structural)]
pub enum CpdlcConnectionPhase {
    LogonPending,
    LoggedOn,
    Connected,
    Terminated,
}

/// The status line of a flight in the ATC view.
pub fn phase_status_label(phase: CpdlcConnectionPhase) -> (r: &'static str)
    ensures
        r@ == (match phase {
            CpdlcConnectionPhase::Connected => "CPDLC CONNECTED"@,
            CpdlcConnectionPhase::LogonPending => "LOGON REQUEST RECEIVED"@,
            CpdlcConnectionPhase::LoggedOn => "LOGON ACCEPTED (WAITING LINK)"@,
            CpdlcConnectionPhase::Terminated => "ACARS ONLY"@,
        }),
{
    match phase {
        CpdlcConnectionPhase::Connected => "CPDLC CONNECTED",
        CpdlcConnectionPhase::LogonPending => "LOGON REQUEST RECEIVED",
        CpdlcConnectionPhase::LoggedOn => "LOGON ACCEPTED (WAITING LINK)",
        CpdlcConnectionPhase::Terminated => "ACARS ONLY",
    }
}

/// What the DCDU shows of the aircraft's connection.
#[derive(Debug, Clone, PartialEq)]
pub enum DcduConnectionState {
    Disconnected,
    /// Logon under way with this station.
    Pending(String),
    /// Connected to this station.
    Connected(String),
}

/// The DCDU's connection state from the phase and peer of the session's
/// active connection (none without a session or an active connection).
pub fn dcdu_connection_state(active: Option<(CpdlcConnectionPhase, &str)>) -> (r: DcduConnectionState)
    ensures
        match active {
            Some((phase, peer)) => match phase {
                CpdlcConnectionPhase::LogonPending | CpdlcConnectionPhase::LoggedOn => r matches DcduConnectionState::Pending(p) && p@ == peer@,
                CpdlcConnectionPhase::Connected => r matches DcduConnectionState::Connected(p) && p@ == peer@,
                CpdlcConnectionPhase::Terminated => r is Disconnected,
            },
            None => r is Disconnected,
        },
{
    match active {
        Some((phase, peer)) => match phase {
            CpdlcConnectionPhase::LogonPending | CpdlcConnectionPhase::LoggedOn => {
                DcduConnectionState::Pending(peer.to_owned())
            },
            CpdlcConnectionPhase::Connected => DcduConnectionState::Connected(peer.to_owned()),
            CpdlcConnectionPhase::Terminated => DcduConnectionState::Disconnected,
        },
        None => DcduConnectionState::Disconnected,
    }
}

/// `a` sorts before `b` as Rust orders strings: byte-wise on UTF-8, which is
/// the lexicographic order of code points.
pub open spec fn text_lt(a: Seq<char>, b: Seq<char>) -> bool
    decreases a.len(),
{
    if a.len() == 0 {
        b.len() > 0
    } else if b.len() == 0 {
        false
    } else if a[0] != b[0] {
        (a[0] as u32) < (b[0] as u32)
    } else {
        text_lt(a.drop_first(), b.drop_first())
    }
}

pub(crate) fn text_less(a: &str, b: &str) -> (r: bool)
    ensures
        r == text_lt(a@, b@),
{
    let v = chars_of(a);
    let w = chars_of(b);
    let mut i: usize = 0;
    proof {
        assert(v@.skip(0) =~= v@);
        assert(w@.skip(0) =~= w@);
    }
    while i < v.len() && i < w.len() && v[i] == w[i]
        invariant
            v@ == a@,
            w@ == b@,
            i <= v@.len(),
            i <= w@.len(),
            text_lt(a@, b@) == text_lt(v@.skip(i as int), w@.skip(i as int)),
        decreases v@.len() - i,
    {
        proof {
            assert(v@.skip(i as int).drop_first() =~= v@.skip(i + 1));
            assert(w@.skip(i as int).drop_first() =~= w@.skip(i + 1));
        }
        i = i + 1;
    }
    if i == v.len() {
        i < w.len()
    } else if i == w.len() {
        false
    } else {
        (v[i] as u32) < (w[i] as u32)
    }
}

/// `i` is the first position of the list holding its callsign.
pub open spec fn first_of_its_kind(s: Seq<String>, i: int) -> bool {
    forall|j: int| 0 <= j < i ==> (#[trigger] s[j])@ != s[i]@
}

/// How many distinct callsigns of the list sort before `target`: the
/// position of `target` in the sorted list without repeats.
pub open spec fn rank_below(s: Seq<String>, target: Seq<char>) -> int
    decreases s.len(),
{
    if s.len() == 0 {
        0
    } else {
        let i = s.len() - 1;
        rank_below(s.drop_last(), target) + if text_lt(s[i]@, target) && first_of_its_kind(s, i) {
            1int
        } else {
            0int
        }
    }
}

/// The list holds the callsign.
pub open spec fn lists_callsign(s: Seq<String>, c: Seq<char>) -> bool {
    exists|i: int| 0 <= i < s.len() && (#[trigger] s[i])@ == c
}

/// Select the flight `aircraft_callsign` in the ATC flight list, which shows
/// the aircraft of the tab's sessions (`session_aircraft`) sorted and without
/// repeats; nothing changes when it is not among them.
pub fn select_flight_by_callsign(
    tab: &mut TabState,
    session_aircraft: &[String],
    aircraft_callsign: &str,
)
    ensures
        lists_callsign(session_aircraft@, aircraft_callsign@) ==> *final(tab) == (TabState {
            selected_flight_idx: Some(rank_below(session_aircraft@, aircraft_callsign@) as usize),
            ..*old(tab)
        }),
        !lists_callsign(session_aircraft@, aircraft_callsign@) ==> *final(tab) == *old(tab),
{
    let mut found = false;
    let mut rank: usize = 0;
    let mut i: usize = 0;
    while i < session_aircraft.len()
        invariant
            i <= session_aircraft@.len(),
            rank as int == rank_below(session_aircraft@.subrange(0, i as int), aircraft_callsign@),
            rank <= i,
            found == lists_callsign(session_aircraft@.subrange(0, i as int), aircraft_callsign@),
        decreases session_aircraft@.len() - i,
    {
        let c = session_aircraft[i].as_str();
        let mut first = true;
        let mut j: usize = 0;
        while j < i
            invariant
                j <= i < session_aircraft@.len(),
                c@ == session_aircraft@[i as int]@,
                first == forall|k: int| 0 <= k < j ==> (#[trigger] session_aircraft@[k])@ != session_aircraft@[i as int]@,
            decreases i - j,
        {
            if crate::text::str_eq(session_aircraft[j].as_str(), c) {
                first = false;
            }
            j = j + 1;
        }
        let below = text_less(c, aircraft_callsign);
        proof {
            let sub = session_aircraft@.subrange(0, i + 1);
            assert(sub.drop_last() =~= session_aircraft@.subrange(0, i as int));
            assert(sub[i as int] == session_aircraft@[i as int]);
            assert forall|k: int| 0 <= k < i implies sub[k] == session_aircraft@[k] by {}
            if first {
                assert forall|k: int| 0 <= k < i implies (#[trigger] sub[k])@ != sub[i as int]@ by {
                    assert(session_aircraft@[k]@ != session_aircraft@[i as int]@);
                }
            } else {
                let k = choose|k: int| 0 <= k < i && !((#[trigger] session_aircraft@[k])@ != session_aircraft@[i as int]@);
                assert(sub[k]@ == sub[i as int]@);
            }
            assert(first == first_of_its_kind(sub, i as int));
        }
        if below && first {
            rank = rank + 1;
        }
        if crate::text::str_eq(c, aircraft_callsign) {
            found = true;
        }
        i = i + 1;
    }
    proof {
        assert(session_aircraft@.subrange(0, session_aircraft@.len() as int) =~= session_aircraft@);
    }
    if found {
        tab.selected_flight_idx = Some(rank);
    }
}

/// The elements of a list by their identifiers and argument values.
pub open spec fn elements_view(s: Seq<MessageElement>) -> Seq<(Seq<char>, Seq<crate::arguments::ArgValue>)> {
    s.map_values(|e: MessageElement| element_view(Some(e))->0)
}

/// Queue the element of a menu command in the first tab with the given
/// identifier, built from the tab's argument fields when the command has
/// any, and empty the fields; nothing changes when there is no such tab or
/// no element can be built.
pub fn add_command_element(
    app_state: &mut AppState,
    tab_id: u128,
    command: &str,
    registry: &[MessageDefinition],
)
    ensures
        final(app_state).active_tab == old(app_state).active_tab,
        final(app_state).saved_stations == old(app_state).saved_stations,
        !has_tab_with_id(old(app_state).tabs@, tab_id) ==> final(app_state).tabs@ == old(
            app_state,
        ).tabs@,
        forall|i: int| #[trigger]
            is_first_tab_with_id(old(app_state).tabs@, tab_id, i) ==> {
                let t = old(app_state).tabs@[i];
                let typed = if spec_needs_param(command@, registry@) {
                    t.cmd_arg_inputs@
                } else {
                    Seq::empty()
                };
                match spec_command_element(command@, typed, registry@) {
                    None => final(app_state).tabs@ == old(app_state).tabs@,
                    Some(ev) => {
                        let u = final(app_state).tabs@[i];
                        &&& final(app_state).tabs@.len() == old(app_state).tabs@.len()
                        &&& forall|j: int|
                            0 <= j < old(app_state).tabs@.len() && j != i
                                ==> #[trigger] final(app_state).tabs@[j] == old(app_state).tabs@[j]
                        &&& u == (TabState {
                            compose_elements: u.compose_elements,
                            cmd_arg_inputs: u.cmd_arg_inputs,
                            ..t
                        })
                        &&& u.cmd_arg_inputs@.len() == 0
                        &&& elements_view(u.compose_elements@) == elements_view(
                            t.compose_elements@,
                        ).push(ev)
                    },
                }
            },
{
    let i = match app_state.tab_index(tab_id) {
        Some(i) => i,
        None => {
            return;
        },
    };
    proof {
        lemma_first_tab_unique(app_state.tabs@, tab_id);
    }
    let element = if command_needs_param(command, registry) {
        build_command_element(command, app_state.tabs[i].cmd_arg_inputs.as_slice(), registry)
    } else {
        let none: Vec<String> = Vec::new();
        build_command_element(command, none.as_slice(), registry)
    };
    let e = match element {
        Some(e) => e,
        None => {
            return;
        },
    };
    let ghost before = app_state.tabs@[i as int].compose_elements@;
    app_state.tabs[i].compose_elements.push(e);
    app_state.tabs[i].cmd_arg_inputs.clear();
    proof {
        assert(elements_view(app_state.tabs@[i as int].compose_elements@) =~= elements_view(
            before,
        ).push(element_view(Some(e))->0));
    }
}

/// Closing the tab that was just opened gives back the tabs as they were.
pub proof fn law_close_undoes_add(
    before: Seq<TabState>,
    opened: Seq<TabState>,
    closed: Seq<TabState>,
    id: u128,
)
    requires
        opened.len() == before.len() + 1,
        opened.subrange(0, before.len() as int) == before,
        is_fresh_tab(opened.last(), id),
        closed == opened.remove(before.len() as int),
    ensures
        closed == before,
{
    assert(closed =~= before);
}

} // verus!
