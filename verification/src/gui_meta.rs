//! What a GUI tab does with the CPDLC session messages it receives: an
//! aircraft accepts a connection request at once, a ground station asks the
//! forwarded aircraft for a connection, and a ground station keeps the
//! server's session snapshots, one per flight.
use vstd::prelude::*;
use vstd::string::*;
use crate::atc_flights::SessionSummary;
use crate::atc_session::{table_entries, table_put, table_remove, table_view};
use crate::gui_state::StationType;
use crate::session::keys_unique;
use crate::text::joined;

verus! {

broadcast use vstd::string::group_string_axioms;

/// A session message, by its kind, with what the tab reads of it.
#[derive(Debug, Clone)]
pub enum MetaEvent {
    ConnectionRequest,
    LogonRequest,
    LogonResponse,
    ConnectionResponse,
    /// A logon forwarded by the previous station for `flight`.
    LogonForward { flight: String },
}

/// What the tab sends in answer.
#[derive(Debug, Clone, PartialEq, Eq)]
pub enum MetaAction {
    Nothing,
    /// Accept the connection, answering `to`.
    AcceptConnection { to: String },
    /// Ask `flight` for a connection, and log `note` as sent.
    RequestConnection { flight: String, note: String },
}

pub enum MetaActionView {
    Nothing,
    AcceptConnection { to: Seq<char> },
    RequestConnection { flight: Seq<char>, note: Seq<char> },
}

impl View for MetaAction {
    type V = MetaActionView;

    open spec fn view(&self) -> MetaActionView {
        match self {
            MetaAction::Nothing => MetaActionView::Nothing,
            MetaAction::AcceptConnection { to } => MetaActionView::AcceptConnection { to: to@ },
            MetaAction::RequestConnection { flight, note } => MetaActionView::RequestConnection {
                flight: flight@,
                note: note@,
            },
        }
    }
}

/// The answer of a tab operating `station` (`None` when the tab is gone) to
/// a session message from `source`: an aircraft accepts a connection
/// request; a ground station asks a forwarded flight for a connection;
/// everything else waits for the server's session update.
pub open spec fn spec_meta_action(
    station: Option<StationType>,
    source: Seq<char>,
    ev: MetaEvent,
) -> MetaActionView {
    match ev {
        MetaEvent::ConnectionRequest => if station == Some(StationType::Aircraft) {
            MetaActionView::AcceptConnection { to: source }
        } else {
            MetaActionView::Nothing
        },
        MetaEvent::LogonForward { flight } => if station == Some(StationType::Atc) {
            MetaActionView::RequestConnection {
                flight: flight@,
                note: "CONNECTION REQUEST \u{2192} "@ + flight@,
            }
        } else {
            MetaActionView::Nothing
        },
        _ => MetaActionView::Nothing,
    }
}

/// How a tab answers a session message.
pub fn meta_action(station: Option<StationType>, source: &str, ev: &MetaEvent) -> (r: MetaAction)
    ensures
        r@ == spec_meta_action(station, source@, *ev),
{
    match ev {
        MetaEvent::ConnectionRequest => {
            if station == Some(StationType::Aircraft) {
                MetaAction::AcceptConnection { to: source.to_owned() }
            } else {
                MetaAction::Nothing
            }
        },
        MetaEvent::LogonForward { flight } => {
            if station == Some(StationType::Atc) {
                MetaAction::RequestConnection {
                    flight: flight.clone(),
                    note: joined("CONNECTION REQUEST \u{2192} ", flight.as_str()),
                }
            } else {
                MetaAction::Nothing
            }
        },
        _ => MetaAction::Nothing,
    }
}

/// The flight a session snapshot is about: its aircraft, else the peer of
/// its active connection, else that of its inactive one.
pub open spec fn snapshot_key(
    aircraft: Option<Seq<char>>,
    active_peer: Option<Seq<char>>,
    inactive_peer: Option<Seq<char>>,
) -> Option<Seq<char>> {
    match aircraft {
        Some(a) => Some(a),
        None => match active_peer {
            Some(p) => Some(p),
            None => inactive_peer,
        },
    }
}

/// The view of an optional text.
pub open spec fn opt_str(o: Option<&str>) -> Option<Seq<char>> {
    match o {
        Some(s) => Some(s@),
        None => None,
    }
}

/// A ground station's sessions after a snapshot: the snapshot replaces the
/// one kept for its flight, or drops it when the snapshot has no connection
/// left; a snapshot about no flight changes nothing.
pub open spec fn sessions_after(
    sessions: Map<Seq<char>, <SessionSummary as View>::V>,
    key: Option<Seq<char>>,
    has_connection: bool,
    summary: <SessionSummary as View>::V,
) -> Map<Seq<char>, <SessionSummary as View>::V> {
    match key {
        Some(k) => if has_connection {
            sessions.insert(k, summary)
        } else {
            sessions.remove(k)
        },
        None => sessions,
    }
}

/// Keep a server session snapshot in a ground station's tab: `aircraft`,
/// `active_peer` and `inactive_peer` are the snapshot's aircraft and the
/// peers of its two connections, `summary` what the flight list reads of
/// it. The selected flight is cleared when it falls outside the list.
pub fn apply_session_update(
    sessions: &mut Vec<(String, SessionSummary)>,
    selected: &mut Option<usize>,
    aircraft: Option<&str>,
    active_peer: Option<&str>,
    inactive_peer: Option<&str>,
    summary: SessionSummary,
)
    requires
        keys_unique(table_entries(old(sessions)@)),
    ensures
        keys_unique(table_entries(final(sessions)@)),
        table_view(final(sessions)@) == sessions_after(
            table_view(old(sessions)@),
            snapshot_key(opt_str(aircraft), opt_str(active_peer), opt_str(inactive_peer)),
            active_peer is Some || inactive_peer is Some,
            summary@,
        ),
        *final(selected) == (match *old(selected) {
            Some(i) => if i >= final(sessions)@.len() {
                None
            } else {
                Some(i)
            },
            None => None,
        }),
{
    let key: Option<&str> = match aircraft {
        Some(a) => Some(a),
        None => match active_peer {
            Some(p) => Some(p),
            None => inactive_peer,
        },
    };
    match key {
        Some(k) => {
            if active_peer.is_none() && inactive_peer.is_none() {
                table_remove(sessions, k);
            } else {
                table_put(sessions, k.to_owned(), summary);
            }
        },
        None => {},
    }
    match *selected {
        Some(i) => {
            if i >= sessions.len() {
                *selected = None;
            }
        },
        None => {},
    }
}

} // verus!
