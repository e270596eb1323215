//! The aircraft side of the terminal client's CPDLC session: what each
//! envelope from a ground station does to the connection status (logon,
//! connection, transfer to the next data authority, contact, termination),
//! which notifications it raises, and what line it adds to the message log.
use vstd::prelude::*;
use vstd::string::*;
use crate::text::{joined, str_eq, str_starts_with};

verus! {

broadcast use vstd::string::group_string_axioms;

/// The connection status of the aircraft.
#[derive(Debug, Clone, PartialEq, Eq)]
pub enum PilotStatus {
    Disconnected,
    LogonSent,
    /// Logon accepted by this station; a connection request is awaited.
    LogonAccepted(String),
    /// This station asked for a connection; the pilot is to confirm.
    ConnectionRequested(String),
    /// Connected to the first station, with the next data authority if one
    /// was named.
    Connected(String, Option<String>),
    /// Told by the first station to contact the second.
    ContactReceived(String, String),
    /// Moving from the current station to the next one.
    Switching {
        current: String,
        next: String,
        next_logon_sent: bool,
        next_conn_req: bool,
        next_connected: bool,
        /// The move began with a connection request (logon forwarding)
        /// rather than a contact request.
        is_forwarding: bool,
    },
}

/// A status as the library reasons about it.
pub enum PilotStatusView {
    Disconnected,
    LogonSent,
    LogonAccepted(Seq<char>),
    ConnectionRequested(Seq<char>),
    Connected(Seq<char>, Option<Seq<char>>),
    ContactReceived(Seq<char>, Seq<char>),
    Switching {
        current: Seq<char>,
        next: Seq<char>,
        next_logon_sent: bool,
        next_conn_req: bool,
        next_connected: bool,
        is_forwarding: bool,
    },
}

/// The view of an optional text.
pub open spec fn opt_view(o: Option<String>) -> Option<Seq<char>> {
    match o {
        Some(s) => Some(s@),
        None => None,
    }
}

impl View for PilotStatus {
    type V = PilotStatusView;

    open spec fn view(&self) -> PilotStatusView {
        match self {
            PilotStatus::Disconnected => PilotStatusView::Disconnected,
            PilotStatus::LogonSent => PilotStatusView::LogonSent,
            PilotStatus::LogonAccepted(a) => PilotStatusView::LogonAccepted(a@),
            PilotStatus::ConnectionRequested(a) => PilotStatusView::ConnectionRequested(a@),
            PilotStatus::Connected(a, n) => PilotStatusView::Connected(a@, opt_view(*n)),
            PilotStatus::ContactReceived(a, b) => PilotStatusView::ContactReceived(a@, b@),
            PilotStatus::Switching {
                current,
                next,
                next_logon_sent,
                next_conn_req,
                next_connected,
                is_forwarding,
            } => PilotStatusView::Switching {
                current: current@,
                next: next@,
                next_logon_sent: *next_logon_sent,
                next_conn_req: *next_conn_req,
                next_connected: *next_connected,
                is_forwarding: *is_forwarding,
            },
        }
    }
}

/// An envelope received by the aircraft, by its type, with the payload
/// fields that the session reads (`None` where the payload lacks them).
#[derive(Debug, Clone)]
pub enum EnvelopeEvent {
    /// `cpdlc.connection.request`.
    ConnectionRequest,
    /// `cpdlc.logon.response`; `None` when the payload is not a logon response.
    LogonResponse { accepted: Option<bool> },
    /// `cpdlc.connection.confirm`.
    ConnectionConfirm,
    /// `cpdlc.next_data_authority`.
    NextDataAuthority { next_authority: Option<String> },
    /// `cpdlc.contact.request`; `facility` is `None` when the payload is not a
    /// contact request.
    ContactRequest { facility: Option<String>, frequency: Option<String> },
    /// `cpdlc.termination.request`.
    TerminationRequest,
    /// `cpdlc.message`, with its `content` text.
    Message { content: Option<String> },
    /// Any other envelope type.
    Other(String),
}

/// An envelope event as the library reasons about it.
pub enum EnvelopeEventView {
    ConnectionRequest,
    LogonResponse { accepted: Option<bool> },
    ConnectionConfirm,
    NextDataAuthority { next_authority: Option<Seq<char>> },
    ContactRequest { facility: Option<Seq<char>>, frequency: Option<Seq<char>> },
    TerminationRequest,
    Message { content: Option<Seq<char>> },
    Other(Seq<char>),
}

impl View for EnvelopeEvent {
    type V = EnvelopeEventView;

    open spec fn view(&self) -> EnvelopeEventView {
        match self {
            EnvelopeEvent::ConnectionRequest => EnvelopeEventView::ConnectionRequest,
            EnvelopeEvent::LogonResponse { accepted } => EnvelopeEventView::LogonResponse {
                accepted: *accepted,
            },
            EnvelopeEvent::ConnectionConfirm => EnvelopeEventView::ConnectionConfirm,
            EnvelopeEvent::NextDataAuthority { next_authority } =>
                EnvelopeEventView::NextDataAuthority { next_authority: opt_view(*next_authority) },
            EnvelopeEvent::ContactRequest { facility, frequency } =>
                EnvelopeEventView::ContactRequest {
                facility: opt_view(*facility),
                frequency: opt_view(*frequency),
            },
            EnvelopeEvent::TerminationRequest => EnvelopeEventView::TerminationRequest,
            EnvelopeEvent::Message { content } => EnvelopeEventView::Message {
                content: opt_view(*content),
            },
            EnvelopeEvent::Other(t) => EnvelopeEventView::Other(t@),
        }
    }
}

/// What one envelope does: the new status, the notifications raised in
/// order (the last one is the one on screen), and the line added to the
/// message log (from the envelope's source), if any.
pub struct PilotStep {
    pub status: PilotStatus,
    pub notifications: Vec<String>,
    pub log_line: Option<String>,
}

pub struct PilotStepView {
    pub status: PilotStatusView,
    pub notifications: Seq<Seq<char>>,
    pub log_line: Option<Seq<char>>,
}

/// The views of a list of texts.
pub open spec fn text_views(v: Seq<String>) -> Seq<Seq<char>> {
    v.map_values(|s: String| s@)
}

impl View for PilotStep {
    type V = PilotStepView;

    open spec fn view(&self) -> PilotStepView {
        PilotStepView {
            status: self.status@,
            notifications: text_views(self.notifications@),
            log_line: opt_view(self.log_line),
        }
    }
}

/// A step result.
pub open spec fn step(
    status: PilotStatusView,
    notes: Seq<Seq<char>>,
    log: Option<Seq<char>>,
) -> PilotStepView {
    PilotStepView { status, notifications: notes, log_line: log }
}

/// A connection request: from the next station while switching, it marks
/// the request received; from another station while connected, it begins a
/// forwarded switch; otherwise the pilot is asked to confirm.
pub open spec fn on_connection_request(st: PilotStatusView, src: Seq<char>) -> PilotStepView {
    match st {
        PilotStatusView::Switching {
            current,
            next,
            next_logon_sent,
            next_conn_req,
            next_connected,
            is_forwarding,
        } if src == next || next.is_prefix_of(src) => step(
            PilotStatusView::Switching {
                current,
                next: src,
                next_logon_sent,
                next_conn_req: true,
                next_connected,
                is_forwarding,
            },
            seq!["Connection Request from NDA "@ + src],
            Some("CONNECTION REQUEST (NDA)"@),
        ),
        PilotStatusView::Connected(current, _) if src != current => step(
            PilotStatusView::Switching {
                current,
                next: src,
                next_logon_sent: true,
                next_conn_req: true,
                next_connected: false,
                is_forwarding: true,
            },
            seq!["Connection Request from Forwarded ATC "@ + src],
            Some("CONNECTION REQUEST (FWD)"@),
        ),
        _ => step(
            PilotStatusView::ConnectionRequested(src),
            seq!["Connection Request from "@ + src],
            Some("CONNECTION REQUEST"@),
        ),
    }
}

/// A termination request: while switching to a connected next station, that
/// station becomes the current one; otherwise the aircraft is disconnected.
pub open spec fn on_termination(st: PilotStatusView) -> PilotStepView {
    match st {
        PilotStatusView::Switching { next, next_connected, .. } => if next_connected {
            step(
                PilotStatusView::Connected(next, None),
                seq!["Service Terminated. Connected to "@ + next],
                Some("TERMINATION REQUEST"@),
            )
        } else {
            step(
                PilotStatusView::Disconnected,
                seq!["Service Terminated (Incomplete Handoff)"@],
                Some("TERMINATION REQUEST"@),
            )
        },
        _ => step(
            PilotStatusView::Disconnected,
            seq!["Service Terminated"@],
            Some("TERMINATION REQUEST"@),
        ),
    }
}

/// What an envelope from `src` does to the aircraft whose own network
/// address is `own`; its own envelopes, echoed back, do nothing.
pub open spec fn spec_pilot_step(
    st: PilotStatusView,
    own: Seq<char>,
    src: Seq<char>,
    ev: EnvelopeEventView,
) -> PilotStepView {
    if src == own {
        step(st, seq![], None)
    } else {
        match ev {
            EnvelopeEventView::ConnectionRequest => on_connection_request(st, src),
            EnvelopeEventView::LogonResponse { accepted } => match accepted {
                Some(true) => if st is Switching {
                    step(st, seq!["NDA LOGON ACCEPTED by "@ + src], Some("LOGON RESPONSE"@))
                } else {
                    step(
                        PilotStatusView::LogonAccepted(src),
                        seq!["Logon Accepted by "@ + src],
                        Some("LOGON RESPONSE"@),
                    )
                },
                Some(false) => step(
                    PilotStatusView::Disconnected,
                    seq!["Logon REJECTED by "@ + src],
                    Some("LOGON RESPONSE"@),
                ),
                None => step(st, seq![], Some("LOGON RESPONSE"@)),
            },
            EnvelopeEventView::ConnectionConfirm => step(
                PilotStatusView::Connected(src, None),
                seq![],
                Some("CONNECTION ESTABLISHED"@),
            ),
            EnvelopeEventView::NextDataAuthority { next_authority } => {
                let nda = match next_authority {
                    Some(n) => n,
                    None => "UNKNOWN"@,
                };
                let first = "Received Handoff instruction from "@ + src;
                match st {
                    PilotStatusView::Connected(cda, _) if cda == src => step(
                        PilotStatusView::Connected(cda, Some(nda)),
                        seq![first, "NDA Updated: "@ + nda],
                        Some("NEXT DATA AUTHORITY"@),
                    ),
                    _ => step(st, seq![first], Some("NEXT DATA AUTHORITY"@)),
                }
            },
            EnvelopeEventView::ContactRequest { facility, frequency } => match facility {
                Some(f) => step(
                    PilotStatusView::ContactReceived(src, f),
                    seq!["CONTACT REQUEST: Contact "@ + f],
                    Some(
                        "CONTACT "@ + f + " ("@ + (match frequency {
                            Some(q) => q,
                            None => "---"@,
                        }) + ")"@,
                    ),
                ),
                None => step(st, seq!["Invalid Contact Request Payload"@], Some("CONTACT REQ"@)),
            },
            EnvelopeEventView::TerminationRequest => on_termination(st),
            EnvelopeEventView::Message { content } => step(
                st,
                seq![],
                Some(
                    match content {
                        Some(c) => c,
                        None => "Empty Message"@,
                    },
                ),
            ),
            EnvelopeEventView::Other(t) => step(
                st,
                seq![],
                Some("MSG: "@ + t + " (Src: "@ + src + ")"@),
            ),
        }
    }
}

/// An empty list of texts.
fn no_texts() -> (r: Vec<String>)
    ensures
        text_views(r@) == Seq::<Seq<char>>::empty(),
{
    let v: Vec<String> = Vec::new();
    proof {
        assert(text_views(v@) =~= Seq::<Seq<char>>::empty());
    }
    v
}

/// One text in a list.
fn one(s: String) -> (r: Vec<String>)
    ensures
        text_views(r@) == seq![s@],
{
    let mut v: Vec<String> = Vec::new();
    v.push(s);
    proof {
        assert(text_views(v@) =~= seq![s@]);
    }
    v
}

/// `a`, `b`, `c`, `d` and `e` as one string.
fn joined5(a: &str, b: &str, c: &str, d: &str, e: &str) -> (r: String)
    ensures
        r@ == a@ + b@ + c@ + d@ + e@,
{
    let ab = joined(a, b);
    let abc = joined(ab.as_str(), c);
    let abcd = joined(abc.as_str(), d);
    joined(abcd.as_str(), e)
}

fn copy_opt(o: &Option<String>) -> (r: Option<String>)
    ensures
        opt_view(r) == opt_view(*o),
{
    match o {
        Some(s) => Some(s.clone()),
        None => None,
    }
}

fn copy_status(st: &PilotStatus) -> (r: PilotStatus)
    ensures
        r@ == st@,
{
    match st {
        PilotStatus::Disconnected => PilotStatus::Disconnected,
        PilotStatus::LogonSent => PilotStatus::LogonSent,
        PilotStatus::LogonAccepted(a) => PilotStatus::LogonAccepted(a.clone()),
        PilotStatus::ConnectionRequested(a) => PilotStatus::ConnectionRequested(a.clone()),
        PilotStatus::Connected(a, n) => PilotStatus::Connected(a.clone(), copy_opt(n)),
        PilotStatus::ContactReceived(a, b) => PilotStatus::ContactReceived(a.clone(), b.clone()),
        PilotStatus::Switching {
            current,
            next,
            next_logon_sent,
            next_conn_req,
            next_connected,
            is_forwarding,
        } => PilotStatus::Switching {
            current: current.clone(),
            next: next.clone(),
            next_logon_sent: *next_logon_sent,
            next_conn_req: *next_conn_req,
            next_connected: *next_connected,
            is_forwarding: *is_forwarding,
        },
    }
}

fn on_connection_request_exec(status: &PilotStatus, source: &str) -> (r: PilotStep)
    ensures
        r@ == on_connection_request(status@, source@),
{
    match status {
        PilotStatus::Switching {
            current,
            next,
            next_logon_sent,
            next_conn_req: _,
            next_connected,
            is_forwarding,
        } => {
            if str_eq(source, next.as_str()) || str_starts_with(source, next.as_str()) {
                return PilotStep {
                    status: PilotStatus::Switching {
                        current: current.clone(),
                        next: source.to_owned(),
                        next_logon_sent: *next_logon_sent,
                        next_conn_req: true,
                        next_connected: *next_connected,
                        is_forwarding: *is_forwarding,
                    },
                    notifications: one(joined("Connection Request from NDA ", source)),
                    log_line: Some("CONNECTION REQUEST (NDA)".to_owned()),
                };
            }
        },
        PilotStatus::Connected(current, _) => {
            if !str_eq(source, current.as_str()) {
                return PilotStep {
                    status: PilotStatus::Switching {
                        current: current.clone(),
                        next: source.to_owned(),
                        next_logon_sent: true,
                        next_conn_req: true,
                        next_connected: false,
                        is_forwarding: true,
                    },
                    notifications: one(joined("Connection Request from Forwarded ATC ", source)),
                    log_line: Some("CONNECTION REQUEST (FWD)".to_owned()),
                };
            }
        },
        _ => {},
    }
    PilotStep {
        status: PilotStatus::ConnectionRequested(source.to_owned()),
        notifications: one(joined("Connection Request from ", source)),
        log_line: Some("CONNECTION REQUEST".to_owned()),
    }
}

fn on_termination_exec(status: &PilotStatus) -> (r: PilotStep)
    ensures
        r@ == on_termination(status@),
{
    match status {
        PilotStatus::Switching { next, next_connected, .. } => {
            if *next_connected {
                PilotStep {
                    status: PilotStatus::Connected(next.clone(), None),
                    notifications: one(joined("Service Terminated. Connected to ", next.as_str())),
                    log_line: Some("TERMINATION REQUEST".to_owned()),
                }
            } else {
                PilotStep {
                    status: PilotStatus::Disconnected,
                    notifications: one("Service Terminated (Incomplete Handoff)".to_owned()),
                    log_line: Some("TERMINATION REQUEST".to_owned()),
                }
            }
        },
        _ => PilotStep {
            status: PilotStatus::Disconnected,
            notifications: one("Service Terminated".to_owned()),
            log_line: Some("TERMINATION REQUEST".to_owned()),
        },
    }
}

/// What an envelope from `source` does to an aircraft in `status` whose own
/// network address is `own_id`.
pub fn pilot_envelope_step(status: &PilotStatus, own_id: &str, source: &str, ev: &EnvelopeEvent) -> (r:
    PilotStep)
    ensures
        r@ == spec_pilot_step(status@, own_id@, source@, ev@),
{
    if str_eq(source, own_id) {
        return PilotStep { status: copy_status(status), notifications: no_texts(), log_line: None };
    }
    match ev {
        EnvelopeEvent::ConnectionRequest => on_connection_request_exec(status, source),
        EnvelopeEvent::LogonResponse { accepted } => match accepted {
            Some(true) => {
                let is_switching = match status {
                    PilotStatus::Switching { .. } => true,
                    _ => false,
                };
                if is_switching {
                    PilotStep {
                        status: copy_status(status),
                        notifications: one(joined("NDA LOGON ACCEPTED by ", source)),
                        log_line: Some("LOGON RESPONSE".to_owned()),
                    }
                } else {
                    PilotStep {
                        status: PilotStatus::LogonAccepted(source.to_owned()),
                        notifications: one(joined("Logon Accepted by ", source)),
                        log_line: Some("LOGON RESPONSE".to_owned()),
                    }
                }
            },
            Some(false) => PilotStep {
                status: PilotStatus::Disconnected,
                notifications: one(joined("Logon REJECTED by ", source)),
                log_line: Some("LOGON RESPONSE".to_owned()),
            },
            None => {
                PilotStep {
                    status: copy_status(status),
                    notifications: no_texts(),
                    log_line: Some("LOGON RESPONSE".to_owned()),
                }
            },
        },
        EnvelopeEvent::ConnectionConfirm => {
            PilotStep {
                status: PilotStatus::Connected(source.to_owned(), None),
                notifications: no_texts(),
                log_line: Some("CONNECTION ESTABLISHED".to_owned()),
            }
        },
        EnvelopeEvent::NextDataAuthority { next_authority } => {
            let nda = match next_authority {
                Some(n) => n.clone(),
                None => "UNKNOWN".to_owned(),
            };
            let mut notes = one(joined("Received Handoff instruction from ", source));
            let new_status = match status {
                PilotStatus::Connected(cda, _) => {
                    if str_eq(cda.as_str(), source) {
                        let ghost before = notes@;
                        notes.push(joined("NDA Updated: ", nda.as_str()));
                        proof {
                            assert(text_views(notes@) =~= text_views(before).push(
                                "NDA Updated: "@ + nda@,
                            ));
                            assert(text_views(notes@) =~= seq![
                                "Received Handoff instruction from "@ + source@,
                                "NDA Updated: "@ + nda@,
                            ]);
                        }
                        PilotStatus::Connected(cda.clone(), Some(nda))
                    } else {
                        copy_status(status)
                    }
                },
                _ => copy_status(status),
            };
            PilotStep {
                status: new_status,
                notifications: notes,
                log_line: Some("NEXT DATA AUTHORITY".to_owned()),
            }
        },
        EnvelopeEvent::ContactRequest { facility, frequency } => match facility {
            Some(f) => {
                let freq = match frequency {
                    Some(q) => q.clone(),
                    None => "---".to_owned(),
                };
                PilotStep {
                    status: PilotStatus::ContactReceived(source.to_owned(), f.clone()),
                    notifications: one(joined("CONTACT REQUEST: Contact ", f.as_str())),
                    log_line: Some(joined5("CONTACT ", f.as_str(), " (", freq.as_str(), ")")),
                }
            },
            None => PilotStep {
                status: copy_status(status),
                notifications: one("Invalid Contact Request Payload".to_owned()),
                log_line: Some("CONTACT REQ".to_owned()),
            },
        },
        EnvelopeEvent::TerminationRequest => on_termination_exec(status),
        EnvelopeEvent::Message { content } => {
            PilotStep {
                status: copy_status(status),
                notifications: no_texts(),
                log_line: Some(
                    match content {
                        Some(c) => c.clone(),
                        None => "Empty Message".to_owned(),
                    },
                ),
            }
        },
        EnvelopeEvent::Other(t) => {
            PilotStep {
                status: copy_status(status),
                notifications: no_texts(),
                log_line: Some(joined5("MSG: ", t.as_str(), " (Src: ", source, ")")),
            }
        },
    }
}


/// The aircraft's own envelopes, echoed back, change nothing and say nothing.
pub proof fn law_own_envelopes_change_nothing(
    st: PilotStatusView,
    own: Seq<char>,
    ev: EnvelopeEventView,
)
    ensures
        spec_pilot_step(st, own, own, ev).status == st,
        spec_pilot_step(st, own, own, ev).notifications == Seq::<Seq<char>>::empty(),
        spec_pilot_step(st, own, own, ev).log_line is None,
{
}

/// A logon response: accepted while a handoff is under way, it only tells
/// of the next station's acceptance and the handoff goes on unchanged;
/// accepted otherwise, the aircraft waits for the accepting station's
/// connection request; rejected, the aircraft is disconnected, handoff or
/// not. Every logon response is logged.
pub proof fn law_logon_response(st: PilotStatusView, own: Seq<char>, src: Seq<char>)
    requires
        src != own,
    ensures
        st is Switching ==> spec_pilot_step(
            st,
            own,
            src,
            EnvelopeEventView::LogonResponse { accepted: Some(true) },
        ).status == st,
        st is Switching ==> spec_pilot_step(
            st,
            own,
            src,
            EnvelopeEventView::LogonResponse { accepted: Some(true) },
        ).notifications == seq!["NDA LOGON ACCEPTED by "@ + src],
        !(st is Switching) ==> spec_pilot_step(
            st,
            own,
            src,
            EnvelopeEventView::LogonResponse { accepted: Some(true) },
        ).status == PilotStatusView::LogonAccepted(src),
        spec_pilot_step(
            st,
            own,
            src,
            EnvelopeEventView::LogonResponse { accepted: Some(false) },
        ).status == PilotStatusView::Disconnected,
        spec_pilot_step(st, own, src, EnvelopeEventView::LogonResponse { accepted: None }).status
            == st,
        forall|a: Option<bool>|
            spec_pilot_step(st, own, src, EnvelopeEventView::LogonResponse { accepted: a }).log_line
                == Some("LOGON RESPONSE"@),
{
}

/// A termination request ends the service: after a completed handoff the
/// next station becomes the current one, with no next authority; in every
/// other case the aircraft is disconnected.
pub proof fn law_termination(st: PilotStatusView, own: Seq<char>, src: Seq<char>)
    requires
        src != own,
    ensures
        spec_pilot_step(st, own, src, EnvelopeEventView::TerminationRequest).status == (match st {
            PilotStatusView::Switching { next, next_connected, .. } => if next_connected {
                PilotStatusView::Connected(next, None)
            } else {
                PilotStatusView::Disconnected
            },
            _ => PilotStatusView::Disconnected,
        }),
{
}

/// A connection request: while a handoff is under way, one from the next
/// station (or a station whose address extends it) marks the next station's
/// request as received and keeps the rest of the handoff; while connected,
/// one from another station starts a forwarded handoff from the current
/// station; in every other case the pilot is asked to confirm.
pub proof fn law_connection_request(st: PilotStatusView, own: Seq<char>, src: Seq<char>)
    requires
        src != own,
    ensures
        ({
            let r = spec_pilot_step(st, own, src, EnvelopeEventView::ConnectionRequest).status;
            match st {
                PilotStatusView::Switching {
                    current,
                    next,
                    next_logon_sent,
                    next_connected,
                    is_forwarding,
                    ..
                } => if src == next || next.is_prefix_of(src) {
                    r == PilotStatusView::Switching {
                        current,
                        next: src,
                        next_logon_sent,
                        next_conn_req: true,
                        next_connected,
                        is_forwarding,
                    }
                } else {
                    r == PilotStatusView::ConnectionRequested(src)
                },
                PilotStatusView::Connected(current, _) => if src != current {
                    r == PilotStatusView::Switching {
                        current,
                        next: src,
                        next_logon_sent: true,
                        next_conn_req: true,
                        next_connected: false,
                        is_forwarding: true,
                    }
                } else {
                    r == PilotStatusView::ConnectionRequested(src)
                },
                _ => r == PilotStatusView::ConnectionRequested(src),
            }
        }),
{
}

/// The next data authority is recorded only when named by the station the
/// aircraft is connected to (`UNKNOWN` when unnamed); otherwise the status
/// is unchanged. A confirmed connection connects to its sender; a contact
/// request names the station to contact; messages and other envelopes
/// leave the status as it was.
pub proof fn law_other_envelopes(
    st: PilotStatusView,
    own: Seq<char>,
    src: Seq<char>,
    nda: Option<Seq<char>>,
    facility: Option<Seq<char>>,
    frequency: Option<Seq<char>>,
    content: Option<Seq<char>>,
    t: Seq<char>,
)
    requires
        src != own,
    ensures
        ({
            let r = spec_pilot_step(
                st,
                own,
                src,
                EnvelopeEventView::NextDataAuthority { next_authority: nda },
            ).status;
            match st {
                PilotStatusView::Connected(cda, _) => if cda == src {
                    r == PilotStatusView::Connected(
                        cda,
                        Some(
                            match nda {
                                Some(n) => n,
                                None => "UNKNOWN"@,
                            },
                        ),
                    )
                } else {
                    r == st
                },
                _ => r == st,
            }
        }),
        spec_pilot_step(st, own, src, EnvelopeEventView::ConnectionConfirm).status
            == PilotStatusView::Connected(src, None),
        facility matches Some(f) ==> spec_pilot_step(
            st,
            own,
            src,
            EnvelopeEventView::ContactRequest { facility, frequency },
        ).status == PilotStatusView::ContactReceived(src, f),
        facility is None ==> spec_pilot_step(
            st,
            own,
            src,
            EnvelopeEventView::ContactRequest { facility, frequency },
        ).status == st,
        spec_pilot_step(st, own, src, EnvelopeEventView::Message { content }).status == st,
        spec_pilot_step(st, own, src, EnvelopeEventView::Other(t)).status == st,
{
}


/// Every envelope from another station adds one line to the log, naming
/// what arrived: a contact request names the station and frequency (`---`
/// when none), a message shows its text (`Empty Message` when none), an
/// unknown type names itself and its source.
pub proof fn law_log_lines(
    st: PilotStatusView,
    own: Seq<char>,
    src: Seq<char>,
    f: Seq<char>,
    q: Option<Seq<char>>,
    content: Option<Seq<char>>,
    t: Seq<char>,
)
    requires
        src != own,
    ensures
        forall|ev: EnvelopeEventView| #[trigger] spec_pilot_step(st, own, src, ev).log_line is Some,
        spec_pilot_step(st, own, src, EnvelopeEventView::ConnectionConfirm).log_line == Some(
            "CONNECTION ESTABLISHED"@,
        ),
        spec_pilot_step(st, own, src, EnvelopeEventView::TerminationRequest).log_line == Some(
            "TERMINATION REQUEST"@,
        ),
        spec_pilot_step(
            st,
            own,
            src,
            EnvelopeEventView::ContactRequest { facility: Some(f), frequency: q },
        ).log_line == Some(
            "CONTACT "@ + f + " ("@ + (match q {
                Some(x) => x,
                None => "---"@,
            }) + ")"@,
        ),
        spec_pilot_step(st, own, src, EnvelopeEventView::Message { content }).log_line == Some(
            match content {
                Some(c) => c,
                None => "Empty Message"@,
            },
        ),
        spec_pilot_step(st, own, src, EnvelopeEventView::Other(t)).log_line == Some(
            "MSG: "@ + t + " (Src: "@ + src + ")"@,
        ),
{
    assert forall|ev: EnvelopeEventView| #[trigger]
        spec_pilot_step(st, own, src, ev).log_line is Some by {
        match ev {
            EnvelopeEventView::ConnectionRequest => {},
            EnvelopeEventView::TerminationRequest => {},
            _ => {},
        }
    }
}

/// The notifications that tell the pilot what happened: who asks for a
/// connection, who named the next authority, whom to contact.
pub proof fn law_notifications(
    st: PilotStatusView,
    own: Seq<char>,
    src: Seq<char>,
    f: Seq<char>,
    q: Option<Seq<char>>,
    nda: Option<Seq<char>>,
)
    requires
        src != own,
    ensures
        !(st is Switching) && !(st is Connected) ==> spec_pilot_step(
            st,
            own,
            src,
            EnvelopeEventView::ConnectionRequest,
        ).notifications == seq!["Connection Request from "@ + src],
        spec_pilot_step(
            st,
            own,
            src,
            EnvelopeEventView::NextDataAuthority { next_authority: nda },
        ).notifications[0] == "Received Handoff instruction from "@ + src,
        spec_pilot_step(
            st,
            own,
            src,
            EnvelopeEventView::ContactRequest { facility: Some(f), frequency: q },
        ).notifications == seq!["CONTACT REQUEST: Contact "@ + f],
        spec_pilot_step(
            st,
            own,
            src,
            EnvelopeEventView::LogonResponse { accepted: Some(false) },
        ).notifications == seq!["Logon REJECTED by "@ + src],
{
}

} // verus!
