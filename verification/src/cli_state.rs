//! Plain state of the OpenLink terminal client, and its presence heartbeat.
use vstd::prelude::*;
use crate::numbers::{parse_u64, spec_parse_u64};

verus! {

/// One line of the chat log.
#[derive(Debug, Clone)]
pub struct ChatMessage {
    pub source: String,
    pub content: String,
    pub timestamp: String,
    pub is_incoming: bool,
}

/// Which side the client plays.
#[derive(Debug, Clone, Copy, PartialEq, Eq, Structural)]
pub enum Mode {
    Atc,
    Pilot,
}

/// Whether the input line is being edited.
#[derive(Debug, Clone, Copy, PartialEq, Eq, Structural)]
pub enum InputMode {
    Normal,
    Editing,
}


/// The presence heartbeat period in seconds: the configured value when it
/// reads as a `u64`, else 25; never below one second.
pub open spec fn spec_heartbeat_seconds(configured: Option<Seq<char>>) -> u64 {
    let n: u64 = match configured {
        Some(t) => match spec_parse_u64(t) {
            Some(v) => v,
            None => 25,
        },
        None => 25,
    };
    if n < 1 {
        1
    } else {
        n
    }
}

/// How often the client announces its presence, from the configured text
/// (`None` where nothing is configured).
pub fn default_presence_heartbeat_seconds(configured: Option<&str>) -> (r: u64)
    ensures
        r == spec_heartbeat_seconds(
            match configured {
                Some(t) => Some(t@),
                None => None,
            },
        ),
        r >= 1,
{
    let n: u64 = match configured {
        Some(t) => match parse_u64(t) {
            Some(v) => v,
            None => 25,
        },
        None => 25,
    };
    if n < 1 {
        1
    } else {
        n
    }
}

} // verus!
