//! The decision logic of OpenLink, a CPDLC datalink demonstrator, with its
//! contracts proved by Verus.
//!
//! - The Hoppie bridge: the Hoppie ACARS wire format (`hoppie_client`), the
//!   session bookkeeping of MIN/MRN numbers and duplicates (`session`), the
//!   translation between Hoppie packets and OpenLink messages
//!   (`translator`), the bridge's decisions on each message (`bridge`) and
//!   its configuration (`config`).
//! - The auth service: token and configuration handling (`auth`) and the
//!   claims of the NATS tokens it signs (`nats_claims`).
//! - The GUI: tabs, setup forms and message rows (`gui_state`), interface
//!   strings (`i18n`), the DCDU text layout (`dcdu`) and screen
//!   (`dcdu_screen`), the MCDU command pages (`mcdu`), short responses
//!   (`responses`), the session messages a tab answers (`gui_meta`), the ATC
//!   pending-request queue (`dialogues`), flight list
//!   (`atc_flights`), uplink command menu (`atc_commands`) and argument
//!   fields (`arguments`).
//! - The terminal client: its plain types and presence heartbeat
//!   (`cli_state`), the aircraft side of a CPDLC session (`pilot_session`),
//!   the ground side (`atc_session`) and the ground station's keys
//!   (`atc_keys`).
//! - Text and number helpers shared by all of them (`text`, `numbers`).
pub mod arguments;
pub mod atc_commands;
pub mod atc_flights;
pub mod atc_keys;
pub mod atc_session;
pub mod auth;
pub mod bridge;
pub mod cli_state;
pub mod config;
pub mod dcdu;
pub mod dcdu_screen;
pub mod dialogues;
pub mod gui_state;
pub mod hoppie_client;
pub mod gui_meta;
pub mod i18n;
pub mod mcdu;
pub mod nats_claims;
pub mod numbers;
pub mod pilot_session;
pub mod responses;
pub mod session;
pub mod text;
pub mod translator;
