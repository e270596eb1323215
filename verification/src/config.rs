//! Bridge configuration.
use vstd::prelude::*;
use vstd::string::*;
use crate::text::{all_ascii, ascii_lower, chars_of, range_eq, to_lowercase, lower_text};

verus! {

broadcast use vstd::string::group_string_axioms;

/// Hoppie ↔ OpenLink CPDLC bridge settings.
#[derive(Debug, Clone)]
pub struct BridgeConfig {
    /// Hoppie logon code (API key).
    pub hoppie_logon: String,
    /// Hoppie API base URL.
    pub hoppie_url: String,
    /// Polling interval in seconds.
    pub poll_interval_secs: u64,
    /// Callsigns to proxy on the Hoppie side.
    pub callsigns: Vec<String>,
    /// Bridge mode: `ground`, `aircraft`, or `full`.
    pub mode: BridgeMode,
    /// OpenLink network id.
    pub network_id: String,
    /// NATS server URL.
    pub nats_url: String,
    /// OpenLink auth server URL.
    pub auth_url: String,
    /// OIDC authorization code for OpenLink authentication.
    pub auth_code: String,
}

/// Bridge operating mode.
#[derive(Debug, Clone, Copy, PartialEq, Eq, Structural)]
pub enum BridgeMode {
    /// Proxy ground stations: Hoppie ATC ↔ OpenLink pilots.
    Ground,
    /// Proxy aircraft: Hoppie pilots ↔ OpenLink ATC.
    Aircraft,
    /// Both directions (default).
    Full,
}

/// The name of a mode.
pub open spec fn mode_text(m: BridgeMode) -> Seq<char> {
    match m {
        BridgeMode::Ground => "ground"@,
        BridgeMode::Aircraft => "aircraft"@,
        BridgeMode::Full => "full"@,
    }
}

/// The mode that a lower-case name names, if any.
pub open spec fn mode_from_lower(l: Seq<char>) -> Option<BridgeMode> {
    if l == "ground"@ {
        Some(BridgeMode::Ground)
    } else if l == "aircraft"@ {
        Some(BridgeMode::Aircraft)
    } else if l == "full"@ {
        Some(BridgeMode::Full)
    } else {
        None
    }
}

/// The error text for an unknown mode name `l` (already lower-cased).
pub open spec fn unknown_mode_text(l: Seq<char>) -> Seq<char> {
    "unknown bridge mode: "@ + l
}

impl BridgeMode {
    /// Parse a mode name; the comparison ignores case.
    pub fn from_str(s: &str) -> (r: Result<BridgeMode, String>)
        ensures
            match mode_from_lower(lower_text(s@)) {
                Some(m) => r == Ok::<BridgeMode, String>(m),
                None => r matches Err(e) && e@ == unknown_mode_text(lower_text(s@)),
            },
            all_ascii(s@) ==> match mode_from_lower(ascii_lower(s@)) {
                Some(m) => r == Ok::<BridgeMode, String>(m),
                None => r is Err,
            },
    {
        let lower = to_lowercase(s);
        BridgeMode::from_lower(lower.as_str())
    }

    /// Parse a lower-case mode name.
    pub fn from_lower(l: &str) -> (r: Result<BridgeMode, String>)
        ensures
            match mode_from_lower(l@) {
                Some(m) => r == Ok::<BridgeMode, String>(m),
                None => r matches Err(e) && e@ == unknown_mode_text(l@),
            },
    {
        let v = chars_of(l);
        proof {
            assert(v@.subrange(0, v@.len() as int) =~= v@);
        }
        if range_eq(&v, 0, v.len(), "ground") {
            Ok(BridgeMode::Ground)
        } else if range_eq(&v, 0, v.len(), "aircraft") {
            Ok(BridgeMode::Aircraft)
        } else if range_eq(&v, 0, v.len(), "full") {
            Ok(BridgeMode::Full)
        } else {
            let mut e = "unknown bridge mode: ".to_owned();
            e.append(l);
            Err(e)
        }
    }

    /// The mode's name, as it is displayed.
    pub fn as_str(&self) -> (r: &'static str)
        ensures
            r@ == mode_text(*self),
    {
        match self {
            BridgeMode::Ground => "ground",
            BridgeMode::Aircraft => "aircraft",
            BridgeMode::Full => "full",
        }
    }

    /// Whether the bridge polls Hoppie for its ground stations.
    pub fn polls_hoppie(&self) -> (r: bool)
        ensures
            r == (*self == BridgeMode::Ground || *self == BridgeMode::Full),
    {
        match self {
            BridgeMode::Ground => true,
            BridgeMode::Aircraft => false,
            BridgeMode::Full => true,
        }
    }

    /// Whether the bridge relays OpenLink traffic to Hoppie.
    pub fn relays_openlink(&self) -> (r: bool)
        ensures
            r == (*self == BridgeMode::Aircraft || *self == BridgeMode::Full),
    {
        match self {
            BridgeMode::Ground => false,
            BridgeMode::Aircraft => true,
            BridgeMode::Full => true,
        }
    }
}

/// A mode's displayed name parses back to that mode.
pub proof fn law_mode_roundtrip(m: BridgeMode)
    ensures
        all_ascii(mode_text(m)),
        mode_from_lower(ascii_lower(mode_text(m))) == Some(m),
{
    reveal_strlit("ground");
    reveal_strlit("aircraft");
    reveal_strlit("full");
    let t = mode_text(m);
    assert(ascii_lower(t) =~= t);
    assert("ground"@[0] != "aircraft"@[0]);
    assert("ground"@[0] != "full"@[0]);
    assert("aircraft"@[0] != "full"@[0]);
}

} // verus!
