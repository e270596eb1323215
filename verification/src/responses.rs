//! Short CPDLC responses as the GUI offers them: which intents exist, how
//! they are recognised in a typed text, and how the DCDU lays out its
//! response buttons.
use vstd::prelude::*;
use vstd::string::*;
use crate::text::{ascii_upper, ascii_upper_char, chars_of, trim, trim_bounds};

verus! {

broadcast use vstd::string::group_string_axioms;

/// A short response to a CPDLC message.
#[derive(Debug, Clone, Copy, PartialEq, Eq, Structural)]
pub enum CpdlcResponseIntent {
    Wilco,
    Unable,
    Standby,
    Roger,
    Affirm,
    Negative,
}

/// The four response buttons of the DCDU.
#[derive(Debug, Clone, Copy, PartialEq, Eq)]
pub struct ResponseGrid {
    pub top_left: Option<CpdlcResponseIntent>,
    pub top_right: Option<CpdlcResponseIntent>,
    pub bot_left: Option<CpdlcResponseIntent>,
    pub bot_right: Option<CpdlcResponseIntent>,
}

/// `x` when the list offers it.
pub open spec fn offered(intents: Seq<CpdlcResponseIntent>, x: CpdlcResponseIntent) -> Option<
    CpdlcResponseIntent,
> {
    if intents.contains(x) {
        Some(x)
    } else {
        None
    }
}

/// The `i`-th intent of the list, if there is one.
pub open spec fn nth_intent(intents: Seq<CpdlcResponseIntent>, i: int) -> Option<
    CpdlcResponseIntent,
> {
    if 0 <= i < intents.len() {
        Some(intents[i])
    } else {
        None
    }
}

/// The button layout for a list of intents: WILCO/UNABLE, AFFIRM/NEGATIVE
/// and ROGER sets each have their fixed places (STANDBY top right); any other
/// list fills bottom right, top right, top left, bottom left in order.
pub open spec fn spec_arrange(intents: Seq<CpdlcResponseIntent>) -> ResponseGrid {
    if intents.len() == 0 {
        ResponseGrid { top_left: None, top_right: None, bot_left: None, bot_right: None }
    } else if intents.contains(CpdlcResponseIntent::Wilco) {
        ResponseGrid {
            top_left: offered(intents, CpdlcResponseIntent::Unable),
            top_right: offered(intents, CpdlcResponseIntent::Standby),
            bot_left: None,
            bot_right: Some(CpdlcResponseIntent::Wilco),
        }
    } else if intents.contains(CpdlcResponseIntent::Affirm) {
        ResponseGrid {
            top_left: offered(intents, CpdlcResponseIntent::Negative),
            top_right: offered(intents, CpdlcResponseIntent::Standby),
            bot_left: None,
            bot_right: Some(CpdlcResponseIntent::Affirm),
        }
    } else if intents.contains(CpdlcResponseIntent::Roger) {
        ResponseGrid {
            top_left: None,
            top_right: offered(intents, CpdlcResponseIntent::Standby),
            bot_left: None,
            bot_right: Some(CpdlcResponseIntent::Roger),
        }
    } else {
        ResponseGrid {
            top_left: nth_intent(intents, 2),
            top_right: nth_intent(intents, 1),
            bot_left: nth_intent(intents, 3),
            bot_right: nth_intent(intents, 0),
        }
    }
}

/// `x` when the list offers it.
fn find_intent(intents: &[CpdlcResponseIntent], x: CpdlcResponseIntent) -> (r: Option<
    CpdlcResponseIntent,
>)
    ensures
        r == offered(intents@, x),
{
    let mut i: usize = 0;
    while i < intents.len()
        invariant
            i <= intents@.len(),
            forall|j: int| 0 <= j < i ==> intents@[j] != x,
        decreases intents@.len() - i,
    {
        if intents[i] == x {
            proof {
                assert(intents@.contains(x));
            }
            return Some(x);
        }
        i = i + 1;
    }
    None
}

/// Lay out the response buttons of the DCDU.
pub fn arrange_responses(intents: &[CpdlcResponseIntent]) -> (r: ResponseGrid)
    ensures
        r == spec_arrange(intents@),
{
    let mut grid = ResponseGrid { top_left: None, top_right: None, bot_left: None, bot_right: None };
    if intents.len() == 0 {
        return grid;
    }
    let wilco = find_intent(intents, CpdlcResponseIntent::Wilco);
    let unable = find_intent(intents, CpdlcResponseIntent::Unable);
    let standby = find_intent(intents, CpdlcResponseIntent::Standby);
    let roger = find_intent(intents, CpdlcResponseIntent::Roger);
    let affirm = find_intent(intents, CpdlcResponseIntent::Affirm);
    let negative = find_intent(intents, CpdlcResponseIntent::Negative);
    if wilco.is_some() {
        grid.top_left = unable;
        grid.top_right = standby;
        grid.bot_right = wilco;
        return grid;
    }
    if affirm.is_some() {
        grid.top_left = negative;
        grid.top_right = standby;
        grid.bot_right = affirm;
        return grid;
    }
    if roger.is_some() {
        grid.top_right = standby;
        grid.bot_right = roger;
        return grid;
    }
    grid.bot_right = Some(intents[0]);
    if intents.len() > 1 {
        grid.top_right = Some(intents[1]);
    }
    if intents.len() > 2 {
        grid.top_left = Some(intents[2]);
    }
    if intents.len() > 3 {
        grid.bot_left = Some(intents[3]);
    }
    grid
}

/// Intents that get the prominent buttons.
pub fn is_priority_response_intent(intent: CpdlcResponseIntent) -> (r: bool)
    ensures
        r == (intent == CpdlcResponseIntent::Wilco || intent == CpdlcResponseIntent::Unable
            || intent == CpdlcResponseIntent::Standby),
{
    match intent {
        CpdlcResponseIntent::Wilco | CpdlcResponseIntent::Unable | CpdlcResponseIntent::Standby => {
            true
        },
        _ => false,
    }
}

/// Intents that close a dialogue positively.
pub fn is_positive_closure_intent(intent: CpdlcResponseIntent) -> (r: bool)
    ensures
        r == (intent == CpdlcResponseIntent::Wilco || intent == CpdlcResponseIntent::Roger
            || intent == CpdlcResponseIntent::Affirm),
{
    match intent {
        CpdlcResponseIntent::Wilco | CpdlcResponseIntent::Roger | CpdlcResponseIntent::Affirm => {
            true
        },
        _ => false,
    }
}

/// The style class of a response button.
pub fn action_btn_class(intent: CpdlcResponseIntent) -> (r: &'static str)
    ensures
        r@ == (match intent {
            CpdlcResponseIntent::Unable => "action-btn unable"@,
            CpdlcResponseIntent::Standby => "action-btn standby"@,
            _ => "action-btn"@,
        }),
{
    match intent {
        CpdlcResponseIntent::Unable => "action-btn unable",
        CpdlcResponseIntent::Standby => "action-btn standby",
        _ => "action-btn",
    }
}

/// The intent that a short response text names, if any.
pub open spec fn intent_of_text(u: Seq<char>) -> Option<CpdlcResponseIntent> {
    if u == "WILCO"@ {
        Some(CpdlcResponseIntent::Wilco)
    } else if u == "UNABLE"@ {
        Some(CpdlcResponseIntent::Unable)
    } else if u == "STANDBY"@ {
        Some(CpdlcResponseIntent::Standby)
    } else if u == "ROGER"@ {
        Some(CpdlcResponseIntent::Roger)
    } else if u == "AFFIRM"@ {
        Some(CpdlcResponseIntent::Affirm)
    } else if u == "NEGATIVE"@ {
        Some(CpdlcResponseIntent::Negative)
    } else {
        None
    }
}

/// Whether `v` spells `lit`.
fn chars_are(v: &Vec<char>, lit: &str) -> (r: bool)
    ensures
        r == (v@ == lit@),
{
    let w = chars_of(lit);
    if v.len() != w.len() {
        return false;
    }
    let mut i: usize = 0;
    while i < v.len()
        invariant
            v@.len() == w@.len(),
            w@ == lit@,
            i <= v@.len(),
            forall|j: int| 0 <= j < i ==> v@[j] == w@[j],
        decreases v@.len() - i,
    {
        if v[i] != w[i] {
            return false;
        }
        i = i + 1;
    }
    assert(v@ =~= w@);
    true
}

/// The intent that a locally typed response text names: the trimmed text,
/// upper-cased in ASCII, is one of the six short responses.
pub fn local_short_response_intent(display_text: Option<&str>) -> (r: Option<CpdlcResponseIntent>)
    ensures
        r == match display_text {
            Some(t) => intent_of_text(ascii_upper(trim(t@))),
            None => None,
        },
{
    let t = match display_text {
        Some(t) => t,
        None => {
            return None;
        },
    };
    let v = chars_of(t);
    let (a, b) = trim_bounds(&v, 0, v.len());
    proof {
        assert(v@.subrange(0, v@.len() as int) =~= v@);
    }
    let mut u: Vec<char> = Vec::new();
    let mut i = a;
    while i < b
        invariant
            a <= i <= b <= v@.len(),
            u@ == ascii_upper(v@.subrange(a as int, i as int)),
        decreases b - i,
    {
        let c = v[i];
        let uc = if 'a' <= c && c <= 'z' {
            ((c as u8) - 32) as char
        } else {
            c
        };
        u.push(uc);
        proof {
            assert(uc == ascii_upper_char(c));
            assert(u@ =~= ascii_upper(v@.subrange(a as int, i + 1)));
        }
        i = i + 1;
    }
    if chars_are(&u, "WILCO") {
        Some(CpdlcResponseIntent::Wilco)
    } else if chars_are(&u, "UNABLE") {
        Some(CpdlcResponseIntent::Unable)
    } else if chars_are(&u, "STANDBY") {
        Some(CpdlcResponseIntent::Standby)
    } else if chars_are(&u, "ROGER") {
        Some(CpdlcResponseIntent::Roger)
    } else if chars_are(&u, "AFFIRM") {
        Some(CpdlcResponseIntent::Affirm)
    } else if chars_are(&u, "NEGATIVE") {
        Some(CpdlcResponseIntent::Negative)
    } else {
        None
    }
}

} // verus!
