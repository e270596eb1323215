//! Argument values of CPDLC message elements as the GUI forms read them
//! from typed text, and the elements built from a menu command.
use vstd::prelude::*;
use vstd::string::*;
use crate::atc_commands::{
    arg_value, command_uplink_id, definition_index, first_definition, is_turn_key,
    lemma_first_definition, spec_uplink_id, strip_prefix_str,
};
use crate::numbers::{parse_u16, spec_parse_u16};
use crate::text::{chars_of, str_eq, substring, to_uppercase, trim, trimmed, upper_text};
use crate::translator::{ArgType, MessageDefinition};

verus! {

broadcast use vstd::string::group_string_axioms;

/// The value of one argument of a message element.
#[derive(Debug, Clone, PartialEq)]
pub enum CpdlcArgument {
    /// A level, by the number handed to the flight level constructor.
    Level(u16),
    Speed(String),
    Time(String),
    Position(String),
    Direction(String),
    /// A heading in degrees.
    Degrees(u16),
    Distance(String),
    RouteClearance(String),
    ProcedureName(String),
    UnitName(String),
    FacilityDesignation(String),
    Frequency(String),
    Code(String),
    AtisCode(String),
    ErrorInfo(String),
    FreeText(String),
    VerticalRate(String),
    Altimeter(String),
    LegType(String),
    PositionReport(String),
    RemainingFuel(String),
    PersonsOnBoard(String),
    SpeedType(String),
    DepartureClearance(String),
}

/// What an argument holds: a level or a heading by its number, any other
/// argument by its type and text.
pub enum ArgValue {
    Level(u16),
    Degrees(u16),
    Text(ArgType, Seq<char>),
}

impl View for CpdlcArgument {
    type V = ArgValue;

    open spec fn view(&self) -> ArgValue {
        match self {
            CpdlcArgument::Level(n) => ArgValue::Level(*n),
            CpdlcArgument::Degrees(n) => ArgValue::Degrees(*n),
            CpdlcArgument::Speed(s) => ArgValue::Text(ArgType::Speed, s@),
            CpdlcArgument::Time(s) => ArgValue::Text(ArgType::Time, s@),
            CpdlcArgument::Position(s) => ArgValue::Text(ArgType::Position, s@),
            CpdlcArgument::Direction(s) => ArgValue::Text(ArgType::Direction, s@),
            CpdlcArgument::Distance(s) => ArgValue::Text(ArgType::Distance, s@),
            CpdlcArgument::RouteClearance(s) => ArgValue::Text(ArgType::RouteClearance, s@),
            CpdlcArgument::ProcedureName(s) => ArgValue::Text(ArgType::ProcedureName, s@),
            CpdlcArgument::UnitName(s) => ArgValue::Text(ArgType::UnitName, s@),
            CpdlcArgument::FacilityDesignation(s) => ArgValue::Text(ArgType::FacilityDesignation, s@),
            CpdlcArgument::Frequency(s) => ArgValue::Text(ArgType::Frequency, s@),
            CpdlcArgument::Code(s) => ArgValue::Text(ArgType::Code, s@),
            CpdlcArgument::AtisCode(s) => ArgValue::Text(ArgType::AtisCode, s@),
            CpdlcArgument::ErrorInfo(s) => ArgValue::Text(ArgType::ErrorInfo, s@),
            CpdlcArgument::FreeText(s) => ArgValue::Text(ArgType::FreeText, s@),
            CpdlcArgument::VerticalRate(s) => ArgValue::Text(ArgType::VerticalRate, s@),
            CpdlcArgument::Altimeter(s) => ArgValue::Text(ArgType::Altimeter, s@),
            CpdlcArgument::LegType(s) => ArgValue::Text(ArgType::LegType, s@),
            CpdlcArgument::PositionReport(s) => ArgValue::Text(ArgType::PositionReport, s@),
            CpdlcArgument::RemainingFuel(s) => ArgValue::Text(ArgType::RemainingFuel, s@),
            CpdlcArgument::PersonsOnBoard(s) => ArgValue::Text(ArgType::PersonsOnBoard, s@),
            CpdlcArgument::SpeedType(s) => ArgValue::Text(ArgType::SpeedType, s@),
            CpdlcArgument::DepartureClearance(s) => ArgValue::Text(ArgType::DepartureClearance, s@),
        }
    }
}

/// An argument of a type other than level and heading, holding `text`.
pub(crate) fn text_argument(t: ArgType, text: String) -> (r: CpdlcArgument)
    requires
        t != ArgType::Level,
        t != ArgType::Degrees,
    ensures
        r@ == ArgValue::Text(t, text@),
{
    match t {
        ArgType::Speed => CpdlcArgument::Speed(text),
        ArgType::Time => CpdlcArgument::Time(text),
        ArgType::Position => CpdlcArgument::Position(text),
        ArgType::Direction => CpdlcArgument::Direction(text),
        ArgType::Distance => CpdlcArgument::Distance(text),
        ArgType::RouteClearance => CpdlcArgument::RouteClearance(text),
        ArgType::ProcedureName => CpdlcArgument::ProcedureName(text),
        ArgType::UnitName => CpdlcArgument::UnitName(text),
        ArgType::FacilityDesignation => CpdlcArgument::FacilityDesignation(text),
        ArgType::Frequency => CpdlcArgument::Frequency(text),
        ArgType::Code => CpdlcArgument::Code(text),
        ArgType::AtisCode => CpdlcArgument::AtisCode(text),
        ArgType::ErrorInfo => CpdlcArgument::ErrorInfo(text),
        ArgType::FreeText => CpdlcArgument::FreeText(text),
        ArgType::VerticalRate => CpdlcArgument::VerticalRate(text),
        ArgType::Altimeter => CpdlcArgument::Altimeter(text),
        ArgType::LegType => CpdlcArgument::LegType(text),
        ArgType::PositionReport => CpdlcArgument::PositionReport(text),
        ArgType::RemainingFuel => CpdlcArgument::RemainingFuel(text),
        ArgType::PersonsOnBoard => CpdlcArgument::PersonsOnBoard(text),
        ArgType::SpeedType => CpdlcArgument::SpeedType(text),
        ArgType::DepartureClearance => CpdlcArgument::DepartureClearance(text),
        ArgType::Level | ArgType::Degrees => CpdlcArgument::FreeText(text),
    }
}

/// The level number of a typed level: upper-cased and trimmed, with an
/// optional `FL` prefix; a flight level must be below 1000.
pub open spec fn spec_parse_level(raw: Seq<char>) -> Option<u16> {
    let s = upper_text(trim(raw));
    let fl = "FL"@.is_prefix_of(s);
    let digits = if fl {
        s.skip(2)
    } else {
        s
    };
    match spec_parse_u16(digits) {
        Some(v) => if fl && v >= 1000 {
            None
        } else {
            Some(v)
        },
        None => None,
    }
}

/// Read a level typed in the ATC uplink form (`FL350`, `350`, `12000`).
pub fn parse_level(raw: &str) -> (r: Option<u16>)
    ensures
        r == spec_parse_level(raw@),
{
    let t = trimmed(raw);
    let s = to_uppercase(t.as_str());
    proof {
        reveal_strlit("FL");
    }
    let (fl, value) = match strip_prefix_str(s.as_str(), "FL") {
        Some(rest) => (true, parse_u16(rest)),
        None => (false, parse_u16(s.as_str())),
    };
    proof {
        assert("FL"@.len() == 2);
    }
    match value {
        Some(v) => if fl && v >= 1000 {
            None
        } else {
            Some(v)
        },
        None => None,
    }
}

/// An argument of the ATC uplink form: the trimmed text, not empty; a level
/// as `parse_level` reads it, a heading as a 16-bit number, a position or a
/// direction upper-cased, anything else as typed.
pub open spec fn spec_parse_argument(t: ArgType, raw: Seq<char>) -> Option<ArgValue> {
    let v = trim(raw);
    if v.len() == 0 {
        None
    } else {
        match t {
            ArgType::Level => match spec_parse_level(v) {
                Some(n) => Some(ArgValue::Level(n)),
                None => None,
            },
            ArgType::Degrees => match spec_parse_u16(v) {
                Some(n) => Some(ArgValue::Degrees(n)),
                None => None,
            },
            ArgType::Position | ArgType::Direction => Some(ArgValue::Text(t, upper_text(v))),
            _ => Some(ArgValue::Text(t, v)),
        }
    }
}

/// Read one argument typed in the ATC uplink form.
pub fn parse_argument(arg_type: ArgType, raw: &str) -> (r: Option<CpdlcArgument>)
    ensures
        match spec_parse_argument(arg_type, raw@) {
            Some(a) => r matches Some(x) && x@ == a,
            None => r is None,
        },
{
    let v = trimmed(raw);
    if v.as_str().is_empty() {
        return None;
    }
    match arg_type {
        ArgType::Level => match parse_level(v.as_str()) {
            Some(n) => Some(CpdlcArgument::Level(n)),
            None => None,
        },
        ArgType::Degrees => match parse_u16(v.as_str()) {
            Some(n) => Some(CpdlcArgument::Degrees(n)),
            None => None,
        },
        ArgType::Position | ArgType::Direction => Some(
            text_argument(arg_type, to_uppercase(v.as_str())),
        ),
        _ => Some(text_argument(arg_type, v)),
    }
}

/// An argument of the DCDU downlink form: the trimmed text, not empty; a
/// level or a heading as a 16-bit number, anything else as typed.
pub open spec fn spec_parse_dcdu_arg(t: ArgType, value: Seq<char>) -> Option<ArgValue> {
    let v = trim(value);
    if v.len() == 0 {
        None
    } else {
        match t {
            ArgType::Level => match spec_parse_u16(v) {
                Some(n) => Some(ArgValue::Level(n)),
                None => None,
            },
            ArgType::Degrees => match spec_parse_u16(v) {
                Some(n) => Some(ArgValue::Degrees(n)),
                None => None,
            },
            _ => Some(ArgValue::Text(t, v)),
        }
    }
}

/// Read one argument typed in the DCDU downlink form.
pub fn parse_dcdu_arg(arg: ArgType, value: &str) -> (r: Option<CpdlcArgument>)
    ensures
        match spec_parse_dcdu_arg(arg, value@) {
            Some(a) => r matches Some(x) && x@ == a,
            None => r is None,
        },
{
    let v = trimmed(value);
    if v.as_str().is_empty() {
        return None;
    }
    match arg {
        ArgType::Level => match parse_u16(v.as_str()) {
            Some(n) => Some(CpdlcArgument::Level(n)),
            None => None,
        },
        ArgType::Degrees => match parse_u16(v.as_str()) {
            Some(n) => Some(CpdlcArgument::Degrees(n)),
            None => None,
        },
        _ => Some(text_argument(arg, v)),
    }
}

/// `s` with every occurrence of `pat` taken out, left to right
/// (`str::replace` with an empty replacement).
pub open spec fn remove_all(s: Seq<char>, pat: Seq<char>) -> Seq<char>
    decreases s.len(),
{
    if s.len() == 0 || pat.len() == 0 {
        s
    } else if pat.is_prefix_of(s) {
        remove_all(s.skip(pat.len() as int), pat)
    } else {
        seq![s[0]] + remove_all(s.drop_first(), pat)
    }
}

/// `s` without any `FL`.
fn without_fl(s: &str) -> (r: String)
    ensures
        r@ == remove_all(s@, "FL"@),
{
    proof {
        reveal_strlit("FL");
    }
    let v = chars_of(s);
    let mut out = String::new();
    let mut i: usize = 0;
    proof {
        assert(v@.skip(0) =~= v@);
        assert(out@ =~= Seq::<char>::empty());
    }
    while i < v.len()
        invariant
            v@ == s@,
            i <= v@.len(),
            "FL"@ == seq!['F', 'L'],
            remove_all(s@, "FL"@) == out@ + remove_all(v@.skip(i as int), "FL"@),
        decreases v@.len() - i,
    {
        let ghost rest = v@.skip(i as int);
        if i + 1 < v.len() && v[i] == 'F' && v[i + 1] == 'L' {
            proof {
                assert("FL"@.is_prefix_of(rest));
                assert(rest.skip(2) =~= v@.skip(i + 2));
            }
            i = i + 2;
        } else {
            let c = v[i];
            proof {
                if "FL"@.is_prefix_of(rest) {
                    assert(rest[0] == 'F' && rest[1] == 'L');
                }
                assert(rest.drop_first() =~= v@.skip(i + 1));
                assert(rest[0] == c);
            }
            let ghost before = out@;
            let one = substring(s, i, i + 1);
            out.append(one.as_str());
            proof {
                assert(one@ =~= seq![c]);
                assert(out@ =~= before.push(c));
                assert(before + (seq![c] + remove_all(rest.drop_first(), "FL"@)) =~= out@
                    + remove_all(rest.drop_first(), "FL"@));
            }
            i = i + 1;
        }
    }
    proof {
        assert(v@.skip(v@.len() as int) =~= Seq::<char>::empty());
        assert(out@ + Seq::<char>::empty() =~= out@);
    }
    out
}

/// An argument of the A320 MCDU downlink page: the trimmed text, not empty;
/// a level upper-cased with every `FL` taken out, then read as a 16-bit
/// number; a heading as a 16-bit number; anything else as typed.
pub open spec fn spec_parse_mcdu_arg(t: ArgType, value: Seq<char>) -> Option<ArgValue> {
    let v = trim(value);
    if v.len() == 0 {
        None
    } else {
        match t {
            ArgType::Level => match spec_parse_u16(remove_all(upper_text(v), "FL"@)) {
                Some(n) => Some(ArgValue::Level(n)),
                None => None,
            },
            ArgType::Degrees => match spec_parse_u16(v) {
                Some(n) => Some(ArgValue::Degrees(n)),
                None => None,
            },
            _ => Some(ArgValue::Text(t, v)),
        }
    }
}

/// Read one argument typed on the A320 MCDU downlink page.
pub fn parse_mcdu_arg(arg: ArgType, value: &str) -> (r: Option<CpdlcArgument>)
    ensures
        match spec_parse_mcdu_arg(arg, value@) {
            Some(a) => r matches Some(x) && x@ == a,
            None => r is None,
        },
{
    let v = trimmed(value);
    if v.as_str().is_empty() {
        return None;
    }
    match arg {
        ArgType::Level => {
            let upper = to_uppercase(v.as_str());
            let raw = without_fl(upper.as_str());
            match parse_u16(raw.as_str()) {
                Some(n) => Some(CpdlcArgument::Level(n)),
                None => None,
            }
        },
        ArgType::Degrees => match parse_u16(v.as_str()) {
            Some(n) => Some(CpdlcArgument::Degrees(n)),
            None => None,
        },
        _ => Some(text_argument(arg, v)),
    }
}

/// A message element: its identifier and argument values.
#[derive(Debug, Clone, PartialEq)]
pub struct MessageElement {
    pub id: String,
    pub args: Vec<CpdlcArgument>,
}

/// The views of a list of arguments.
pub open spec fn arg_values(args: Seq<CpdlcArgument>) -> Seq<ArgValue> {
    args.map_values(|a: CpdlcArgument| a@)
}

/// The trimmed text of argument field `k`, if there is one and it is not
/// blank.
pub open spec fn arg_text(args: Seq<String>, k: int) -> Option<Seq<char>> {
    if 0 <= k < args.len() && trim(args[k]@).len() > 0 {
        Some(trim(args[k]@))
    } else {
        None
    }
}

/// The value read from argument field `k` for the `k`-th argument type.
pub open spec fn parsed_at(types: Seq<ArgType>, args: Seq<String>, k: int) -> Option<ArgValue> {
    match arg_text(args, k) {
        Some(t) => spec_parse_argument(types[k], t),
        None => None,
    }
}

/// Every argument type has its value in the fields.
pub open spec fn all_parsed(types: Seq<ArgType>, args: Seq<String>) -> bool {
    forall|k: int| 0 <= k < types.len() ==> (#[trigger] parsed_at(types, args, k)) is Some
}

/// The values read for all argument types.
pub open spec fn parsed_values(types: Seq<ArgType>, args: Seq<String>) -> Seq<ArgValue> {
    Seq::new(types.len(), |k: int| parsed_at(types, args, k)->0)
}

/// The heading typed in field 0 of a turn command.
pub open spec fn turn_heading(args: Seq<String>) -> Option<u16> {
    match arg_text(args, 0) {
        Some(t) => spec_parse_u16(t),
        None => None,
    }
}

/// The element a menu command sends with the typed argument fields, by its
/// identifier and argument values: none for an unknown command or one whose
/// uplink message the registry lacks; for the two turn commands, the turn
/// direction and the heading of field 0; for any other, one value per
/// argument of the definition, none when a field is missing or unreadable.
pub open spec fn spec_command_element(
    command: Seq<char>,
    args: Seq<String>,
    reg: Seq<MessageDefinition>,
) -> Option<(Seq<char>, Seq<ArgValue>)> {
    match spec_uplink_id(command) {
        None => None,
        Some(id) => match first_definition(reg, id) {
            None => None,
            Some(i) => if is_turn_key(command) {
                match turn_heading(args) {
                    Some(h) => Some(
                        (
                            id,
                            seq![
                                ArgValue::Text(
                                    ArgType::Direction,
                                    if command == "L_TURN_LEFT"@ {
                                        "LEFT"@
                                    } else {
                                        "RIGHT"@
                                    },
                                ),
                                ArgValue::Degrees(h),
                            ],
                        ),
                    ),
                    None => None,
                }
            } else if all_parsed(reg[i].args@, args) {
                Some((id, parsed_values(reg[i].args@, args)))
            } else {
                None
            },
        },
    }
}

/// An element by its identifier and argument values.
pub open spec fn element_view(o: Option<MessageElement>) -> Option<(Seq<char>, Seq<ArgValue>)> {
    match o {
        Some(e) => Some((e.id@, arg_values(e.args@))),
        None => None,
    }
}

/// Build the element a menu command sends with the typed argument fields.
pub fn build_command_element(command: &str, args: &[String], registry: &[MessageDefinition]) -> (r:
    Option<MessageElement>)
    ensures
        element_view(r) == spec_command_element(command@, args@, registry@),
{
    proof {
        reveal_strlit("L_TURN_LEFT");
        reveal_strlit("L_TURN_RIGHT");
        assert("L_TURN_LEFT"@.len() != "L_TURN_RIGHT"@.len());
    }
    let id = match command_uplink_id(command) {
        Some(id) => id,
        None => {
            return None;
        },
    };
    let i = match definition_index(id, registry) {
        Some(i) => i,
        None => {
            return None;
        },
    };
    proof {
        lemma_first_definition(registry@, id@);
    }
    let turn_left = str_eq(command, "L_TURN_LEFT");
    if turn_left || str_eq(command, "L_TURN_RIGHT") {
        let hdg_raw = match arg_value(args, 0) {
            Some(v) => v,
            None => {
                return None;
            },
        };
        let hdg = match parse_u16(hdg_raw.as_str()) {
            Some(h) => h,
            None => {
                return None;
            },
        };
        let dir = if turn_left {
            "LEFT".to_owned()
        } else {
            "RIGHT".to_owned()
        };
        let out = vec![CpdlcArgument::Direction(dir), CpdlcArgument::Degrees(hdg)];
        let e = MessageElement { id: id.to_owned(), args: out };
        proof {
            assert(arg_values(e.args@) =~= seq![
                ArgValue::Text(
                    ArgType::Direction,
                    if command@ == "L_TURN_LEFT"@ {
                        "LEFT"@
                    } else {
                        "RIGHT"@
                    },
                ),
                ArgValue::Degrees(hdg),
            ]);
        }
        return Some(e);
    }
    let types = &registry[i].args;
    let mut parsed: Vec<CpdlcArgument> = Vec::new();
    let mut k: usize = 0;
    while k < types.len()
        invariant
            k <= types@.len(),
            i < registry@.len(),
            types@ == registry@[i as int].args@,
            !is_turn_key(command@),
            spec_uplink_id(command@) == Some(id@),
            first_definition(registry@, id@) == Some(i as int),
            arg_values(parsed@) == Seq::new(k as nat, |j: int| parsed_at(types@, args@, j)->0),
            forall|j: int| 0 <= j < k ==> (#[trigger] parsed_at(types@, args@, j)) is Some,
        decreases types@.len() - k,
    {
        let raw = match arg_value(args, k) {
            Some(v) => v,
            None => {
                proof {
                    assert(parsed_at(types@, args@, k as int) is None);
                }
                return None;
            },
        };
        let a = match parse_argument(types[k], raw.as_str()) {
            Some(a) => a,
            None => {
                proof {
                    assert(parsed_at(types@, args@, k as int) is None);
                }
                return None;
            },
        };
        proof {
            assert(parsed_at(types@, args@, k as int) == Some(a@));
        }
        let ghost before = parsed@;
        parsed.push(a);
        proof {
            let target = Seq::new((k + 1) as nat, |j: int| parsed_at(types@, args@, j)->0);
            assert(arg_values(before).len() == before.len());
            assert(before.len() == k);
            assert(parsed@ == before.push(a));
            assert(arg_values(parsed@).len() == k + 1);
            assert forall|j: int| 0 <= j < k + 1 implies arg_values(parsed@)[j] == target[j] by {
                if j < k {
                    assert(parsed@[j] == before[j]);
                    assert(arg_values(before)[j] == parsed_at(types@, args@, j)->0);
                } else {
                    assert(parsed@[j] == a);
                }
            }
            assert(arg_values(parsed@) =~= target);
        }
        k = k + 1;
    }
    Some(MessageElement { id: id.to_owned(), args: parsed })
}

} // verus!
