//! The ATC uplink command menu: menu keys, their groups, the uplink message
//! each command sends, and the labels of argument fields.
use vstd::prelude::*;
use vstd::string::*;
use crate::text::{chars_of, range_starts_with, str_eq, strip_prefix, substring, trim, trim_bounds};
use crate::translator::{ArgType, MessageDefinition};

verus! {

broadcast use vstd::string::group_string_axioms;

/// `s` without the prefix `p`, when it starts with it (`str::strip_prefix`).
pub fn strip_prefix_str<'a>(s: &'a str, p: &str) -> (r: Option<&'a str>)
    ensures
        match strip_prefix(s@, p@) {
            Some(rest) => r matches Some(x) && x@ == rest,
            None => r is None,
        },
{
    let v = chars_of(s);
    let w = chars_of(p);
    proof {
        assert(v@.subrange(0, v@.len() as int) =~= v@);
    }
    if range_starts_with(&v, 0, v.len(), p) {
        let rest = s.substring_char(w.len(), v.len());
        proof {
            assert(rest@ =~= s@.skip(p@.len() as int));
        }
        Some(rest)
    } else {
        None
    }
}

/// The menu group of a command name.
pub open spec fn command_group(cmd: Seq<char>) -> Seq<char> {
    if cmd == "V_CLIMB_TO"@ || cmd == "V_DESCEND_TO"@ || cmd == "V_MAINTAIN"@ || cmd
        == "V_CLIMB_MAINTAIN"@ || cmd == "V_BLOCK_LEVEL"@ || cmd == "V_CROSS_LEVEL"@ {
        "vertical"@
    } else if cmd == "L_DIRECT_TO"@ || cmd == "L_FLY_HEADING"@ || cmd == "L_TURN_LEFT"@ || cmd
        == "L_TURN_RIGHT"@ || cmd == "L_ROUTE"@ || cmd == "L_HOLD"@ {
        "lateral"@
    } else {
        "other"@
    }
}

/// The group that a menu key selects: `grp:NAME` selects `NAME`, and
/// `cmd:NAME` selects the group of command `NAME`.
pub open spec fn spec_selected_group(key: Seq<char>) -> Option<Seq<char>> {
    match strip_prefix(key, "grp:"@) {
        Some(g) => Some(g),
        None => match strip_prefix(key, "cmd:"@) {
            Some(c) => Some(command_group(c)),
            None => None,
        },
    }
}

fn group_of_command(cmd: &str) -> (r: &'static str)
    ensures
        r@ == command_group(cmd@),
{
    if str_eq(cmd, "V_CLIMB_TO") || str_eq(cmd, "V_DESCEND_TO") || str_eq(cmd, "V_MAINTAIN")
        || str_eq(cmd, "V_CLIMB_MAINTAIN") || str_eq(cmd, "V_BLOCK_LEVEL") || str_eq(
        cmd,
        "V_CROSS_LEVEL",
    ) {
        "vertical"
    } else if str_eq(cmd, "L_DIRECT_TO") || str_eq(cmd, "L_FLY_HEADING") || str_eq(
        cmd,
        "L_TURN_LEFT",
    ) || str_eq(cmd, "L_TURN_RIGHT") || str_eq(cmd, "L_ROUTE") || str_eq(cmd, "L_HOLD") {
        "lateral"
    } else {
        "other"
    }
}

/// The group that a menu key selects.
pub fn selected_group(key: &str) -> (r: Option<&str>)
    ensures
        match spec_selected_group(key@) {
            Some(g) => r matches Some(x) && x@ == g,
            None => r is None,
        },
{
    if let Some(group) = strip_prefix_str(key, "grp:") {
        return Some(group);
    }
    match strip_prefix_str(key, "cmd:") {
        Some(cmd) => Some(group_of_command(cmd)),
        None => None,
    }
}

/// The command that a menu key selects: the name after `cmd:`.
pub fn selected_command(key: &str) -> (r: Option<&str>)
    ensures
        match strip_prefix(key@, "cmd:"@) {
            Some(c) => r matches Some(x) && x@ == c,
            None => r is None,
        },
{
    strip_prefix_str(key, "cmd:")
}

/// The uplink message that a command sends.
pub open spec fn spec_uplink_id(key: Seq<char>) -> Option<Seq<char>> {
    if key == "V_CLIMB_TO"@ {
        Some("UM20"@)
    } else if key == "V_DESCEND_TO"@ {
        Some("UM23"@)
    } else if key == "V_MAINTAIN"@ {
        Some("UM19"@)
    } else if key == "V_CLIMB_MAINTAIN"@ {
        Some("UM21"@)
    } else if key == "V_BLOCK_LEVEL"@ {
        Some("UM30"@)
    } else if key == "V_CROSS_LEVEL"@ {
        Some("UM46"@)
    } else if key == "L_DIRECT_TO"@ {
        Some("UM74"@)
    } else if key == "L_FLY_HEADING"@ {
        Some("UM190"@)
    } else if key == "L_TURN_LEFT"@ || key == "L_TURN_RIGHT"@ {
        Some("UM94"@)
    } else if key == "L_ROUTE"@ {
        Some("UM80"@)
    } else if key == "L_HOLD"@ {
        Some("UM92"@)
    } else if key == "O_SPEED"@ {
        Some("UM106"@)
    } else if key == "O_CONTACT"@ {
        Some("UM117"@)
    } else if key == "O_SQUAWK"@ {
        Some("UM123"@)
    } else if key == "O_REPORT"@ {
        Some("UM132"@)
    } else if key == "O_FREETEXT"@ {
        Some("UM169"@)
    } else {
        None
    }
}

/// The uplink message id that a command sends.
pub fn command_uplink_id(key: &str) -> (r: Option<&'static str>)
    ensures
        match spec_uplink_id(key@) {
            Some(id) => r matches Some(x) && x@ == id,
            None => r is None,
        },
{
    if str_eq(key, "V_CLIMB_TO") {
        Some("UM20")
    } else if str_eq(key, "V_DESCEND_TO") {
        Some("UM23")
    } else if str_eq(key, "V_MAINTAIN") {
        Some("UM19")
    } else if str_eq(key, "V_CLIMB_MAINTAIN") {
        Some("UM21")
    } else if str_eq(key, "V_BLOCK_LEVEL") {
        Some("UM30")
    } else if str_eq(key, "V_CROSS_LEVEL") {
        Some("UM46")
    } else if str_eq(key, "L_DIRECT_TO") {
        Some("UM74")
    } else if str_eq(key, "L_FLY_HEADING") {
        Some("UM190")
    } else if str_eq(key, "L_TURN_LEFT") || str_eq(key, "L_TURN_RIGHT") {
        Some("UM94")
    } else if str_eq(key, "L_ROUTE") {
        Some("UM80")
    } else if str_eq(key, "L_HOLD") {
        Some("UM92")
    } else if str_eq(key, "O_SPEED") {
        Some("UM106")
    } else if str_eq(key, "O_CONTACT") {
        Some("UM117")
    } else if str_eq(key, "O_SQUAWK") {
        Some("UM123")
    } else if str_eq(key, "O_REPORT") {
        Some("UM132")
    } else if str_eq(key, "O_FREETEXT") {
        Some("UM169")
    } else {
        None
    }
}

/// The label of an argument field.
pub open spec fn spec_arg_type_label(t: ArgType) -> Seq<char> {
    match t {
        ArgType::Level => "LEVEL"@,
        ArgType::Speed => "SPEED"@,
        ArgType::Time => "TIME"@,
        ArgType::Position => "POSITION"@,
        ArgType::Direction => "DIRECTION"@,
        ArgType::Degrees => "HEADING"@,
        ArgType::Distance => "DISTANCE"@,
        ArgType::RouteClearance => "ROUTE"@,
        ArgType::ProcedureName => "PROCEDURE"@,
        ArgType::UnitName => "UNIT"@,
        ArgType::FacilityDesignation => "FACILITY"@,
        ArgType::Frequency => "FREQUENCY"@,
        ArgType::Code => "CODE"@,
        ArgType::AtisCode => "ATIS"@,
        ArgType::ErrorInfo => "ERROR INFO"@,
        ArgType::FreeText => "TEXT"@,
        ArgType::VerticalRate => "VERTICAL RATE"@,
        ArgType::Altimeter => "ALTIMETER"@,
        ArgType::LegType => "LEG TYPE"@,
        ArgType::PositionReport => "POSITION REPORT"@,
        ArgType::RemainingFuel => "REMAINING FUEL"@,
        ArgType::PersonsOnBoard => "POB"@,
        ArgType::SpeedType => "SPEED TYPE"@,
        ArgType::DepartureClearance => "DEPARTURE CLR"@,
    }
}

/// The label of an argument field.
pub fn arg_type_label(arg_type: ArgType) -> (r: &'static str)
    ensures
        r@ == spec_arg_type_label(arg_type),
{
    match arg_type {
        ArgType::Level => "LEVEL",
        ArgType::Speed => "SPEED",
        ArgType::Time => "TIME",
        ArgType::Position => "POSITION",
        ArgType::Direction => "DIRECTION",
        ArgType::Degrees => "HEADING",
        ArgType::Distance => "DISTANCE",
        ArgType::RouteClearance => "ROUTE",
        ArgType::ProcedureName => "PROCEDURE",
        ArgType::UnitName => "UNIT",
        ArgType::FacilityDesignation => "FACILITY",
        ArgType::Frequency => "FREQUENCY",
        ArgType::Code => "CODE",
        ArgType::AtisCode => "ATIS",
        ArgType::ErrorInfo => "ERROR INFO",
        ArgType::FreeText => "TEXT",
        ArgType::VerticalRate => "VERTICAL RATE",
        ArgType::Altimeter => "ALTIMETER",
        ArgType::LegType => "LEG TYPE",
        ArgType::PositionReport => "POSITION REPORT",
        ArgType::RemainingFuel => "REMAINING FUEL",
        ArgType::PersonsOnBoard => "POB",
        ArgType::SpeedType => "SPEED TYPE",
        ArgType::DepartureClearance => "DEPARTURE CLR",
    }
}

/// The hint shown in an empty argument field of the ATC uplink form.
pub open spec fn spec_arg_type_placeholder(t: ArgType) -> Seq<char> {
    match t {
        ArgType::Level => "Altitude / Niveau de vol (ex: FL350, 350, 12000)"@,
        ArgType::Speed => "Vitesse (ex: M.78, 280KT)"@,
        ArgType::Time => "Heure (ex: 1215)"@,
        ArgType::Position => "Position / Waypoint (ex: BOBIK, LFPG)"@,
        ArgType::Direction => "Direction (LEFT/RIGHT)"@,
        ArgType::Degrees => "Cap (ex: 270)"@,
        ArgType::Distance => "Distance (ex: 20NM)"@,
        ArgType::RouteClearance => "Route (ex: BOBIK DCT LGL UN872)"@,
        ArgType::ProcedureName => "Nom procedure"@,
        ArgType::UnitName => "Unite (ex: PARIS CONTROL)"@,
        ArgType::FacilityDesignation => "Designation unite"@,
        ArgType::Frequency => "Frequence (ex: 132.700)"@,
        ArgType::Code => "Code transpondeur (ex: 6421)"@,
        ArgType::AtisCode => "Code ATIS"@,
        ArgType::ErrorInfo => "Information d'erreur"@,
        ArgType::FreeText => "Texte libre"@,
        ArgType::VerticalRate => "Taux vertical"@,
        ArgType::Altimeter => "Reglage altimetrique"@,
        ArgType::LegType => "Type de segment"@,
        ArgType::PositionReport => "Compte-rendu de position"@,
        ArgType::RemainingFuel => "Carburant restant"@,
        ArgType::PersonsOnBoard => "Nombre de personnes a bord"@,
        ArgType::SpeedType => "Type de vitesse"@,
        ArgType::DepartureClearance => "Clairance depart"@,
    }
}

/// The hint shown in an empty argument field of the ATC uplink form.
pub fn arg_type_placeholder(arg_type: ArgType) -> (r: &'static str)
    ensures
        r@ == spec_arg_type_placeholder(arg_type),
{
    match arg_type {
        ArgType::Level => "Altitude / Niveau de vol (ex: FL350, 350, 12000)",
        ArgType::Speed => "Vitesse (ex: M.78, 280KT)",
        ArgType::Time => "Heure (ex: 1215)",
        ArgType::Position => "Position / Waypoint (ex: BOBIK, LFPG)",
        ArgType::Direction => "Direction (LEFT/RIGHT)",
        ArgType::Degrees => "Cap (ex: 270)",
        ArgType::Distance => "Distance (ex: 20NM)",
        ArgType::RouteClearance => "Route (ex: BOBIK DCT LGL UN872)",
        ArgType::ProcedureName => "Nom procedure",
        ArgType::UnitName => "Unite (ex: PARIS CONTROL)",
        ArgType::FacilityDesignation => "Designation unite",
        ArgType::Frequency => "Frequence (ex: 132.700)",
        ArgType::Code => "Code transpondeur (ex: 6421)",
        ArgType::AtisCode => "Code ATIS",
        ArgType::ErrorInfo => "Information d'erreur",
        ArgType::FreeText => "Texte libre",
        ArgType::VerticalRate => "Taux vertical",
        ArgType::Altimeter => "Reglage altimetrique",
        ArgType::LegType => "Type de segment",
        ArgType::PositionReport => "Compte-rendu de position",
        ArgType::RemainingFuel => "Carburant restant",
        ArgType::PersonsOnBoard => "Nombre de personnes a bord",
        ArgType::SpeedType => "Type de vitesse",
        ArgType::DepartureClearance => "Clairance depart",
    }
}

/// The short label of an argument field of the DCDU downlink form.
pub open spec fn spec_arg_label(t: ArgType) -> Seq<char> {
    match t {
        ArgType::Level => "Level"@,
        ArgType::Speed => "Speed"@,
        ArgType::Time => "Time"@,
        ArgType::Position => "Position"@,
        ArgType::Direction => "Direction"@,
        ArgType::Degrees => "Degrees"@,
        ArgType::Distance => "Distance"@,
        ArgType::RouteClearance => "Route"@,
        ArgType::ProcedureName => "Procedure"@,
        ArgType::UnitName => "Unit"@,
        ArgType::FacilityDesignation => "Facility"@,
        ArgType::Frequency => "Frequency"@,
        ArgType::Code => "Code"@,
        ArgType::AtisCode => "ATIS"@,
        ArgType::ErrorInfo => "Error"@,
        ArgType::FreeText => "Text"@,
        ArgType::VerticalRate => "V/S"@,
        ArgType::Altimeter => "Altimeter"@,
        ArgType::LegType => "Leg"@,
        ArgType::PositionReport => "Pos report"@,
        ArgType::RemainingFuel => "Fuel"@,
        ArgType::PersonsOnBoard => "POB"@,
        ArgType::SpeedType => "Speed type"@,
        ArgType::DepartureClearance => "Dep clr"@,
    }
}

/// The short label of an argument field of the DCDU downlink form.
pub fn arg_label(arg_type: ArgType) -> (r: &'static str)
    ensures
        r@ == spec_arg_label(arg_type),
{
    match arg_type {
        ArgType::Level => "Level",
        ArgType::Speed => "Speed",
        ArgType::Time => "Time",
        ArgType::Position => "Position",
        ArgType::Direction => "Direction",
        ArgType::Degrees => "Degrees",
        ArgType::Distance => "Distance",
        ArgType::RouteClearance => "Route",
        ArgType::ProcedureName => "Procedure",
        ArgType::UnitName => "Unit",
        ArgType::FacilityDesignation => "Facility",
        ArgType::Frequency => "Frequency",
        ArgType::Code => "Code",
        ArgType::AtisCode => "ATIS",
        ArgType::ErrorInfo => "Error",
        ArgType::FreeText => "Text",
        ArgType::VerticalRate => "V/S",
        ArgType::Altimeter => "Altimeter",
        ArgType::LegType => "Leg",
        ArgType::PositionReport => "Pos report",
        ArgType::RemainingFuel => "Fuel",
        ArgType::PersonsOnBoard => "POB",
        ArgType::SpeedType => "Speed type",
        ArgType::DepartureClearance => "Dep clr",
    }
}

/// Some definition of the registry has the identifier.
pub open spec fn has_definition(reg: Seq<MessageDefinition>, id: Seq<char>) -> bool {
    exists|i: int| 0 <= i < reg.len() && (#[trigger] reg[i]).id@ == id
}

/// `i` is the first definition of the registry with the identifier.
pub open spec fn is_first_definition(reg: Seq<MessageDefinition>, id: Seq<char>, i: int) -> bool {
    &&& 0 <= i < reg.len()
    &&& reg[i].id@ == id
    &&& forall|j: int| 0 <= j < i ==> (#[trigger] reg[j]).id@ != id
}

/// Position of the first definition with the identifier.
pub(crate) fn definition_index(id: &str, registry: &[MessageDefinition]) -> (r: Option<usize>)
    ensures
        r is None <==> !has_definition(registry@, id@),
        r matches Some(i) ==> is_first_definition(registry@, id@, i as int),
{
    let mut i: usize = 0;
    while i < registry.len()
        invariant
            i <= registry@.len(),
            forall|j: int| 0 <= j < i ==> (#[trigger] registry@[j]).id@ != id@,
        decreases registry@.len() - i,
    {
        if str_eq(registry[i].id.as_str(), id) {
            return Some(i);
        }
        i = i + 1;
    }
    None
}

/// The label of a menu command: the two turn commands have their own; any
/// other command shows the template of its uplink message (its identifier
/// when the registry lacks it), and an unknown key shows `UNKNOWN`.
pub fn command_label(key: &str, registry: &[MessageDefinition]) -> (r: String)
    ensures
        key@ == "L_TURN_LEFT"@ ==> r@ == "TURN LEFT HEADING [degrees]"@,
        key@ == "L_TURN_RIGHT"@ ==> r@ == "TURN RIGHT HEADING [degrees]"@,
        key@ != "L_TURN_LEFT"@ && key@ != "L_TURN_RIGHT"@ ==> match spec_uplink_id(key@) {
            None => r@ == "UNKNOWN"@,
            Some(id) => (!has_definition(registry@, id) ==> r@ == id) && forall|i: int|
                is_first_definition(registry@, id, i) ==> r@ == (#[trigger] registry@[i]).template@,
        },
{
    proof {
        reveal_strlit("L_TURN_LEFT");
        reveal_strlit("L_TURN_RIGHT");
        assert("L_TURN_LEFT"@.len() != "L_TURN_RIGHT"@.len());
    }
    if str_eq(key, "L_TURN_LEFT") {
        return "TURN LEFT HEADING [degrees]".to_owned();
    }
    if str_eq(key, "L_TURN_RIGHT") {
        return "TURN RIGHT HEADING [degrees]".to_owned();
    }
    let id = match command_uplink_id(key) {
        Some(id) => id,
        None => {
            return "UNKNOWN".to_owned();
        },
    };
    match definition_index(id, registry) {
        Some(i) => {
            proof {
                assert forall|k: int| is_first_definition(registry@, id@, k) implies k == i by {
                    if k < i {
                        assert(registry@[k].id@ == id@);
                    } else if k > i {
                        assert(registry@[i as int].id@ != id@);
                    }
                }
            }
            registry[i].template.clone()
        },
        None => id.to_owned(),
    }
}

/// The (label, hint) pairs of the argument fields of an argument list.
pub open spec fn param_specs_of(args: Seq<ArgType>) -> Seq<(Seq<char>, Seq<char>)> {
    args.map_values(|a: ArgType| (spec_arg_type_label(a), spec_arg_type_placeholder(a)))
}

/// The views of (label, hint) pairs.
pub open spec fn pair_texts(v: Seq<(String, String)>) -> Seq<(Seq<char>, Seq<char>)> {
    v.map_values(|p: (String, String)| (p.0@, p.1@))
}

/// The argument fields of a menu command, as (label, hint) pairs: a heading
/// for the two turn commands, the arguments of the uplink message's
/// definition for any other, none for an unknown key or a missing definition.
pub fn command_param_specs(key: &str, registry: &[MessageDefinition]) -> (r: Vec<(String, String)>)
    ensures
        (key@ == "L_TURN_LEFT"@ || key@ == "L_TURN_RIGHT"@) ==> pair_texts(r@) == seq![
            ("HEADING"@, "Cap (ex: 270)"@),
        ],
        key@ != "L_TURN_LEFT"@ && key@ != "L_TURN_RIGHT"@ ==> match spec_uplink_id(key@) {
            None => r@.len() == 0,
            Some(id) => (!has_definition(registry@, id) ==> r@.len() == 0) && forall|i: int|
                is_first_definition(registry@, id, i) ==> pair_texts(r@) == param_specs_of(
                    (#[trigger] registry@[i]).args@,
                ),
        },
{
    if str_eq(key, "L_TURN_LEFT") || str_eq(key, "L_TURN_RIGHT") {
        let r = vec![("HEADING".to_owned(), "Cap (ex: 270)".to_owned())];
        proof {
            assert(pair_texts(r@) =~= seq![("HEADING"@, "Cap (ex: 270)"@)]);
        }
        return r;
    }
    let id = match command_uplink_id(key) {
        Some(id) => id,
        None => {
            return Vec::new();
        },
    };
    let i = match definition_index(id, registry) {
        Some(i) => i,
        None => {
            return Vec::new();
        },
    };
    proof {
        assert forall|k: int| is_first_definition(registry@, id@, k) implies k == i by {
            if k < i {
                assert(registry@[k].id@ == id@);
            } else if k > i {
                assert(registry@[i as int].id@ != id@);
            }
        }
    }
    let args = &registry[i].args;
    let mut out: Vec<(String, String)> = Vec::new();
    let mut j: usize = 0;
    while j < args.len()
        invariant
            j <= args@.len(),
            pair_texts(out@) == param_specs_of(args@.subrange(0, j as int)),
        decreases args@.len() - j,
    {
        let a = args[j];
        let ghost before = out@;
        out.push((arg_type_label(a).to_owned(), arg_type_placeholder(a).to_owned()));
        proof {
            let sub = args@.subrange(0, j + 1);
            assert(sub =~= args@.subrange(0, j as int).push(a));
            assert(param_specs_of(sub) =~= param_specs_of(args@.subrange(0, j as int)).push(
                (spec_arg_type_label(a), spec_arg_type_placeholder(a)),
            ));
            assert(pair_texts(out@) =~= pair_texts(before).push(
                (spec_arg_type_label(a), spec_arg_type_placeholder(a)),
            ));
        }
        j = j + 1;
    }
    proof {
        assert(args@.subrange(0, args@.len() as int) =~= args@);
    }
    out
}

/// The first definition with the identifier, if any.
pub open spec fn first_definition(reg: Seq<MessageDefinition>, id: Seq<char>) -> Option<int> {
    if has_definition(reg, id) {
        Some(choose|i: int| is_first_definition(reg, id, i))
    } else {
        None
    }
}

/// `first_definition` names the first definition with the identifier.
pub proof fn lemma_first_definition(reg: Seq<MessageDefinition>, id: Seq<char>)
    ensures
        first_definition(reg, id) is None <==> !has_definition(reg, id),
        first_definition(reg, id) matches Some(i) ==> is_first_definition(reg, id, i),
        forall|i: int| #[trigger]
            is_first_definition(reg, id, i) ==> first_definition(reg, id) == Some(i),
{
    if has_definition(reg, id) {
        let k = choose|k: int| 0 <= k < reg.len() && (#[trigger] reg[k]).id@ == id;
        lemma_first_definition_exists(reg, id, k);
        let c = choose|i: int| is_first_definition(reg, id, i);
        assert forall|i: int| #[trigger] is_first_definition(reg, id, i) implies i == c by {
            if i < c {
                assert(reg[i].id@ == id);
            } else if i > c {
                assert(reg[c].id@ != id);
            }
        }
    }
}

/// Where a definition has the identifier, a first one does.
pub proof fn lemma_first_definition_exists(reg: Seq<MessageDefinition>, id: Seq<char>, k: int)
    requires
        0 <= k < reg.len(),
        reg[k].id@ == id,
    ensures
        exists|i: int| is_first_definition(reg, id, i),
    decreases k,
{
    if exists|j: int| 0 <= j < k && (#[trigger] reg[j]).id@ == id {
        let j = choose|j: int| 0 <= j < k && (#[trigger] reg[j]).id@ == id;
        lemma_first_definition_exists(reg, id, j);
    } else {
        assert(is_first_definition(reg, id, k));
    }
}

/// The menu key of one of the two turn commands.
pub open spec fn is_turn_key(key: Seq<char>) -> bool {
    key == "L_TURN_LEFT"@ || key == "L_TURN_RIGHT"@
}

/// A menu command has argument fields: the turn commands always, any other
/// when its uplink message's definition has arguments.
pub open spec fn spec_needs_param(key: Seq<char>, reg: Seq<MessageDefinition>) -> bool {
    if is_turn_key(key) {
        true
    } else {
        match spec_uplink_id(key) {
            None => false,
            Some(id) => match first_definition(reg, id) {
                None => false,
                Some(i) => reg[i].args@.len() > 0,
            },
        }
    }
}

/// Whether a menu command has argument fields.
pub fn command_needs_param(key: &str, registry: &[MessageDefinition]) -> (r: bool)
    ensures
        r == spec_needs_param(key@, registry@),
{
    let specs = command_param_specs(key, registry);
    proof {
        assert(pair_texts(specs@).len() == specs@.len());
        assert forall|i: int| 0 <= i < registry@.len() implies param_specs_of(
            (#[trigger] registry@[i]).args@,
        ).len() == registry@[i].args@.len() by {}
        match spec_uplink_id(key@) {
            Some(id) => {
                lemma_first_definition(registry@, id);
            },
            None => {},
        }
    }
    specs.len() > 0
}

/// The trimmed text of argument field `idx`, if there is such a field and
/// it is not blank.
pub fn arg_value(args: &[String], idx: usize) -> (r: Option<String>)
    ensures
        idx >= args@.len() ==> r is None,
        idx < args@.len() ==> (if trim(args@[idx as int]@).len() == 0 {
            r is None
        } else {
            r matches Some(v) && v@ == trim(args@[idx as int]@)
        }),
{
    if idx >= args.len() {
        return None;
    }
    let s = args[idx].as_str();
    let v = chars_of(s);
    let (a, b) = trim_bounds(&v, 0, v.len());
    proof {
        assert(v@.subrange(0, v@.len() as int) =~= v@);
    }
    if a == b {
        None
    } else {
        Some(substring(s, a, b))
    }
}

} // verus!
