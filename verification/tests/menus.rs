use openlink::atc_commands::{
    arg_label, arg_type_placeholder, arg_value, command_label, command_needs_param,
    command_param_specs,
};
use openlink::gui_state::{
    dcdu_connection_state, phase_status_label, select_flight_by_callsign, CpdlcConnectionPhase,
    DcduConnectionState, TabState,
};
use openlink::numbers::{message_numeric_id, standby_elapsed_label, u64_to_text};
use openlink::translator::{ArgType, MessageDefinition, MessageDirection};

fn def(id: &str, template: &str, args: Vec<ArgType>) -> MessageDefinition {
    MessageDefinition {
        id: id.to_string(),
        template: template.to_string(),
        args,
        direction: MessageDirection::Uplink,
    }
}

fn registry() -> Vec<MessageDefinition> {
    vec![
        def("UM20", "CLIMB TO [level]", vec![ArgType::Level]),
        def("UM117", "CONTACT [unitname] [frequency]", vec![ArgType::UnitName, ArgType::Frequency]),
        def("UM169", "[freetext]", vec![ArgType::FreeText]),
    ]
}

#[test]
fn command_labels_come_from_the_registry() {
    let reg = registry();
    assert_eq!(command_label("V_CLIMB_TO", &reg), "CLIMB TO [level]");
    assert_eq!(command_label("L_TURN_LEFT", &reg), "TURN LEFT HEADING [degrees]");
    assert_eq!(command_label("L_TURN_RIGHT", &reg), "TURN RIGHT HEADING [degrees]");
    // Known key whose definition is missing: the uplink identifier.
    assert_eq!(command_label("V_MAINTAIN", &reg), "UM19");
    assert_eq!(command_label("NOPE", &reg), "UNKNOWN");
}

#[test]
fn command_parameters_follow_the_definition() {
    let reg = registry();
    assert_eq!(
        command_param_specs("O_CONTACT", &reg),
        vec![
            ("UNIT".to_string(), "Unite (ex: PARIS CONTROL)".to_string()),
            ("FREQUENCY".to_string(), "Frequence (ex: 132.700)".to_string()),
        ]
    );
    assert_eq!(
        command_param_specs("L_TURN_RIGHT", &reg),
        vec![("HEADING".to_string(), "Cap (ex: 270)".to_string())]
    );
    assert!(command_param_specs("V_MAINTAIN", &reg).is_empty());
    assert!(command_param_specs("NOPE", &reg).is_empty());
    assert!(command_needs_param("V_CLIMB_TO", &reg));
    assert!(command_needs_param("L_TURN_LEFT", &reg));
    assert!(!command_needs_param("V_MAINTAIN", &reg));
}

#[test]
fn argument_values_are_trimmed() {
    let args = vec!["  FL350 ".to_string(), "   ".to_string()];
    assert_eq!(arg_value(&args, 0), Some("FL350".to_string()));
    assert_eq!(arg_value(&args, 1), None);
    assert_eq!(arg_value(&args, 2), None);
}

#[test]
fn argument_field_texts() {
    assert_eq!(arg_type_placeholder(ArgType::Degrees), "Cap (ex: 270)");
    assert_eq!(arg_type_placeholder(ArgType::Level), "Altitude / Niveau de vol (ex: FL350, 350, 12000)");
    assert_eq!(arg_label(ArgType::VerticalRate), "V/S");
    assert_eq!(arg_label(ArgType::DepartureClearance), "Dep clr");
}

#[test]
fn numeric_ids_order_menus() {
    assert_eq!(message_numeric_id("UM20"), 20);
    assert_eq!(message_numeric_id("DM117"), 117);
    assert_eq!(message_numeric_id("UM"), u16::MAX);
    assert_eq!(message_numeric_id("UM20A"), u16::MAX);
    assert_eq!(message_numeric_id("UM70000"), u16::MAX);
    assert_eq!(message_numeric_id("X0"), 0);
}

#[test]
fn standby_clock_reads_minutes_and_seconds() {
    assert_eq!(standby_elapsed_label(1_000, 1_000), "00:00");
    assert_eq!(standby_elapsed_label(0, 65_999), "01:05");
    assert_eq!(standby_elapsed_label(0, 6_000_000), "100:00");
    assert_eq!(standby_elapsed_label(10_000, 0), "00:00");
    assert_eq!(u64_to_text(0), "0");
    assert_eq!(u64_to_text(18_446_744_073_709_551_615), "18446744073709551615");
}

#[test]
fn connection_phases_read_as_status_lines() {
    assert_eq!(phase_status_label(CpdlcConnectionPhase::Connected), "CPDLC CONNECTED");
    assert_eq!(phase_status_label(CpdlcConnectionPhase::Terminated), "ACARS ONLY");
    assert_eq!(
        dcdu_connection_state(Some((CpdlcConnectionPhase::LoggedOn, "LFPG"))),
        DcduConnectionState::Pending("LFPG".to_string())
    );
    assert_eq!(
        dcdu_connection_state(Some((CpdlcConnectionPhase::Connected, "LFPG"))),
        DcduConnectionState::Connected("LFPG".to_string())
    );
    assert_eq!(
        dcdu_connection_state(Some((CpdlcConnectionPhase::Terminated, "LFPG"))),
        DcduConnectionState::Disconnected
    );
    assert_eq!(dcdu_connection_state(None), DcduConnectionState::Disconnected);
}

#[test]
fn flight_selection_uses_the_sorted_list() {
    let mut tab = TabState::new(1);
    let sessions = vec![
        "DLH4".to_string(),
        "AFR1".to_string(),
        "DLH4".to_string(),
        "BAW2".to_string(),
    ];
    select_flight_by_callsign(&mut tab, &sessions, "DLH4");
    assert_eq!(tab.selected_flight_idx, Some(2));
    select_flight_by_callsign(&mut tab, &sessions, "AFR1");
    assert_eq!(tab.selected_flight_idx, Some(0));
    select_flight_by_callsign(&mut tab, &sessions, "KLM9");
    assert_eq!(tab.selected_flight_idx, Some(0));
}
