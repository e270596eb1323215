use openlink::arguments::{
    build_command_element, parse_argument, parse_dcdu_arg, parse_level, parse_mcdu_arg,
    CpdlcArgument,
};
use openlink::gui_state::{add_command_element, AppState};
use openlink::translator::{ArgType, MessageDefinition, MessageDirection};

fn def(id: &str, template: &str, args: Vec<ArgType>) -> MessageDefinition {
    MessageDefinition {
        id: id.to_string(),
        template: template.to_string(),
        args,
        direction: MessageDirection::Uplink,
    }
}

fn registry() -> Vec<MessageDefinition> {
    vec![
        def("UM20", "CLIMB TO [level]", vec![ArgType::Level]),
        def("UM94", "TURN [direction] HEADING [degrees]", vec![ArgType::Direction, ArgType::Degrees]),
        def("UM74", "PROCEED DIRECT TO [position]", vec![ArgType::Position]),
        def("UM19", "MAINTAIN [level]", vec![ArgType::Level]),
    ]
}

#[test]
fn levels_read_with_or_without_fl() {
    assert_eq!(parse_level(" fl350 "), Some(350));
    assert_eq!(parse_level("350"), Some(350));
    assert_eq!(parse_level("12000"), Some(12000));
    assert_eq!(parse_level("FL1000"), None);
    assert_eq!(parse_level("FLABC"), None);
    assert_eq!(parse_level(""), None);
}

#[test]
fn uplink_form_arguments() {
    assert_eq!(parse_argument(ArgType::Level, "FL350"), Some(CpdlcArgument::Level(350)));
    assert_eq!(parse_argument(ArgType::Degrees, " 270 "), Some(CpdlcArgument::Degrees(270)));
    assert_eq!(parse_argument(ArgType::Degrees, "east"), None);
    assert_eq!(
        parse_argument(ArgType::Position, " bobik "),
        Some(CpdlcArgument::Position("BOBIK".to_string()))
    );
    assert_eq!(
        parse_argument(ArgType::FreeText, " hello there "),
        Some(CpdlcArgument::FreeText("hello there".to_string()))
    );
    assert_eq!(parse_argument(ArgType::Speed, "   "), None);
}

#[test]
fn dcdu_form_arguments() {
    assert_eq!(parse_dcdu_arg(ArgType::Level, "350"), Some(CpdlcArgument::Level(350)));
    assert_eq!(parse_dcdu_arg(ArgType::Level, "FL350"), None);
    assert_eq!(
        parse_dcdu_arg(ArgType::Position, " bobik "),
        Some(CpdlcArgument::Position("bobik".to_string()))
    );
    assert_eq!(parse_dcdu_arg(ArgType::Degrees, "90"), Some(CpdlcArgument::Degrees(90)));
}

#[test]
fn mcdu_page_arguments() {
    assert_eq!(parse_mcdu_arg(ArgType::Level, "fl350"), Some(CpdlcArgument::Level(350)));
    assert_eq!(parse_mcdu_arg(ArgType::Level, "3FL5FL0"), Some(CpdlcArgument::Level(350)));
    assert_eq!(parse_mcdu_arg(ArgType::Level, "FFLL"), None);
    assert_eq!(
        parse_mcdu_arg(ArgType::Direction, "left"),
        Some(CpdlcArgument::Direction("left".to_string()))
    );
    assert_eq!(parse_mcdu_arg(ArgType::Time, ""), None);
}

#[test]
fn command_elements_from_the_menu() {
    let reg = registry();
    let climb = build_command_element("V_CLIMB_TO", &["FL350".to_string()], &reg).unwrap();
    assert_eq!(climb.id, "UM20");
    assert_eq!(climb.args, vec![CpdlcArgument::Level(350)]);
    assert!(build_command_element("V_CLIMB_TO", &["high".to_string()], &reg).is_none());
    assert!(build_command_element("V_CLIMB_TO", &[], &reg).is_none());
    let turn = build_command_element("L_TURN_LEFT", &[" 270".to_string()], &reg).unwrap();
    assert_eq!(turn.id, "UM94");
    assert_eq!(
        turn.args,
        vec![CpdlcArgument::Direction("LEFT".to_string()), CpdlcArgument::Degrees(270)]
    );
    let right = build_command_element("L_TURN_RIGHT", &["90".to_string()], &reg).unwrap();
    assert_eq!(right.args[0], CpdlcArgument::Direction("RIGHT".to_string()));
    let direct = build_command_element("L_DIRECT_TO", &["lacou".to_string()], &reg).unwrap();
    assert_eq!(direct.args, vec![CpdlcArgument::Position("LACOU".to_string())]);
    // Unknown key, or a definition missing from the registry.
    assert!(build_command_element("NOPE", &[], &reg).is_none());
    assert!(build_command_element("O_SQUAWK", &["1234".to_string()], &reg).is_none());
}

#[test]
fn menu_commands_queue_elements_in_the_composer() {
    let reg = registry();
    let mut app = AppState::new(Vec::new(), 1);
    app.add_tab(2);
    app.tabs[1].cmd_arg_inputs = vec!["FL350".to_string()];
    add_command_element(&mut app, 2, "V_CLIMB_TO", &reg);
    assert_eq!(app.tabs[1].compose_elements.len(), 1);
    assert_eq!(app.tabs[1].compose_elements[0].id, "UM20");
    assert_eq!(app.tabs[1].compose_elements[0].args, vec![CpdlcArgument::Level(350)]);
    assert!(app.tabs[1].cmd_arg_inputs.is_empty());
    // A field that cannot be read queues nothing and keeps the fields.
    app.tabs[1].cmd_arg_inputs = vec!["high".to_string()];
    add_command_element(&mut app, 2, "V_CLIMB_TO", &reg);
    assert_eq!(app.tabs[1].compose_elements.len(), 1);
    assert_eq!(app.tabs[1].cmd_arg_inputs, vec!["high".to_string()]);
    // Other tabs and unknown tabs are untouched.
    add_command_element(&mut app, 9, "V_CLIMB_TO", &reg);
    assert!(app.tabs[0].compose_elements.is_empty());
}
