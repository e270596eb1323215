use openlink::atc_keys::{atc_key_step, ActivePane, AtcNav, Key, KeyOutcome};

fn nav() -> AtcNav {
    AtcNav {
        pane: ActivePane::Flights,
        flight_sel: Some(0),
        command_sel: None,
        editing: false,
        input: Vec::new(),
        should_quit: false,
    }
}

#[test]
fn arrows_wrap_round_the_flight_list() {
    let mut n = nav();
    atc_key_step(&mut n, Key::Up, 3, None);
    assert_eq!(n.flight_sel, Some(2));
    atc_key_step(&mut n, Key::Down, 3, None);
    assert_eq!(n.flight_sel, Some(0));
    atc_key_step(&mut n, Key::Down, 3, None);
    assert_eq!(n.flight_sel, Some(1));
}

#[test]
fn tab_moves_to_the_commands_and_enter_runs_one() {
    let mut n = nav();
    assert_eq!(atc_key_step(&mut n, Key::Enter, 1, Some(2)), KeyOutcome::Nothing);
    atc_key_step(&mut n, Key::Tab, 1, Some(2));
    assert_eq!(n.pane, ActivePane::Commands);
    assert_eq!(n.command_sel, Some(0));
    atc_key_step(&mut n, Key::Up, 1, Some(2));
    assert_eq!(n.command_sel, Some(1));
    // No commands: the selection stays.
    atc_key_step(&mut n, Key::Down, 1, Some(0));
    assert_eq!(n.command_sel, Some(1));
    assert_eq!(atc_key_step(&mut n, Key::Enter, 1, Some(2)), KeyOutcome::ExecuteCommand);
    atc_key_step(&mut n, Key::Tab, 1, Some(2));
    assert_eq!(n.pane, ActivePane::Flights);
}

#[test]
fn typing_an_argument() {
    let mut n = nav();
    n.editing = true;
    atc_key_step(&mut n, Key::Char('F'), 1, None);
    atc_key_step(&mut n, Key::Char('L'), 1, None);
    atc_key_step(&mut n, Key::Char('X'), 1, None);
    atc_key_step(&mut n, Key::Backspace, 1, None);
    atc_key_step(&mut n, Key::Char('q'), 1, None);
    assert!(!n.should_quit);
    assert_eq!(atc_key_step(&mut n, Key::Enter, 1, None), KeyOutcome::Submit(vec!['F', 'L', 'q']));
    assert!(!n.editing);
    assert!(n.input.is_empty());
    n.editing = true;
    assert_eq!(atc_key_step(&mut n, Key::Esc, 1, None), KeyOutcome::Cancel);
    assert!(!n.editing);
}

#[test]
fn q_quits_outside_editing() {
    let mut n = nav();
    atc_key_step(&mut n, Key::Char('q'), 1, None);
    assert!(n.should_quit);
}
