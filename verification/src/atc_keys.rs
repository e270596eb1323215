//! The keys of the ground station's terminal client: Tab moves between the
//! flight list and the command list, the arrows move the selection round
//! each list, Enter runs the selected command, `q` quits; while an argument
//! is being typed, keys edit it, Enter submits it and Esc cancels it.
use vstd::prelude::*;

verus! {

/// The list that the arrows move in.
#[derive(Debug, Clone, Copy, PartialEq, Eq, Structural)]
pub enum ActivePane {
    Flights,
    Commands,
}

/// A key press.
#[derive(Debug, Clone, Copy, PartialEq, Eq, Structural)]
pub enum Key {
    Char(char),
    Tab,
    Up,
    Down,
    Enter,
    Esc,
    Backspace,
    Other,
}

/// The navigation state of the client.
#[derive(Debug, Clone)]
pub struct AtcNav {
    pub pane: ActivePane,
    pub flight_sel: Option<usize>,
    pub command_sel: Option<usize>,
    /// An argument is being typed.
    pub editing: bool,
    /// The characters typed so far.
    pub input: Vec<char>,
    pub should_quit: bool,
}

pub struct AtcNavView {
    pub pane: ActivePane,
    pub flight_sel: Option<usize>,
    pub command_sel: Option<usize>,
    pub editing: bool,
    pub input: Seq<char>,
    pub should_quit: bool,
}

impl View for AtcNav {
    type V = AtcNavView;

    open spec fn view(&self) -> AtcNavView {
        AtcNavView {
            pane: self.pane,
            flight_sel: self.flight_sel,
            command_sel: self.command_sel,
            editing: self.editing,
            input: self.input@,
            should_quit: self.should_quit,
        }
    }
}

/// What a key asks the client to do besides moving.
#[derive(Debug, Clone, PartialEq, Eq)]
pub enum KeyOutcome {
    Nothing,
    /// Run the selected command.
    ExecuteCommand,
    /// Submit the typed argument to the pending command.
    Submit(Vec<char>),
    /// Drop the pending command.
    Cancel,
}

pub enum KeyOutcomeView {
    Nothing,
    ExecuteCommand,
    Submit(Seq<char>),
    Cancel,
}

impl View for KeyOutcome {
    type V = KeyOutcomeView;

    open spec fn view(&self) -> KeyOutcomeView {
        match self {
            KeyOutcome::Nothing => KeyOutcomeView::Nothing,
            KeyOutcome::ExecuteCommand => KeyOutcomeView::ExecuteCommand,
            KeyOutcome::Submit(v) => KeyOutcomeView::Submit(v@),
            KeyOutcome::Cancel => KeyOutcomeView::Cancel,
        }
    }
}

/// The selection after Down in a list of `len` lines: the next line, the
/// first after the last, the first when none is selected.
pub open spec fn sel_down(sel: Option<usize>, len: usize) -> Option<usize> {
    match sel {
        Some(i) => if i >= len - 1 {
            Some(0usize)
        } else {
            Some((i + 1) as usize)
        },
        None => Some(0usize),
    }
}

/// The selection after Up in a list of `len` lines: the previous line, the
/// last before the first, the first when none is selected.
pub open spec fn sel_up(sel: Option<usize>, len: usize) -> Option<usize> {
    match sel {
        Some(i) => if i == 0 {
            Some((len - 1) as usize)
        } else {
            Some((i - 1) as usize)
        },
        None => Some(0usize),
    }
}

/// A key that would move through an empty flight list from a selected line,
/// which the client cannot do.
pub open spec fn moves_in_empty_list(nav: AtcNavView, key: Key, flights: usize) -> bool {
    &&& !nav.editing
    &&& nav.pane == ActivePane::Flights
    &&& flights == 0
    &&& ((key == Key::Down && nav.flight_sel is Some) || (key == Key::Up && nav.flight_sel
        == Some(0usize)))
}

/// What a key does, with `flights` lines in the flight list and `commands`
/// the number of commands of the selected flight (`None` when no flight is
/// selected).
pub open spec fn spec_key_step(
    nav: AtcNavView,
    key: Key,
    flights: usize,
    commands: Option<usize>,
) -> (AtcNavView, KeyOutcomeView) {
    if nav.editing {
        match key {
            Key::Enter => (
                AtcNavView { editing: false, input: Seq::empty(), ..nav },
                KeyOutcomeView::Submit(nav.input),
            ),
            Key::Esc => (AtcNavView { editing: false, ..nav }, KeyOutcomeView::Cancel),
            Key::Char(c) => (AtcNavView { input: nav.input.push(c), ..nav }, KeyOutcomeView::Nothing),
            Key::Backspace => (
                AtcNavView {
                    input: if nav.input.len() > 0 {
                        nav.input.drop_last()
                    } else {
                        nav.input
                    },
                    ..nav
                },
                KeyOutcomeView::Nothing,
            ),
            _ => (nav, KeyOutcomeView::Nothing),
        }
    } else {
        match key {
            Key::Char(c) => if c == 'q' {
                (AtcNavView { should_quit: true, ..nav }, KeyOutcomeView::Nothing)
            } else {
                (nav, KeyOutcomeView::Nothing)
            },
            Key::Tab => if nav.pane == ActivePane::Flights {
                (
                    AtcNavView {
                        pane: ActivePane::Commands,
                        command_sel: Some(0usize),
                        ..nav
                    },
                    KeyOutcomeView::Nothing,
                )
            } else {
                (AtcNavView { pane: ActivePane::Flights, ..nav }, KeyOutcomeView::Nothing)
            },
            Key::Down => if nav.pane == ActivePane::Flights {
                (AtcNavView { flight_sel: sel_down(nav.flight_sel, flights), ..nav }, KeyOutcomeView::Nothing)
            } else {
                match commands {
                    Some(len) => if len > 0 {
                        (
                            AtcNavView { command_sel: sel_down(nav.command_sel, len), ..nav },
                            KeyOutcomeView::Nothing,
                        )
                    } else {
                        (nav, KeyOutcomeView::Nothing)
                    },
                    None => (nav, KeyOutcomeView::Nothing),
                }
            },
            Key::Up => if nav.pane == ActivePane::Flights {
                (AtcNavView { flight_sel: sel_up(nav.flight_sel, flights), ..nav }, KeyOutcomeView::Nothing)
            } else {
                match commands {
                    Some(len) => if len > 0 {
                        (
                            AtcNavView { command_sel: sel_up(nav.command_sel, len), ..nav },
                            KeyOutcomeView::Nothing,
                        )
                    } else {
                        (nav, KeyOutcomeView::Nothing)
                    },
                    None => (nav, KeyOutcomeView::Nothing),
                }
            },
            Key::Enter => if nav.pane == ActivePane::Commands {
                (nav, KeyOutcomeView::ExecuteCommand)
            } else {
                (nav, KeyOutcomeView::Nothing)
            },
            _ => (nav, KeyOutcomeView::Nothing),
        }
    }
}

fn down(sel: Option<usize>, len: usize) -> (r: Option<usize>)
    requires
        sel is Some ==> len > 0,
    ensures
        r == sel_down(sel, len),
{
    match sel {
        Some(i) => if i >= len - 1 {
            Some(0)
        } else {
            Some(i + 1)
        },
        None => Some(0),
    }
}

fn up(sel: Option<usize>, len: usize) -> (r: Option<usize>)
    requires
        sel == Some(0usize) ==> len > 0,
    ensures
        r == sel_up(sel, len),
{
    match sel {
        Some(i) => if i == 0 {
            Some(len - 1)
        } else {
            Some(i - 1)
        },
        None => Some(0),
    }
}

/// Apply a key to the navigation state.
pub fn atc_key_step(nav: &mut AtcNav, key: Key, flights: usize, commands: Option<usize>) -> (r:
    KeyOutcome)
    requires
        !moves_in_empty_list(old(nav)@, key, flights),
    ensures
        (final(nav)@, r@) == spec_key_step(old(nav)@, key, flights, commands),
{
    if nav.editing {
        match key {
            Key::Enter => {
                let mut typed: Vec<char> = Vec::new();
                std::mem::swap(&mut typed, &mut nav.input);
                nav.editing = false;
                KeyOutcome::Submit(typed)
            },
            Key::Esc => {
                nav.editing = false;
                KeyOutcome::Cancel
            },
            Key::Char(c) => {
                nav.input.push(c);
                KeyOutcome::Nothing
            },
            Key::Backspace => {
                if nav.input.len() > 0 {
                    nav.input.pop();
                }
                KeyOutcome::Nothing
            },
            _ => KeyOutcome::Nothing,
        }
    } else {
        match key {
            Key::Char(c) => {
                if c == 'q' {
                    nav.should_quit = true;
                }
                KeyOutcome::Nothing
            },
            Key::Tab => {
                if nav.pane == ActivePane::Flights {
                    nav.pane = ActivePane::Commands;
                    nav.command_sel = Some(0);
                } else {
                    nav.pane = ActivePane::Flights;
                }
                KeyOutcome::Nothing
            },
            Key::Down => {
                if nav.pane == ActivePane::Flights {
                    nav.flight_sel = down(nav.flight_sel, flights);
                } else {
                    match commands {
                        Some(len) => {
                            if len > 0 {
                                nav.command_sel = down(nav.command_sel, len);
                            }
                        },
                        None => {},
                    }
                }
                KeyOutcome::Nothing
            },
            Key::Up => {
                if nav.pane == ActivePane::Flights {
                    nav.flight_sel = up(nav.flight_sel, flights);
                } else {
                    match commands {
                        Some(len) => {
                            if len > 0 {
                                nav.command_sel = up(nav.command_sel, len);
                            }
                        },
                        None => {},
                    }
                }
                KeyOutcome::Nothing
            },
            Key::Enter => {
                if nav.pane == ActivePane::Commands {
                    KeyOutcome::ExecuteCommand
                } else {
                    KeyOutcome::Nothing
                }
            },
            _ => KeyOutcome::Nothing,
        }
    }
}

} // verus!
