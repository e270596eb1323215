use openlink::atc_commands::{arg_type_label, command_uplink_id, selected_command, selected_group};
use openlink::dcdu::{dcdu_label, dcdu_wrap_24x4};
use openlink::responses::{
    action_btn_class, arrange_responses, is_positive_closure_intent, is_priority_response_intent,
    local_short_response_intent, CpdlcResponseIntent, ResponseGrid,
};
use openlink::translator::ArgType;
use CpdlcResponseIntent::{Affirm, Negative, Roger, Standby, Unable, Wilco};

/// The DCDU wrapping as the A320 view writes it, kept here as an oracle.
fn reference_wrap(text: &str) -> [String; 4] {
    let mut lines: Vec<String> = Vec::new();
    let mut current = String::new();

    for raw_word in text.split_whitespace() {
        let mut word = raw_word.to_uppercase();
        while word.chars().count() > 24 {
            let head: String = word.chars().take(24).collect();
            if !current.is_empty() {
                lines.push(current.trim_end().to_string());
                current.clear();
            }
            lines.push(head);
            word = word.chars().skip(24).collect();
            if lines.len() >= 4 {
                while lines.len() < 4 {
                    lines.push(String::new());
                }
                return [
                    format!("{:<24}", lines.first().cloned().unwrap_or_default()),
                    format!("{:<24}", lines.get(1).cloned().unwrap_or_default()),
                    format!("{:<24}", lines.get(2).cloned().unwrap_or_default()),
                    format!("{:<24}", lines.get(3).cloned().unwrap_or_default()),
                ];
            }
        }

        let candidate_len = if current.is_empty() {
            word.chars().count()
        } else {
            current.chars().count() + 1 + word.chars().count()
        };

        if candidate_len > 24 {
            lines.push(current.trim_end().to_string());
            current = word;
        } else {
            if !current.is_empty() {
                current.push(' ');
            }
            current.push_str(&word);
        }

        if lines.len() >= 4 {
            break;
        }
    }

    if lines.len() < 4 && !current.is_empty() {
        lines.push(current.trim_end().to_string());
    }

    while lines.len() < 4 {
        lines.push(String::new());
    }

    [
        format!("{:<24}", lines[0]),
        format!("{:<24}", lines[1]),
        format!("{:<24}", lines[2]),
        format!("{:<24}", lines[3]),
    ]
}

#[test]
fn dcdu_wrap_short_text() {
    let r = dcdu_wrap_24x4("climb to fl350");
    assert_eq!(r[0], format!("{:<24}", "CLIMB TO FL350"));
    assert_eq!(r[1], " ".repeat(24));
    assert_eq!(r[3].len(), 24);
}

#[test]
fn dcdu_wrap_breaks_lines_and_cuts_long_words() {
    let r = dcdu_wrap_24x4("ABCDEFGHIJKLMNOPQRSTUVWXYZ0123 end");
    assert_eq!(r[0], "ABCDEFGHIJKLMNOPQRSTUVWX");
    assert_eq!(r[1], format!("{:<24}", "YZ0123 END"));
}

#[test]
fn dcdu_wrap_matches_reference() {
    let samples = [
        "",
        "   ",
        "WILCO",
        "when able descend to fl240 then proceed direct to BOBIK and contact PARIS CONTROL 132.700",
        "a b c d e f g h i j k l m n o p q r s t u v w x y z aa bb cc dd ee ff gg hh ii jj kk ll mm",
        "ABCDEFGHIJKLMNOPQRSTUVWXYZABCDEFGHIJKLMNOPQRSTUVWXYZABCDEFGHIJKLMNOPQRSTUVWXYZABCDEFGHIJKLMNOPQRSTUVWXYZ",
        "short ABCDEFGHIJKLMNOPQRSTUVWXYZABCDEFGHIJKLMNOPQRSTUVWXYZ tail words here",
        "exactly twenty four char then more words to wrap around the screen lines",
        "\u{e9}t\u{e9} caf\u{e9}\tstra\u{df}e\nfin",
    ];
    for s in samples {
        assert_eq!(dcdu_wrap_24x4(s), reference_wrap(s), "input {s:?}");
    }
}

#[test]
fn dcdu_labels() {
    assert_eq!(dcdu_label("STANDBY"), "STBY");
    assert_eq!(dcdu_label("WILCO"), "WILCO");
}

#[test]
fn response_grid_layouts() {
    let g = arrange_responses(&[Wilco, Unable, Standby]);
    assert_eq!(
        g,
        ResponseGrid { top_left: Some(Unable), top_right: Some(Standby), bot_left: None, bot_right: Some(Wilco) }
    );
    let g = arrange_responses(&[Negative, Affirm]);
    assert_eq!(g.top_left, Some(Negative));
    assert_eq!(g.bot_right, Some(Affirm));
    assert_eq!(g.top_right, None);
    let g = arrange_responses(&[Roger, Standby]);
    assert_eq!(g.top_right, Some(Standby));
    assert_eq!(g.bot_right, Some(Roger));
    let g = arrange_responses(&[Unable, Standby, Negative]);
    assert_eq!(g.bot_right, Some(Unable));
    assert_eq!(g.top_right, Some(Standby));
    assert_eq!(g.top_left, Some(Negative));
    assert_eq!(g.bot_left, None);
    assert_eq!(
        arrange_responses(&[]),
        ResponseGrid { top_left: None, top_right: None, bot_left: None, bot_right: None }
    );
}

#[test]
fn intent_classes() {
    assert!(is_priority_response_intent(Standby));
    assert!(!is_priority_response_intent(Roger));
    assert!(is_positive_closure_intent(Affirm));
    assert!(!is_positive_closure_intent(Negative));
    assert_eq!(action_btn_class(Unable), "action-btn unable");
    assert_eq!(action_btn_class(Standby), "action-btn standby");
    assert_eq!(action_btn_class(Wilco), "action-btn");
}

#[test]
fn short_response_texts() {
    assert_eq!(local_short_response_intent(Some("  wilco ")), Some(CpdlcResponseIntent::Wilco));
    assert_eq!(local_short_response_intent(Some("Negative")), Some(CpdlcResponseIntent::Negative));
    assert_eq!(local_short_response_intent(Some("WILCO NOW")), None);
    assert_eq!(local_short_response_intent(None), None);
}

#[test]
fn command_menu_keys() {
    assert_eq!(selected_group("grp:vertical"), Some("vertical"));
    assert_eq!(selected_group("cmd:V_CLIMB_TO"), Some("vertical"));
    assert_eq!(selected_group("cmd:L_HOLD"), Some("lateral"));
    assert_eq!(selected_group("cmd:O_SPEED"), Some("other"));
    assert_eq!(selected_group("xyz"), None);
    assert_eq!(selected_command("cmd:O_SQUAWK"), Some("O_SQUAWK"));
    assert_eq!(selected_command("grp:x"), None);
    assert_eq!(command_uplink_id("L_TURN_RIGHT"), Some("UM94"));
    assert_eq!(command_uplink_id("O_FREETEXT"), Some("UM169"));
    assert_eq!(command_uplink_id("NOPE"), None);
    assert_eq!(arg_type_label(ArgType::Degrees), "HEADING");
    assert_eq!(arg_type_label(ArgType::PersonsOnBoard), "POB");
}
