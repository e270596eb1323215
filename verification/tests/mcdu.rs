use openlink::arguments::CpdlcArgument;
use openlink::mcdu::{pair_entries, McduEntry, McduInput};
use openlink::translator::ArgType;

fn entry(label: &str, id: &str, arg: Option<ArgType>) -> McduEntry {
    (label.to_string(), id.to_string(), arg)
}

#[test]
fn entries_pair_up_on_four_lines() {
    let entries = vec![
        entry("CLB", "DM9", Some(ArgType::Level)),
        entry("DES", "DM10", Some(ArgType::Level)),
        entry("DIR", "DM22", Some(ArgType::Position)),
    ];
    let pairs = pair_entries(&entries);
    assert_eq!(pairs.len(), 4);
    assert_eq!(pairs[0].0.as_ref().unwrap().1, "DM9");
    assert_eq!(pairs[0].1.as_ref().unwrap().1, "DM10");
    assert_eq!(pairs[1].0.as_ref().unwrap().1, "DM22");
    assert!(pairs[1].1.is_none());
    assert!(pairs[3].0.is_none() && pairs[3].1.is_none());
    let many: Vec<McduEntry> = (0..11).map(|i| entry("X", &format!("DM{i}"), None)).collect();
    let pairs = pair_entries(&many);
    assert_eq!(pairs.len(), 6);
    assert_eq!(pairs[5].0.as_ref().unwrap().1, "DM10");
    assert!(pairs[5].1.is_none());
}

#[test]
fn line_keys_queue_elements_from_the_scratchpad() {
    let mut input = McduInput::new();
    input.scratchpad = "fl350".to_string();
    input.press_entry("DM9", Some(ArgType::Level));
    assert_eq!(input.pending_elements.len(), 1);
    assert_eq!(input.pending_elements[0].args, vec![CpdlcArgument::Level(350)]);
    assert_eq!(input.field_values, vec![("DM9".to_string(), "fl350".to_string())]);
    assert_eq!(input.scratchpad, "");
    // A second value for the same element replaces the first.
    input.scratchpad = "370".to_string();
    input.press_entry("DM9", Some(ArgType::Level));
    assert_eq!(input.pending_elements.len(), 1);
    assert_eq!(input.pending_elements[0].args, vec![CpdlcArgument::Level(370)]);
    assert_eq!(input.field_values, vec![("DM9".to_string(), "370".to_string())]);
    // An unreadable scratchpad changes nothing.
    input.scratchpad = "high".to_string();
    input.press_entry("DM9", Some(ArgType::Level));
    assert_eq!(input.pending_elements.len(), 1);
    assert_eq!(input.scratchpad, "high");
    // Free text and entries without argument may repeat.
    input.scratchpad = "hello".to_string();
    input.press_entry("DM67", Some(ArgType::FreeText));
    input.scratchpad = "again".to_string();
    input.press_entry("DM67", Some(ArgType::FreeText));
    input.press_entry("DM20", None);
    input.press_entry("DM20", None);
    let ids: Vec<&str> = input.pending_elements.iter().map(|e| e.id.as_str()).collect();
    assert_eq!(ids, vec!["DM9", "DM67", "DM67", "DM20", "DM20"]);
    assert_eq!(input.scratchpad, "");
    input.erase();
    assert!(input.pending_elements.is_empty());
    assert!(input.field_values.is_empty());
}
