use openlink::gui_state::{
    active_view, apply_saved_station, claim_listener_tabs, complete_connection, edit_setup_field,
    mark_dialogue_responded, push_outgoing_message, push_outgoing_message_to,
    root_visible_messages, set_station_type, setup_is_complete, ActiveView, AppState,
    ReceivedMessage, SavedStation, SetupField, StationType, TabPhase, TabState,
};
use openlink::i18n::{t, Locale};
use openlink::translator::ResponseAttribute;

fn received(timestamp: i64, min: Option<u8>, mrn: Option<u8>, outgoing: bool) -> ReceivedMessage {
    ReceivedMessage {
        timestamp,
        raw_json: String::new(),
        from_callsign: None,
        to_callsign: None,
        display_text: Some(format!("row {timestamp}")),
        is_outgoing: outgoing,
        min,
        mrn,
        response_attr: Some(ResponseAttribute::WU),
        responded: false,
    }
}

#[test]
fn new_tab_is_fresh() {
    let tab = TabState::new(42);
    assert_eq!(tab.id, 42);
    assert_eq!(tab.label, "New");
    assert_eq!(tab.phase, TabPhase::Setup);
    assert_eq!(tab.setup.network_id, "demonetwork");
    assert_eq!(tab.setup.station_type, StationType::Aircraft);
    assert!(tab.messages.is_empty());
    assert!(tab.pending_uplink_cmd.is_none());
    assert!(!tab.compose_mode);
}

#[test]
fn start_up_state_has_one_active_tab() {
    let app = AppState::new(Vec::new(), 7);
    assert_eq!(app.tabs.len(), 1);
    assert_eq!(app.active_tab, 0);
    assert_eq!(app.tabs[0].id, 7);
}

#[test]
fn added_tab_becomes_active_and_is_found() {
    let mut app = AppState::new(Vec::new(), 1);
    assert!(app.tab_by_id(2).is_none());
    app.add_tab(2);
    app.add_tab(3);
    assert_eq!(app.tabs.len(), 3);
    assert_eq!(app.active_tab, 2);
    assert_eq!(app.tab_by_id(2).map(|t| t.id), Some(2));
    assert_eq!(app.tab_by_id(3).map(|t| t.label.clone()), Some("New".to_string()));
}

#[test]
fn closing_tabs_keeps_active_index_in_range() {
    let mut app = AppState::new(Vec::new(), 1);
    app.add_tab(2);
    app.add_tab(3);
    // Active is the last tab; closing it moves the active index back.
    app.close_tab(2);
    assert_eq!(app.tabs.len(), 2);
    assert_eq!(app.active_tab, 1);
    // Closing an earlier tab leaves the index where it is when still in range.
    app.add_tab(4);
    app.active_tab = 0;
    app.close_tab(1);
    assert_eq!(app.active_tab, 0);
    assert_eq!(app.tabs.iter().map(|t| t.id).collect::<Vec<_>>(), vec![1, 4]);
    // An index past the end changes nothing.
    app.close_tab(9);
    assert_eq!(app.tabs.len(), 2);
    // Closing every tab leaves the index as it was.
    app.close_tab(0);
    app.close_tab(0);
    assert!(app.tabs.is_empty());
    assert_eq!(app.active_tab, 0);
}

#[test]
fn tab_mut_by_id_changes_that_tab() {
    let mut app = AppState::new(Vec::new(), 1);
    app.add_tab(2);
    if let Some(tab) = app.tab_mut_by_id(1) {
        tab.logon_input = "LFPG".to_string();
    }
    assert_eq!(app.tabs[0].logon_input, "LFPG");
    assert_eq!(app.tabs[1].logon_input, "");
    assert!(app.tab_mut_by_id(5).is_none());
}

#[test]
fn outgoing_rows_land_in_their_tab() {
    let mut app = AppState::new(Vec::new(), 1);
    app.add_tab(2);
    push_outgoing_message_to(&mut app, 2, "CLIMB TO FL350", Some("AFR123"), 1000);
    push_outgoing_message(&mut app, 2, "LOGON REQUEST → LFPG", 2000);
    push_outgoing_message(&mut app, 9, "lost", 3000);
    assert!(app.tabs[0].messages.is_empty());
    let rows = &app.tabs[1].messages;
    assert_eq!(rows.len(), 2);
    assert_eq!(rows[0].display_text.as_deref(), Some("CLIMB TO FL350"));
    assert_eq!(rows[0].to_callsign.as_deref(), Some("AFR123"));
    assert_eq!(rows[0].timestamp, 1000);
    assert!(rows[0].is_outgoing);
    assert_eq!(rows[0].min, None);
    assert_eq!(rows[1].to_callsign, None);
    assert_eq!(rows[1].display_text.as_deref(), Some("LOGON REQUEST → LFPG"));
}

#[test]
fn closing_response_marks_the_answered_uplink() {
    let mut app = AppState::new(Vec::new(), 1);
    app.tabs[0].messages.push(received(1, Some(5), None, true));
    app.tabs[0].messages.push(received(2, Some(5), None, false));
    app.tabs[0].messages.push(received(3, Some(5), None, false));
    // A response that does not close the dialogue marks nothing.
    mark_dialogue_responded(&mut app, 1, Some(5), false);
    assert!(app.tabs[0].messages.iter().all(|m| !m.responded));
    // No MRN marks nothing.
    mark_dialogue_responded(&mut app, 1, None, true);
    assert!(app.tabs[0].messages.iter().all(|m| !m.responded));
    // The first received row numbered 5 is marked, not our own row.
    mark_dialogue_responded(&mut app, 1, Some(5), true);
    let flags: Vec<bool> = app.tabs[0].messages.iter().map(|m| m.responded).collect();
    assert_eq!(flags, vec![false, true, false]);
    // An unknown MIN or tab marks nothing more.
    mark_dialogue_responded(&mut app, 1, Some(9), true);
    mark_dialogue_responded(&mut app, 4, Some(5), true);
    let flags: Vec<bool> = app.tabs[0].messages.iter().map(|m| m.responded).collect();
    assert_eq!(flags, vec![false, true, false]);
}

#[test]
fn answers_to_uplinks_are_not_root_rows() {
    let rows = vec![
        received(1, Some(3), None, false),
        received(2, Some(0), Some(3), true),
        received(3, Some(1), Some(7), true),
        received(4, Some(2), None, true),
    ];
    let shown = root_visible_messages(&rows);
    let stamps: Vec<i64> = shown.iter().map(|m| m.timestamp).collect();
    assert_eq!(stamps, vec![1, 3, 4]);
    assert_eq!(shown[0].response_attr, Some(ResponseAttribute::WU));
    // A row never hides itself, even when its MRN equals its own MIN.
    let lone = vec![received(5, Some(2), Some(2), false)];
    assert_eq!(root_visible_messages(&lone).len(), 1);
}

#[test]
fn interface_strings_follow_the_locale() {
    let fr = t(Locale::Fr);
    let en = t(Locale::En);
    assert_eq!(fr.new_tab, "Nouveau");
    assert_eq!(en.new_tab, "New");
    assert_eq!(fr.setup_title, "Configuration de la station");
    assert_eq!(en.no_messages, "No messages");
    assert_eq!(fr.pilot_downlink, en.pilot_downlink);
    assert_eq!(t(Locale::Fr.next()).cancel, "CANCEL");
}

#[test]
fn setup_form_edits_reach_their_tab() {
    let mut app = AppState::new(Vec::new(), 1);
    app.add_tab(2);
    edit_setup_field(&mut app, 2, SetupField::Callsign, "afr123");
    edit_setup_field(&mut app, 2, SetupField::AcarsAddress, "39401a");
    edit_setup_field(&mut app, 2, SetupField::NetworkAddress, "765283");
    edit_setup_field(&mut app, 2, SetupField::NetworkId, "vatsim");
    set_station_type(&mut app, 2, StationType::Atc);
    let setup = &app.tabs[1].setup;
    assert_eq!(setup.callsign, "AFR123");
    assert_eq!(setup.acars_address, "39401A");
    assert_eq!(setup.network_address, "765283");
    assert_eq!(setup.network_id, "vatsim");
    assert_eq!(setup.station_type, StationType::Atc);
    // The other tab is untouched, and an unknown tab changes nothing.
    assert_eq!(app.tabs[0].setup.callsign, "");
    edit_setup_field(&mut app, 9, SetupField::Callsign, "x");
    assert_eq!(app.tabs[0].setup.callsign, "");
}

#[test]
fn connect_needs_every_field() {
    let mut app = AppState::new(Vec::new(), 1);
    assert!(!setup_is_complete(&app.tabs[0].setup));
    edit_setup_field(&mut app, 1, SetupField::NetworkAddress, "765283");
    edit_setup_field(&mut app, 1, SetupField::Callsign, "afr123");
    assert!(!setup_is_complete(&app.tabs[0].setup));
    edit_setup_field(&mut app, 1, SetupField::AcarsAddress, "39401A");
    assert!(setup_is_complete(&app.tabs[0].setup));
}

#[test]
fn saved_preset_fills_the_form() {
    let mut app = AppState::new(Vec::new(), 1);
    let preset = SavedStation {
        station_type: StationType::Atc,
        network_id: "vatsim".to_string(),
        network_address: "1".to_string(),
        callsign: "LFPG".to_string(),
        acars_address: "LFPGCYA".to_string(),
    };
    apply_saved_station(&mut app, 1, &preset);
    let setup = &app.tabs[0].setup;
    assert_eq!(setup.station_type, StationType::Atc);
    assert_eq!(setup.callsign, "LFPG");
    assert_eq!(setup.acars_address, "LFPGCYA");
}

#[test]
fn connecting_labels_the_tab_and_remembers_the_station() {
    let mut app = AppState::new(Vec::new(), 1);
    edit_setup_field(&mut app, 1, SetupField::NetworkAddress, "765283");
    edit_setup_field(&mut app, 1, SetupField::Callsign, "AFR123");
    edit_setup_field(&mut app, 1, SetupField::AcarsAddress, "39401A");
    let setup = app.tabs[0].setup.clone();
    assert!(complete_connection(&mut app, 1, &setup));
    assert_eq!(app.tabs[0].label, "AFR123");
    assert_eq!(app.tabs[0].phase, TabPhase::Connected(StationType::Aircraft));
    assert!(!app.tabs[0].nats_task_active);
    assert_eq!(app.saved_stations.len(), 1);
    assert_eq!(app.saved_stations[0].callsign, "AFR123");
    // Connecting the same station again keeps a single preset.
    assert!(!complete_connection(&mut app, 1, &setup));
    assert_eq!(app.saved_stations.len(), 1);
}

#[test]
fn listeners_are_claimed_once_per_connected_tab() {
    let mut app = AppState::new(Vec::new(), 1);
    app.add_tab(2);
    app.add_tab(3);
    app.tabs[1].phase = TabPhase::Connected(StationType::Atc);
    app.tabs[2].phase = TabPhase::Connected(StationType::Aircraft);
    app.tabs[2].nats_task_active = true;
    let claimed = claim_listener_tabs(&mut app);
    assert_eq!(claimed.iter().map(|(id, _)| *id).collect::<Vec<_>>(), vec![2]);
    assert!(app.tabs[1].nats_task_active);
    assert!(!app.tabs[0].nats_task_active);
    assert!(claim_listener_tabs(&mut app).is_empty());
}

#[test]
fn active_view_follows_the_active_tab() {
    let mut app = AppState::new(Vec::new(), 1);
    assert_eq!(active_view(&app), ActiveView::Setup(1));
    app.tabs[0].phase = TabPhase::Connected(StationType::Aircraft);
    assert_eq!(active_view(&app), ActiveView::Dcdu(1));
    app.add_tab(2);
    app.tabs[1].phase = TabPhase::Connected(StationType::Atc);
    assert_eq!(active_view(&app), ActiveView::Atc(2));
    app.close_tab(0);
    app.close_tab(0);
    assert_eq!(active_view(&app), ActiveView::Empty);
}

#[test]
fn closing_the_new_tab_restores_the_bar() {
    let mut app = AppState::new(Vec::new(), 1);
    app.add_tab(2);
    let ids_before: Vec<u128> = app.tabs.iter().map(|t| t.id).collect();
    app.add_tab(3);
    let last = app.tabs.len() - 1;
    app.close_tab(last);
    let ids_after: Vec<u128> = app.tabs.iter().map(|t| t.id).collect();
    assert_eq!(ids_after, ids_before);
    assert_eq!(app.active_tab, 1);
}
