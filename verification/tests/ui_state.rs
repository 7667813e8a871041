use snart_laser::ui_state::{
    push_log_line, toggle_menu, DeviceStatus, MenuId, PrefTab, PreferencesState, RightTab,
    StatusEvent, DEVICE_LOG_LIMIT,
};

#[test]
fn menu_toggling() {
    assert_eq!(toggle_menu(None, MenuId::File), Some(MenuId::File));
    assert_eq!(toggle_menu(Some(MenuId::File), MenuId::File), None);
    assert_eq!(toggle_menu(Some(MenuId::File), MenuId::View), Some(MenuId::View));
    assert_eq!(toggle_menu(toggle_menu(None, MenuId::View), MenuId::View), None);
}

#[test]
fn defaults() {
    assert_eq!(RightTab::default(), RightTab::Layers);
    assert_eq!(PrefTab::default(), PrefTab::Visual);
    let p = PreferencesState::default();
    assert_eq!(p.tab, PrefTab::Visual);
    assert!(p.capturing.is_none());
}

#[test]
fn log_is_trimmed_past_limit() {
    let mut log: Vec<String> = (0..DEVICE_LOG_LIMIT).map(|i| i.to_string()).collect();
    push_log_line(&mut log, "new".to_owned());
    assert_eq!(log.len(), 401);
    assert_eq!(log[0], "100");
    assert_eq!(log[400], "new");
    push_log_line(&mut log, "next".to_owned());
    assert_eq!(log.len(), 402);
}

fn status() -> DeviceStatus {
    DeviceStatus { connected: false, log: Vec::new(), job_progress: None, status: "Ready".to_owned() }
}

#[test]
fn status_events() {
    let mut s = status();
    s.apply(StatusEvent::Connected);
    assert!(s.connected);
    assert_eq!(s.log, vec!["Connected"]);
    s.apply(StatusEvent::LineReceived("ok".to_owned()));
    s.apply(StatusEvent::JobProgress(40));
    assert_eq!(s.job_progress, Some(40));
    s.apply(StatusEvent::Message("Send error".to_owned()));
    assert_eq!(s.status, "Send error");
    s.apply(StatusEvent::JobFinished(false));
    assert_eq!(s.job_progress, None);
    assert_eq!(s.status, "Job finished with errors");
    s.apply(StatusEvent::JobFinished(true));
    assert_eq!(s.status, "Job finished successfully");
    s.apply(StatusEvent::Disconnected);
    assert!(!s.connected);
    assert_eq!(s.log, vec!["Connected", "ok", "Send error", "Disconnected"]);
}

use snart_laser::ui_state::{menu_after_message, selected_after_removal};

#[test]
fn menus_close_on_other_messages() {
    assert_eq!(menu_after_message(Some(MenuId::View), None), None);
    assert_eq!(menu_after_message(None, Some(MenuId::View)), Some(MenuId::View));
    assert_eq!(menu_after_message(Some(MenuId::View), Some(MenuId::View)), None);
}

#[test]
fn selection_after_layer_removal() {
    assert_eq!(selected_after_removal(3, 0), None);
    assert_eq!(selected_after_removal(0, 2), Some(0));
    assert_eq!(selected_after_removal(3, 5), Some(2));
}

use snart_laser::ui_state::{baud_from_choice, baud_options, profile_index_by_name, selected_entry};

#[test]
fn device_settings_choices() {
    let bauds = baud_options();
    assert_eq!(bauds, vec!["9600", "19200", "38400", "57600", "115200", "230400"]);
    assert_eq!(selected_entry(&bauds, "57600"), Some("57600".to_owned()));
    assert_eq!(selected_entry(&bauds, "250000"), None);
    assert_eq!(baud_from_choice("9600"), 9600);
    assert_eq!(baud_from_choice("+19200"), 19200);
    assert_eq!(baud_from_choice("fast"), 115200);
    assert_eq!(baud_from_choice("4294967296"), 115200);
    let names: Vec<String> = vec!["Laser".to_owned(), "Cutter".to_owned(), "Cutter".to_owned()];
    assert_eq!(profile_index_by_name(&names, "Cutter"), 1);
    assert_eq!(profile_index_by_name(&names, "None"), 0);
}
