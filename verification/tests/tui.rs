use rusbee::device::{UsbDevice, UsbDeviceMetadata};
use rusbee::tui::{
    action_report, attach_binds_first, bool_label, centered_rect, detach_report, detail_line, detail_lines,
    device_cells, display_value, key_command, notification_area, notification_lines,
    notification_title, optional_u16, optional_value, select_next, select_previous,
    selected_device, Area, KeyCommand, Notification, NotificationKind, TuiAction, TuiEvent, TuiKey,
    TuiState,
};

fn device(busid: &str) -> UsbDevice {
    UsbDevice {
        busid: busid.to_string(),
        vendor_id: "1234".to_string(),
        product_id: "5678".to_string(),
        name: format!("Device {busid}"),
        bound: false,
        attached: false,
        attached_port: None,
        metadata: UsbDeviceMetadata::default(),
    }
}

fn area(width: u16, height: u16) -> Area {
    Area { x: 0, y: 0, width, height }
}

#[test]
fn selection_wraps_around() {
    assert_eq!(select_next(Some(2), 3), Some(0));
    assert_eq!(select_next(None, 3), Some(0));
    assert_eq!(select_next(Some(1), 0), None);
    assert_eq!(select_previous(Some(0), 3), Some(2));
    assert_eq!(select_previous(Some(2), 3), Some(1));
    assert_eq!(select_previous(Some(1), 0), None);
    for i in 0..4 {
        assert_eq!(select_previous(select_next(Some(i), 4), 4), Some(i));
        assert_eq!(select_next(select_previous(Some(i), 4), 4), Some(i));
    }
}

#[test]
fn selected_device_is_within_the_list() {
    let devices = vec![device("1-1"), device("1-2")];
    assert_eq!(selected_device(&devices, Some(1)).unwrap().busid, "1-2");
    assert!(selected_device(&devices, Some(2)).is_none());
    assert!(selected_device(&devices, None).is_none());
}

#[test]
fn cell_texts() {
    assert_eq!(display_value(""), "unknown");
    assert_eq!(display_value("x"), "x");
    assert_eq!(optional_value(None), "unknown");
    assert_eq!(optional_value(Some("v")), "v");
    assert_eq!(optional_u16(Some(4057)), "4057");
    assert_eq!(optional_u16(Some(0)), "0");
    assert_eq!(optional_u16(None), "unknown");
    assert_eq!(bool_label(true), "yes");
    assert_eq!(bool_label(false), "no");
    assert_eq!(notification_title(NotificationKind::Warning), " notice ");
}

#[test]
fn detail_line_pads_label_to_sixteen_columns() {
    assert_eq!(detail_line("BUSID", "1-2"), format!("{:<16} {}", "BUSID", "1-2"));
    assert_eq!(detail_line("A very long label!", "v"), "A very long label! v");
}

#[test]
fn detail_lines_of_a_device() {
    let mut d = device("1-2");
    d.attached_port = Some(3);
    d.metadata.serial = Some("S1".to_string());
    let lines = detail_lines(&d);
    assert_eq!(lines.len(), 18);
    assert_eq!(lines[0], format!("{:<16} {}", "BUSID", "1-2"));
    assert_eq!(lines[1], format!("{:<16} {}", "USBID", "1234:5678"));
    assert_eq!(lines[2], format!("{:<16} {}", "Manufacturer", "unknown"));
    assert_eq!(lines[7], format!("{:<16} {}", "Attached port", "3"));
    assert_eq!(lines[8], format!("{:<16} {}", "Serial", "S1"));
    assert_eq!(lines[17], format!("{:<16} {}", "Driver", "unknown"));
}

#[test]
fn device_cells_of_a_row() {
    let mut d = device("1-2");
    d.bound = true;
    assert_eq!(device_cells(&d), vec!["1-2", "1234:5678", "yes", "no", "unknown", "unknown"]);
}

#[test]
fn centered_rect_leaves_a_margin() {
    let r = centered_rect(area(100, 40), 74, 20);
    assert_eq!(r, Area { x: 13, y: 10, width: 74, height: 20 });
    let small = centered_rect(Area { x: 1, y: 1, width: 10, height: 5 }, 74, 20);
    assert_eq!(small, Area { x: 2, y: 2, width: 8, height: 3 });
}

#[test]
fn notification_area_sits_at_the_top_right() {
    let r = notification_area(area(100, 40), "short");
    assert_eq!(r, Area { x: 35, y: 1, width: 64, height: 3 });
    let long = "x".repeat(200);
    let r = notification_area(area(100, 40), &long);
    assert_eq!(r.height, 5);
    let narrow = notification_area(area(10, 3), "m");
    assert_eq!(narrow, Area { x: 0, y: 1, width: 24, height: 1 });
}

#[test]
fn notification_lines_wrap_and_truncate() {
    let box_area = Area { x: 0, y: 0, width: 7, height: 4 };
    assert_eq!(notification_lines("abcdefg", box_area), vec!["abcde", "fg"]);
    assert_eq!(notification_lines("abcdefghijklmno", box_area), vec!["abcde", "fg..."]);
    assert_eq!(notification_lines("a\n\nb", box_area), vec!["a", "..."]);
    assert_eq!(notification_lines("", box_area), Vec::<String>::new());
}

#[test]
fn notification_lines_never_exceed_the_box() {
    let box_area = Area { x: 0, y: 0, width: 10, height: 5 };
    let lines = notification_lines("one\ntwo\nthree\nfour\nfive", box_area);
    assert_eq!(lines.len(), 3);
    assert_eq!(lines[2], "three...");
}

#[test]
fn key_bindings() {
    assert_eq!(key_command(TuiKey::Char('q')), KeyCommand::Quit);
    assert_eq!(key_command(TuiKey::Char('j')), KeyCommand::Next);
    assert_eq!(key_command(TuiKey::Down), KeyCommand::Next);
    assert_eq!(key_command(TuiKey::Up), KeyCommand::Previous);
    assert_eq!(key_command(TuiKey::Esc), KeyCommand::CloseDetails);
    assert_eq!(key_command(TuiKey::Char('x')), KeyCommand::Ignore);
}

#[test]
fn refresh_selects_the_first_device() {
    let mut state = TuiState::new();
    assert_eq!(state.handle_event(TuiEvent::RefreshDue).0, TuiAction::StartRefresh);
    assert!(state.is_refreshing());
    assert_eq!(state.handle_event(TuiEvent::RefreshDue).0, TuiAction::Nothing);
    let devices = vec![device("1-1"), device("1-2")];
    state.handle_event(TuiEvent::RefreshFinished(Ok(devices)));
    assert_eq!(state.selected(), Some(0));
    assert_eq!(state.devices().len(), 2);
    assert!(!state.is_refreshing());
    state.handle_event(TuiEvent::Key(TuiKey::Down));
    assert_eq!(state.selected(), Some(1));
    state.handle_event(TuiEvent::RefreshFinished(Ok(vec![device("1-1")])));
    assert_eq!(state.selected(), Some(0));
    state.handle_event(TuiEvent::RefreshFinished(Ok(vec![])));
    assert_eq!(state.selected(), None);
}

#[test]
fn one_action_at_a_time() {
    let mut state = TuiState::new();
    state.handle_event(TuiEvent::RefreshFinished(Ok(vec![device("1-1")])));
    let (action, notified) = state.handle_event(TuiEvent::Key(TuiKey::Char('b')));
    assert_eq!(
        action,
        TuiAction::StartBind { busid: "1-1".to_string(), name: "Device 1-1".to_string() }
    );
    assert!(!notified);
    assert!(state.is_acting());
    assert_eq!(state.handle_event(TuiEvent::Key(TuiKey::Char('u'))).0, TuiAction::Nothing);
    let (action, notified) =
        state.handle_event(TuiEvent::ActionFinished(Ok("bound 1-1 (Device 1-1)".to_string())));
    assert_eq!(action, TuiAction::StartRefresh);
    assert!(notified);
    assert!(!state.is_acting());
    let n: &Notification = state.notification().as_ref().unwrap();
    assert_eq!(n.message, "bound 1-1 (Device 1-1)");
    assert_eq!(n.kind, NotificationKind::Success);
    let (action, _) = state.handle_event(TuiEvent::Key(TuiKey::Char('a')));
    assert!(matches!(action, TuiAction::StartAttach { .. }));
    let (action, _) = state.handle_event(TuiEvent::ActionFinished(Err("boom".to_string())));
    assert_eq!(action, TuiAction::RefreshSoon);
    assert_eq!(state.notification().as_ref().unwrap().kind, NotificationKind::Error);
}

#[test]
fn warnings_for_bound_or_detached_devices() {
    let mut bound = device("1-1");
    bound.bound = true;
    let mut state = TuiState::new();
    state.handle_event(TuiEvent::RefreshFinished(Ok(vec![bound])));
    let (action, notified) = state.handle_event(TuiEvent::Key(TuiKey::Char('b')));
    assert_eq!(action, TuiAction::Nothing);
    assert!(notified);
    assert_eq!(state.notification().as_ref().unwrap().message, "selected device is already bound");
    let (action, _) = state.handle_event(TuiEvent::Key(TuiKey::Char('d')));
    assert_eq!(action, TuiAction::Nothing);
    assert_eq!(state.notification().as_ref().unwrap().message, "selected device is not attached");
    state.handle_event(TuiEvent::NotificationExpired);
    assert!(state.notification().is_none());
}

#[test]
fn detach_starts_with_the_port_and_q_quits() {
    let mut d = device("1-1");
    d.attached = true;
    d.attached_port = Some(2);
    let mut state = TuiState::new();
    state.handle_event(TuiEvent::RefreshFinished(Ok(vec![d])));
    assert_eq!(
        state.handle_event(TuiEvent::Key(TuiKey::Char('d'))).0,
        TuiAction::StartDetach { port: 2 }
    );
    state.handle_event(TuiEvent::Key(TuiKey::Char('i')));
    assert!(state.show_details());
    state.handle_event(TuiEvent::Key(TuiKey::Esc));
    assert!(!state.show_details());
    assert_eq!(state.handle_event(TuiEvent::Key(TuiKey::Char('q'))).0, TuiAction::Quit);
}

#[test]
fn refresh_errors_become_notifications() {
    let mut state = TuiState::new();
    state.handle_event(TuiEvent::Key(TuiKey::Char('r')));
    let (_, notified) = state.handle_event(TuiEvent::RefreshFinished(Err("offline".to_string())));
    assert!(notified);
    assert_eq!(state.notification().as_ref().unwrap().message, "offline");
    assert!(!state.is_refreshing());
}

#[test]
fn action_reports() {
    assert_eq!(action_report("bound", "1-2", "Receiver"), "bound 1-2 (Receiver)");
    assert_eq!(detach_report(3), "detached port 3");
}

#[test]
fn attach_binds_only_unbound_devices() {
    let mut bound = device("1-3");
    bound.bound = true;
    let devices = vec![device("1-2"), bound];
    assert_eq!(attach_binds_first(&devices, "1-2"), Ok(true));
    assert_eq!(attach_binds_first(&devices, "1-3"), Ok(false));
    assert_eq!(
        attach_binds_first(&devices, "9-9"),
        Err("device 9-9 was not found".to_string())
    );
}
