use powerflow::device::{
    prefer_usb, Action, AttachDecision, ConnectionTable, DeviceEvent, DeviceMessage, DeviceState,
};
use powerflow::provider::InterfaceType;

fn event(udid: &str, name: &str, interface: InterfaceType, action: Action) -> DeviceEvent {
    DeviceEvent { udid: udid.to_string(), name: name.to_string(), interface, action }
}

#[test]
fn usb_is_preferred_only_over_other_interfaces() {
    assert!(prefer_usb(InterfaceType::WiFi, InterfaceType::USB));
    assert!(prefer_usb(InterfaceType::Unknown, InterfaceType::USB));
    assert!(!prefer_usb(InterfaceType::USB, InterfaceType::USB));
    assert!(!prefer_usb(InterfaceType::USB, InterfaceType::WiFi));
    assert!(!prefer_usb(InterfaceType::WiFi, InterfaceType::WiFi));
}

#[test]
fn device_state_tracks_interfaces_and_keeps_names() {
    let mut state = DeviceState::new();
    assert_eq!(state.name(&"u1".to_string()), None);
    state.apply_event(&event("u1", "iPhone", InterfaceType::USB, Action::Attached));
    state.apply_event(&event("u1", "renamed", InterfaceType::WiFi, Action::Attached));
    assert_eq!(state.name(&"u1".to_string()).as_deref(), Some("iPhone"));
    state.apply_event(&event("u1", "", InterfaceType::USB, Action::Detached));
    state.apply_event(&event("u1", "", InterfaceType::WiFi, Action::Detached));
    assert_eq!(state.name(&"u1".to_string()).as_deref(), Some("iPhone"));
    state.apply_event(&event("u2", "iPad", InterfaceType::WiFi, Action::Paired));
    assert_eq!(state.name(&"u2".to_string()).as_deref(), Some("iPad"));
}

#[test]
fn connection_table_keeps_both_and_polls_usb() {
    let mut table: ConnectionTable<&str> = ConnectionTable::new();
    let u = "u1".to_string();
    assert_eq!(table.decide_attach(&String::new(), InterfaceType::USB), AttachDecision::Ignore);
    assert_eq!(table.decide_attach(&u, InterfaceType::WiFi), AttachDecision::Connect);
    assert_eq!(table.connect(u.clone(), InterfaceType::WiFi, "wifi"), (None, None));
    assert_eq!(table.decide_attach(&u, InterfaceType::WiFi), AttachDecision::KeepExisting);
    assert_eq!(table.decide_attach(&u, InterfaceType::USB), AttachDecision::Connect);
    assert_eq!(table.connect(u.clone(), InterfaceType::USB, "usb"), (None, None));
    assert_eq!(table.connections().len(), 2);
    let targets = table.poll_targets();
    assert_eq!(targets.len(), 1);
    assert_eq!(targets[0].interface, InterfaceType::USB);
    assert_eq!(targets[0].conn, "usb");
    assert_eq!(table.polled(&u).unwrap().conn, "usb");
    assert_eq!(table.decide_attach(&u, InterfaceType::USB), AttachDecision::KeepExisting);
}

#[test]
fn detach_of_usb_falls_back_to_wifi() {
    let mut table: ConnectionTable<u8> = ConnectionTable::new();
    let u = "u1".to_string();
    table.connect(u.clone(), InterfaceType::USB, 7);
    table.connect(u.clone(), InterfaceType::WiFi, 8);
    table.connect("u2".to_string(), InterfaceType::WiFi, 9);
    assert_eq!(table.poll_targets().len(), 2);
    assert_eq!(table.detach(&u, InterfaceType::USB), Some(7));
    let p = table.polled(&u).unwrap();
    assert_eq!((p.interface, p.conn), (InterfaceType::WiFi, 8));
    assert_eq!(table.detach(&u, InterfaceType::USB), None);
    assert_eq!(table.detach(&u, InterfaceType::WiFi), Some(8));
    assert!(table.polled(&u).is_none());
    assert_eq!(table.connections().len(), 1);
    let targets = table.poll_targets();
    assert_eq!(targets.len(), 1);
    assert_eq!(targets[0].conn, 9);
}

#[test]
fn other_interface_never_joins_and_usb_takes_over() {
    let mut table: ConnectionTable<u8> = ConnectionTable::new();
    let u = "u1".to_string();
    assert_eq!(table.decide_attach(&u, InterfaceType::Unknown), AttachDecision::Connect);
    table.connect(u.clone(), InterfaceType::Unknown, 1);
    assert_eq!(table.polled(&u).unwrap().conn, 1);
    assert_eq!(table.decide_attach(&u, InterfaceType::WiFi), AttachDecision::KeepExisting);
    assert_eq!(table.decide_attach(&u, InterfaceType::Unknown), AttachDecision::KeepExisting);
    assert_eq!(table.decide_attach(&u, InterfaceType::USB), AttachDecision::Connect);
    assert_eq!(table.connect(u.clone(), InterfaceType::USB, 2), (None, Some(1)));
    assert_eq!(table.connections().len(), 1);
    assert_eq!(table.polled(&u).unwrap().conn, 2);
    assert_eq!(table.decide_attach(&u, InterfaceType::Unknown), AttachDecision::KeepExisting);
    assert_eq!(table.detach(&u, InterfaceType::USB), Some(2));
    assert!(table.polled(&u).is_none());
}

#[test]
fn wifi_replaces_its_own_connection() {
    let mut table: ConnectionTable<u8> = ConnectionTable::new();
    let u = "u1".to_string();
    table.connect(u.clone(), InterfaceType::WiFi, 2);
    assert_eq!(table.connect(u.clone(), InterfaceType::WiFi, 3), (Some(2), None));
    assert_eq!(table.polled(&u).unwrap().conn, 3);
}

#[test]
fn device_message_carries_its_device() {
    let m = DeviceMessage {
        device: 3u8,
        udid: "u".to_string(),
        interface: InterfaceType::USB,
        action: Action::Attached,
    };
    assert_eq!(m.device, 3);
    assert_eq!(m.action, Action::Attached);
}

#[test]
fn detach_undoes_attach() {
    let mut state = DeviceState::new();
    state.apply_event(&event("u1", "iPhone", InterfaceType::WiFi, Action::Attached));
    state.apply_event(&event("u2", "iPad", InterfaceType::USB, Action::Attached));
    state.apply_event(&event("u1", "other", InterfaceType::USB, Action::Attached));
    assert!(state.reachable_over(&"u1".to_string(), InterfaceType::USB));
    state.apply_event(&event("u1", "", InterfaceType::USB, Action::Detached));
    assert_eq!(state.name(&"u1".to_string()).as_deref(), Some("iPhone"));
    assert!(state.reachable_over(&"u1".to_string(), InterfaceType::WiFi));
    assert!(!state.reachable_over(&"u1".to_string(), InterfaceType::USB));
    assert_eq!(state.name(&"u2".to_string()).as_deref(), Some("iPad"));
    assert!(state.reachable_over(&"u2".to_string(), InterfaceType::USB));
}
