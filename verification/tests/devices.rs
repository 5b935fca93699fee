use bluetooth_tracker::address::BluetoothAddress;
use bluetooth_tracker::bluez::{device_from_properties, sort_devices};
use bluetooth_tracker::cli::{NoteCommands, join_words};
use bluetooth_tracker::notes::{battery_message, note_message};
use bluetooth_tracker::order::{address_lt, str_lt, unique_addresses};
use bluetooth_tracker::storage::{BatteryOutcome, NoteOutcome, SpanBoundary};

#[test]
fn devices_come_from_bluez_properties() {
    let device = device_from_properties(
        "/org/bluez/hci0/dev_AA_BB_CC_DD_EE_FF".to_owned(),
        Some("aa:bb:cc:dd:ee:ff".to_owned()),
        Some("Alias".to_owned()),
        Some("Name".to_owned()),
        Some(true),
    )
    .unwrap();
    assert_eq!(device.address.as_str(), "AA:BB:CC:DD:EE:FF");
    assert_eq!(device.name.as_deref(), Some("Alias"));
    assert!(device.connected);

    let unnamed_alias =
        device_from_properties("p".to_owned(), Some("11:22:33:44:55:66".to_owned()), None, Some("Name".to_owned()), None)
            .unwrap();
    assert_eq!(unnamed_alias.name.as_deref(), Some("Name"));
    assert!(!unnamed_alias.connected);

    assert!(device_from_properties("p".to_owned(), None, None, None, Some(true)).is_none());
}

#[test]
fn devices_are_sorted_by_address_stably() {
    let make = |address: &str, path: &str| {
        device_from_properties(path.to_owned(), Some(address.to_owned()), None, None, Some(true)).unwrap()
    };
    let sorted = sort_devices(vec![
        make("bb:00:00:00:00:00", "first"),
        make("aa:00:00:00:00:00", "second"),
        make("bb:00:00:00:00:00", "third"),
    ]);
    let paths: Vec<&str> = sorted.iter().map(|d| d.path.as_str()).collect();
    assert_eq!(paths, vec!["second", "first", "third"]);
}

#[test]
fn addresses_are_deduplicated_and_sorted() {
    let a = BluetoothAddress::new_unchecked("aa:bb:cc:dd:ee:ff");
    let b = BluetoothAddress::new_unchecked("11:22:33:44:55:66");
    assert_eq!(unique_addresses(vec![a.clone(), b.clone(), a.clone()]), vec![b.clone(), a.clone()]);
    assert!(address_lt(&b, &a));
    assert!(!address_lt(&a, &a));
    assert!(str_lt("ab", "abc"));
    assert!(!str_lt("b", "abc"));
}

#[test]
fn note_words_are_joined_by_spaces() {
    assert_eq!(join_words(&vec!["coffee".to_owned(), "break".to_owned()]), "coffee break");
    assert_eq!(join_words(&Vec::new()), "");
    let command = NoteCommands::End { address: None, text: vec!["wrapped".to_owned(), "up".to_owned()] };
    assert_eq!(command.boundary(), SpanBoundary::End);
    assert!(command.address().is_none());
    assert_eq!(command.text(), "wrapped up");
}

#[test]
fn command_reports() {
    let a = BluetoothAddress::new_unchecked("aa:bb:cc:dd:ee:ff");
    assert_eq!(
        note_message(&NoteOutcome::ActiveSpan(a.clone()), SpanBoundary::Start),
        "Added start note to active span for AA:BB:CC:DD:EE:FF"
    );
    assert_eq!(
        note_message(&NoteOutcome::LatestSpan(a.clone()), SpanBoundary::End),
        "Added end note to latest span for AA:BB:CC:DD:EE:FF"
    );
    assert_eq!(
        battery_message(&BatteryOutcome::ActiveSpan(a.clone()), 55, "2026-06-28 12:00:00"),
        "Recorded 55% for AA:BB:CC:DD:EE:FF at 2026-06-28 12:00:00 on the active span"
    );
    assert_eq!(
        battery_message(&BatteryOutcome::LatestSpan(a), 100, "t"),
        "Recorded 100% for AA:BB:CC:DD:EE:FF at t on the latest completed span"
    );
}
