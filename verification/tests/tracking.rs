use bluetooth_tracker::address::BluetoothAddress;
use bluetooth_tracker::device::DeviceInfo;
use bluetooth_tracker::storage::{ConnectOutcome, Store, mark_connected};
use bluetooth_tracker::timestamp::Timestamp;
use bluetooth_tracker::tracking::{
    Applied, Observation, ResyncTrigger, WatchAction, WatchEvent, Watcher, apply_observed_state,
    connected_message, device_label, device_status, known_device_addresses, mark_all_disconnected,
    observe_address, sleep_observation, status_addresses, track_device, tracking_message,
    close_spans_for_sleep, status_lines,
};

fn at(hour: u8, minute: u8) -> Timestamp {
    let value = time::Date::from_calendar_date(2026, time::Month::July, 1)
        .unwrap()
        .with_hms(hour, minute, 0)
        .unwrap()
        .assume_utc();
    Timestamp::new(value.unix_timestamp(), value.nanosecond(), value.offset().whole_seconds())
}

fn connected_device() -> DeviceInfo {
    DeviceInfo {
        path: "/org/bluez/hci0/dev_AA_BB_CC_DD_EE_FF".to_owned(),
        address: BluetoothAddress::new_unchecked("AA:BB:CC:DD:EE:FF"),
        name: Some("Keychron K3".to_owned()),
        connected: true,
    }
}

fn observation(trigger: &str, observation: &str, end_uncertain: bool) -> Observation {
    Observation { trigger: trigger.to_owned(), observation: observation.to_owned(), end_uncertain }
}

#[test]
fn connected_observation_starts_span_with_source() {
    let mut store = Store { actives: Vec::new(), spans: Vec::new() };
    let device = connected_device();

    apply_observed_state(
        &mut store,
        &device,
        at(12, 0),
        &observation("startup resync", "device reported connected", false),
    );

    assert_eq!(store.actives.len(), 1);
    assert_eq!(store.actives[0].start_source, "startup resync: device reported connected");
}

#[test]
fn system_sleep_closes_active_span_as_certain() {
    let mut store = Store { actives: Vec::new(), spans: Vec::new() };
    let mut device = connected_device();

    mark_connected(&mut store, &device, at(12, 0), "test-connect");
    device.connected = false;
    apply_observed_state(
        &mut store,
        &device,
        at(12, 30),
        &observation("system sleep signal", "system entering sleep", false),
    );

    assert_eq!(store.spans.len(), 1);
    assert_eq!(store.spans[0].duration_seconds(), 1800);
    assert_eq!(store.spans[0].end_source, "system sleep signal: system entering sleep");
    assert!(!store.spans[0].end_uncertain);
}

#[test]
fn missing_device_closes_active_span_as_uncertain_and_keeps_saved_name() {
    let mut store = Store { actives: Vec::new(), spans: Vec::new() };
    let device = connected_device();

    mark_connected(&mut store, &device, at(12, 0), "test-connect");
    let missing_device =
        DeviceInfo { path: String::new(), address: device.address.clone(), name: None, connected: false };
    apply_observed_state(
        &mut store,
        &missing_device,
        at(12, 30),
        &observation("startup resync", "device missing", true),
    );

    assert_eq!(store.spans.len(), 1);
    assert_eq!(store.spans[0].duration_seconds(), 1800);
    assert_eq!(store.spans[0].end_source, "startup resync: device missing");
    assert!(store.spans[0].end_uncertain);
    assert_eq!(store.spans[0].device_name.as_deref(), Some("Keychron K3"));
    assert!(store.actives.is_empty());
}

#[test]
fn repeated_connection_keeps_the_open_span() {
    let mut store = Store { actives: Vec::new(), spans: Vec::new() };
    let device = connected_device();
    let source = observation("periodic resync", "device reported connected", false);
    let first = apply_observed_state(&mut store, &device, at(12, 0), &source);
    let second = apply_observed_state(&mut store, &device, at(12, 5), &source);
    assert!(matches!(first, Applied::Connected(ConnectOutcome::Started)));
    assert!(matches!(second, Applied::Connected(ConnectOutcome::AlreadyActive)));
    assert_eq!(store.actives.len(), 1);
    assert_eq!(store.actives[0].started_at, at(12, 0));
}

#[test]
fn resync_reports_each_configured_address() {
    let device = connected_device();
    let mut asleep = device.clone();
    asleep.connected = false;
    let address = device.address.clone();

    let (seen, what) = observe_address(&vec![device.clone()], &address, "startup resync");
    assert_eq!(seen, device);
    assert_eq!(what.source(), "startup resync: device reported connected");
    assert!(!what.end_uncertain);

    let (seen, what) = observe_address(&vec![asleep.clone()], &address, "periodic resync");
    assert_eq!(seen, asleep);
    assert_eq!(what.source(), "periodic resync: device reported disconnected");
    assert!(what.end_uncertain);

    let (seen, what) = observe_address(&Vec::new(), &address, "wake resync");
    assert_eq!(seen.path, "");
    assert_eq!(seen.address, address);
    assert_eq!(seen.name, None);
    assert!(!seen.connected);
    assert_eq!(what.source(), "wake resync: device missing");
    assert!(what.end_uncertain);
}

#[test]
fn kept_devices_follow_resyncs() {
    let device = connected_device();
    let mut devices: Vec<DeviceInfo> = Vec::new();
    track_device(&mut devices, &device.address, Some(&device));
    assert_eq!(devices, vec![device.clone()]);
    track_device(&mut devices, &device.address, None);
    assert_eq!(devices.len(), 1);
    assert!(!devices[0].connected);
    assert_eq!(devices[0].name.as_deref(), Some("Keychron K3"));
    let other = BluetoothAddress::new_unchecked("11:22:33:44:55:66");
    track_device(&mut devices, &other, None);
    assert_eq!(devices.len(), 1);

    let mut all = vec![connected_device(), connected_device()];
    mark_all_disconnected(&mut all);
    assert!(all.iter().all(|d| !d.connected));
}

#[test]
fn watcher_messages() {
    let device = connected_device();
    assert_eq!(device_label(&device), "Keychron K3 (AA:BB:CC:DD:EE:FF)");
    assert_eq!(tracking_message(&Vec::new(), 1), "Tracking 1 configured device; none currently visible");
    assert_eq!(tracking_message(&Vec::new(), 2), "Tracking 2 configured devices; none currently visible");
    let mut plain = device.clone();
    plain.name = None;
    assert_eq!(
        tracking_message(&vec![device.clone(), plain], 2),
        "Tracking Keychron K3 (AA:BB:CC:DD:EE:FF), AA:BB:CC:DD:EE:FF"
    );
    assert_eq!(
        connected_message(&device, "startup resync: device reported connected", "2026-07-01 12:00:00"),
        "Connected Keychron K3 (AA:BB:CC:DD:EE:FF) via startup resync: device reported connected at 2026-07-01 12:00:00"
    );
    let sleep = sleep_observation();
    assert_eq!(sleep.source(), "system sleep signal: system entering sleep");
    assert!(!sleep.end_uncertain);
}

#[test]
fn watcher_sleeps_and_wakes() {
    let mut watcher = Watcher::new();
    assert!(!watcher.sleeping());
    assert_eq!(watcher.step(WatchEvent::ResyncTimer), WatchAction::Resync(ResyncTrigger::Periodic));
    assert_eq!(watcher.step(WatchEvent::DevicePropertiesChanged), WatchAction::InspectChange);
    assert_eq!(watcher.step(WatchEvent::ConnectedChanged), WatchAction::Resync(ResyncTrigger::Change));
    assert_eq!(watcher.step(WatchEvent::PrepareForSleep(true)), WatchAction::EnterSleep);
    assert!(watcher.sleeping());
    assert_eq!(watcher.step(WatchEvent::PrepareForSleep(true)), WatchAction::Ignore);
    assert_eq!(watcher.step(WatchEvent::ResyncTimer), WatchAction::Ignore);
    assert_eq!(watcher.step(WatchEvent::ConnectedChanged), WatchAction::Ignore);
    assert_eq!(watcher.step(WatchEvent::DevicePropertiesChanged), WatchAction::Ignore);
    assert_eq!(watcher.step(WatchEvent::PrepareForSleep(false)), WatchAction::Resync(ResyncTrigger::Wake));
    assert!(!watcher.sleeping());
    assert_eq!(watcher.step(WatchEvent::Interrupted), WatchAction::Stop);
    assert_eq!(ResyncTrigger::Startup.text(), "startup resync");
    assert_eq!(ResyncTrigger::Change.text(), "BlueZ change signal");
}

#[test]
fn status_lists_known_devices_once_in_order() {
    let mut store = Store { actives: Vec::new(), spans: Vec::new() };
    let first = connected_device();
    let mut second = connected_device();
    second.address = BluetoothAddress::new_unchecked("11:22:33:44:55:66");
    mark_connected(&mut store, &first, at(12, 0), "test-connect");
    mark_connected(&mut store, &second, at(12, 1), "test-connect");
    let known = known_device_addresses(&store);
    assert_eq!(known, vec![second.address.clone(), first.address.clone()]);

    let requested = vec![first.address.clone(), second.address.clone(), first.address.clone()];
    assert_eq!(status_addresses(requested, &store), vec![second.address.clone(), first.address.clone()]);
    assert_eq!(status_addresses(Vec::new(), &store), known);
}

#[test]
fn status_of_a_device() {
    let mut store = Store { actives: Vec::new(), spans: Vec::new() };
    let device = connected_device();
    mark_connected(&mut store, &device, at(12, 0), "test-connect");

    let status = device_status(&device.address, &Vec::new(), &store, at(12, 30));
    assert_eq!(status.name, "Keychron K3");
    assert_eq!(status.connected, None);
    let active = status.active.unwrap();
    assert_eq!(active.started_at, at(12, 0));
    assert_eq!(active.elapsed_seconds, 1800);

    let mut renamed = device.clone();
    renamed.name = Some("K3".to_owned());
    let status = device_status(&device.address, &vec![renamed], &store, at(12, 30));
    assert_eq!(status.name, "K3");
    assert_eq!(status.connected, Some(true));

    let unknown = BluetoothAddress::new_unchecked("11:22:33:44:55:66");
    let status = device_status(&unknown, &Vec::new(), &store, at(12, 30));
    assert_eq!(status.name, "");
    assert!(status.active.is_none());
}

#[test]
fn status_lines_show_the_open_span() {
    let mut store = Store { actives: Vec::new(), spans: Vec::new() };
    let device = connected_device();
    mark_connected(&mut store, &device, at(12, 0), "test-connect");
    bluetooth_tracker::storage::set_span_note(
        &mut store,
        None,
        bluetooth_tracker::storage::SpanBoundary::Start,
        "focused",
    )
    .unwrap();

    let status = device_status(&device.address, &vec![device.clone()], &store, at(13, 2));
    assert_eq!(
        status_lines(&status, "2026-07-01 12:00:00"),
        vec![
            "Address: AA:BB:CC:DD:EE:FF",
            "Name: Keychron K3",
            "Connected: yes",
            "Active span: yes",
            "Started: 2026-07-01 12:00:00",
            "Elapsed: 1h 2m 0s",
            "Start note: focused",
        ]
    );

    let unknown = BluetoothAddress::new_unchecked("11:22:33:44:55:66");
    let status = device_status(&unknown, &Vec::new(), &store, at(13, 2));
    assert_eq!(
        status_lines(&status, ""),
        vec!["Address: 11:22:33:44:55:66", "Name: ", "Connected: unknown", "Active span: no"]
    );
}

#[test]
fn sleep_closes_every_tracked_span_at_the_same_time() {
    let mut store = Store { actives: Vec::new(), spans: Vec::new() };
    let first = connected_device();
    let mut second = connected_device();
    second.address = BluetoothAddress::new_unchecked("11:22:33:44:55:66");
    second.name = None;
    let mut third = connected_device();
    third.address = BluetoothAddress::new_unchecked("77:88:99:AA:BB:CC");
    mark_connected(&mut store, &first, at(12, 0), "test-connect");
    mark_connected(&mut store, &second, at(12, 10), "test-connect");

    let mut devices = vec![first.clone(), second.clone(), third.clone()];
    let (outcomes, persist) = close_spans_for_sleep(&mut store, &mut devices, at(12, 30));

    assert!(devices.iter().all(|d| !d.connected));
    assert!(store.actives.is_empty());
    assert_eq!(store.spans.len(), 2);
    assert!(store.spans.iter().all(|span| span.ended_at == at(12, 30)
        && span.end_source == "system sleep signal: system entering sleep"
        && !span.end_uncertain));
    assert_eq!(store.spans[1].duration_seconds(), 1200);
    assert_eq!(persist, bluetooth_tracker::storage::Persist::SpansThenActives);
    assert_eq!(outcomes.len(), 3);
    assert!(matches!(outcomes[2], bluetooth_tracker::storage::DisconnectOutcome::NoActiveSpan));

    let (again, nothing) = close_spans_for_sleep(&mut store, &mut devices, at(12, 40));
    assert_eq!(nothing, bluetooth_tracker::storage::Persist::Nothing);
    assert!(again.iter().all(|o| matches!(o, bluetooth_tracker::storage::DisconnectOutcome::NoActiveSpan)));
    assert_eq!(store.spans.len(), 2);
}
