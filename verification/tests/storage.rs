use bluetooth_tracker::address::BluetoothAddress;
use bluetooth_tracker::device::DeviceInfo;
use bluetooth_tracker::storage::{
    ActiveState, BatteryError, BatteryObservation, BatteryOutcome, BatterySource, ConnectOutcome,
    DisconnectOutcome, NoteError, NoteOutcome, Persist, SpanBoundary, SpanRecord, Store,
    mark_connected, mark_disconnected, normalize_note, record_battery_observation,
    record_manual_battery, set_span_note,
};
use bluetooth_tracker::timestamp::Timestamp;

fn at(hour: u8, minute: u8) -> Timestamp {
    let value = time::Date::from_calendar_date(2026, time::Month::June, 28)
        .unwrap()
        .with_hms(hour, minute, 0)
        .unwrap()
        .assume_utc();
    Timestamp::new(value.unix_timestamp(), value.nanosecond(), value.offset().whole_seconds())
}

fn device(address: &str, name: Option<&str>) -> DeviceInfo {
    let address = BluetoothAddress::new_unchecked(address);
    DeviceInfo {
        path: format!("/org/bluez/hci0/dev_{}", address.as_str().replace(':', "_")),
        address,
        name: name.map(str::to_owned),
        connected: true,
    }
}

fn completed_span(device: &DeviceInfo, started_at: Timestamp, ended_at: Timestamp) -> SpanRecord {
    SpanRecord {
        device_address: device.address.clone(),
        device_name: device.name.clone(),
        started_at,
        ended_at,
        start_source: "test-connect".to_owned(),
        end_source: "test-disconnect".to_owned(),
        end_uncertain: false,
        start_note: None,
        end_note: None,
        battery_observations: Vec::new(),
    }
}

fn empty_store() -> Store {
    Store { actives: Vec::new(), spans: Vec::new() }
}

fn closed(outcome: (DisconnectOutcome, Persist)) -> SpanRecord {
    match outcome.0 {
        DisconnectOutcome::Closed(record) => record,
        DisconnectOutcome::NoActiveSpan => panic!("expected span closure"),
    }
}

#[test]
fn span_duration_is_never_negative() {
    let device = device("aa:bb:cc:dd:ee:ff", None);
    let record = completed_span(&device, at(12, 10), at(12, 0));

    assert_eq!(record.duration_seconds(), 0);
}

#[test]
fn connected_then_disconnected_writes_one_span() {
    let mut store = empty_store();
    let device = device("aa:bb:cc:dd:ee:ff", Some("Keychron K3"));
    let started_at = at(12, 0);
    let ended_at = at(12, 10);

    assert_eq!(mark_connected(&mut store, &device, started_at, "test-connect"), ConnectOutcome::Started);
    assert_eq!(
        mark_connected(&mut store, &device, started_at, "test-connect"),
        ConnectOutcome::AlreadyActive
    );

    let (outcome, persist) = mark_disconnected(&mut store, &device, ended_at, "test-disconnect", false);
    assert_eq!(persist, Persist::SpansThenActives);
    let record = closed((outcome, persist));

    assert_eq!(record.duration_seconds(), 600);
    assert!(!record.end_uncertain);
    assert!(store.actives.is_empty());
    assert_eq!(store.spans, vec![record]);
}

#[test]
fn interrupted_disconnect_retry_removes_active_without_duplicate_span() {
    let mut store = empty_store();
    let device = device("aa:bb:cc:dd:ee:ff", Some("Keychron K3"));
    let started_at = at(12, 0);
    let record = completed_span(&device, started_at, at(12, 10));

    mark_connected(&mut store, &device, started_at, "test-connect");
    store.spans = vec![record.clone()];

    assert_eq!(
        mark_disconnected(&mut store, &device, at(12, 11), "retry-disconnect", true),
        (DisconnectOutcome::Closed(record.clone()), Persist::Actives)
    );
    assert!(store.actives.is_empty());
    assert_eq!(store.spans, vec![record]);
}

#[test]
fn connected_startup_recovers_interrupted_close_and_starts_new_span() {
    let mut store = empty_store();
    let device = device("aa:bb:cc:dd:ee:ff", Some("Keychron K3"));
    let stale_started_at = at(12, 0);
    let record = completed_span(&device, stale_started_at, at(12, 10));
    let new_started_at = at(12, 20);

    mark_connected(&mut store, &device, stale_started_at, "test-connect");
    store.spans = vec![record.clone()];

    assert_eq!(
        mark_connected(&mut store, &device, new_started_at, "startup-connected"),
        ConnectOutcome::Started
    );
    assert_eq!(store.actives.len(), 1);
    assert_eq!(store.actives[0].device_address, device.address);
    assert_eq!(store.actives[0].started_at, new_started_at);
    assert_eq!(store.actives[0].start_source, "startup-connected");
    assert_eq!(store.spans, vec![record]);
}

#[test]
fn interrupted_close_matching_uses_address_and_start_timestamp() {
    let mut store = empty_store();
    let kept_device = device("aa:bb:cc:dd:ee:ff", None);
    let other_device = device("11:22:33:44:55:66", None);
    let started_at = at(12, 0);
    let wrong_address = completed_span(&other_device, started_at, at(12, 5));
    let wrong_start = completed_span(&kept_device, at(11, 0), at(11, 5));

    mark_connected(&mut store, &kept_device, started_at, "test-connect");
    store.spans = vec![wrong_address.clone(), wrong_start.clone()];

    let record = closed(mark_disconnected(&mut store, &kept_device, at(12, 10), "test-disconnect", false));

    assert_eq!(record.device_address, kept_device.address);
    assert_eq!(record.started_at, started_at);
    assert_eq!(store.spans, vec![wrong_address, wrong_start, record]);
}

#[test]
fn active_span_notes_are_carried_to_closed_span() {
    let mut store = empty_store();
    let device = device("aa:bb:cc:dd:ee:ff", Some("Keychron K3"));

    mark_connected(&mut store, &device, at(12, 0), "test-connect");
    assert_eq!(
        set_span_note(&mut store, Some(&device.address), SpanBoundary::Start, "  focused   writing  "),
        Ok((NoteOutcome::ActiveSpan(device.address.clone()), Persist::Actives))
    );
    assert_eq!(
        set_span_note(&mut store, Some(&device.address), SpanBoundary::End, "wrapped up"),
        Ok((NoteOutcome::ActiveSpan(device.address.clone()), Persist::Actives))
    );

    mark_disconnected(&mut store, &device, at(12, 10), "test-disconnect", false);
    assert_eq!(store.spans[0].start_note.as_deref(), Some("focused writing"));
    assert_eq!(store.spans[0].end_note.as_deref(), Some("wrapped up"));
}

#[test]
fn note_without_active_span_updates_latest_completed_span() {
    let mut store = empty_store();
    let device = device("aa:bb:cc:dd:ee:ff", None);

    mark_connected(&mut store, &device, at(12, 0), "test-connect");
    mark_disconnected(&mut store, &device, at(12, 10), "test-disconnect", false);

    assert_eq!(
        set_span_note(&mut store, Some(&device.address), SpanBoundary::End, "coffee break"),
        Ok((NoteOutcome::LatestSpan(device.address.clone()), Persist::Spans))
    );
    assert_eq!(store.spans[0].end_note.as_deref(), Some("coffee break"));
}

#[test]
fn note_without_address_uses_only_active_device_or_latest_completed_span() {
    let mut store = empty_store();
    let device = device("aa:bb:cc:dd:ee:ff", None);

    mark_connected(&mut store, &device, at(12, 0), "test-connect");
    assert_eq!(
        set_span_note(&mut store, None, SpanBoundary::Start, "active note"),
        Ok((NoteOutcome::ActiveSpan(device.address.clone()), Persist::Actives))
    );
    mark_disconnected(&mut store, &device, at(12, 10), "test-disconnect", false);
    assert_eq!(
        set_span_note(&mut store, None, SpanBoundary::End, "completed note"),
        Ok((NoteOutcome::LatestSpan(device.address.clone()), Persist::Spans))
    );

    assert_eq!(store.spans[0].start_note.as_deref(), Some("active note"));
    assert_eq!(store.spans[0].end_note.as_deref(), Some("completed note"));
}

#[test]
fn note_without_address_rejects_multiple_active_devices() {
    let mut store = empty_store();
    let first = device("aa:bb:cc:dd:ee:ff", None);
    let second = device("11:22:33:44:55:66", None);
    mark_connected(&mut store, &first, at(12, 0), "first-connect");
    mark_connected(&mut store, &second, at(12, 1), "second-connect");

    assert!(set_span_note(&mut store, None, SpanBoundary::Start, "wrong").is_err());
    assert!(store.actives.iter().all(|active| active.start_note.is_none()));
}

#[test]
fn addressed_note_missing_active_span_does_not_update_latest_active() {
    let mut store = empty_store();
    let first = device("aa:bb:cc:dd:ee:ff", None);
    let second = device("11:22:33:44:55:66", None);
    let missing = BluetoothAddress::new_unchecked("77:88:99:AA:BB:CC");

    mark_connected(&mut store, &first, at(12, 0), "first-connect");
    mark_connected(&mut store, &second, at(12, 1), "second-connect");

    assert!(set_span_note(&mut store, Some(&missing), SpanBoundary::Start, "wrong").is_err());
    assert!(store.actives.iter().all(|active| active.start_note.is_none()));
    assert!(store.actives.iter().all(|active| active.end_note.is_none()));
}

#[test]
fn addressed_note_missing_completed_span_does_not_update_latest_completed() {
    let mut store = empty_store();
    let first = device("aa:bb:cc:dd:ee:ff", None);
    let second = device("11:22:33:44:55:66", None);
    let missing = BluetoothAddress::new_unchecked("77:88:99:AA:BB:CC");

    mark_connected(&mut store, &first, at(12, 0), "first-connect");
    mark_disconnected(&mut store, &first, at(12, 10), "first-disconnect", false);
    mark_connected(&mut store, &second, at(12, 20), "second-connect");
    mark_disconnected(&mut store, &second, at(12, 30), "second-disconnect", false);

    assert!(set_span_note(&mut store, Some(&missing), SpanBoundary::End, "wrong").is_err());
    assert!(store.spans.iter().all(|span| span.start_note.is_none()));
    assert!(store.spans.iter().all(|span| span.end_note.is_none()));
}

#[test]
fn disconnected_without_active_span_is_noop() {
    let mut store = empty_store();
    let device = device("aa:bb:cc:dd:ee:ff", None);

    assert_eq!(
        mark_disconnected(&mut store, &device, at(12, 10), "test-disconnect", false),
        (DisconnectOutcome::NoActiveSpan, Persist::Nothing)
    );
    assert!(store.spans.is_empty());
}

#[test]
fn uncertain_restart_closure_is_marked() {
    let mut store = empty_store();
    let device = device("aa:bb:cc:dd:ee:ff", None);

    mark_connected(&mut store, &device, at(12, 0), "startup-connected");
    let record = closed(mark_disconnected(&mut store, &device, at(12, 1), "startup-disconnected", true));

    assert!(record.end_uncertain);
    assert_eq!(record.duration_seconds(), 60);
}

#[test]
fn multiple_devices_can_be_active_simultaneously() {
    let mut store = empty_store();
    let first = device("aa:bb:cc:dd:ee:ff", None);
    let second = device("11:22:33:44:55:66", None);

    mark_connected(&mut store, &first, at(12, 0), "first-connect");
    assert_eq!(
        mark_connected(&mut store, &second, at(12, 1), "second-connect"),
        ConnectOutcome::Started
    );

    assert!(store.actives.iter().any(|active| active.device_address == first.address));
    assert!(store.actives.iter().any(|active| active.device_address == second.address));
}

#[test]
fn disconnecting_one_device_leaves_other_device_active() {
    let mut store = empty_store();
    let first = device("aa:bb:cc:dd:ee:ff", None);
    let second = device("11:22:33:44:55:66", None);

    mark_connected(&mut store, &first, at(12, 0), "first-connect");
    mark_connected(&mut store, &second, at(12, 1), "second-connect");
    mark_disconnected(&mut store, &first, at(12, 10), "first-disconnect", false);

    assert!(!store.actives.iter().any(|active| active.device_address == first.address));
    assert!(store.actives.iter().any(|active| active.device_address == second.address));
    assert_eq!(store.spans.len(), 1);
    assert_eq!(store.spans[0].device_address, first.address);
}

#[test]
fn battery_observations_are_carried_to_closed_span() {
    let mut store = empty_store();
    let device = device("aa:bb:cc:dd:ee:ff", None);
    let automatic = BatteryObservation {
        observed_at: at(12, 5),
        percentage: 80,
        source: BatterySource::BluezPropertiesChanged,
    };

    mark_connected(&mut store, &device, at(12, 0), "test-connect");
    assert_eq!(
        record_battery_observation(&mut store, Some(&device.address), automatic),
        Ok((BatteryOutcome::ActiveSpan(device.address.clone()), Persist::Actives))
    );
    assert_eq!(
        record_manual_battery(&mut store, Some(&device.address), 75, at(12, 6)),
        Ok((BatteryOutcome::ActiveSpan(device.address.clone()), Persist::Actives))
    );

    let span = closed(mark_disconnected(&mut store, &device, at(12, 10), "test-disconnect", false));

    assert_eq!(span.battery_observations.len(), 2);
    assert_eq!(span.battery_observations[0], automatic);
    assert_eq!(span.battery_observations[1].percentage, 75);
    assert_eq!(span.battery_observations[1].source, BatterySource::Manual);
    assert!(store.actives.is_empty());
}

#[test]
fn manual_battery_without_address_updates_latest_completed_span() {
    let mut store = empty_store();
    let device = device("aa:bb:cc:dd:ee:ff", None);

    mark_connected(&mut store, &device, at(12, 0), "test-connect");
    mark_disconnected(&mut store, &device, at(12, 10), "test-disconnect", false);

    assert_eq!(
        record_manual_battery(&mut store, None, 50, at(12, 20)),
        Ok((BatteryOutcome::LatestSpan(device.address.clone()), Persist::Spans))
    );
    assert_eq!(store.spans[0].battery_observations.len(), 1);
    assert_eq!(store.spans[0].battery_observations[0].percentage, 50);
}

#[test]
fn addressed_battery_requires_a_matching_span() {
    let mut store = empty_store();
    let address = BluetoothAddress::new_unchecked("aa:bb:cc:dd:ee:ff");
    let observation = BatteryObservation {
        observed_at: at(12, 5),
        percentage: 80,
        source: BatterySource::BluezPropertiesChanged,
    };

    assert!(record_battery_observation(&mut store, Some(&address), observation).is_err());
    assert!(store.actives.is_empty());
    assert!(store.spans.is_empty());
}

#[test]
fn battery_without_address_uses_only_active_device() {
    let mut store = empty_store();
    let device = device("aa:bb:cc:dd:ee:ff", None);
    mark_connected(&mut store, &device, at(12, 0), "test-connect");

    let outcome = record_battery_observation(
        &mut store,
        None,
        BatteryObservation { observed_at: at(12, 5), percentage: 80, source: BatterySource::Manual },
    );

    assert_eq!(outcome, Ok((BatteryOutcome::ActiveSpan(device.address.clone()), Persist::Actives)));
    assert_eq!(store.actives[0].battery_observations[0].percentage, 80);
}

#[test]
fn battery_without_address_rejects_multiple_active_devices() {
    let mut store = empty_store();
    let first = device("aa:bb:cc:dd:ee:ff", None);
    let second = device("11:22:33:44:55:66", None);
    mark_connected(&mut store, &first, at(12, 0), "first-connect");
    mark_connected(&mut store, &second, at(12, 1), "second-connect");

    assert!(
        record_battery_observation(
            &mut store,
            None,
            BatteryObservation { observed_at: at(12, 5), percentage: 80, source: BatterySource::Manual },
        )
        .is_err()
    );
    assert!(store.actives.iter().all(|active| active.battery_observations.is_empty()));
}

#[test]
fn battery_without_address_uses_latest_completed_span_when_none_are_active() {
    let mut store = empty_store();
    let first = device("aa:bb:cc:dd:ee:ff", None);
    let second = device("11:22:33:44:55:66", None);
    for (device, started_at, ended_at) in [(&first, at(12, 0), at(12, 10)), (&second, at(12, 20), at(12, 30))] {
        mark_connected(&mut store, device, started_at, "test-connect");
        mark_disconnected(&mut store, device, ended_at, "test-disconnect", false);
    }

    let outcome = record_battery_observation(
        &mut store,
        None,
        BatteryObservation { observed_at: at(12, 40), percentage: 50, source: BatterySource::Manual },
    );

    assert_eq!(outcome, Ok((BatteryOutcome::LatestSpan(second.address.clone()), Persist::Spans)));
    assert!(store.spans[0].battery_observations.is_empty());
    assert_eq!(store.spans[1].battery_observations[0].percentage, 50);
}

#[test]
fn manual_battery_requires_a_span() {
    let mut store = empty_store();
    let address = BluetoothAddress::new_unchecked("aa:bb:cc:dd:ee:ff");

    assert!(record_manual_battery(&mut store, Some(&address), 50, at(12, 0)).is_err());
}

#[test]
fn empty_note_errors() {
    assert!(normalize_note(" \n\t ").is_err());
}

#[test]
fn battery_errors_name_the_missing_device() {
    let mut store = empty_store();
    let address = BluetoothAddress::new_unchecked("aa:bb:cc:dd:ee:ff");
    let error = record_manual_battery(&mut store, Some(&address), 50, at(12, 0)).unwrap_err();

    assert_eq!(error, BatteryError::NoSpans(Some(address.clone())));
    assert_eq!(
        error.message(),
        "no active or completed spans for AA:BB:CC:DD:EE:FF to record a battery level"
    );
    let unnamed = record_manual_battery(&mut store, None, 50, at(12, 0)).unwrap_err();
    assert_eq!(unnamed, BatteryError::NoSpans(None));
    assert_eq!(unnamed.message(), "no active or completed spans to record a battery level");
}

#[test]
fn battery_error_for_several_active_spans() {
    let mut store = empty_store();
    mark_connected(&mut store, &device("aa:bb:cc:dd:ee:ff", None), at(12, 0), "first-connect");
    mark_connected(&mut store, &device("11:22:33:44:55:66", None), at(12, 1), "second-connect");

    let error = record_manual_battery(&mut store, None, 50, at(12, 5)).unwrap_err();
    assert_eq!(error, BatteryError::MultipleActiveSpans);
    assert_eq!(
        error.message(),
        "multiple active spans; specify an address to record a battery level"
    );
}

#[test]
fn note_errors_and_their_messages() {
    let mut store = empty_store();
    let address = BluetoothAddress::new_unchecked("aa:bb:cc:dd:ee:ff");

    assert_eq!(normalize_note(" \n\t "), Err(NoteError::Empty));
    assert_eq!(NoteError::Empty.message(), "note cannot be empty");
    assert_eq!(normalize_note(&"x".repeat(201)), Err(NoteError::TooLong));
    assert_eq!(normalize_note(&"x".repeat(200)), Ok("x".repeat(200)));
    assert_eq!(NoteError::TooLong.message(), "note must be 200 characters or fewer");

    let missing = set_span_note(&mut store, Some(&address), SpanBoundary::Start, "hello");
    assert_eq!(missing, Err(NoteError::NoSpans(Some(address.clone()))));
    assert_eq!(
        NoteError::NoSpans(Some(address.clone())).message(),
        "no active or completed spans for AA:BB:CC:DD:EE:FF to annotate"
    );
    assert_eq!(
        set_span_note(&mut store, None, SpanBoundary::Start, "hello"),
        Err(NoteError::NoSpans(None))
    );
    assert_eq!(NoteError::NoSpans(None).message(), "no active or completed spans to annotate");

    mark_connected(&mut store, &device("aa:bb:cc:dd:ee:ff", None), at(12, 0), "first-connect");
    mark_connected(&mut store, &device("11:22:33:44:55:66", None), at(12, 1), "second-connect");
    assert_eq!(
        set_span_note(&mut store, None, SpanBoundary::End, "hello"),
        Err(NoteError::MultipleActiveSpans)
    );
    assert_eq!(
        NoteError::MultipleActiveSpans.message(),
        "multiple active spans; specify an address to add a note"
    );
}

#[test]
fn notes_collapse_white_space() {
    assert_eq!(normalize_note("  a \t b\n\nc  "), Ok("a b c".to_owned()));
}

#[test]
fn addressed_note_prefers_the_open_span_over_completed_ones() {
    let mut store = empty_store();
    let device = device("aa:bb:cc:dd:ee:ff", None);
    mark_connected(&mut store, &device, at(12, 0), "test-connect");
    mark_disconnected(&mut store, &device, at(12, 10), "test-disconnect", false);
    mark_connected(&mut store, &device, at(12, 20), "test-connect");

    assert_eq!(
        set_span_note(&mut store, Some(&device.address), SpanBoundary::Start, "second"),
        Ok((NoteOutcome::ActiveSpan(device.address.clone()), Persist::Actives))
    );
    assert!(store.spans[0].start_note.is_none());
    assert_eq!(store.actives[0].start_note.as_deref(), Some("second"));
}

#[test]
fn span_boundary_labels() {
    assert_eq!(SpanBoundary::Start.label(), "start");
    assert_eq!(SpanBoundary::End.label(), "end");
    assert_eq!(BatterySource::Manual.name(), "manual");
    assert_eq!(BatterySource::BluezPropertiesChanged.name(), "bluez-properties-changed");
}

#[test]
fn closed_span_keeps_the_saved_name_when_bluez_reports_none() {
    let mut store = empty_store();
    let named = device("aa:bb:cc:dd:ee:ff", Some("Keychron K3"));
    let unnamed = DeviceInfo { name: None, connected: false, ..named.clone() };
    mark_connected(&mut store, &named, at(12, 0), "test-connect");

    let record = closed(mark_disconnected(&mut store, &unnamed, at(12, 30), "gone", true));
    assert_eq!(record.device_name.as_deref(), Some("Keychron K3"));
    assert_eq!(record.duration_seconds(), 1800);
    let active: Option<&ActiveState> = store.actives.first();
    assert!(active.is_none());
}

#[test]
fn a_stored_note_is_stored_unchanged_again() {
    let once = normalize_note("  focused \n  writing\t").unwrap();
    assert_eq!(normalize_note(&once), Ok(once.clone()));
    assert_eq!(once, "focused writing");
}

#[test]
fn a_disconnected_device_gets_no_open_span() {
    let mut store = empty_store();
    let mut device = device("aa:bb:cc:dd:ee:ff", None);
    device.connected = false;
    mark_disconnected(&mut store, &device, at(12, 0), "startup resync: device missing", true);
    assert!(store.actives.is_empty());
    assert!(store.spans.is_empty());
}

#[test]
fn readings_and_notes_keep_one_open_span_per_device() {
    let mut store = empty_store();
    let device = device("aa:bb:cc:dd:ee:ff", None);
    mark_connected(&mut store, &device, at(12, 0), "test-connect");
    mark_connected(&mut store, &device, at(12, 1), "test-connect");
    record_manual_battery(&mut store, None, 40, at(12, 2)).unwrap();
    set_span_note(&mut store, None, SpanBoundary::End, "done").unwrap();
    assert_eq!(store.actives.len(), 1);
    assert_eq!(store.actives[0].started_at, at(12, 0));
}
