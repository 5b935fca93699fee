use bluetooth_tracker::address::BluetoothAddress;
use bluetooth_tracker::display::format_timestamp_value;
use bluetooth_tracker::report::{
    battery_observation_line, collect_battery_observations, current_span_line, device_label, note_line,
    recent_start, report_lines, select_for_report, selected, span_line,
};
use bluetooth_tracker::storage::{ActiveState, BatteryObservation, BatterySource, SpanRecord, Store};
use bluetooth_tracker::timestamp::Timestamp;

fn at(hour: u8, minute: u8) -> Timestamp {
    let value = time::Date::from_calendar_date(2026, time::Month::June, 28)
        .unwrap()
        .with_hms(hour, minute, 0)
        .unwrap()
        .assume_utc();
    Timestamp::new(value.unix_timestamp(), value.nanosecond(), value.offset().whole_seconds())
}

fn span(address: &BluetoothAddress, started_at: Timestamp, ended_at: Timestamp) -> SpanRecord {
    SpanRecord {
        device_address: address.clone(),
        device_name: Some("Keychron K3".to_owned()),
        started_at,
        ended_at,
        start_source: "test".to_owned(),
        end_source: "test".to_owned(),
        end_uncertain: false,
        start_note: None,
        end_note: None,
        battery_observations: Vec::new(),
    }
}

fn active(address: &BluetoothAddress, started_at: Timestamp) -> ActiveState {
    ActiveState {
        device_address: address.clone(),
        device_name: Some("Keychron K3".to_owned()),
        started_at,
        start_source: "test".to_owned(),
        start_note: None,
        end_note: None,
        battery_observations: Vec::new(),
    }
}

#[test]
fn battery_observation_line_shows_device_time_percentage_and_source() {
    let address = BluetoothAddress::new_unchecked("aa:bb:cc:dd:ee:ff");
    let observation = BatteryObservation { observed_at: at(12, 5), percentage: 55, source: BatterySource::Manual };
    let time = format_timestamp_value(observation.observed_at);

    assert_eq!(
        battery_observation_line(&address, Some("Keychron K3"), &observation, &time),
        format!("Keychron K3 (AA:BB:CC:DD:EE:FF)  {}  55%  manual", time)
    );
}

#[test]
fn battery_observations_are_flattened_in_timestamp_order() {
    let address = BluetoothAddress::new_unchecked("aa:bb:cc:dd:ee:ff");
    let mut open = active(&address, at(12, 10));
    open.battery_observations =
        vec![BatteryObservation { observed_at: at(12, 15), percentage: 55, source: BatterySource::Manual }];
    let mut completed = span(&address, at(12, 0), at(12, 10));
    completed.battery_observations = vec![BatteryObservation {
        observed_at: at(12, 5),
        percentage: 60,
        source: BatterySource::BluezPropertiesChanged,
    }];

    let store = Store { actives: vec![open], spans: vec![completed] };
    let observations = collect_battery_observations(&store);

    assert_eq!(observations.len(), 2);
    assert_eq!(observations[0].observation.percentage, 60);
    assert_eq!(observations[1].observation.percentage, 55);
}

#[test]
fn readings_of_one_instant_keep_stored_order() {
    let address = BluetoothAddress::new_unchecked("aa:bb:cc:dd:ee:ff");
    let mut open = active(&address, at(12, 10));
    open.battery_observations = vec![
        BatteryObservation { observed_at: at(12, 20), percentage: 1, source: BatterySource::Manual },
        BatteryObservation { observed_at: at(12, 5), percentage: 2, source: BatterySource::Manual },
    ];
    let mut completed = span(&address, at(12, 0), at(12, 10));
    completed.battery_observations = vec![
        BatteryObservation { observed_at: at(12, 20), percentage: 3, source: BatterySource::Manual },
        BatteryObservation { observed_at: at(12, 1), percentage: 4, source: BatterySource::Manual },
    ];
    let store = Store { actives: vec![open], spans: vec![completed] };
    let percentages: Vec<u8> =
        collect_battery_observations(&store).iter().map(|entry| entry.observation.percentage).collect();
    assert_eq!(percentages, vec![4, 2, 1, 3]);
}

#[test]
fn labels_name_the_device_when_it_has_a_name() {
    let address = BluetoothAddress::new_unchecked("aa:bb:cc:dd:ee:ff");
    assert_eq!(device_label(&address, Some("Keychron K3")), "Keychron K3 (AA:BB:CC:DD:EE:FF)");
    assert_eq!(device_label(&address, Some("")), "AA:BB:CC:DD:EE:FF");
    assert_eq!(device_label(&address, None), "AA:BB:CC:DD:EE:FF");
}

#[test]
fn report_selects_the_requested_devices() {
    let first = BluetoothAddress::new_unchecked("aa:bb:cc:dd:ee:ff");
    let second = BluetoothAddress::new_unchecked("11:22:33:44:55:66");
    let store = Store {
        actives: vec![active(&first, at(12, 30)), active(&second, at(12, 31))],
        spans: vec![span(&first, at(12, 0), at(12, 10)), span(&second, at(12, 1), at(12, 2))],
    };
    assert!(selected(&Vec::new(), &first));
    assert!(selected(&vec![second.clone()], &second));
    assert!(!selected(&vec![second.clone()], &first));

    let only_second = select_for_report(&store, &vec![second.clone()]);
    assert_eq!(only_second.actives.len(), 1);
    assert_eq!(only_second.actives[0].device_address, second);
    assert_eq!(only_second.spans.len(), 1);
    assert_eq!(only_second.spans[0].device_address, second);

    let everything = select_for_report(&store, &Vec::new());
    assert_eq!(everything.actives, store.actives);
    assert_eq!(everything.spans, store.spans);
}

#[test]
fn span_lines_show_duration_and_uncertainty() {
    let address = BluetoothAddress::new_unchecked("aa:bb:cc:dd:ee:ff");
    let mut record = span(&address, at(12, 0), at(13, 2));
    assert_eq!(
        span_line(&record, "12:00", "13:02"),
        "Keychron K3 (AA:BB:CC:DD:EE:FF)  12:00 -> 13:02  1h 2m 0s"
    );
    record.end_uncertain = true;
    record.device_name = None;
    assert_eq!(span_line(&record, "a", "b"), "AA:BB:CC:DD:EE:FF  a -> b  1h 2m 0s uncertain");

    let open = active(&address, at(12, 0));
    assert_eq!(current_span_line(&open, at(12, 5), "12:00"), "  12:00 -> now  5m 0s");
    assert_eq!(current_span_line(&open, at(11, 0), "12:00"), "  12:00 -> now  0s");
    assert_eq!(note_line("Start note", "focused"), "  Start note: focused");
}

#[test]
fn recent_items_are_the_last_ten() {
    assert_eq!(recent_start(3), 0);
    assert_eq!(recent_start(10), 0);
    assert_eq!(recent_start(25), 15);
}

#[test]
fn report_lines_list_counts_open_spans_recent_spans_and_readings() {
    let address = BluetoothAddress::new_unchecked("aa:bb:cc:dd:ee:ff");
    let mut open = active(&address, at(12, 30));
    open.start_note = Some("focused".to_owned());
    let mut completed = span(&address, at(12, 0), at(12, 10));
    completed.end_note = Some("done".to_owned());
    completed.battery_observations =
        vec![BatteryObservation { observed_at: at(12, 5), percentage: 60, source: BatterySource::Manual }];
    let store = Store { actives: vec![open], spans: vec![completed] };
    let entries = collect_battery_observations(&store);

    let lines = report_lines(
        &store,
        &entries,
        at(12, 45),
        "/state/spans.jsonl",
        &vec!["T30".to_owned()],
        &vec!["T0".to_owned()],
        &vec!["T10".to_owned()],
        &vec!["T5".to_owned()],
    );
    assert_eq!(
        lines,
        vec![
            "Log: /state/spans.jsonl",
            "Spans: 1",
            "Battery observations: 1",
            "",
            "Current spans:",
            "Keychron K3 (AA:BB:CC:DD:EE:FF)",
            "  T30 -> now  15m 0s",
            "  start: focused",
            "",
            "Recent spans:",
            "Keychron K3 (AA:BB:CC:DD:EE:FF)  T0 -> T10  10m 0s",
            "  end: done",
            "",
            "Recent battery observations:",
            "Keychron K3 (AA:BB:CC:DD:EE:FF)  T5  60%  manual",
        ]
    );

    let empty = Store { actives: Vec::new(), spans: Vec::new() };
    assert_eq!(
        report_lines(&empty, &Vec::new(), at(12, 45), "log", &Vec::new(), &Vec::new(), &Vec::new(), &Vec::new()),
        vec!["Log: log", "Spans: 0", "Battery observations: 0"]
    );
}

#[test]
fn report_lists_only_the_last_ten_spans() {
    let address = BluetoothAddress::new_unchecked("aa:bb:cc:dd:ee:ff");
    let spans: Vec<SpanRecord> = (0..12).map(|k| span(&address, at(12, k), at(12, k + 1))).collect();
    let starts: Vec<String> = (0..12).map(|k| format!("S{k}")).collect();
    let ends: Vec<String> = (0..12).map(|k| format!("E{k}")).collect();
    let store = Store { actives: Vec::new(), spans };
    let lines = report_lines(&store, &Vec::new(), at(13, 0), "log", &Vec::new(), &starts, &ends, &Vec::new());
    assert_eq!(lines.len(), 3 + 2 + 10);
    assert_eq!(lines[1], "Spans: 12");
    assert!(lines[5].contains("S2 -> E2"));
    assert!(lines[14].contains("S11 -> E11"));
}
