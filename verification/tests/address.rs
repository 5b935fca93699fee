use bluetooth_tracker::address::{AddressParseError, BluetoothAddress, is_valid_address, normalize_address};

#[test]
fn new_unchecked_normalizes_common_separators() {
    assert_eq!(BluetoothAddress::new_unchecked("aa:bb:cc:dd:ee:ff").as_str(), "AA:BB:CC:DD:EE:FF");
    assert_eq!(BluetoothAddress::new_unchecked("aa-bb-cc-dd-ee-ff").as_str(), "AA:BB:CC:DD:EE:FF");
    assert_eq!(BluetoothAddress::new_unchecked("aa_bb_cc_dd_ee_ff").as_str(), "AA:BB:CC:DD:EE:FF");
}

#[test]
fn new_unchecked_does_not_validate() {
    assert_eq!(BluetoothAddress::new_unchecked("not-an-address").as_str(), "NOT:AN:ADDRESS");
}

#[test]
fn rejects_invalid_addresses_when_parsing_user_input() {
    assert!("not-an-address".parse::<BluetoothAddress>().is_err());
    assert!("AA:BB:CC:DD:EE".parse::<BluetoothAddress>().is_err());
    assert!("AA:BB:CC:DD:EE:GG".parse::<BluetoothAddress>().is_err());
    assert!("AA::BB:CC:DD:EE:FF".parse::<BluetoothAddress>().is_err());
    assert!("AA--BB-CC-DD-EE-FF".parse::<BluetoothAddress>().is_err());
}

#[test]
fn parsing_accepts_and_normalizes_valid_addresses() {
    let parsed: BluetoothAddress = "aa-bb-cc-dd-ee-0f".parse().unwrap();
    assert_eq!(parsed.as_str(), "AA:BB:CC:DD:EE:0F");
    assert_eq!(BluetoothAddress::parse("aa_bb_cc_dd_ee_ff"), Ok(BluetoothAddress::new_unchecked("AA:BB:CC:DD:EE:FF")));
    let reparsed: BluetoothAddress = parsed.as_str().parse().unwrap();
    assert_eq!(reparsed, parsed);
}

#[test]
fn parse_error_message() {
    let error = BluetoothAddress::parse("AA:BB").unwrap_err();
    assert_eq!(error, AddressParseError);
    assert_eq!(error.message(), "invalid Bluetooth address");
}

#[test]
fn normalization_is_idempotent_on_examples() {
    for raw in ["aa-bb-cc-dd-ee-ff", "not-an-address", "x_y:z", ""] {
        let once = normalize_address(raw);
        assert_eq!(normalize_address(&once), once);
    }
    assert!(is_valid_address("AA:BB:CC:DD:EE:FF"));
    assert!(is_valid_address("aa:bb:cc:dd:ee:ff"));
    assert!(!is_valid_address("AA-BB-CC-DD-EE-FF"));
    assert!(!is_valid_address("AA:BB:CC:DD:EE:FF:00"));
}
