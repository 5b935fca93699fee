use bluetooth_tracker::address::BluetoothAddress;
use bluetooth_tracker::paths::TrackerPaths;
use bluetooth_tracker::service::{render_unit, systemd_arg};

#[test]
fn rendered_unit_runs_watch_with_paths_and_address() {
    let paths = TrackerPaths::new("/tmp/keychron state");
    let unit = render_unit(
        "/tmp/keychron-tracker",
        &vec![
            BluetoothAddress::new_unchecked("aa:bb:cc:dd:ee:ff"),
            BluetoothAddress::new_unchecked("11:22:33:44:55:66"),
        ],
        paths.state_dir(),
    );

    assert!(unit.contains(
        "ExecStart=/tmp/keychron-tracker --state-dir \"/tmp/keychron state\" watch \
         --address AA:BB:CC:DD:EE:FF"
    ));
    assert!(unit.contains("--address 11:22:33:44:55:66"));
    assert!(!unit.contains("--log"));
    assert!(!unit.contains("--state "));
    assert!(unit.contains("Restart=always"));
}

#[test]
fn rendered_unit_is_complete() {
    let unit = render_unit("/usr/bin/bluetooth-tracker", &Vec::new(), "/home/me/.local/state/keychron-tracker");
    assert_eq!(
        unit,
        "[Unit]\nDescription=Bluetooth device connection tracker\nDocumentation=man:systemd.service(5)\n\n\
         [Service]\nType=simple\n\
         ExecStart=/usr/bin/bluetooth-tracker --state-dir /home/me/.local/state/keychron-tracker watch\n\
         Restart=always\nRestartSec=10\n\n[Install]\nWantedBy=default.target\n"
    );
}

#[test]
fn unit_arguments_are_quoted_only_when_needed() {
    assert_eq!(systemd_arg("/usr/bin/tracker"), "/usr/bin/tracker");
    assert_eq!(systemd_arg("a=b:c_d-e.f"), "a=b:c_d-e.f");
    assert_eq!(systemd_arg("two words"), "\"two words\"");
    assert_eq!(systemd_arg("say \"hi\""), "\"say \\\"hi\\\"\"");
    assert_eq!(systemd_arg("back\\slash"), "\"back\\\\slash\"");
    assert_eq!(systemd_arg("$HOME"), "\"$$HOME\"");
    assert_eq!(systemd_arg(""), "");
}
