use dmgr::desktop::bluetooth::{parse_show, parse_info, device_macs, sort_scan, BtDevice};
use dmgr::desktop::bluetooth::windows::{
    mac_from_instance, is_subprofile, icon_for, merge_device, is_paired_device,
};

const SHOW_OK: &str = "\
Controller AA:BB:CC:DD:EE:FF MyPC [default]
\tName: MyPC
\tPowered: yes
\tDiscoverable: no
\tPairable: yes
";

const SHOW_OFF: &str = "\
Controller AA:BB:CC:DD:EE:FF MyPC [default]
\tName: MyPC
\tPowered: no
";

const SHOW_DOWN: &str = "\
Controller AA:BB:CC:DD:EE:FF not available
\tName: not available
\tPowered: no
";

const INFO_OK: &str = "\
Device AA:BB:CC:DD:EE:FF
\tName: Sony WH-1000XM4
\tPaired: yes
\tTrusted: yes
\tConnected: yes
\tIcon: audio-card
\tBattery Percentage: 0x55 (85)
\tRSSI: -42
";

#[test]
fn show_powered_yes() {
    let (has_ctrl, on) = parse_show(SHOW_OK);
    assert!(has_ctrl);
    assert!(on);
}

#[test]
fn show_powered_no() {
    let (has_ctrl, on) = parse_show(SHOW_OFF);
    assert!(has_ctrl);
    assert!(!on);
}

#[test]
fn show_daemon_down() {
    let (has_ctrl, on) = parse_show(SHOW_DOWN);
    assert!(!has_ctrl, "should treat 'not available' as no controller");
    assert!(!on);
}

#[test]
fn show_empty_is_down() {
    let (has_ctrl, on) = parse_show("");
    assert!(!has_ctrl);
    assert!(!on);
}

#[test]
fn info_parses_all_fields() {
    let d = parse_info(INFO_OK, "AA:BB:CC:DD:EE:FF");
    assert_eq!(d.mac, "AA:BB:CC:DD:EE:FF");
    assert_eq!(d.name, "Sony WH-1000XM4");
    assert!(d.paired);
    assert!(d.trusted);
    assert!(d.connected);
    assert_eq!(d.icon, "audio-card");
    assert_eq!(d.battery, Some(85));
    assert_eq!(d.rssi, Some(-42));
}

#[test]
fn info_falls_back_to_mac_for_missing_name() {
    let d = parse_info("Device AA:BB:CC:DD:EE:FF\n", "AA:BB:CC:DD:EE:FF");
    assert_eq!(d.name, "AA:BB:CC:DD:EE:FF");
    assert!(!d.paired);
    assert!(!d.connected);
    assert_eq!(d.battery, None);
    assert_eq!(d.rssi, None);
}

#[test]
fn battery_parses_hex_only_form() {
    let d = parse_info("Device X\n\tBattery Percentage: 0x64\n", "X");
    assert_eq!(d.battery, Some(100));
}

#[test]
fn rssi_in_parentheses_wins() {
    let d = parse_info("Device X\n\tRSSI: 0xffffffce (-50)\n", "X");
    assert_eq!(d.rssi, Some(-50));
}

#[test]
fn device_list_gives_addresses() {
    let macs = device_macs("Device AA:BB:CC:DD:EE:FF Name Here\nController 11:22 x\nDevice 11:22:33:44:55:66\n");
    assert_eq!(macs, vec!["AA:BB:CC:DD:EE:FF".to_string(), "11:22:33:44:55:66".to_string()]);
}

fn dev(name: &str, connected: bool) -> BtDevice {
    BtDevice {
        mac: name.to_string(),
        name: name.to_string(),
        paired: true,
        connected,
        trusted: false,
        icon: String::new(),
        battery: None,
        rssi: None,
    }
}

#[test]
fn scan_results_connected_first_then_by_name() {
    let sorted = sort_scan(vec![dev("zeta", false), dev("Beta", true), dev("alpha", false), dev("Alpha", true)]);
    let names: Vec<&str> = sorted.iter().map(|d| d.name.as_str()).collect();
    assert_eq!(names, vec!["Alpha", "Beta", "alpha", "zeta"]);
}

#[test]
fn mac_from_dev_form() {
    assert_eq!(
        mac_from_instance(r"BTHENUM\Dev_A4F6E8279B47\7&abc123&0&BluetoothDevice"),
        Some("A4:F6:E8:27:9B:47".into())
    );
}

#[test]
fn mac_from_transport_form_ignores_base_uuid() {
    let id = r"BTHENUM\{0000110E-0000-1000-8000-00805F9B34FB}_VID&0001004C_PID&761E\A&3B6AA2F9&0&A4F6E8279B47_C00000000";
    assert_eq!(mac_from_instance(id), Some("A4:F6:E8:27:9B:47".into()));
}

#[test]
fn mac_from_ble_form_ignores_base_uuid() {
    let id = r"BTHLEDEVICE\{00001800-0000-1000-8000-00805F9B34FB}_5ECDFAA32F4C\B&65B0B75&0&0001";
    assert_eq!(mac_from_instance(id), Some("5E:CD:FA:A3:2F:4C".into()));
}

#[test]
fn no_mac_returns_none() {
    assert_eq!(mac_from_instance(r"USB\VID_8087&PID_0029\5&12abc"), None);
}

#[test]
fn subprofile_detection() {
    assert!(is_subprofile("Isra iPhone Transporte AVRCP"));
    assert!(is_subprofile("Headset A2DP"));
    assert!(!is_subprofile("Isra iPhone"));
    assert!(!is_subprofile("DualSense Wireless Controller"));
}

#[test]
fn icon_heuristics() {
    assert_eq!(icon_for("Sony WH-1000 Headphones"), "audio-card");
    assert_eq!(icon_for("Logitech K380 Keyboard"), "input-keyboard");
    assert_eq!(icon_for("MX Master Mouse"), "input-mouse");
    assert_eq!(icon_for("Isra iPhone"), "phone");
    assert_eq!(icon_for("DualSense Wireless Controller"), "");
}

#[test]
fn merging_collapses_subprofiles_under_one_address() {
    let mut devices: Vec<BtDevice> = Vec::new();
    merge_device(&mut devices, "A4:F6".into(), "Isra iPhone Transporte AVRCP".into(), false);
    merge_device(&mut devices, "A4:F6".into(), "Isra iPhone".into(), true);
    merge_device(&mut devices, "11:22".into(), "Buds".into(), false);
    assert_eq!(devices.len(), 2);
    assert_eq!(devices[0].name, "Isra iPhone");
    assert_eq!(devices[0].icon, "phone");
    assert!(devices[0].connected);
    assert_eq!(devices[1].icon, "audio-card");
}

#[test]
fn paired_instances() {
    assert!(is_paired_device("bthenum\\x"));
    assert!(is_paired_device("BTHLEDevice\\x"));
    assert!(!is_paired_device("USB\\VID_8087"));
}
