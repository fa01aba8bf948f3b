use dmgr::daemon::{signal_for, DaemonSignal, DeviceStore};
use dmgr::device::{Bus, Device};
use dmgr::error::DmgrError;
use dmgr::helper::{outcome_line, parse_args, usage, HelperArgsError, HelperCommand};
use dmgr::udev::{burst_changed, event_for, refresh, UdevAction, UdevEvent};

fn device(id: &str, name: &str, bus: Bus, path: &str) -> Device {
    Device::new(id.to_string(), name.to_string(), bus, "usb".to_string(), path.to_string())
}

fn ids(v: &[Device]) -> Vec<String> {
    v.iter().map(|d| d.id.clone()).collect()
}

fn args(v: &[&str]) -> Vec<String> {
    v.iter().map(|s| s.to_string()).collect()
}

#[test]
fn store_read_gives_last_write() {
    let mut store = DeviceStore::new();
    store.insert("a".to_string(), device("a", "First", Bus::Usb, "/sys/a"));
    store.insert("b".to_string(), device("b", "Other", Bus::Pci, "/sys/b"));
    store.insert("a".to_string(), device("a", "Second", Bus::Usb, "/sys/a"));
    assert_eq!(store.get("a").unwrap().name, "Second");
    assert_eq!(store.get("b").unwrap().name, "Other");
    assert!(store.get("c").is_none());
    // replacing keeps the place of the first write
    assert_eq!(ids(&store.get_all()), vec!["a", "b"]);
}

#[test]
fn store_scan_counts_and_stores_by_id() {
    let mut store = DeviceStore::new();
    let n = store.scan(vec![
        device("x", "X", Bus::Usb, "/sys/x"),
        device("y", "Y", Bus::Net, "/sys/y"),
        device("x", "X again", Bus::Usb, "/sys/x"),
    ]);
    assert_eq!(n, 3);
    assert_eq!(store.get_all().len(), 2);
    assert_eq!(store.get("x").unwrap().name, "X again");
}

#[test]
fn store_search_looks_in_name_id_vendor_model_driver() {
    let mut store = DeviceStore::new();
    let mut cam = device("usb-1-2", "USB Webcam", Bus::Usb, "/sys/1-2");
    cam.vendor = Some("Logitech".to_string());
    let mut nic = device("pci-3", "Ethernet", Bus::Pci, "/sys/3");
    nic.driver = Some("e1000e".to_string());
    store.scan(vec![cam, nic]);
    assert_eq!(ids(&store.search("LOGI")), vec!["usb-1-2"]);
    assert_eq!(ids(&store.search("e1000")), vec!["pci-3"]);
    assert_eq!(ids(&store.search("pci-")), vec!["pci-3"]);
    assert_eq!(store.search("").len(), 2);
    assert!(store.search("nothing").is_empty());
}

#[test]
fn store_filters_by_bus_label() {
    let mut store = DeviceStore::new();
    store.scan(vec![
        device("a", "A", Bus::Usb, "/sys/a"),
        device("b", "B", Bus::Pci, "/sys/b"),
        device("c", "C", Bus::Usb, "/sys/c"),
    ]);
    assert_eq!(ids(&store.get_by_bus("usb")), vec!["a", "c"]);
    assert_eq!(ids(&store.get_by_bus("PCIE")), vec!["b"]);
    assert!(store.get_by_bus("pci").is_empty());
}

#[test]
fn store_update_device_takes_first_match_by_path_or_id() {
    let mut store = DeviceStore::new();
    store.insert("a".to_string(), device("a", "Old", Bus::Usb, "/sys/a"));
    // no rescan, nothing changes
    assert!(!store.update_device("a", None));
    assert_eq!(store.get("a").unwrap().name, "Old");
    // unknown id
    assert!(!store.update_device("zzz", Some(vec![device("zzz", "Z", Bus::Usb, "/sys/z")])));
    assert!(store.get("zzz").is_none());
    // matched by path, stored under the old id
    let rescan = vec![
        device("b", "Unrelated", Bus::Usb, "/sys/b"),
        device("renamed", "New", Bus::Usb, "/sys/a"),
    ];
    assert!(store.update_device("a", Some(rescan)));
    assert_eq!(store.get("a").unwrap().name, "New");
    assert_eq!(store.get_all().len(), 1);
    // nothing in the rescan matches
    assert!(!store.update_device("a", Some(vec![device("q", "Q", Bus::Usb, "/sys/q")])));
    assert_eq!(store.get("a").unwrap().name, "New");
}

#[test]
fn signals_carry_scan_counts() {
    match signal_for(UdevEvent::DeviceAdded("/d".to_string()), Some(7), 9) {
        DaemonSignal::DeviceAdded(c) => assert_eq!(c, 7),
        other => panic!("{:?}", other),
    }
    match signal_for(UdevEvent::DeviceRemoved("/d".to_string()), None, 9) {
        DaemonSignal::DeviceRemoved(c) => assert_eq!(c, 0),
        other => panic!("{:?}", other),
    }
    match signal_for(UdevEvent::DeviceChanged("/devices/x".to_string()), Some(1), 9) {
        DaemonSignal::DeviceChanged(p) => assert_eq!(p, "/devices/x"),
        other => panic!("{:?}", other),
    }
    match signal_for(UdevEvent::ScanComplete, Some(1), 9) {
        DaemonSignal::ScanFinished(c) => assert_eq!(c, 9),
        other => panic!("{:?}", other),
    }
}

#[test]
fn helper_parses_each_command() {
    match parse_args(&args(&["h", "bind", "/sys/x", "e1000e"])) {
        Ok(HelperCommand::Bind { path, driver }) => {
            assert_eq!(path, "/sys/x");
            assert_eq!(driver, "e1000e");
        }
        other => panic!("{:?}", other),
    }
    match parse_args(&args(&["h", "unbind", "/sys/x"])) {
        Ok(HelperCommand::Unbind { path }) => assert_eq!(path, "/sys/x"),
        other => panic!("{:?}", other),
    }
    match parse_args(&args(&["h", "set", "/sys/x", "power/control", "auto"])) {
        Ok(HelperCommand::SetProperty { path, property, value }) => {
            assert_eq!(path, "/sys/x");
            assert_eq!(property, "power/control");
            assert_eq!(value, "auto");
        }
        other => panic!("{:?}", other),
    }
}

#[test]
fn helper_rejects_bad_arguments() {
    assert!(matches!(parse_args(&args(&["h"])), Err(HelperArgsError::Missing)));
    assert!(matches!(parse_args(&args(&["h", "bind", "/sys/x"])), Err(HelperArgsError::BindArity)));
    assert!(matches!(parse_args(&args(&["h", "unbind"])), Err(HelperArgsError::UnbindArity)));
    assert!(matches!(parse_args(&args(&["h", "set", "/sys/x", "a"])), Err(HelperArgsError::SetArity)));
    let e = parse_args(&args(&["h", "frob"])).unwrap_err();
    assert!(matches!(&e, HelperArgsError::Unknown(c) if c.as_str() == "frob"));
    let m = e.message();
    assert!(m.starts_with("Unknown command: frob\n"));
    assert!(m.ends_with(&usage()));
    assert_eq!(
        HelperArgsError::BindArity.message(),
        "Usage: dmgr-polkit-helper bind <device_path> <driver>"
    );
    assert!(usage().contains("  dmgr-polkit-helper set <device_path> <property> <value>"));
}

#[test]
fn helper_outcome_lines() {
    assert_eq!(outcome_line(&Ok(())), ("OK".to_string(), true));
    assert_eq!(
        outcome_line(&Err(DmgrError::BindFailed("busy".to_string()))),
        ("Error: Bind operation failed: busy".to_string(), false)
    );
}

#[test]
fn udev_actions_and_bursts() {
    assert!(matches!(event_for(UdevAction::Add, "/a".to_string()), Some(UdevEvent::DeviceAdded(p)) if p == "/a"));
    assert!(matches!(event_for(UdevAction::Unbind, "/a".to_string()), Some(UdevEvent::DeviceChanged(_))));
    assert!(event_for(UdevAction::Other, "/a".to_string()).is_none());
    assert!(!burst_changed(&vec![UdevAction::Other, UdevAction::Other]));
    assert!(burst_changed(&vec![UdevAction::Other, UdevAction::Bind]));
    assert!(!burst_changed(&vec![]));
    assert!(matches!(refresh(true), Ok(UdevEvent::ScanComplete)));
    match refresh(false) {
        Err(e) => assert_eq!(e.message(), "Udev error: Monitor not started"),
        Ok(_) => panic!("expected an error"),
    }
}
