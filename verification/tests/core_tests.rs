use dmgr::device::{Bus, Device, DeviceStatus};
use dmgr::scan::{scan_all_devices, BusEntry, ChildEntry, ClassEntry, SysfsSnapshot};
use dmgr::sysfs::SysfsNode;

fn node(files: &[(&str, &str)], driver: Option<&str>) -> SysfsNode {
    SysfsNode {
        files: files.iter().map(|(k, v)| (k.to_string(), v.to_string())).collect(),
        driver_link: driver.map(|d| d.to_string()),
        power_entries: vec![],
    }
}

fn empty_snapshot() -> SysfsSnapshot {
    SysfsSnapshot {
        pci: vec![],
        usb: vec![],
        input: vec![],
        sound: vec![],
        block: vec![],
        drm: vec![],
        net: vec![],
        tty: vec![],
        power_supply: vec![],
    }
}

fn sample_snapshot() -> SysfsSnapshot {
    let mut s = empty_snapshot();
    s.pci.push(BusEntry {
        name: "0000:00:14.0".into(),
        canonical: "/sys/devices/pci0000:00/0000:00:14.0".into(),
        node: node(&[("vendor", "0x8086\n"), ("device", "0xa36d\n")], Some("xhci_hcd")),
        children: vec![ChildEntry {
            name: "usb1".into(),
            canonical: "/sys/devices/pci0000:00/0000:00:14.0/usb1".into(),
            has_uevent: true,
            node: node(&[("subsystem", "/sys/bus/usb")], Some("usb")),
        }],
    });
    s.usb.push(BusEntry {
        name: "usb1".into(),
        canonical: "/sys/devices/pci0000:00/0000:00:14.0/usb1".into(),
        node: node(&[], None),
        children: vec![],
    });
    s.net.push(ClassEntry {
        name: "eth0".into(),
        canonical: "/sys/devices/pci0000:00/0000:00:1f.6/net/eth0".into(),
        node: node(&[("address", "aa:bb:cc:dd:ee:ff\n")], None),
    });
    s
}

#[test]
fn test_scan_does_not_crash() {
    let devices = scan_all_devices(&sample_snapshot());
    assert!(devices.is_ok());
    println!("Found {} devices", devices.unwrap().len());
}

#[test]
fn test_bus_from_subsystem() {
    assert_eq!(Bus::from_subsystem("usb"), Bus::Usb);
    assert_eq!(Bus::from_subsystem("pci"), Bus::Pci);
    assert_eq!(Bus::from_subsystem("sound"), Bus::Audio);
    assert_eq!(Bus::from_subsystem("input"), Bus::Input);
    assert_eq!(Bus::from_subsystem("block"), Bus::Block);
    assert_eq!(Bus::from_subsystem("drm"), Bus::Drm);
    assert_eq!(Bus::from_subsystem("net"), Bus::Net);
    assert_eq!(Bus::from_subsystem("hid"), Bus::Hid);
    assert!(matches!(Bus::from_subsystem("foobar"), Bus::Unknown(_)));
}

#[test]
fn integration_bus_display() {
    assert_eq!(Bus::Usb.label(), "USB");
    assert_eq!(Bus::Pci.label(), "PCIe");
    assert_eq!(Bus::Audio.label(), "Audio");
    assert_eq!(Bus::Drm.label(), "GPU/DRM");
    assert_eq!(Bus::Net.label(), "Network");
    assert_eq!(Bus::Unknown("custom".into()).label(), "custom");
}

#[test]
fn integration_device_status_mapping() {
    assert_eq!(DeviceStatus::from_str("active"), DeviceStatus::Online);
    assert_eq!(DeviceStatus::from_str("suspended"), DeviceStatus::Suspended);
    assert_eq!(DeviceStatus::from_str("offline"), DeviceStatus::Offline);
    assert_eq!(DeviceStatus::from_str("error_something"), DeviceStatus::Error);
    assert_eq!(DeviceStatus::from_str("whatever"), DeviceStatus::Online);
    assert_eq!(DeviceStatus::from_str("unsupported"), DeviceStatus::Online);
    assert_eq!(DeviceStatus::from_str(""), DeviceStatus::Online);
}

#[test]
fn integration_device_status_emoji() {
    assert_eq!(DeviceStatus::Online.emoji(), "🟢");
    assert_eq!(DeviceStatus::Offline.emoji(), "🔴");
    assert_eq!(DeviceStatus::Suspended.emoji(), "🟡");
    assert_eq!(DeviceStatus::Unbound.emoji(), "⚪");
    assert_eq!(DeviceStatus::Error.emoji(), "🟠");
}

#[test]
fn integration_device_creation() {
    let dev = Device::new(
        "test-001".into(),
        "Test Device".into(),
        Bus::Usb,
        "usb".into(),
        "/sys/devices/test".into(),
    );
    assert_eq!(dev.id, "test-001");
    assert_eq!(dev.name, "Test Device");
    assert_eq!(dev.bus, Bus::Usb);
    assert_eq!(dev.status, DeviceStatus::Unknown);
    assert!(dev.properties.is_empty());
    assert!(dev.children.is_empty());
}

#[test]
fn integration_scan_finds_devices() {
    let result = scan_all_devices(&sample_snapshot());
    assert!(result.is_ok(), "Scanner should not crash");
    let devices = result.unwrap();
    assert!(!devices.is_empty(), "Should find at least some devices on a Linux system");
}

#[test]
fn scan_orders_children_first_and_skips_seen_paths() {
    let devices = scan_all_devices(&sample_snapshot()).unwrap();
    // The child directory becomes a device before its PCI parent; the USB
    // entry that leads to the same directory is not read again.
    let ids: Vec<&str> = devices.iter().map(|d| d.id.as_str()).collect();
    assert_eq!(ids, vec!["dev-usb1", "pci-0000:00:14.0", "net-eth0"]);
    assert_eq!(devices[0].parent.as_deref(), Some("pci-0000:00:14.0"));
    assert_eq!(devices[1].children, vec!["dev-usb1".to_string()]);
    assert_eq!(devices[2].name, "NIC eth0 (aa:bb:cc:dd:ee:ff)");
}

#[test]
fn scan_of_empty_snapshot_is_empty() {
    let devices = scan_all_devices(&empty_snapshot()).unwrap();
    assert!(devices.is_empty());
}

#[test]
fn integration_pci_devices_have_required_fields() {
    if let Ok(devices) = scan_all_devices(&sample_snapshot()) {
        let pci_devices: Vec<_> = devices.iter().filter(|d| d.bus == Bus::Pci).collect();
        assert!(!pci_devices.is_empty());
        for d in &pci_devices {
            assert!(!d.id.is_empty(), "PCI device must have ID");
            assert!(!d.path.is_empty(), "PCI device must have path");
            assert!(d.path.contains("/sys/devices"), "Path must be under /sys/devices");
        }
    }
}

#[test]
fn integration_get_drivers_does_not_panic() {
    // the entries of /sys/bus/cpu/drivers on a typical machine
    let entries = vec!["processor".to_string(), "thermal".to_string()];
    let result = dmgr::properties::get_available_drivers(entries);
    assert!(result.is_ok(), "get_available_drivers should not panic");
}

#[test]
fn integration_cpu_modalias_readable() {
    let cpu0 = node(&[("modalias", "cpu:type:x86,ven0000fam0006mod00A5:feature:,0000\n")], None);
    let modalias = dmgr::scan::get_modalias(&cpu0).unwrap();
    if let Some(m) = &modalias {
        assert!(!m.is_empty(), "modalias should not be empty if present");
    }
    assert!(modalias.is_some());
}
