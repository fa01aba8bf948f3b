use dmgr::control::{
    attribute_write_error, bind_write_error, bound_driver_name, device_name, driver_bind_path,
    driver_not_found, guess_subsystem, invalid_device_path, no_driver_bound, unbind_write_error,
};
use dmgr::error::DmgrError;
use dmgr::properties::{drivers_dir, get_available_drivers, set_property, subsystem_of};
use dmgr::sysfs::find_parent_path;

fn msg(e: DmgrError) -> String {
    e.message()
}

#[test]
fn subsystem_from_link_then_path() {
    assert_eq!(subsystem_of(Some("../../../bus/pci"), "/sys/devices/pci0000:00/0000:00:14.0"), Some("pci".to_string()));
    assert_eq!(subsystem_of(None, "/sys/bus/usb/devices/1-2"), Some("usb".to_string()));
    assert_eq!(subsystem_of(None, "/sys/devices/virtual/foo"), None);
    assert_eq!(guess_subsystem(None, "/sys/bus/hid/devices/x").unwrap(), "hid");
    assert_eq!(
        msg(guess_subsystem(None, "/sys/devices/x").unwrap_err()),
        "Bind operation failed: Cannot determine subsystem for /sys/devices/x"
    );
    assert_eq!(dmgr::properties::guess_subsystem(None, "/sys/devices/x"), "unknown");
}

#[test]
fn bind_and_unbind_paths_and_errors() {
    assert_eq!(driver_bind_path("pci", "xhci_hcd"), "/sys/bus/pci/drivers/xhci_hcd/bind");
    assert_eq!(
        msg(driver_not_found("foo", "pci")),
        "Driver not found: Driver 'foo' not found for subsystem 'pci'"
    );
    assert_eq!(device_name("/sys/devices/pci0000:00/0000:00:14.0"), Some("0000:00:14.0".to_string()));
    assert_eq!(device_name("/"), None);
    assert_eq!(msg(invalid_device_path("/", true)), "Bind operation failed: Invalid device path: /");
    assert_eq!(msg(invalid_device_path("/", false)), "Unbind operation failed: Invalid device path: /");
    assert_eq!(
        msg(bind_write_error(true, "denied", "/sys/x", "drv")),
        "Permission denied: Root required to bind driver. Run with pkexec dmgr-polkit-helper bind /sys/x drv"
    );
    assert_eq!(msg(bind_write_error(false, "busy", "/sys/x", "drv")), "Bind operation failed: Bind write failed: busy");
    assert_eq!(msg(no_driver_bound()), "Unbind operation failed: Device has no driver bound");
    assert_eq!(bound_driver_name(Some("../../../bus/pci/drivers/e1000e")).unwrap(), "e1000e");
    assert_eq!(msg(bound_driver_name(None).unwrap_err()), "Unbind operation failed: Cannot determine driver name");
    assert_eq!(
        msg(unbind_write_error(true, "x", "/sys/y")),
        "Permission denied: Root required to unbind driver. Run with pkexec dmgr-polkit-helper unbind /sys/y"
    );
    assert_eq!(
        msg(attribute_write_error(true, "Permission denied (os error 13)", "/sys/y/power/control")),
        "Permission denied: Cannot write to /sys/y/power/control: Permission denied (os error 13)"
    );
    assert_eq!(msg(attribute_write_error(false, "bad", "/f")), "IO error: bad");
}

#[test]
fn attribute_writes_and_driver_lists() {
    let w = set_property("/sys/devices/x", "power/control", "on");
    assert_eq!(w.file, "/sys/devices/x/power/control");
    assert_eq!(w.value, "on");
    assert_eq!(drivers_dir("usb"), "/sys/bus/usb/drivers");
    let names = vec!["usbhid".to_string(), "".to_string(), "btusb".to_string(), "hub".to_string()];
    assert_eq!(get_available_drivers(names).unwrap(), vec!["btusb", "hub", "usbhid"]);
}

#[test]
fn parents_lie_under_sys_devices() {
    assert_eq!(
        find_parent_path("/sys/devices/pci0000:00/0000:00:14.0/usb1"),
        Some("/sys/devices/pci0000:00/0000:00:14.0".to_string())
    );
    assert_eq!(find_parent_path("/sys/class/net"), None);
}

#[test]
fn attribute_file_joins_like_path_join() {
    assert_eq!(set_property("/sys/devices/x/", "power", "on").file, "/sys/devices/x/power");
    assert_eq!(set_property("/sys/devices/x", "/etc/passwd", "on").file, "/etc/passwd");
    assert_eq!(set_property("", "power", "on").file, "power");
    assert_eq!(set_property("/sys/devices/x", "", "on").file, "/sys/devices/x/");
}
