use dmgr::desktop::backend::{scan_powershell, PnpDevice};
use dmgr::device::{Bus, DeviceStatus};
use dmgr::desktop::audio::BackendKind;
use dmgr::desktop::command::RunOutcome;
use dmgr::desktop::commands::{
    audio_or_err, bt_scan_seconds, capabilities, open_bluetooth_settings, open_device_manager,
    reload_driver,
};
use dmgr::desktop::power::{backlight_of, battery_of};
use dmgr::desktop::privileged::{
    can_elevate, direct_command, direct_result, helper_result, helper_route, pkexec_result, pkexec_route,
    DirectCommand, Route,
};

fn strs(v: &[&str]) -> Vec<String> {
    v.iter().map(|s| s.to_string()).collect()
}

fn supply(kind: &str, cap: Option<&str>, status: &str) -> (String, Option<String>, String) {
    (kind.to_string(), cap.map(|c| c.to_string()), status.to_string())
}

#[test]
fn battery_is_the_first_battery_supply() {
    let v = vec![
        supply("Mains\n", Some("0"), ""),
        supply("Battery\n", Some(" 87\n"), "Discharging\n"),
        supply("Battery\n", Some("12"), "Charging"),
    ];
    assert_eq!(battery_of(&v), Some((87, "Discharging".to_string())));
    assert_eq!(battery_of(&vec![supply("Mains", Some("1"), "")]), None);
    // the first battery decides, even when its level cannot be read
    assert_eq!(battery_of(&vec![supply("Battery", None, ""), supply("Battery", Some("50"), "")]), None);
    assert_eq!(battery_of(&vec![supply("Battery", Some("300"), "Full")]), None);
}

#[test]
fn backlight_is_the_first_readable_panel() {
    let p = |c: Option<&str>, m: Option<&str>| (c.map(|x| x.to_string()), m.map(|x| x.to_string()));
    assert_eq!(backlight_of(&vec![p(Some("5"), Some("0")), p(Some("120\n"), Some("240\n"))]), Some(50));
    assert_eq!(backlight_of(&vec![p(None, Some("10")), p(Some("x"), Some("10"))]), None);
    assert_eq!(backlight_of(&vec![p(Some("300"), Some("100"))]), Some(44));
    assert_eq!(backlight_of(&vec![]), None);
}

#[test]
fn privileged_routes() {
    assert!(can_elevate(true, false, false));
    assert!(can_elevate(false, true, true));
    assert!(!can_elevate(false, true, false));
    assert!(matches!(helper_route(true, None, false), Ok(Route::Direct)));
    assert!(matches!(helper_route(false, Some("/usr/bin/h".to_string()), true), Ok(Route::Pkexec(p)) if p.as_str() == "/usr/bin/h"));
    assert!(helper_route(false, None, true).unwrap_err().starts_with("Privileged helper 'dmgr-polkit-helper' not found."));
    assert!(helper_route(false, Some("/h".to_string()), false).unwrap_err().starts_with("'pkexec' (polkit) not found"));
    assert_eq!(pkexec_route("modprobe", None, false, true).unwrap_err(), "'modprobe' not found");
    assert!(matches!(pkexec_route("modprobe", Some("/sbin/modprobe".to_string()), true, false), Ok(Route::Direct)));
    assert_eq!(
        pkexec_route("modprobe", Some("/sbin/modprobe".to_string()), false, false).unwrap_err(),
        "'pkexec' (polkit) not found — run dmgr as root for this action"
    );
}

#[test]
fn privileged_run_outcomes() {
    let fin = |success: bool, code: Option<i32>| RunOutcome::Finished { success, code };
    assert_eq!(helper_result(&fin(true, Some(0))), Ok(()));
    assert_eq!(helper_result(&fin(false, Some(126))).unwrap_err(), "Authorization dialog dismissed");
    assert_eq!(helper_result(&fin(false, Some(127))).unwrap_err(), "Not authorized (polkit denied the action)");
    assert_eq!(helper_result(&fin(false, Some(3))).unwrap_err(), "Privileged operation failed (exit 3)");
    assert_eq!(helper_result(&fin(false, None)).unwrap_err(), "Privileged operation terminated by signal");
    assert_eq!(pkexec_result("modprobe", &fin(false, Some(1))).unwrap_err(), "modprobe failed (exit 1)");
    assert_eq!(pkexec_result("modprobe", &fin(false, None)).unwrap_err(), "modprobe terminated by signal");
    assert_eq!(
        pkexec_result("modprobe", &RunOutcome::NotStarted("no such file".to_string())).unwrap_err(),
        "pkexec failed to launch: no such file"
    );
    assert_eq!(
        direct_result("modprobe", &strs(&["-r", "btusb"]), &fin(false, Some(1))).unwrap_err(),
        "modprobe -r btusb failed"
    );
    assert_eq!(direct_result("modprobe", &strs(&["btusb"]), &fin(true, Some(0))), Ok(()));
}

#[test]
fn direct_commands_when_root() {
    assert!(matches!(direct_command(&strs(&["bind", "/sys/x", "drv"])), Ok(DirectCommand::Bind { .. })));
    assert!(matches!(direct_command(&strs(&["unbind", "/sys/x"])), Ok(DirectCommand::Unbind { path }) if path.as_str() == "/sys/x"));
    assert!(matches!(direct_command(&strs(&["set", "/sys/x", "a", "b"])), Ok(DirectCommand::SetProperty { .. })));
    assert_eq!(
        direct_command(&strs(&["frob", "x"])).unwrap_err(),
        "Unknown privileged command: [\"frob\", \"x\"]"
    );
}

#[test]
fn front_end_command_decisions() {
    let c = capabilities(Some(BackendKind::Wpctl), true, false);
    assert!(c.audio && c.bluetooth && !c.root);
    assert_eq!(c.audio_backend, "wpctl");
    assert_eq!(capabilities(None, false, true).audio_backend, "none");
    assert!(matches!(audio_or_err(Some(BackendKind::Alsa)), Ok(BackendKind::Alsa)));
    assert_eq!(audio_or_err(None).unwrap_err(), "no audio backend (pactl/wpctl/alsa) available");
    assert_eq!(bt_scan_seconds(None), 10);
    assert_eq!(bt_scan_seconds(Some(3)), 3);
    assert_eq!(reload_driver("btusb", false).unwrap(), strs(&["-c", "modprobe -r btusb && modprobe btusb"]));
    assert_eq!(reload_driver("bad name", false).unwrap_err(), "invalid module name");
    assert!(reload_driver("btusb", true).unwrap_err().starts_with("Reloading drivers isn't supported on Windows"));
    assert_eq!(open_device_manager(true).unwrap(), strs(&["/c", "start", "", "devmgmt.msc"]));
    assert_eq!(open_device_manager(false).unwrap_err(), "Device Manager is Windows-only");
    assert_eq!(open_bluetooth_settings(false).unwrap_err(), "Windows-only");
}

#[test]
fn powershell_entries_become_devices_in_order() {
    let entry = |id: Option<&str>, name: Option<&str>, class: &str, status: &str| PnpDevice {
        instance_id: id.map(|s| s.to_string()),
        friendly_name: name.map(|s| s.to_string()),
        class: Some(class.to_string()),
        status: Some(status.to_string()),
        present: Some(true),
        service: Some("usbhub".to_string()),
        manufacturer: None,
    };
    let v = scan_powershell(vec![
        entry(Some("USB\\ROOT_HUB30\\4"), None, "USB", "OK"),
        entry(None, Some("ghost"), "USB", "OK"),
        entry(Some(""), Some("empty"), "USB", "OK"),
        entry(Some("HID\\VID_1"), Some("Keyboard"), "Keyboard", "Error"),
    ]);
    assert_eq!(v.len(), 2);
    assert_eq!(v[0].name, "USB\\ROOT_HUB30\\4");
    assert_eq!(v[0].bus, Bus::Usb);
    assert_eq!(v[0].status, DeviceStatus::Online);
    assert!(v[0].authorized);
    assert_eq!(v[0].driver, Some("usbhub".to_string()));
    assert_eq!(v[1].name, "Keyboard");
    assert_eq!(v[1].bus, Bus::Input);
    assert_eq!(v[1].status, DeviceStatus::Error);
    assert!(!v[1].authorized);
}
