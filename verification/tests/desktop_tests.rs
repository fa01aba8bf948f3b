use dmgr::device::{Bus, DeviceStatus};
use dmgr::desktop::backend::{capitalize, class_to_bus, status_map};
use dmgr::desktop::kernel::{load, parse_proc_modules, validate};
use dmgr::desktop::platform::{os_release, package_hint, session_type};
use dmgr::desktop::power::{brightness_percent, parse_profiles, set_profile};
use dmgr::desktop::services::{action, parse_units, valid_unit};
use dmgr::desktop::system::{
    fmt_uptime, parse_cpu_cores, parse_cpu_model, parse_loadavg, parse_meminfo, parse_uptime,
};
use dmgr::desktop::winutil::{base64, encode_command};

#[test]
fn class_to_bus_maps_known_and_unknown() {
    assert_eq!(class_to_bus("USB"), Bus::Usb);
    assert_eq!(class_to_bus("net"), Bus::Net);
    assert_eq!(class_to_bus("Display"), Bus::Drm);
    assert_eq!(class_to_bus("Media"), Bus::Audio);
    assert_eq!(class_to_bus("Keyboard"), Bus::Input);
    assert_eq!(class_to_bus(""), Bus::Unknown("Other".into()));
    assert_eq!(class_to_bus("Printer"), Bus::Unknown("Printer".into()));
}

#[test]
fn status_map_handles_presence_and_state() {
    assert_eq!(status_map("OK", true), DeviceStatus::Online);
    assert_eq!(status_map("Error", true), DeviceStatus::Error);
    assert_eq!(status_map("Degraded", true), DeviceStatus::Suspended);
    assert_eq!(status_map("Whatever", true), DeviceStatus::Unknown);
    assert_eq!(status_map("OK", false), DeviceStatus::Offline);
}

#[test]
fn capitalize_first_letter() {
    assert_eq!(capitalize("printer"), "Printer");
    assert_eq!(capitalize("HID"), "Hid");
    assert_eq!(capitalize(""), "");
}

#[test]
fn parses_proc_modules() {
    let sample = "\
nvidia_drm 122880 12 - Live 0x0000000000000000
nvidia_modeset 1572864 6 nvidia_drm, Live 0x0000000000000000
btrfs 1830912 1 - Live 0x0000000000000000
videodev 376832 4 uvcvideo,videobuf2_v4l2 Live 0x0000000000000000
";
    let mods = parse_proc_modules(sample);
    assert_eq!(mods.len(), 4);

    assert_eq!(mods[0].name, "btrfs");
    assert_eq!(mods[0].refcount, 1);
    assert!(mods[0].used_by.is_empty());

    let drm = mods.iter().find(|m| m.name == "nvidia_drm").unwrap();
    assert_eq!(drm.refcount, 12);
    assert_eq!(drm.size_kb, 122880 / 1024);
    assert_eq!(drm.state, "Live");

    let videodev = mods.iter().find(|m| m.name == "videodev").unwrap();
    assert_eq!(videodev.used_by, vec!["uvcvideo", "videobuf2_v4l2"]);
}

#[test]
fn ignores_malformed_lines() {
    assert!(parse_proc_modules("garbage\n\nx y\n").is_empty());
}

#[test]
fn module_names_are_checked_before_modprobe() {
    assert!(validate("snd_hda_intel").is_ok());
    assert_eq!(validate("evil;rm").unwrap_err(), "invalid module name");
    assert_eq!(validate("").unwrap_err(), "invalid module name");
    assert_eq!(load("uvcvideo", false).unwrap(), vec!["uvcvideo".to_string()]);
    assert_eq!(load("uvcvideo", true).unwrap_err(), "kernel modules are Linux-only");
}

#[test]
fn package_hints_per_distro_family() {
    assert!(package_hint("arch").contains("pacman"));
    assert!(package_hint("endeavouros").contains("pacman"));
    assert!(package_hint("ubuntu").contains("apt"));
    assert!(package_hint("fedora").contains("dnf"));
    assert!(package_hint("opensuse-tumbleweed").contains("zypper"));
    assert!(package_hint("void").contains("xbps"));
    assert!(package_hint("nixos").contains("configuration.nix"));
    assert!(package_hint("someunknowndistro").contains("package manager"));
}

#[test]
fn os_release_fields_and_session() {
    let (id, name) = os_release("NAME=\"Arch Linux\"\nPRETTY_NAME=\"Arch Linux\"\nID=arch\n");
    assert_eq!(id, "arch");
    assert_eq!(name, "Arch Linux");
    let (id, name) = os_release("");
    assert_eq!(id, "linux");
    assert_eq!(name, "Linux");
    assert_eq!(session_type(false, true, Some("wayland")), "wayland");
    assert_eq!(session_type(false, true, None), "x11");
    assert_eq!(session_type(false, false, None), "unknown");
}

#[test]
fn parses_ppd_list_with_active() {
    let sample = "\
  performance:
    Driver:     platform_profile

* balanced:
    Driver:     platform_profile

  power-saver:
    Driver:     platform_profile
";
    let (profiles, active) = parse_profiles(sample);
    assert_eq!(profiles, vec!["performance", "balanced", "power-saver"]);
    assert_eq!(active, "balanced");
}

#[test]
fn power_profile_and_backlight() {
    assert_eq!(set_profile("turbo", true).unwrap_err(), "unknown power profile");
    assert_eq!(set_profile("balanced", true).unwrap(), vec!["set".to_string(), "balanced".to_string()]);
    assert_eq!(set_profile("balanced", false).unwrap_err(), "not supported on this platform");
    assert_eq!(brightness_percent(50, 200), Some(25));
    assert_eq!(brightness_percent(50, 0), None);
}

#[test]
fn parses_unit_rows() {
    let s = "\
bluetooth.service loaded active running Bluetooth service
NetworkManager.service loaded active running Network Manager
cups.service loaded inactive dead CUPS Scheduler
not-a-unit.mount loaded active mounted nope
";
    let v = parse_units(s);
    assert_eq!(v.len(), 3);
    assert_eq!(v[0].name, "bluetooth.service");
    assert_eq!(v[0].active, "active");
    assert_eq!(v[0].sub, "running");
    assert_eq!(v[0].description, "Bluetooth service");
    assert_eq!(v[2].active, "inactive");
}

#[test]
fn validates_unit_names() {
    assert!(valid_unit("NetworkManager.service"));
    assert!(valid_unit("getty@tty1.service"));
    assert!(!valid_unit("evil; rm -rf.service"));
    assert!(!valid_unit("foo.mount"));
}

#[test]
fn service_actions_are_checked() {
    assert_eq!(action("cups.service", "restart", true).unwrap(), vec!["restart".to_string(), "cups.service".to_string()]);
    assert_eq!(action("cups.service", "mask", true).unwrap_err(), "invalid action");
    assert_eq!(action("cups", "start", true).unwrap_err(), "invalid service name");
}

#[test]
fn meminfo_and_cpu() {
    let mem = "MemTotal:       16331756 kB\nMemFree: 100 kB\nMemAvailable:    8000000 kB\n";
    assert_eq!(parse_meminfo(mem, "MemTotal:"), 16331756);
    assert_eq!(parse_meminfo(mem, "MemAvailable:"), 8000000);
    assert_eq!(parse_meminfo(mem, "Nope:"), 0);

    let cpu = "processor\t: 0\nmodel name\t: AMD Ryzen 9 5900X\nprocessor\t: 1\nmodel name\t: AMD Ryzen 9 5900X\n";
    assert_eq!(parse_cpu_model(cpu), "AMD Ryzen 9 5900X");
    assert_eq!(parse_cpu_cores(cpu), 2);
}

#[test]
fn uptime_and_load() {
    assert_eq!(parse_uptime("123456.78 98765.43"), 123456);
    assert_eq!(fmt_uptime(90), "1m");
    assert_eq!(fmt_uptime(3700), "1h 1m");
    assert_eq!(fmt_uptime(90061), "1d 1h 1m");
    assert_eq!(parse_loadavg("0.52 0.48 0.40 1/1234 56789"), "0.52 0.48 0.40");
}

#[test]
fn base64_rfc4648_vectors() {
    assert_eq!(base64(b""), "");
    assert_eq!(base64(b"f"), "Zg==");
    assert_eq!(base64(b"fo"), "Zm8=");
    assert_eq!(base64(b"foo"), "Zm9v");
    assert_eq!(base64(b"foob"), "Zm9vYg==");
    assert_eq!(base64(b"fooba"), "Zm9vYmE=");
    assert_eq!(base64(b"foobar"), "Zm9vYmFy");
}

#[test]
fn encoded_command_is_base64_of_utf16le() {
    // "dir" in UTF-16LE is 64 00 69 00 72 00.
    assert_eq!(encode_command("dir"), "ZABpAHIA");
}
