use dmgr::desktop::audio::{detect_kind, BackendCache, BackendKind};
use dmgr::desktop::audio::pactl::parse;
use dmgr::desktop::audio::wpctl::section;
use dmgr::desktop::audio::alsa::list;
use dmgr::gui::audio::{parse_devices, list_sinks, list_sources, AudioKind};

const PACTL_SAMPLE: &str = "\
Sink #49
\tState: RUNNING
\tName: alsa_output.pci-0000_0c_00.4.analog-stereo
\tDescription: Family 17h/19h HD Audio Analog Stereo
\tMute: no
\tVolume: front-left: 42000 /  65% / -9.33 dB,   front-right: 42000 /  65%
Sink #52
\tState: SUSPENDED
\tName: alsa_output.pci-0000_01_00.1.hdmi-stereo-extra3
\tDescription: GB206 HDMI Digital Stereo
\tMute: yes
\tVolume: front-left: 26214 /  40% / -23.65 dB
";

const WPCTL_SAMPLE: &str = "\
Audio
 ├─ Sinks:
 │  *   49. Built-in Audio Analog Stereo  [vol: 0.65]
 │      52. GB206 HDMI Digital Stereo     [vol: 0.40 MUTED]
 ├─ Sources:
 │  *   51. Built-in Audio Analog Stereo  [vol: 1.00]
 ├─ Filters:
";

#[test]
fn classifies_device_kinds() {
    assert_eq!(detect_kind("bluez_output.AA_BB_CC.1"), "Bluetooth");
    assert_eq!(detect_kind("alsa_output.pci-0000_01.hdmi-stereo"), "Hdmi");
    assert_eq!(detect_kind("alsa_output.usb-Generic_USB"), "Usb");
    assert_eq!(detect_kind("alsa_output.pci-0000_0c.analog-stereo"), "Builtin");
    assert_eq!(detect_kind("alsa_output.virtual-sink"), "Virtual");
}

#[test]
fn parses_two_sinks_with_default_and_volume() {
    let default = "alsa_output.pci-0000_0c_00.4.analog-stereo";
    let sinks = parse(PACTL_SAMPLE, "Sink", default);
    assert_eq!(sinks.len(), 2);

    let analog = &sinks[0];
    assert!(analog.is_default);
    assert_eq!(analog.state, "RUNNING");
    assert!(!analog.muted);
    assert_eq!(analog.volume, Some(65));
    assert_eq!(analog.kind, "Builtin");

    let hdmi = &sinks[1];
    assert!(!hdmi.is_default);
    assert!(hdmi.muted);
    assert_eq!(hdmi.volume, Some(40));
    assert_eq!(hdmi.kind, "Hdmi");
    assert_eq!(hdmi.description, "GB206 HDMI Digital Stereo");
}

#[test]
fn empty_input_yields_nothing() {
    assert!(parse("", "Sink", "").is_empty());
}

#[test]
fn pactl_names_nameless_description_by_name_and_drops_nameless() {
    let text = "Sink #1\n\tName: null-sink\nSink #2\n\tState: IDLE\n";
    let sinks = parse(text, "Sink", "x");
    assert_eq!(sinks.len(), 1);
    assert_eq!(sinks[0].index, 1);
    assert_eq!(sinks[0].description, "null-sink");
    assert_eq!(sinks[0].kind, "Virtual");
    assert_eq!(sinks[0].volume, None);
}

#[test]
fn parses_sinks_section_only() {
    let sinks = section(WPCTL_SAMPLE, "Sinks");
    assert_eq!(sinks.len(), 2);

    let first = &sinks[0];
    assert_eq!(first.name, "49");
    assert!(first.is_default);
    assert_eq!(first.volume, Some(65));
    assert!(!first.muted);

    let hdmi = &sinks[1];
    assert_eq!(hdmi.name, "52");
    assert!(!hdmi.is_default);
    assert_eq!(hdmi.volume, Some(40));
    assert!(hdmi.muted);
    assert_eq!(hdmi.kind, "Hdmi");
}

#[test]
fn parses_sources_section() {
    let sources = section(WPCTL_SAMPLE, "Sources");
    assert_eq!(sources.len(), 1);
    assert_eq!(sources[0].name, "51");
    assert!(sources[0].is_default);
}

#[test]
fn wpctl_volume_rounds_and_missing_section_is_empty() {
    let text = " ├─ Sinks:\n │      7. Speaker  [vol: 0.125]\n";
    let sinks = section(text, "Sinks");
    assert_eq!(sinks[0].volume, Some(13));
    assert_eq!(sinks[0].description, "Speaker");
    assert!(section(text, "Sources").is_empty());
}

#[test]
fn alsa_lists_cards_with_hw_keys() {
    let out = "**** List of PLAYBACK Hardware Devices ****\ncard 0: PCH [HDA Intel PCH], device 3: HDMI 0 [HDMI 0]\ncard 1: Headset [USB Headset], device 0: USB Audio [USB Audio]\n";
    let devs = list(Some(out));
    assert_eq!(devs.len(), 2);
    assert_eq!(devs[0].name, "hw:0,3");
    assert_eq!(devs[0].description, "PCH [HDA Intel PCH]");
    assert!(!devs[0].is_default);
    assert_eq!(devs[1].name, "hw:1,0");
    assert_eq!(devs[1].kind, "Usb");
    assert!(list(None).is_empty());
}

#[test]
fn gui_blocks_end_at_the_next_header() {
    let devs = parse_devices(PACTL_SAMPLE, "Sink", "alsa_output.pci-0000_01_00.1.hdmi-stereo-extra3");
    assert_eq!(devs.len(), 2);
    assert_eq!(devs[0].index, 49);
    assert_eq!(devs[0].name, "alsa_output.pci-0000_0c_00.4.analog-stereo");
    assert_eq!(devs[0].description, "Family 17h/19h HD Audio Analog Stereo");
    assert_eq!(devs[0].state, "RUNNING");
    assert!(!devs[0].muted);
    assert!(!devs[0].is_default);
    assert_eq!(devs[0].kind, AudioKind::Builtin);
    assert_eq!(devs[1].index, 52);
    assert_eq!(devs[1].state, "SUSPENDED");
    assert!(devs[1].muted);
    assert!(devs[1].is_default);
    assert_eq!(devs[1].kind, AudioKind::Hdmi);
    assert_eq!(devs[1].icon(), "🖥");
}

#[test]
fn gui_each_device_reads_its_own_block() {
    let text = "Sink #1\n\tName: a\n\tMute: yes\nSink #2\n\tName: b\n";
    let r = parse_devices(text, "Sink", "a");
    assert_eq!(r.len(), 2);
    assert_eq!(r[0].index, 1);
    assert_eq!(r[0].name, "a");
    assert_eq!(r[0].description, "a");
    assert_eq!(r[0].state, "");
    assert!(r[0].muted);
    assert!(r[0].is_default);
    assert_eq!(r[0].kind, AudioKind::Builtin);
    assert_eq!(r[1].index, 2);
    assert_eq!(r[1].name, "b");
    assert_eq!(r[1].description, "b");
    assert!(!r[1].muted);
    assert!(!r[1].is_default);
    // lines ending in "\r\n" and text before the first header
    let crlf = "garbage\r\nSink #7\r\n\tName: é\r\n\tDescription: Speaker\r\nSink #8\r\n\tName: x\r\n";
    let r = parse_devices(crlf, "Sink", "");
    assert_eq!(r.len(), 2);
    assert_eq!(r[0].index, 7);
    assert_eq!(r[0].name, "é");
    assert_eq!(r[0].description, "Speaker");
    assert_eq!(r[1].index, 8);
    assert_eq!(r[1].description, "x");
    // a block without a name gives no device
    assert!(parse_devices("Sink #1\n\tState: IDLE\n", "Sink", "").is_empty());
    assert_eq!(list_sinks(Some("b\n"), Some(text)).iter().filter(|d| d.is_default).count(), 1);
}

#[test]
fn gui_sources_drop_monitors() {
    let text = "Source #1\n\tName: alsa_output.x.monitor\n\tDescription: Monitor of X\n";
    assert!(list_sources(Some("x"), Some(text)).is_empty());
    assert!(list_sources(None, None).is_empty());
}

#[test]
fn wpctl_volume_reads_exponents_inf_and_nan() {
    let text = " ├─ Sinks:\n │      7. A  [vol: 6.5e-1]\n │      8. B  [vol: 1E2]\n │      9. C  [vol: inf]\n │     10. D  [vol: NaN]\n │     11. E  [vol: -0.5]\n │     12. F  [vol: .5e+1]\n │     13. G  [vol: 1e]\n │     14. H  [vol: -Infinity]\n";
    let sinks = section(text, "Sinks");
    let vols: Vec<Option<u32>> = sinks.iter().map(|d| d.volume).collect();
    assert_eq!(
        vols,
        vec![Some(65), Some(10000), Some(u32::MAX), Some(0), Some(0), Some(500), None, Some(0)]
    );
}

#[test]
fn backend_is_chosen_once_and_kept() {
    let mut cache = BackendCache::new();
    assert!(cache.needs_probe());
    assert_eq!(cache.pick(false, false, true, true), Some(BackendKind::Wpctl));
    assert!(!cache.needs_probe());
    assert_eq!(cache.pick(false, true, false, false), Some(BackendKind::Wpctl));
    let mut none = BackendCache::new();
    assert_eq!(none.pick(false, false, false, false), None);
    assert_eq!(none.pick(false, true, true, true), None);
    let mut win = BackendCache::new();
    assert_eq!(win.pick(true, true, false, false), Some(BackendKind::Wasapi));
}
