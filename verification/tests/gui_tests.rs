use dmgr::device::{Bus, Device, DeviceStatus, Interface};
use dmgr::error::DmgrError;
use dmgr::gui::app::DmgrApp;
use dmgr::gui::audio::{AudioDevice, AudioKind};
use dmgr::gui::detail::{
    bind_button_label, bind_confirm, driver_to_bind, edit_changed, identity_rows, interface_rows,
    property_rows, reset_edit, set_confirm, unbind_confirm,
};
use dmgr::gui::worker::{
    bind_report, escalate, follow_up, scan_failed, set_property_report, switch_report,
    unbind_report, BgResult, Escalation, FollowUp, WorkerMsg,
};

fn device(id: &str, name: &str, bus: Bus) -> Device {
    Device::new(id.to_string(), name.to_string(), bus, "usb".to_string(), format!("/sys/{}", id))
}

fn pairs(v: &[(&str, &str)]) -> Vec<(String, String)> {
    v.iter().map(|(a, b)| (a.to_string(), b.to_string())).collect()
}

#[test]
fn colors_of_status_bus_and_audio_state() {
    assert_eq!(DmgrApp::status_color(&DeviceStatus::Online), (80, 200, 120));
    assert_eq!(DmgrApp::status_color(&DeviceStatus::Error), (230, 100, 30));
    assert_eq!(DmgrApp::bus_color(&Bus::Usb), (80, 150, 230));
    assert_eq!(DmgrApp::bus_color(&Bus::Unknown("x".to_string())), (130, 130, 130));
    let mut a = AudioDevice {
        index: 1,
        name: "n".to_string(),
        description: "d".to_string(),
        state: "RUNNING".to_string(),
        muted: false,
        is_default: true,
        kind: AudioKind::Builtin,
    };
    assert_eq!(a.state_color(), (80, 200, 120));
    a.state = "IDLE".to_string();
    assert_eq!(a.state_color(), (180, 180, 80));
    a.state = "weird".to_string();
    assert_eq!(a.state_color(), (100, 100, 100));
}

#[test]
fn new_window_is_scanning() {
    let (app, _) = DmgrApp::new();
    assert!(app.op_busy);
    assert_eq!(app.status_msg, "Scanning devices…");
    assert!(app.devices.is_empty());
    assert!(app.confirm.is_none());
}

#[test]
fn scan_report_replaces_list_and_seeds_edits() {
    let (mut app, _) = DmgrApp::new();
    let mut d = device("a", "Disk", Bus::Block);
    d.properties = pairs(&[("power/control", "auto")]);
    d.editable_properties = vec!["power/control".to_string(), "queue/scheduler".to_string()];
    app.selected_id = Some("a".to_string());
    let sent = app.handle(BgResult::Scanned(vec![d, device("b", "Net", Bus::Net)]));
    assert!(sent.is_empty());
    assert_eq!(app.devices.len(), 2);
    assert_eq!(app.scan_count, 2);
    assert!(!app.op_busy);
    assert_eq!(app.status_msg, "Scan complete — 2 devices found");
    assert_eq!(app.prop_edits, pairs(&[("power/control", "auto"), ("queue/scheduler", "")]));
}

#[test]
fn op_result_reloads_drivers_of_selected_device() {
    let (mut app, _) = DmgrApp::new();
    app.handle(BgResult::Scanned(vec![device("a", "Cam", Bus::Usb)]));
    app.selected_id = Some("a".to_string());
    let sent = app.handle(BgResult::OpResult {
        success: false,
        message: "no".to_string(),
        dev_id: Some("a".to_string()),
    });
    assert_eq!(app.status_msg, "Error: no");
    assert_eq!(app.op_error, Some("no".to_string()));
    assert_eq!(sent.len(), 1);
    assert!(matches!(&sent[0], WorkerMsg::GetDrivers { dev_id, path } if dev_id.as_str() == "a" && path.as_str() == "/sys/a"));
}

#[test]
fn udev_triggers_rescan_only_when_idle() {
    let (mut app, _) = DmgrApp::new();
    let sent = app.handle(BgResult::UdevTriggered);
    assert!(sent.is_empty());
    assert_eq!(app.udev_event_count, 1);
    app.handle(BgResult::Scanned(vec![]));
    let sent = app.handle(BgResult::UdevTriggered);
    assert_eq!(sent.len(), 1);
    assert!(matches!(sent[0], WorkerMsg::Refresh));
    assert_eq!(app.status_msg, "Hardware change detected — rescanning…");
}

#[test]
fn drivers_loaded_pick_first_when_none_chosen() {
    let (mut app, _) = DmgrApp::new();
    app.handle(BgResult::Scanned(vec![device("a", "Cam", Bus::Usb)]));
    let sent = app.change_selection(Some("a".to_string()));
    assert_eq!(sent.len(), 1);
    assert!(app.loading_drivers);
    app.handle(BgResult::DriversLoaded {
        dev_id: "a".to_string(),
        drivers: vec!["uvcvideo".to_string(), "usbfs".to_string()],
    });
    assert!(!app.loading_drivers);
    assert_eq!(app.selected_driver, "uvcvideo");
    // loaded drivers of another device are ignored
    app.handle(BgResult::DriversLoaded { dev_id: "z".to_string(), drivers: vec![] });
    assert_eq!(app.available_drivers.len(), 2);
}

#[test]
fn selecting_the_same_device_again_changes_nothing() {
    let (mut app, _) = DmgrApp::new();
    app.handle(BgResult::Scanned(vec![device("a", "Cam", Bus::Usb)]));
    app.change_selection(Some("a".to_string()));
    app.selected_driver = "usbfs".to_string();
    let sent = app.change_selection(Some("a".to_string()));
    assert!(sent.is_empty());
    assert_eq!(app.selected_driver, "usbfs");
    let sent = app.change_selection(None);
    assert!(sent.is_empty());
    assert!(app.selected_id.is_none());
    assert!(app.selected_driver.is_empty());
}

#[test]
fn filtered_groups_follow_bus_order_then_sorted_others() {
    let (mut app, _) = DmgrApp::new();
    app.handle(BgResult::Scanned(vec![
        device("n", "Ethernet", Bus::Net),
        device("z", "Zeta", Bus::Unknown("zz".to_string())),
        device("u", "Mouse", Bus::Usb),
        device("a", "Alpha", Bus::Unknown("aa".to_string())),
    ]));
    let g = app.filtered_groups();
    let labels: Vec<&str> = g.iter().map(|(l, _)| l.as_str()).collect();
    assert_eq!(labels, vec!["USB", "Network", "aa", "zz"]);
    app.search_query = "MOU".to_string();
    let g = app.filtered_groups();
    assert_eq!(g.len(), 1);
    assert_eq!(g[0].1[0].id, "u");
    app.search_query.clear();
    app.bus_filter = "Network".to_string();
    let g = app.filtered_groups();
    assert_eq!(g.len(), 1);
    assert_eq!(g[0].0, "Network");
}

#[test]
fn confirm_dialog_sends_its_action() {
    let (mut app, _) = DmgrApp::new();
    assert!(app.accept_confirm().is_none());
    app.handle(BgResult::Scanned(vec![]));
    let d = device("a", "Cam", Bus::Usb);
    app.confirm = Some(bind_confirm(&d, "uvcvideo".to_string()));
    app.op_error = Some("old".to_string());
    let sent = app.accept_confirm();
    assert!(matches!(sent, Some(WorkerMsg::BindDriver { driver, .. }) if driver.as_str() == "uvcvideo"));
    assert!(app.op_busy);
    assert!(app.op_error.is_none());
    assert!(app.confirm.is_none());
    app.confirm = unbind_confirm(&d);
    assert!(app.confirm.is_none());
    app.confirm = Some(set_confirm(&d, "power/control", "on"));
    app.cancel_confirm();
    assert!(app.confirm.is_none());
}

#[test]
fn refresh_button_and_status_bar_texts() {
    let (mut app, _) = DmgrApp::new();
    assert!(app.request_refresh().is_none());
    app.handle(BgResult::Scanned(vec![]));
    assert!(matches!(app.request_refresh(), Some(WorkerMsg::Refresh)));
    assert_eq!(app.status_msg, "Scanning…");
    assert_eq!(app.status_line(), "Scanning…");
    app.op_error = Some("bad".to_string());
    assert_eq!(app.status_line(), "⚠ bad");
    assert_eq!(DmgrApp::scan_age(59), "59s ago");
    assert_eq!(DmgrApp::scan_age(60), "1m ago");
    assert_eq!(DmgrApp::scan_age(7200), "2h ago");
    assert_eq!(DmgrApp::group_header("USB", 3), "USB (3)");
    assert_eq!(DmgrApp::display_name("Short"), "Short");
    let long = "A very long device name that goes on and on";
    assert_eq!(DmgrApp::display_name(long), format!("{}…", &long[..33]));
    let exact = "x".repeat(34);
    assert_eq!(DmgrApp::display_name(&exact), exact);
}

#[test]
fn detail_identity_rows() {
    let mut d = device("usb-1-2", "Webcam", Bus::Usb);
    d.bus_id = Some("1-2".to_string());
    d.vendor = Some("Logitech".to_string());
    d.vendor_id = Some("046d".to_string());
    d.model_id = Some("082d".to_string());
    let rows = identity_rows(&d);
    assert_eq!(
        rows,
        pairs(&[
            ("ID", "usb-1-2"),
            ("Subsystem", "usb"),
            ("Bus ID", "1-2"),
            ("Vendor", "Logitech (046d)"),
            ("Model ID", "082d"),
            ("sysfs path", "/sys/usb-1-2"),
        ])
    );
}

#[test]
fn detail_driver_choice_and_confirmations() {
    assert_eq!(driver_to_bind("uvcvideo", "   "), "uvcvideo");
    assert_eq!(driver_to_bind("uvcvideo", "  vfio-pci "), "vfio-pci");
    assert_eq!(bind_button_label(""), "Bind Driver");
    assert_eq!(bind_button_label("e1000e"), "  Bind 'e1000e'  ");
    let mut d = device("a", "Cam", Bus::Usb);
    let c = bind_confirm(&d, "uvcvideo".to_string());
    assert_eq!(c.title, "Bind Driver");
    assert_eq!(c.body, "Bind driver 'uvcvideo' to 'Cam' ?\n\nThis may affect system hardware.");
    d.driver = Some("usbhid".to_string());
    let u = unbind_confirm(&d).unwrap();
    assert_eq!(u.body, "Unbind driver 'usbhid' from 'Cam' ?\n\nThe device may stop working.");
    assert!(matches!(u.action, WorkerMsg::UnbindDriver { .. }));
    let s = set_confirm(&d, "power/control", "on");
    assert_eq!(s.title, "Set Property");
    assert_eq!(s.body, "Set 'power/control' = 'on' on 'Cam' ?");
}

#[test]
fn detail_edits_and_tables() {
    let mut d = device("a", "Disk", Bus::Block);
    d.properties = pairs(&[("size", "100"), ("power/control", "auto"), ("model", "X")]);
    d.editable_properties = vec!["power/control".to_string()];
    let mut edits = pairs(&[("power/control", "on")]);
    assert!(edit_changed(&d, &edits, "power/control"));
    assert!(!edit_changed(&d, &edits, "size"));
    reset_edit(&mut edits, &d, "power/control");
    assert_eq!(edits, pairs(&[("power/control", "auto")]));
    assert!(!edit_changed(&d, &edits, "power/control"));
    reset_edit(&mut edits, &d, "size");
    assert_eq!(edits, pairs(&[("power/control", "auto"), ("size", "100")]));
    let rows = property_rows(&d);
    assert_eq!(
        rows,
        vec![
            ("model".to_string(), "X".to_string(), false),
            ("power/control".to_string(), "auto".to_string(), true),
            ("size".to_string(), "100".to_string(), false),
        ]
    );
    d.interfaces = vec![
        Interface { name: "1-2:1.0".to_string(), class: "0e".to_string(), protocol: Some("00".to_string()) },
        Interface { name: "1-2:1.1".to_string(), class: "0e".to_string(), protocol: None },
    ];
    let ifs = interface_rows(&d);
    assert_eq!(ifs[0].2, "00");
    assert_eq!(ifs[1].2, "—");
}

#[test]
fn worker_reports() {
    match scan_failed(&DmgrError::Io("disk".to_string())) {
        BgResult::OpResult { success, message, dev_id } => {
            assert!(!success);
            assert_eq!(message, "Scan failed: IO error: disk");
            assert!(dev_id.is_none());
        }
        other => panic!("{:?}", other),
    }
    assert!(matches!(escalate(&Ok(())), Escalation::Done(Ok(()))));
    assert!(matches!(escalate(&Err(DmgrError::PermissionDenied("x".to_string()))), Escalation::Pkexec));
    assert!(matches!(escalate(&Err(DmgrError::BindFailed("x".to_string()))), Escalation::Done(Err(m)) if m.as_str() == "Bind operation failed: x"));
    match bind_report(Ok(()), "uvcvideo", "a".to_string()) {
        BgResult::OpResult { success, message, .. } => {
            assert!(success);
            assert_eq!(message, "Driver 'uvcvideo' bound successfully");
        }
        other => panic!("{:?}", other),
    }
    match unbind_report(Err("denied".to_string()), "a".to_string()) {
        BgResult::OpResult { success, message, dev_id } => {
            assert!(!success);
            assert_eq!(message, "denied");
            assert_eq!(dev_id, Some("a".to_string()));
        }
        other => panic!("{:?}", other),
    }
    match set_property_report(Ok(()), "power/control", "on", "a".to_string()) {
        BgResult::OpResult { message, .. } => assert_eq!(message, "Property 'power/control' set to 'on'"),
        other => panic!("{:?}", other),
    }
    match switch_report(Ok(()), "alsa_input.x", true) {
        BgResult::AudioResult { success, message } => {
            assert!(success);
            assert_eq!(message, "Input switched to: alsa_input.x");
        }
        other => panic!("{:?}", other),
    }
}

#[test]
fn window_starts_with_a_scan() {
    let (app, first) = DmgrApp::new();
    assert!(matches!(first, WorkerMsg::Refresh));
    assert!(app.op_busy);
    assert!(app.devices.is_empty());
    assert!(app.selected_id.is_none());
    assert_eq!(app.status_msg, "Scanning devices…");
}

#[test]
fn filtered_groups_hold_each_device_once_under_its_bus() {
    let (mut app, _) = DmgrApp::new();
    app.handle(BgResult::Scanned(vec![
        device("u1", "Keyboard", Bus::Usb),
        device("p1", "Bridge", Bus::Pci),
        device("u2", "Mouse", Bus::Usb),
        device("x1", "Thing", Bus::Unknown("misc".to_string())),
        device("p2", "Controller", Bus::Pci),
        device("x2", "Other", Bus::Unknown("misc".to_string())),
    ]));
    let g = app.filtered_groups();
    let labels: Vec<&str> = g.iter().map(|(l, _)| l.as_str()).collect();
    assert_eq!(labels, vec!["USB", "PCIe", "misc"]);
    let ids: Vec<Vec<&str>> = g
        .iter()
        .map(|(_, ds)| ds.iter().map(|d| d.id.as_str()).collect())
        .collect();
    assert_eq!(ids, vec![vec!["u1", "u2"], vec!["p1", "p2"], vec!["x1", "x2"]]);
    let total: usize = g.iter().map(|(_, ds)| ds.len()).sum();
    assert_eq!(total, 6);
    assert_eq!(app.devices.len(), 6);
}

#[test]
fn worker_follow_ups() {
    let bind = WorkerMsg::BindDriver {
        dev_id: "a".to_string(),
        path: "/sys/devices/a".to_string(),
        driver: "d".to_string(),
    };
    assert_eq!(follow_up(&bind, true), Some(FollowUp::Rescan));
    assert_eq!(follow_up(&bind, false), None);
    let unbind = WorkerMsg::UnbindDriver { dev_id: "a".to_string(), path: "/p".to_string() };
    assert_eq!(follow_up(&unbind, true), Some(FollowUp::Rescan));
    let set = WorkerMsg::SetProperty {
        dev_id: "a".to_string(),
        path: "/p".to_string(),
        attr: "power/control".to_string(),
        value: "on".to_string(),
    };
    assert_eq!(follow_up(&set, false), None);
    assert_eq!(follow_up(&WorkerMsg::SetDefaultSink("s".to_string()), false), Some(FollowUp::ListAudio));
    assert_eq!(follow_up(&WorkerMsg::SetDefaultSource("s".to_string()), true), Some(FollowUp::ListAudio));
    assert_eq!(follow_up(&WorkerMsg::Refresh, true), None);
    assert_eq!(follow_up(&WorkerMsg::RefreshAudio, true), None);
}

#[test]
fn reports_leave_the_other_fields_alone() {
    let (mut app, _) = DmgrApp::new();
    let d = device("a", "Cam", Bus::Usb);
    app.search_query = "cam".to_string();
    app.bus_filter = "USB".to_string();
    app.confirm = Some(set_confirm(&d, "power/control", "on"));
    app.driver_custom = "x".to_string();
    app.handle(BgResult::Scanned(vec![d]));
    assert_eq!(app.search_query, "cam");
    assert_eq!(app.bus_filter, "USB");
    assert!(app.confirm.is_some());
    assert_eq!(app.driver_custom, "x");
    app.cancel_confirm();
    assert_eq!(app.search_query, "cam");
    assert!(app.request_refresh().is_some());
    assert_eq!(app.bus_filter, "USB");
}
