//! The state of the device manager window and how it changes: on what the
//! background thread reports, on a new selection, and the filtered and
//! grouped device list it shows.
//!
//! Drawing the window and the channels to the background thread are the
//! caller's part; each step here returns the requests to send.
use vstd::prelude::*;
use crate::text::{chars_of, string_of, lowercase, to_lowercase, contains, contains_exec, push_all};
use crate::num::{dec, fmt_u64};
use crate::device::{Bus, BusV, Device, DeviceV, DeviceStatus, bus_label, devices_view, opt_view, strs_view, pairs_view};
use crate::sysfs::lookup;
use crate::gui::worker::{WorkerMsg, BgResult};
use crate::gui::detail::ConfirmPending;
use crate::text::utf8_len;
use crate::sort::{isort, keyed, sort_by_key};

verus! {

/// The window's state.
pub struct DmgrApp {
    pub devices: Vec<Device>,
    pub selected_id: Option<String>,
    pub search_query: String,
    pub bus_filter: String,
    pub available_drivers: Vec<String>,
    pub selected_driver: String,
    pub driver_custom: String,
    pub loading_drivers: bool,
    /// Edited values of the selected device's editable attributes, by
    /// attribute; no attribute occurs twice.
    pub prop_edits: Vec<(String, String)>,
    pub status_msg: String,
    pub op_error: Option<String>,
    pub op_busy: bool,
    pub udev_event_count: u32,
    pub scan_count: usize,
    /// The dialog waiting for the user to confirm an action.
    pub confirm: Option<ConfirmPending>,
}

/// The first device with id `id`.
pub open spec fn find_device(ds: Seq<DeviceV>, id: Seq<char>) -> Option<DeviceV>
    decreases ds.len(),
{
    if ds.len() == 0 {
        None
    } else if ds[0].id == id {
        Some(ds[0])
    } else {
        find_device(ds.drop_first(), id)
    }
}

/// Whether some pair has key `k`.
pub open spec fn has_key(p: Seq<(Seq<char>, Seq<char>)>, k: Seq<char>) -> bool {
    exists|i: int| 0 <= i < p.len() && #[trigger] p[i].0 == k
}

/// The edits after adding, for each editable attribute of `d` not edited
/// yet, its current value (empty where it has none).
pub open spec fn seeded(edits: Seq<(Seq<char>, Seq<char>)>, d: DeviceV, keys: Seq<Seq<char>>) -> Seq<
    (Seq<char>, Seq<char>),
>
    decreases keys.len(),
{
    if keys.len() == 0 {
        edits
    } else {
        let e = seeded(edits, d, keys.drop_last());
        let k = keys.last();
        if has_key(e, k) {
            e
        } else {
            e.push(
                (
                    k,
                    match lookup(d.properties, k) {
                        Some(v) => v,
                        None => seq![],
                    },
                ),
            )
        }
    }
}

/// The edits once the device `id` is selected (unchanged when it is not
/// listed).
pub open spec fn repopulated(edits: Seq<(Seq<char>, Seq<char>)>, ds: Seq<DeviceV>, id: Seq<char>) -> Seq<
    (Seq<char>, Seq<char>),
> {
    match find_device(ds, id) {
        Some(d) => seeded(edits, d, d.editable_properties),
        None => edits,
    }
}

fn find_device_exec(ds: &Vec<Device>, id: &str) -> (r: Option<usize>)
    ensures
        match r {
            Some(i) => i < ds@.len() && find_device(devices_view(ds@), id@) == Some(ds@[i as int]@),
            None => find_device(devices_view(ds@), id@) is None,
        },
{
    let ghost dv = devices_view(ds@);
    let key = String::from_str(id);
    let mut i: usize = 0;
    proof {
        assert(dv.skip(0) =~= dv);
    }
    while i < ds.len()
        invariant
            i <= ds.len(),
            dv == devices_view(ds@),
            key@ == id@,
            find_device(dv, id@) == find_device(dv.skip(i as int), id@),
        decreases ds.len() - i,
    {
        proof {
            assert(dv.skip(i as int)[0] == ds@[i as int]@);
            assert(dv.skip(i as int).drop_first() =~= dv.skip(i + 1));
        }
        if ds[i].id == key {
            return Some(i);
        }
        i = i + 1;
    }
    proof {
        assert(dv.skip(ds.len() as int) =~= Seq::<DeviceV>::empty());
    }
    None
}

fn has_key_exec(p: &Vec<(String, String)>, k: &String) -> (r: bool)
    ensures
        r == has_key(pairs_view(p@), k@),
{
    let mut i: usize = 0;
    while i < p.len()
        invariant
            i <= p.len(),
            forall|j: int| 0 <= j < i ==> pairs_view(p@)[j].0 != k@,
        decreases p.len() - i,
    {
        if p[i].0 == *k {
            proof {
                assert(pairs_view(p@)[i as int].0 == k@);
            }
            return true;
        }
        i = i + 1;
    }
    false
}

/// The number of characters of `s`, counted from index `from`, up to the
/// first whose bytes reach `n` (all of them where they never do).
pub open spec fn bytes_prefix(s: Seq<char>, n: nat, from: int) -> nat
    decreases s.len() - from,
{
    if from < 0 || from >= s.len() || utf8_len(s.take(from)) >= n {
        if from < 0 {
            0
        } else if from > s.len() {
            s.len()
        } else {
            from as nat
        }
    } else {
        bytes_prefix(s, n, from + 1)
    }
}

/// A device name as the list shows it.
pub open spec fn shown_name(name: Seq<char>) -> Seq<char> {
    if utf8_len(name) > 34 {
        name.take(bytes_prefix(name, 33, 0) as int) + "…"@
    } else {
        name
    }
}

/// The colour (red, green, blue) a status is shown in.
pub open spec fn status_rgb(s: DeviceStatus) -> (u8, u8, u8) {
    match s {
        DeviceStatus::Online => (80, 200, 120),
        DeviceStatus::Suspended => (230, 180, 40),
        DeviceStatus::Offline => (200, 60, 60),
        DeviceStatus::Unbound => (160, 160, 160),
        DeviceStatus::Error => (230, 100, 30),
        DeviceStatus::Unknown => (100, 100, 100),
    }
}

/// The colour (red, green, blue) a bus is shown in.
pub open spec fn bus_rgb(b: BusV) -> (u8, u8, u8) {
    match b {
        BusV::Usb => (80, 150, 230),
        BusV::Pci => (180, 100, 230),
        BusV::Audio => (230, 150, 80),
        BusV::Input => (80, 200, 180),
        BusV::Block => (200, 160, 80),
        BusV::Drm => (100, 200, 80),
        BusV::Net => (80, 180, 230),
        BusV::Hid => (200, 120, 120),
        BusV::Tty => (160, 160, 160),
        BusV::Power => (230, 230, 80),
        BusV::IoMMU => (180, 180, 230),
        BusV::Unknown(_) => (130, 130, 130),
    }
}

impl DmgrApp {
    /// The colour `status` is shown in, as red, green and blue.
    pub fn status_color(status: &DeviceStatus) -> (r: (u8, u8, u8))
        ensures
            r == status_rgb(*status),
    {
        match status {
            DeviceStatus::Online => (80, 200, 120),
            DeviceStatus::Suspended => (230, 180, 40),
            DeviceStatus::Offline => (200, 60, 60),
            DeviceStatus::Unbound => (160, 160, 160),
            DeviceStatus::Error => (230, 100, 30),
            DeviceStatus::Unknown => (100, 100, 100),
        }
    }

    /// The colour `bus` is shown in, as red, green and blue.
    pub fn bus_color(bus: &Bus) -> (r: (u8, u8, u8))
        ensures
            r == bus_rgb(bus@),
    {
        match bus {
            Bus::Usb => (80, 150, 230),
            Bus::Pci => (180, 100, 230),
            Bus::Audio => (230, 150, 80),
            Bus::Input => (80, 200, 180),
            Bus::Block => (200, 160, 80),
            Bus::Drm => (100, 200, 80),
            Bus::Net => (80, 180, 230),
            Bus::Hid => (200, 120, 120),
            Bus::Tty => (160, 160, 160),
            Bus::Power => (230, 230, 80),
            Bus::IoMMU => (180, 180, 230),
            Bus::Unknown(_) => (130, 130, 130),
        }
    }

    /// A new window and the request it opens with: nothing listed yet, and
    /// the scan that fills the list, to be sent to the background thread,
    /// under way.
    pub fn new() -> (r: (DmgrApp, WorkerMsg))
        ensures
            r.1 matches WorkerMsg::Refresh,
            r.0.devices@.len() == 0,
            r.0.selected_id is None,
            r.0.op_busy,
            r.0.status_msg@ == "Scanning devices…"@,
            r.0.prop_edits@.len() == 0,
            r.0.udev_event_count == 0,
            r.0.scan_count == 0,
            r.0.search_query@.len() == 0,
            r.0.bus_filter@.len() == 0,
            r.0.available_drivers@.len() == 0,
            r.0.selected_driver@.len() == 0,
            r.0.driver_custom@.len() == 0,
            !r.0.loading_drivers,
            r.0.op_error is None,
            r.0.confirm is None,
    {
        let app = DmgrApp {
            devices: Vec::new(),
            selected_id: None,
            search_query: String::new(),
            bus_filter: String::new(),
            available_drivers: Vec::new(),
            selected_driver: String::new(),
            driver_custom: String::new(),
            loading_drivers: false,
            prop_edits: Vec::new(),
            status_msg: String::from_str("Scanning devices…"),
            op_error: None,
            op_busy: true,
            udev_event_count: 0,
            scan_count: 0,
            confirm: None,
        };
        (app, WorkerMsg::Refresh)
    }

    /// The user confirmed the pending dialog: its action is to be sent, an
    /// operation is under way and the last error is cleared. Nothing happens
    /// without a dialog.
    pub fn accept_confirm(&mut self) -> (sent: Option<WorkerMsg>)
        ensures
            match old(self).confirm {
                Some(c) => sent == Some(c.action) && *final(self) == (DmgrApp {
                    confirm: None,
                    op_busy: true,
                    op_error: None,
                    ..*old(self)
                }),
                None => sent is None && *final(self) == *old(self),
            },
    {
        let c = self.confirm.take();
        match c {
            Some(c) => {
                self.op_busy = true;
                self.op_error = None;
                Some(c.action)
            },
            None => None,
        }
    }

    /// The user dismissed the pending dialog.
    pub fn cancel_confirm(&mut self)
        ensures
            *final(self) == (DmgrApp { confirm: None, ..*old(self) }),
    {
        self.confirm = None;
    }

    /// The Refresh button (enabled while no operation is under way): a scan
    /// is requested.
    pub fn request_refresh(&mut self) -> (sent: Option<WorkerMsg>)
        ensures
            old(self).op_busy ==> sent is None && *final(self) == *old(self),
            !old(self).op_busy ==> (sent matches Some(WorkerMsg::Refresh) && final(self).status_msg@
                == "Scanning…"@),
            !old(self).op_busy ==> *final(self) == (DmgrApp {
                op_busy: true,
                status_msg: final(self).status_msg,
                ..*old(self)
            }),
    {
        if self.op_busy {
            return None;
        }
        self.op_busy = true;
        self.status_msg = String::from_str("Scanning…");
        Some(WorkerMsg::Refresh)
    }

    /// The message of the status bar: the last error, else the status.
    pub fn status_line(&self) -> (r: String)
        ensures
            match self.op_error {
                Some(e) => r@ == "⚠ "@ + e@,
                None => r@ == self.status_msg@,
            },
    {
        match &self.op_error {
            Some(e) => {
                let mut v = chars_of("⚠ ");
                push_all(&mut v, &chars_of(e.as_str()));
                string_of(&v)
            },
            None => self.status_msg.clone(),
        }
    }

    /// How long ago the last scan was, for the status bar: seconds under a
    /// minute, minutes under an hour, else hours.
    pub fn scan_age(secs: u64) -> (r: String)
        ensures
            secs < 60 ==> r@ == dec(secs as nat) + "s ago"@,
            60 <= secs < 3600 ==> r@ == dec((secs / 60) as nat) + "m ago"@,
            secs >= 3600 ==> r@ == dec((secs / 3600) as nat) + "h ago"@,
    {
        let (n, unit) = if secs < 60 {
            (secs, "s ago")
        } else if secs < 3600 {
            (secs / 60, "m ago")
        } else {
            (secs / 3600, "h ago")
        };
        let mut v = fmt_u64(n);
        push_all(&mut v, &chars_of(unit));
        string_of(&v)
    }

    /// The header of a bus group in the device list: its label and size.
    pub fn group_header(label: &str, count: usize) -> (r: String)
        ensures
            r@ == label@ + " ("@ + dec(count as nat) + ")"@,
    {
        let mut v = chars_of(label);
        push_all(&mut v, &chars_of(" ("));
        push_all(&mut v, &fmt_u64(count as u64));
        push_all(&mut v, &chars_of(")"));
        string_of(&v)
    }

    /// A device name as the list shows it: names over 34 bytes are cut to
    /// their first 33 bytes and end in `…`; the cut must fall between
    /// characters.
    pub fn display_name(name: &str) -> (r: String)
        requires
            utf8_len(name@) > 34 ==> utf8_len(name@.take(bytes_prefix(name@, 33, 0) as int)) == 33,
        ensures
            r@ == shown_name(name@),
    {
        let c = chars_of(name);
        let total = crate::text::utf8_len_exec(&c);
        if total <= 34 {
            return String::from_str(name);
        }
        let mut i: usize = 0;
        let mut bytes: u128 = 0;
        while i < c.len() && bytes < 33
            invariant
                i <= c.len(),
                c@ == name@,
                bytes == utf8_len(c@.take(i as int)),
                bytes <= 36,
                bytes_prefix(c@, 33, 0) == bytes_prefix(c@, 33, i as int),
            decreases c.len() - i,
        {
            let ch = c[i] as u32;
            let k: u128 = if ch < 0x80 {
                1
            } else if ch < 0x800 {
                2
            } else if ch < 0x10000 {
                3
            } else {
                4
            };
            proof {
                assert(c@.take(i + 1).drop_last() =~= c@.take(i as int));
                assert(c@.take(i + 1).last() == c@[i as int]);
            }
            bytes = bytes + k;
            i = i + 1;
        }
        let mut v = crate::text::slice_of(&c, 0, i);
        push_all(&mut v, &chars_of("…"));
        proof {
            assert(c@.subrange(0, i as int) =~= c@.take(i as int));
        }
        string_of(&v)
    }

    /// Seeds the edits with the editable attributes of device `dev_id`.
    pub fn repopulate_prop_edits(&mut self, dev_id: &str)
        ensures
            pairs_view(final(self).prop_edits@) == repopulated(
                pairs_view(old(self).prop_edits@),
                devices_view(old(self).devices@),
                dev_id@,
            ),
            *final(self) == (DmgrApp { prop_edits: final(self).prop_edits, ..*old(self) }),
    {
        let idx = match find_device_exec(&self.devices, dev_id) {
            Some(i) => i,
            None => {
                return;
            },
        };
        let ghost d = self.devices@[idx as int]@;
        let keys = crate::device::copy_strs(&self.devices[idx].editable_properties);
        let ghost ks = strs_view(keys@);
        let ghost e0 = pairs_view(self.prop_edits@);
        let mut j: usize = 0;
        proof {
            assert(ks.take(0) =~= Seq::<Seq<char>>::empty());
        }
        while j < keys.len()
            invariant
                j <= keys.len(),
                ks == strs_view(keys@),
                ks == d.editable_properties,
                idx < self.devices@.len(),
                d == self.devices@[idx as int]@,
                self.devices == old(self).devices,
                self.selected_id == old(self).selected_id,
                self.status_msg == old(self).status_msg,
                self.op_busy == old(self).op_busy,
                self.search_query == old(self).search_query,
                self.bus_filter == old(self).bus_filter,
                self.available_drivers == old(self).available_drivers,
                self.selected_driver == old(self).selected_driver,
                self.driver_custom == old(self).driver_custom,
                self.loading_drivers == old(self).loading_drivers,
                self.op_error == old(self).op_error,
                self.udev_event_count == old(self).udev_event_count,
                self.scan_count == old(self).scan_count,
                self.confirm == old(self).confirm,
                pairs_view(self.prop_edits@) == seeded(e0, d, ks.take(j as int)),
            decreases keys.len() - j,
        {
            proof {
                assert(ks.take(j + 1).drop_last() =~= ks.take(j as int));
                assert(ks.take(j + 1).last() == keys@[j as int]@);
            }
            let k = &keys[j];
            if !has_key_exec(&self.prop_edits, k) {
                let v = match crate::sysfs::lookup_exec(&self.devices[idx].properties, k.as_str()) {
                    Some(v) => v,
                    None => String::new(),
                };
                let ghost before = self.prop_edits@;
                let pair = (k.clone(), v);
                self.prop_edits.push(pair);
                proof {
                    assert(pairs_view(self.prop_edits@) =~= pairs_view(before).push((pair.0@, pair.1@)));
                }
            }
            j = j + 1;
        }
        proof {
            assert(ks.take(keys.len() as int) =~= ks);
        }
    }
}

pub open spec fn is_selected(sel: Option<String>, id: Seq<char>) -> bool {
    opt_view(sel) == Some(id)
}

fn selected_is(sel: &Option<String>, id: &String) -> (r: bool)
    ensures
        r == is_selected(*sel, id@),
{
    match sel {
        Some(s) => *s == *id,
        None => false,
    }
}

/// A request to load the drivers of device `d`.
pub open spec fn is_get_drivers(m: WorkerMsg, id: Seq<char>, path: Seq<char>) -> bool {
    m matches WorkerMsg::GetDrivers { dev_id, path: p } && dev_id@ == id && p@ == path
}

impl DmgrApp {
    /// Takes in one report of the background thread and returns the
    /// requests to send in answer.
    ///
    /// A scan replaces the device list (and seeds the edits of the selected
    /// device); loaded drivers are kept when they are the selected device's;
    /// an operation's result is shown and, for the selected device, its
    /// drivers are reloaded; a hardware change starts a rescan unless one is
    /// under way. Audio reports leave the state as it is.
    pub fn handle(&mut self, result: BgResult) -> (sent: Vec<WorkerMsg>)
        requires
            result is UdevTriggered ==> old(self).udev_event_count < u32::MAX,
        ensures
            match result {
                BgResult::Scanned(ds) => {
                    &&& sent@.len() == 0
                    &&& final(self).devices@ == ds@
                    &&& final(self).scan_count == ds@.len()
                    &&& !final(self).op_busy
                    &&& final(self).status_msg@ == "Scan complete — "@ + dec(ds@.len()) + " devices found"@
                    &&& pairs_view(final(self).prop_edits@) == match old(self).selected_id {
                        Some(id) => repopulated(pairs_view(old(self).prop_edits@), devices_view(ds@), id@),
                        None => pairs_view(old(self).prop_edits@),
                    }
                    &&& *final(self) == (DmgrApp {
                        devices: final(self).devices,
                        scan_count: final(self).scan_count,
                        op_busy: false,
                        status_msg: final(self).status_msg,
                        prop_edits: final(self).prop_edits,
                        ..*old(self)
                    })
                },
                BgResult::DriversLoaded { dev_id, drivers } => {
                    &&& sent@.len() == 0
                    &&& final(self).devices@ == old(self).devices@
                    &&& if is_selected(old(self).selected_id, dev_id@) {
                        &&& final(self).available_drivers@ == drivers@
                        &&& !final(self).loading_drivers
                        &&& final(self).selected_driver@ == if old(self).selected_driver@.len() == 0 {
                            if drivers@.len() > 0 {
                                drivers@[0]@
                            } else {
                                Seq::<char>::empty()
                            }
                        } else {
                            old(self).selected_driver@
                        }
                        &&& *final(self) == (DmgrApp {
                            available_drivers: final(self).available_drivers,
                            loading_drivers: false,
                            selected_driver: final(self).selected_driver,
                            ..*old(self)
                        })
                    } else {
                        *final(self) == *old(self)
                    }
                },
                BgResult::OpResult { success, message, dev_id } => {
                    &&& *final(self) == (DmgrApp {
                        op_busy: false,
                        op_error: final(self).op_error,
                        status_msg: final(self).status_msg,
                        ..*old(self)
                    })
                    &&& (success ==> final(self).op_error is None && final(self).status_msg@ == message@)
                    &&& (!success ==> opt_view(final(self).op_error) == Some(message@)
                        && final(self).status_msg@ == "Error: "@ + message@)
                    &&& match dev_id {
                        Some(id) => if is_selected(old(self).selected_id, id@) && find_device(
                            devices_view(old(self).devices@),
                            id@,
                        ) is Some {
                            sent@.len() == 1 && is_get_drivers(
                                sent@[0],
                                id@,
                                find_device(devices_view(old(self).devices@), id@)->0.path,
                            )
                        } else {
                            sent@.len() == 0
                        },
                        None => sent@.len() == 0,
                    }
                },
                BgResult::UdevTriggered => {
                    &&& final(self).udev_event_count == old(self).udev_event_count + 1
                    &&& *final(self) == (DmgrApp {
                        udev_event_count: final(self).udev_event_count,
                        op_busy: true,
                        status_msg: final(self).status_msg,
                        ..*old(self)
                    })
                    &&& if !old(self).op_busy {
                        &&& sent@.len() == 1
                        &&& sent@[0] matches WorkerMsg::Refresh
                        &&& final(self).op_busy
                        &&& final(self).status_msg@ == "Hardware change detected — rescanning…"@
                    } else {
                        &&& sent@.len() == 0
                        &&& final(self).op_busy
                        &&& final(self).status_msg == old(self).status_msg
                    }
                },
                _ => sent@.len() == 0 && *final(self) == *old(self),
            },
    {
        let mut sent: Vec<WorkerMsg> = Vec::new();
        match result {
            BgResult::Scanned(devices) => {
                self.scan_count = devices.len();
                let mut m = chars_of("Scan complete — ");
                proof {
                    assert((devices.len() as u64) as nat == devices@.len());
                }
                push_all(&mut m, &fmt_u64(devices.len() as u64));
                push_all(&mut m, &chars_of(" devices found"));
                self.devices = devices;
                self.op_busy = false;
                self.status_msg = string_of(&m);
                let sel = crate::device::copy_opt(&self.selected_id);
                match sel {
                    Some(id) => {
                        self.repopulate_prop_edits(id.as_str());
                    },
                    None => {},
                }
            },
            BgResult::DriversLoaded { dev_id, drivers } => {
                if selected_is(&self.selected_id, &dev_id) {
                    if self.selected_driver.as_str().is_empty() {
                        self.selected_driver = if drivers.len() > 0 {
                            drivers[0].clone()
                        } else {
                            String::new()
                        };
                    }
                    self.available_drivers = drivers;
                    self.loading_drivers = false;
                }
            },
            BgResult::OpResult { success, message, dev_id } => {
                self.op_busy = false;
                if success {
                    self.op_error = None;
                    self.status_msg = message;
                } else {
                    let mut m = chars_of("Error: ");
                    push_all(&mut m, &chars_of(message.as_str()));
                    self.op_error = Some(message);
                    self.status_msg = string_of(&m);
                }
                match dev_id {
                    Some(id) => {
                        if selected_is(&self.selected_id, &id) {
                            match find_device_exec(&self.devices, id.as_str()) {
                                Some(i) => {
                                    let path = self.devices[i].path.clone();
                                    sent.push(WorkerMsg::GetDrivers { dev_id: id, path });
                                },
                                None => {},
                            }
                        }
                    },
                    None => {},
                }
            },
            BgResult::UdevTriggered => {
                self.udev_event_count = self.udev_event_count + 1;
                if !self.op_busy {
                    sent.push(WorkerMsg::Refresh);
                    self.op_busy = true;
                    self.status_msg = String::from_str("Hardware change detected — rescanning…");
                }
            },
            _ => {},
        }
        sent
    }

    /// Selects the device `new_id` (or none): a new selection forgets the
    /// edits, drivers and error of the previous one, seeds the edits of the
    /// new device and asks for its drivers. Selecting the same device again
    /// changes nothing.
    pub fn change_selection(&mut self, new_id: Option<String>) -> (sent: Vec<WorkerMsg>)
        ensures
            opt_view(old(self).selected_id) == opt_view(new_id) ==> sent@.len() == 0 && *final(self)
                == *old(self),
            opt_view(old(self).selected_id) != opt_view(new_id) ==> {
                &&& opt_view(final(self).selected_id) == opt_view(new_id)
                &&& *final(self) == (DmgrApp {
                    selected_id: final(self).selected_id,
                    prop_edits: final(self).prop_edits,
                    available_drivers: final(self).available_drivers,
                    selected_driver: final(self).selected_driver,
                    driver_custom: final(self).driver_custom,
                    loading_drivers: final(self).loading_drivers,
                    op_error: final(self).op_error,
                    ..*old(self)
                })
                &&& final(self).available_drivers@.len() == 0
                &&& final(self).selected_driver@.len() == 0
                &&& final(self).driver_custom@.len() == 0
                &&& final(self).op_error is None
                &&& match new_id {
                    Some(id) => {
                        &&& pairs_view(final(self).prop_edits@) == repopulated(
                            Seq::empty(),
                            devices_view(old(self).devices@),
                            id@,
                        )
                        &&& match find_device(devices_view(old(self).devices@), id@) {
                            Some(d) => sent@.len() == 1 && is_get_drivers(sent@[0], id@, d.path)
                                && final(self).loading_drivers,
                            None => sent@.len() == 0 && !final(self).loading_drivers,
                        }
                    },
                    None => pairs_view(final(self).prop_edits@).len() == 0 && sent@.len() == 0
                        && !final(self).loading_drivers,
                }
            },
            final(self).devices@ == old(self).devices@,
    {
        let mut sent: Vec<WorkerMsg> = Vec::new();
        let same = match (&self.selected_id, &new_id) {
            (Some(a), Some(b)) => *a == *b,
            (None, None) => true,
            _ => false,
        };
        if same {
            return sent;
        }
        self.selected_id = crate::device::copy_opt(&new_id);
        self.prop_edits = Vec::new();
        self.available_drivers = Vec::new();
        self.selected_driver = String::new();
        self.driver_custom = String::new();
        self.loading_drivers = false;
        self.op_error = None;
        proof {
            assert(pairs_view(self.prop_edits@) =~= Seq::<(Seq<char>, Seq<char>)>::empty());
        }
        match new_id {
            Some(id) => {
                self.repopulate_prop_edits(id.as_str());
                match find_device_exec(&self.devices, id.as_str()) {
                    Some(i) => {
                        let path = self.devices[i].path.clone();
                        let ghost idv = id@;
                        sent.push(WorkerMsg::GetDrivers { dev_id: id, path });
                        self.loading_drivers = true;
                        proof {
                            assert(sent@.len() == 1);
                            assert(is_get_drivers(sent@[0], idv, path@));
                        }
                    },
                    None => {},
                }
            },
            None => {},
        }
        sent
    }
}

pub open spec fn text_or_empty(o: Option<Seq<char>>) -> Seq<char> {
    match o {
        Some(s) => s,
        None => seq![],
    }
}

/// Whether the list shows device `d` for the lowercased query `q` and bus
/// filter `bf`: its bus label, lowercased, is the filter (if any), and the
/// query (if any) occurs in its lowercased name, id, vendor, model, driver
/// or subsystem.
pub open spec fn shows(d: DeviceV, q: Seq<char>, bf: Seq<char>) -> bool {
    &&& (bf.len() == 0 || lowercase(bus_label(d.bus)) == bf)
    &&& (q.len() == 0 || contains(lowercase(d.name), q) || contains(lowercase(d.id), q) || contains(
        lowercase(text_or_empty(d.vendor)),
        q,
    ) || contains(lowercase(text_or_empty(d.model)), q) || contains(
        lowercase(text_or_empty(d.driver)),
        q,
    ) || contains(lowercase(d.subsystem), q))
}

/// The devices shown, in order.
pub open spec fn shown(ds: Seq<DeviceV>, q: Seq<char>, bf: Seq<char>) -> Seq<DeviceV>
    decreases ds.len(),
{
    if ds.len() == 0 {
        seq![]
    } else if shows(ds.last(), q, bf) {
        shown(ds.drop_last(), q, bf).push(ds.last())
    } else {
        shown(ds.drop_last(), q, bf)
    }
}

/// The bus labels in the order the groups are shown.
pub open spec fn known_labels() -> Seq<Seq<char>> {
    seq![
        "USB"@,
        "PCIe"@,
        "Audio"@,
        "Input"@,
        "Block"@,
        "GPU/DRM"@,
        "Network"@,
        "HID"@,
        "TTY"@,
        "Power"@,
        "IOMMU"@,
    ]
}

/// The devices whose bus label is `l`, in order.
pub open spec fn with_label(fs: Seq<DeviceV>, l: Seq<char>) -> Seq<DeviceV>
    decreases fs.len(),
{
    if fs.len() == 0 {
        seq![]
    } else if bus_label(fs.last().bus) == l {
        with_label(fs.drop_last(), l).push(fs.last())
    } else {
        with_label(fs.drop_last(), l)
    }
}

/// The non-empty groups of the labels `ls`, in the order of `ls`.
pub open spec fn label_groups(fs: Seq<DeviceV>, ls: Seq<Seq<char>>) -> Seq<(Seq<char>, Seq<DeviceV>)>
    decreases ls.len(),
{
    if ls.len() == 0 {
        seq![]
    } else {
        let g = with_label(fs, ls.last());
        let r = label_groups(fs, ls.drop_last());
        if g.len() > 0 {
            r.push((ls.last(), g))
        } else {
            r
        }
    }
}

/// The labels that are not among [`known_labels`], each once, in order of
/// first appearance.
pub open spec fn other_labels(fs: Seq<DeviceV>) -> Seq<Seq<char>>
    decreases fs.len(),
{
    if fs.len() == 0 {
        seq![]
    } else {
        let r = other_labels(fs.drop_last());
        let l = bus_label(fs.last().bus);
        if known_labels().contains(l) || r.contains(l) {
            r
        } else {
            r.push(l)
        }
    }
}

/// The groups the list shows: the known buses in their order, then the
/// other labels sorted; each group non-empty, its devices in list order.
pub open spec fn groups_of(fs: Seq<DeviceV>) -> Seq<(Seq<char>, Seq<DeviceV>)> {
    label_groups(fs, known_labels()) + label_groups(
        fs,
        crate::properties::keys_of(isort(crate::properties::keyed_names(other_labels(fs)))),
    )
}

pub open spec fn groups_view(g: Seq<(String, Vec<Device>)>) -> Seq<(Seq<char>, Seq<DeviceV>)> {
    g.map_values(|p: (String, Vec<Device>)| (p.0@, devices_view(p.1@)))
}

fn lower_has(s: &str, q: &Vec<char>) -> (r: bool)
    ensures
        r == contains(lowercase(s@), q@),
{
    contains_exec(&chars_of(to_lowercase(s).as_str()), q)
}

fn opt_text(o: &Option<String>) -> (r: String)
    ensures
        r@ == text_or_empty(opt_view(*o)),
{
    match o {
        Some(s) => s.clone(),
        None => String::new(),
    }
}

fn shows_exec(d: &Device, q: &Vec<char>, bf: &Vec<char>) -> (r: bool)
    ensures
        r == shows(d@, q@, bf@),
{
    if bf.len() > 0 {
        let l = chars_of(to_lowercase(d.bus.label().as_str()).as_str());
        if !crate::text::eq(&l, bf) {
            return false;
        }
    }
    if q.len() == 0 {
        return true;
    }
    lower_has(d.name.as_str(), q) || lower_has(d.id.as_str(), q) || lower_has(
        opt_text(&d.vendor).as_str(),
        q,
    ) || lower_has(opt_text(&d.model).as_str(), q) || lower_has(opt_text(&d.driver).as_str(), q)
        || lower_has(d.subsystem.as_str(), q)
}

fn with_label_exec(fs: &Vec<Device>, l: &Vec<char>) -> (r: Vec<Device>)
    ensures
        devices_view(r@) == with_label(devices_view(fs@), l@),
{
    let ghost fv = devices_view(fs@);
    let mut out: Vec<Device> = Vec::new();
    let mut i: usize = 0;
    proof {
        assert(fv.take(0) =~= Seq::<DeviceV>::empty());
    }
    while i < fs.len()
        invariant
            i <= fs.len(),
            fv == devices_view(fs@),
            devices_view(out@) == with_label(fv.take(i as int), l@),
        decreases fs.len() - i,
    {
        let ghost prev = out@;
        proof {
            assert(fv.take(i + 1).drop_last() =~= fv.take(i as int));
            assert(fv.take(i + 1).last() == fs@[i as int]@);
        }
        if crate::text::eq(&chars_of(fs[i].bus.label().as_str()), l) {
            let d = fs[i].copy();
            out.push(d);
            proof {
                assert(devices_view(out@) =~= devices_view(prev).push(d@));
            }
        }
        i = i + 1;
    }
    proof {
        assert(fv.take(fs.len() as int) =~= fv);
    }
    out
}

fn label_groups_exec(fs: &Vec<Device>, ls: &Vec<String>) -> (r: Vec<(String, Vec<Device>)>)
    ensures
        groups_view(r@) == label_groups(devices_view(fs@), strs_view(ls@)),
{
    let ghost lv = strs_view(ls@);
    let mut out: Vec<(String, Vec<Device>)> = Vec::new();
    let mut i: usize = 0;
    proof {
        assert(lv.take(0) =~= Seq::<Seq<char>>::empty());
    }
    while i < ls.len()
        invariant
            i <= ls.len(),
            lv == strs_view(ls@),
            groups_view(out@) == label_groups(devices_view(fs@), lv.take(i as int)),
        decreases ls.len() - i,
    {
        let ghost prev = out@;
        proof {
            assert(lv.take(i + 1).drop_last() =~= lv.take(i as int));
            assert(lv.take(i + 1).last() == ls@[i as int]@);
        }
        let g = with_label_exec(fs, &chars_of(ls[i].as_str()));
        if g.len() > 0 {
            let entry = (ls[i].clone(), g);
            out.push(entry);
            proof {
                assert(groups_view(out@) =~= groups_view(prev).push((entry.0@, devices_view(entry.1@))));
            }
        }
        i = i + 1;
    }
    proof {
        assert(lv.take(ls.len() as int) =~= lv);
    }
    out
}

fn known_labels_exec() -> (r: Vec<String>)
    ensures
        strs_view(r@) == known_labels(),
{
    let mut v: Vec<String> = Vec::new();
    v.push(String::from_str("USB"));
    v.push(String::from_str("PCIe"));
    v.push(String::from_str("Audio"));
    v.push(String::from_str("Input"));
    v.push(String::from_str("Block"));
    v.push(String::from_str("GPU/DRM"));
    v.push(String::from_str("Network"));
    v.push(String::from_str("HID"));
    v.push(String::from_str("TTY"));
    v.push(String::from_str("Power"));
    v.push(String::from_str("IOMMU"));
    proof {
        assert(strs_view(v@) =~= known_labels());
    }
    v
}

fn contains_text(v: &Vec<String>, s: &String) -> (r: bool)
    ensures
        r == strs_view(v@).contains(s@),
{
    let mut i: usize = 0;
    while i < v.len()
        invariant
            i <= v.len(),
            forall|j: int| 0 <= j < i ==> strs_view(v@)[j] != s@,
        decreases v.len() - i,
    {
        if v[i] == *s {
            proof {
                assert(strs_view(v@)[i as int] == s@);
            }
            return true;
        }
        i = i + 1;
    }
    false
}

fn other_labels_exec(fs: &Vec<Device>) -> (r: Vec<String>)
    ensures
        strs_view(r@) == other_labels(devices_view(fs@)),
{
    let ghost fv = devices_view(fs@);
    let known = known_labels_exec();
    let mut out: Vec<String> = Vec::new();
    let mut i: usize = 0;
    proof {
        assert(fv.take(0) =~= Seq::<DeviceV>::empty());
    }
    while i < fs.len()
        invariant
            i <= fs.len(),
            fv == devices_view(fs@),
            strs_view(known@) == known_labels(),
            strs_view(out@) == other_labels(fv.take(i as int)),
        decreases fs.len() - i,
    {
        let ghost prev = out@;
        proof {
            assert(fv.take(i + 1).drop_last() =~= fv.take(i as int));
            assert(fv.take(i + 1).last() == fs@[i as int]@);
        }
        let l = fs[i].bus.label();
        if !contains_text(&known, &l) && !contains_text(&out, &l) {
            out.push(l);
            proof {
                assert(strs_view(out@) =~= strs_view(prev).push(l@));
            }
        }
        i = i + 1;
    }
    proof {
        assert(fv.take(fs.len() as int) =~= fv);
    }
    out
}

impl DmgrApp {
    /// The device list as shown: the devices that match the search and the
    /// bus filter (both compared lowercased), grouped by bus.
    pub fn filtered_groups(&self) -> (r: Vec<(String, Vec<Device>)>)
        ensures
            groups_view(r@) == groups_of(
                shown(
                    devices_view(self.devices@),
                    lowercase(self.search_query@),
                    lowercase(self.bus_filter@),
                ),
            ),
    {
        let q = chars_of(to_lowercase(self.search_query.as_str()).as_str());
        let bf = chars_of(to_lowercase(self.bus_filter.as_str()).as_str());
        let ghost dv = devices_view(self.devices@);
        let mut fs: Vec<Device> = Vec::new();
        let mut i: usize = 0;
        proof {
            assert(dv.take(0) =~= Seq::<DeviceV>::empty());
        }
        while i < self.devices.len()
            invariant
                i <= self.devices.len(),
                dv == devices_view(self.devices@),
                devices_view(fs@) == shown(dv.take(i as int), q@, bf@),
            decreases self.devices.len() - i,
        {
            let ghost prev = fs@;
            proof {
                assert(dv.take(i + 1).drop_last() =~= dv.take(i as int));
                assert(dv.take(i + 1).last() == self.devices@[i as int]@);
            }
            if shows_exec(&self.devices[i], &q, &bf) {
                let d = self.devices[i].copy();
                fs.push(d);
                proof {
                    assert(devices_view(fs@) =~= devices_view(prev).push(d@));
                }
            }
            i = i + 1;
        }
        proof {
            assert(dv.take(self.devices.len() as int) =~= dv);
        }
        let mut result = label_groups_exec(&fs, &known_labels_exec());
        let others = other_labels_exec(&fs);
        let mut items: Vec<(Vec<char>, ())> = Vec::new();
        let mut j: usize = 0;
        let ghost ov = strs_view(others@);
        proof {
            assert(ov.take(0) =~= Seq::<Seq<char>>::empty());
        }
        while j < others.len()
            invariant
                j <= others.len(),
                ov == strs_view(others@),
                keyed(items@) == crate::properties::keyed_names(ov.take(j as int)),
            decreases others.len() - j,
        {
            let ghost before = items@;
            let k = chars_of(others[j].as_str());
            items.push((k, ()));
            proof {
                assert(keyed(items@) =~= keyed(before).push((k@, ())));
                assert(crate::properties::keyed_names(ov.take(j + 1)) =~= crate::properties::keyed_names(
                    ov.take(j as int),
                ).push((ov[j as int], ())));
            }
            j = j + 1;
        }
        proof {
            assert(ov.take(others.len() as int) =~= ov);
        }
        let sorted = sort_by_key(items);
        let ghost sk = keyed(sorted@);
        let mut labels: Vec<String> = Vec::new();
        let mut m: usize = 0;
        while m < sorted.len()
            invariant
                m <= sorted.len(),
                sk == keyed(sorted@),
                strs_view(labels@) == crate::properties::keys_of(sk.take(m as int)),
            decreases sorted.len() - m,
        {
            let ghost prev = labels@;
            let s = string_of(&sorted[m].0);
            labels.push(s);
            proof {
                assert(sk[m as int].0 == sorted@[m as int].0@);
                assert(strs_view(labels@) =~= strs_view(prev).push(s@));
                assert(crate::properties::keys_of(sk.take(m + 1)) =~= crate::properties::keys_of(
                    sk.take(m as int),
                ).push(sk[m as int].0));
            }
            m = m + 1;
        }
        proof {
            assert(sk.take(sorted.len() as int) =~= sk);
        }
        let rest = label_groups_exec(&fs, &labels);
        let ghost g1 = groups_view(result@);
        let mut rest = rest;
        let ghost g2 = groups_view(rest@);
        result.append(&mut rest);
        proof {
            assert(groups_view(result@) =~= g1 + g2);
        }
        result
    }
}


/// The labels that head the groups, in order.
pub open spec fn group_labels(g: Seq<(Seq<char>, Seq<DeviceV>)>) -> Seq<Seq<char>> {
    g.map_values(|e: (Seq<char>, Seq<DeviceV>)| e.0)
}

proof fn lemma_shown_is_filter(ds: Seq<DeviceV>, q: Seq<char>, bf: Seq<char>)
    ensures
        shown(ds, q, bf) == ds.filter(|d: DeviceV| shows(d, q, bf)),
    decreases ds.len(),
{
    reveal(Seq::filter);
    if ds.len() > 0 {
        lemma_shown_is_filter(ds.drop_last(), q, bf);
    }
}

proof fn lemma_with_label_is_filter(fs: Seq<DeviceV>, l: Seq<char>)
    ensures
        with_label(fs, l) == fs.filter(|d: DeviceV| bus_label(d.bus) == l),
    decreases fs.len(),
{
    reveal(Seq::filter);
    if fs.len() > 0 {
        lemma_with_label_is_filter(fs.drop_last(), l);
    }
}

/// The groups of the labels `ls` hold each the devices of their label and
/// are not empty; their labels occur in `ls`, in the order of `ls`; and
/// every device whose label is in `ls` has its group.
proof fn lemma_label_groups(fs: Seq<DeviceV>, ls: Seq<Seq<char>>)
    ensures
        forall|k: int|
            #![trigger label_groups(fs, ls)[k]]
            0 <= k < label_groups(fs, ls).len() ==> label_groups(fs, ls)[k].1 == with_label(
                fs,
                label_groups(fs, ls)[k].0,
            ) && label_groups(fs, ls)[k].1.len() > 0,
        forall|k: int|
            #![trigger label_groups(fs, ls)[k]]
            0 <= k < label_groups(fs, ls).len() ==> exists|p: int|
                #![trigger ls[p]]
                0 <= p < ls.len() && ls[p] == label_groups(fs, ls)[k].0,
        forall|k1: int, k2: int|
            #![trigger label_groups(fs, ls)[k1], label_groups(fs, ls)[k2]]
            0 <= k1 < k2 < label_groups(fs, ls).len() ==> exists|p: int, p2: int|
                #![trigger ls[p], ls[p2]]
                0 <= p < p2 < ls.len() && ls[p] == label_groups(fs, ls)[k1].0 && ls[p2]
                    == label_groups(fs, ls)[k2].0,
        forall|i: int|
            #![trigger fs[i]]
            0 <= i < fs.len() && ls.contains(bus_label(fs[i].bus)) ==> exists|k: int|
                #![trigger label_groups(fs, ls)[k]]
                0 <= k < label_groups(fs, ls).len() && label_groups(fs, ls)[k].0 == bus_label(
                    fs[i].bus,
                ),
    decreases ls.len(),
{
    if ls.len() > 0 {
        let lp = ls.drop_last();
        let x = ls.last();
        let r = label_groups(fs, lp);
        let gx = with_label(fs, x);
        let g = label_groups(fs, ls);
        lemma_label_groups(fs, lp);
        lemma_with_label_is_filter(fs, x);
        assert forall|k: int| #![trigger r[k]] 0 <= k < r.len() implies g[k] == r[k] by {}
        assert forall|k: int|
            #![trigger g[k]]
            0 <= k < g.len() implies exists|p: int|
                #![trigger ls[p]]
                0 <= p < ls.len() && ls[p] == g[k].0 by {
            if k < r.len() {
                let p = choose|p: int| #![trigger lp[p]] 0 <= p < lp.len() && lp[p] == r[k].0;
                assert(ls[p] == lp[p]);
            } else {
                assert(ls[ls.len() - 1] == x);
            }
        }
        assert forall|k1: int, k2: int|
            #![trigger g[k1], g[k2]]
            0 <= k1 < k2 < g.len() implies exists|p: int, p2: int|
                #![trigger ls[p], ls[p2]]
                0 <= p < p2 < ls.len() && ls[p] == g[k1].0 && ls[p2] == g[k2].0 by {
            if k2 < r.len() {
                assert(r[k1] == g[k1] && r[k2] == g[k2]);
                let (p, p2) = choose|p: int, p2: int|
                    #![trigger lp[p], lp[p2]]
                    0 <= p < p2 < lp.len() && lp[p] == r[k1].0 && lp[p2] == r[k2].0;
                assert(ls[p] == lp[p] && ls[p2] == lp[p2]);
            } else {
                assert(r[k1] == g[k1]);
                let p = choose|p: int| #![trigger lp[p]] 0 <= p < lp.len() && lp[p] == r[k1].0;
                assert(ls[p] == lp[p]);
                assert(ls[ls.len() - 1] == x);
            }
        }
        assert forall|i: int|
            #![trigger fs[i]]
            0 <= i < fs.len() && ls.contains(bus_label(fs[i].bus)) implies exists|k: int|
                #![trigger g[k]]
                0 <= k < g.len() && g[k].0 == bus_label(fs[i].bus) by {
            let l = bus_label(fs[i].bus);
            if lp.contains(l) {
                let k = choose|k: int| #![trigger r[k]] 0 <= k < r.len() && r[k].0 == l;
                assert(g[k] == r[k]);
            } else {
                let p = choose|p: int| 0 <= p < ls.len() && ls[p] == l;
                if p < lp.len() {
                    assert(lp[p] == l);
                }
                assert(l == x);
                fs.lemma_filter_contains(|d: DeviceV| bus_label(d.bus) == x, i);
                assert(gx.len() > 0);
                assert(g[g.len() - 1].0 == x);
            }
        }
    }
}

/// The labels of the list that are not known ones are never known ones,
/// occur once each, and include the label of every device whose label is
/// not a known one.
proof fn lemma_other_labels(fs: Seq<DeviceV>)
    ensures
        forall|i: int|
            #![trigger other_labels(fs)[i]]
            0 <= i < other_labels(fs).len() ==> !known_labels().contains(other_labels(fs)[i]),
        other_labels(fs).no_duplicates(),
        forall|i: int|
            #![trigger fs[i]]
            0 <= i < fs.len() && !known_labels().contains(bus_label(fs[i].bus))
                ==> other_labels(fs).contains(bus_label(fs[i].bus)),
    decreases fs.len(),
{
    if fs.len() > 0 {
        let fp = fs.drop_last();
        lemma_other_labels(fp);
        let r = other_labels(fp);
        let o = other_labels(fs);
        let l = bus_label(fs.last().bus);
        assert forall|i: int|
            #![trigger fs[i]]
            0 <= i < fs.len() && !known_labels().contains(bus_label(fs[i].bus)) implies o.contains(
                bus_label(fs[i].bus),
            ) by {
            if i < fp.len() {
                assert(fp[i] == fs[i]);
                let m = choose|m: int| 0 <= m < r.len() && r[m] == bus_label(fs[i].bus);
                if !(known_labels().contains(l) || r.contains(l)) {
                    assert(o[m] == r[m]);
                }
            } else {
                if !(known_labels().contains(l) || r.contains(l)) {
                    assert(o[o.len() - 1] == l);
                }
            }
        }
    }
}

/// The other labels, sorted: each once, exactly the labels given, in
/// strictly ascending order.
proof fn lemma_sorted_labels(o: Seq<Seq<char>>)
    requires
        o.no_duplicates(),
    ensures
        crate::properties::keys_of(isort(crate::properties::keyed_names(o))).no_duplicates(),
        forall|x: Seq<char>|
            #![trigger crate::properties::keys_of(isort(crate::properties::keyed_names(o))).contains(x)]
            crate::properties::keys_of(isort(crate::properties::keyed_names(o))).contains(x)
                <==> o.contains(x),
        forall|i: int, j: int|
            #![trigger crate::properties::keys_of(isort(crate::properties::keyed_names(o)))[i], crate::properties::keys_of(isort(crate::properties::keyed_names(o)))[j]]
            0 <= i < j < crate::properties::keys_of(isort(crate::properties::keyed_names(o))).len()
                ==> crate::sort::lex_lt(
                crate::properties::keys_of(isort(crate::properties::keyed_names(o)))[i],
                crate::properties::keys_of(isort(crate::properties::keyed_names(o)))[j],
            ),
{
    let kn = crate::properties::keyed_names(o);
    let t = isort(kn);
    let s = crate::properties::keys_of(t);
    crate::sort::law_sort_orders_by_key(kn);
    crate::sort::law_sort_is_permutation(kn);
    assert(kn.no_duplicates()) by {
        assert forall|i: int, j: int| 0 <= i < kn.len() && 0 <= j < kn.len() && i != j implies kn[i]
            != kn[j] by {
            assert(kn[i].0 == o[i] && kn[j].0 == o[j]);
        }
    }
    kn.lemma_multiset_has_no_duplicates();
    t.lemma_multiset_has_no_duplicates_conv();
    kn.to_multiset_ensures();
    t.to_multiset_ensures();
    assert forall|i: int, j: int| 0 <= i < s.len() && 0 <= j < s.len() && i != j implies s[i]
        != s[j] by {
        assert(s[i] == t[i].0 && s[j] == t[j].0);
        assert(t[i].1 == t[j].1);
    }
    assert forall|x: Seq<char>| #![trigger s.contains(x)] s.contains(x) <==> o.contains(x) by {
        if s.contains(x) {
            let i = choose|i: int| 0 <= i < s.len() && s[i] == x;
            assert(t[i] == (x, ()));
            assert(t.contains((x, ())));
            assert(t.to_multiset().count((x, ())) > 0);
            assert(kn.to_multiset().count((x, ())) > 0);
            assert(kn.contains((x, ())));
            let m = choose|m: int| 0 <= m < kn.len() && kn[m] == (x, ());
            assert(o[m] == x);
        }
        if o.contains(x) {
            let m = choose|m: int| 0 <= m < o.len() && o[m] == x;
            assert(kn[m] == (x, ()));
            assert(kn.contains((x, ())));
            assert(kn.to_multiset().count((x, ())) > 0);
            assert(t.to_multiset().count((x, ())) > 0);
            assert(t.contains((x, ())));
            let i = choose|i: int| 0 <= i < t.len() && t[i] == (x, ());
            assert(s[i] == x);
        }
    }
    assert forall|i: int, j: int|
        #![trigger s[i], s[j]]
        0 <= i < j < s.len() implies crate::sort::lex_lt(s[i], s[j]) by {
        assert(s[i] == t[i].0 && s[j] == t[j].0);
        assert(crate::sort::lex_le(t[i].0, t[j].0));
        assert(s[i] != s[j]);
        crate::sort::lemma_lex_total(s[i], s[j]);
    }
}

proof fn lemma_known_labels_distinct()
    ensures
        known_labels().no_duplicates(),
{
    reveal_strlit("USB");
    reveal_strlit("PCIe");
    reveal_strlit("Audio");
    reveal_strlit("Input");
    reveal_strlit("Block");
    reveal_strlit("GPU/DRM");
    reveal_strlit("Network");
    reveal_strlit("HID");
    reveal_strlit("TTY");
    reveal_strlit("Power");
    reveal_strlit("IOMMU");
    let k = known_labels();
    assert forall|i: int, j: int| 0 <= i < k.len() && 0 <= j < k.len() && i != j implies k[i]
        != k[j] by {
        assert(k[i][0] != k[j][0] || k[i][1] != k[j][1]);
    }
}


/// The device list is grouped by bus: it holds the devices that match the
/// search and the bus filter, in their order; each group is not empty and
/// holds, in list order, exactly the listed devices of its bus label; no
/// label heads two groups; and the label of every listed device heads a
/// group.
pub proof fn law_groups_partition_by_bus(ds: Seq<DeviceV>, q: Seq<char>, bf: Seq<char>)
    ensures
        shown(ds, q, bf) == ds.filter(|d: DeviceV| shows(d, q, bf)),
        forall|k: int|
            #![trigger groups_of(shown(ds, q, bf))[k]]
            0 <= k < groups_of(shown(ds, q, bf)).len() ==> groups_of(shown(ds, q, bf))[k].1.len() > 0 && groups_of(shown(ds, q, bf))[k].1 == shown(ds, q, bf).filter(
                |d: DeviceV| bus_label(d.bus) == groups_of(shown(ds, q, bf))[k].0,
            ),
        group_labels(groups_of(shown(ds, q, bf))).no_duplicates(),
        forall|i: int|
            #![trigger shown(ds, q, bf)[i]]
            0 <= i < shown(ds, q, bf).len() ==> group_labels(groups_of(shown(ds, q, bf))).contains(bus_label(shown(ds, q, bf)[i].bus)),
{
    lemma_shown_is_filter(ds, q, bf);
    let fs = shown(ds, q, bf);
    let g = groups_of(fs);
    let kl = known_labels();
    let o = other_labels(fs);
    let sl = crate::properties::keys_of(isort(crate::properties::keyed_names(o)));
    let g1 = label_groups(fs, kl);
    let g2 = label_groups(fs, sl);
    lemma_label_groups(fs, kl);
    lemma_label_groups(fs, sl);
    lemma_other_labels(fs);
    lemma_sorted_labels(o);
    lemma_known_labels_distinct();
    assert(g == g1 + g2);
    assert forall|k: int|
        #![trigger g[k]]
        0 <= k < g.len() implies g[k].1.len() > 0 && g[k].1 == fs.filter(
            |d: DeviceV| bus_label(d.bus) == g[k].0,
        ) by {
        if k < g1.len() {
            assert(g[k] == g1[k]);
        } else {
            assert(g[k] == g2[k - g1.len()]);
        }
        lemma_with_label_is_filter(fs, g[k].0);
    }
    let gl = group_labels(g);
    assert forall|i: int, j: int| 0 <= i < gl.len() && 0 <= j < gl.len() && i != j implies gl[i]
        != gl[j] by {
        let a = if i < j { i } else { j };
        let b = if i < j { j } else { i };
        assert(gl[a] == g[a].0 && gl[b] == g[b].0);
        if b < g1.len() {
            assert(g[a] == g1[a] && g[b] == g1[b]);
            let (p, p2) = choose|p: int, p2: int|
                #![trigger kl[p], kl[p2]]
                0 <= p < p2 < kl.len() && kl[p] == g1[a].0 && kl[p2] == g1[b].0;
        } else if a >= g1.len() {
            assert(g[a] == g2[a - g1.len()] && g[b] == g2[b - g1.len()]);
            let (p, p2) = choose|p: int, p2: int|
                #![trigger sl[p], sl[p2]]
                0 <= p < p2 < sl.len() && sl[p] == g2[a - g1.len()].0 && sl[p2] == g2[b
                    - g1.len()].0;
        } else {
            assert(g[a] == g1[a] && g[b] == g2[b - g1.len()]);
            let p = choose|p: int| #![trigger kl[p]] 0 <= p < kl.len() && kl[p] == g1[a].0;
            let p2 = choose|p2: int|
                #![trigger sl[p2]]
                0 <= p2 < sl.len() && sl[p2] == g2[b - g1.len()].0;
            assert(sl.contains(sl[p2]));
            assert(o.contains(sl[p2]));
            let m = choose|m: int| 0 <= m < o.len() && o[m] == sl[p2];
            assert(!kl.contains(o[m]));
        }
    }
    assert forall|i: int|
        #![trigger fs[i]]
        0 <= i < fs.len() implies gl.contains(bus_label(fs[i].bus)) by {
        let l = bus_label(fs[i].bus);
        if kl.contains(l) {
            let k = choose|k: int| #![trigger g1[k]] 0 <= k < g1.len() && g1[k].0 == l;
            assert(g[k] == g1[k]);
            assert(gl[k] == l);
        } else {
            assert(o.contains(l));
            assert(sl.contains(l));
            let k = choose|k: int| #![trigger g2[k]] 0 <= k < g2.len() && g2[k].0 == l;
            assert(g[g1.len() + k] == g2[k]);
            assert(gl[g1.len() + k] == l);
        }
    }
}


/// The groups come in a fixed order of their labels: the known buses
/// first, in the order of [`known_labels`], then the other labels in
/// ascending order.
pub proof fn law_groups_in_label_order(fs: Seq<DeviceV>)
    ensures
        forall|i: int, j: int|
            #![trigger groups_of(fs)[i], groups_of(fs)[j]]
            0 <= i < j < groups_of(fs).len() && known_labels().contains(groups_of(fs)[j].0) ==> known_labels().contains(groups_of(fs)[i].0),
        forall|i: int, j: int|
            #![trigger groups_of(fs)[i], groups_of(fs)[j]]
            0 <= i < j < groups_of(fs).len() && known_labels().contains(groups_of(fs)[i].0) && known_labels().contains(groups_of(fs)[j].0)
                ==> exists|p: int, p2: int|
                #![trigger known_labels()[p], known_labels()[p2]]
                0 <= p < p2 < known_labels().len() && known_labels()[p] == groups_of(fs)[i].0 && known_labels()[p2] == groups_of(fs)[j].0,
        forall|i: int, j: int|
            #![trigger groups_of(fs)[i], groups_of(fs)[j]]
            0 <= i < j < groups_of(fs).len() && !known_labels().contains(groups_of(fs)[i].0) && !known_labels().contains(groups_of(fs)[j].0)
                ==> crate::sort::lex_lt(groups_of(fs)[i].0, groups_of(fs)[j].0),
{
    let g = groups_of(fs);
    let kl = known_labels();
    let o = other_labels(fs);
    let sl = crate::properties::keys_of(isort(crate::properties::keyed_names(o)));
    let g1 = label_groups(fs, kl);
    let g2 = label_groups(fs, sl);
    lemma_label_groups(fs, kl);
    lemma_label_groups(fs, sl);
    lemma_other_labels(fs);
    lemma_sorted_labels(o);
    assert(g == g1 + g2);
    // A group's label is a known one exactly when the group is among the
    // first ones.
    assert forall|k: int| #![trigger g[k]] 0 <= k < g.len() implies (kl.contains(g[k].0) <==> k
        < g1.len()) by {
        if k < g1.len() {
            assert(g[k] == g1[k]);
            let p = choose|p: int| #![trigger kl[p]] 0 <= p < kl.len() && kl[p] == g1[k].0;
        } else {
            assert(g[k] == g2[k - g1.len()]);
            let p = choose|p: int|
                #![trigger sl[p]]
                0 <= p < sl.len() && sl[p] == g2[k - g1.len()].0;
            assert(sl.contains(sl[p]));
            assert(o.contains(sl[p]));
            let m = choose|m: int| 0 <= m < o.len() && o[m] == sl[p];
            assert(!kl.contains(o[m]));
        }
    }
    assert forall|i: int, j: int|
        #![trigger g[i], g[j]]
        0 <= i < j < g.len() && kl.contains(g[i].0) && kl.contains(g[j].0) implies exists|
        p: int,
        p2: int,
    |
        #![trigger kl[p], kl[p2]]
        0 <= p < p2 < kl.len() && kl[p] == g[i].0 && kl[p2] == g[j].0 by {
        assert(g[i] == g1[i] && g[j] == g1[j]);
        assert(g1[i] == g1[i] && g1[j] == g1[j]);
    }
    assert forall|i: int, j: int|
        #![trigger g[i], g[j]]
        0 <= i < j < g.len() && !kl.contains(g[i].0) && !kl.contains(g[j].0) implies crate::sort::lex_lt(
        g[i].0,
        g[j].0,
    ) by {
        let a = i - g1.len();
        let b = j - g1.len();
        assert(g[i] == g2[a] && g[j] == g2[b]);
        let (p, p2) = choose|p: int, p2: int|
            #![trigger sl[p], sl[p2]]
            0 <= p < p2 < sl.len() && sl[p] == g2[a].0 && sl[p2] == g2[b].0;
        assert(sl[p] == sl[p] && sl[p2] == sl[p2]);
    }
}


/// The list shows exactly the devices, in their order, that match the bus
/// filter `bf` (their lowercased bus label is `bf`, or `bf` is empty) and the
/// query `q` (empty, or held by the lowercased name, id, vendor, model,
/// driver or subsystem).
pub proof fn law_list_shows_every_match(ds: Seq<DeviceV>, q: Seq<char>, bf: Seq<char>)
    ensures
        shown(ds, q, bf) == ds.filter(
            |d: DeviceV|
                (q.len() == 0 || contains(lowercase(d.subsystem), q) || contains(
                    lowercase(text_or_empty(d.driver)),
                    q,
                ) || contains(lowercase(text_or_empty(d.model)), q) || contains(
                    lowercase(text_or_empty(d.vendor)),
                    q,
                ) || contains(lowercase(d.id), q) || contains(lowercase(d.name), q)) && (bf.len() == 0
                    || bf == lowercase(bus_label(d.bus))),
        ),
    decreases ds.len(),
{
    reveal(Seq::filter);
    if ds.len() > 0 {
        law_list_shows_every_match(ds.drop_last(), q, bf);
    }
}

} // verus!
