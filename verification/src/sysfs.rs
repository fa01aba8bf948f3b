//! Building device records from what was read under `/sys`.
//!
//! The scanner reads a device directory into a [`SysfsNode`]: the raw
//! contents of the attribute files it could read, the name the `driver`
//! link points to, and the readable entries of `power/`. Everything decided
//! from those readings is here.
use vstd::prelude::*;
use crate::text::{
    chars_of, string_of, trim, trim_chars, split, split_exec, split_once, split_once_exec, lines,
    lines_exec, views, slice_of, utf8_len, utf8_len_exec, copy, concat, starts_with, is_prefix, push_all,
};
use crate::device::{
    Bus, BusV, Device, DeviceV, DeviceStatus, status_of_word, opt_view, pairs_view, strs_view,
    is_lit, new_device, bus_of_subsystem, devices_view,
};
use crate::num::{dec, digit_char, parse_uint, parse_u64, fmt_u64, fmt_digit};
use crate::paths::{path_file_name, file_name_of, path_parent, parent_of};

verus! {

/// The readings taken under one device directory.
pub struct SysfsNode {
    /// Attribute files that could be read: relative name and raw contents.
    pub files: Vec<(String, String)>,
    /// Final component of the target of the `driver` link, if there is one.
    pub driver_link: Option<String>,
    /// Readable entries of the `power/` directory, in directory order:
    /// entry name and raw contents.
    pub power_entries: Vec<(String, String)>,
}

pub struct NodeV {
    pub files: Seq<(Seq<char>, Seq<char>)>,
    pub driver_link: Option<Seq<char>>,
    pub power_entries: Seq<(Seq<char>, Seq<char>)>,
}

impl View for SysfsNode {
    type V = NodeV;

    open spec fn view(&self) -> NodeV {
        NodeV {
            files: pairs_view(self.files@),
            driver_link: opt_view(self.driver_link),
            power_entries: pairs_view(self.power_entries@),
        }
    }
}

/// Index of the first pair with key `k` at or after `from`, or `p.len()`.
pub open spec fn key_pos(p: Seq<(Seq<char>, Seq<char>)>, k: Seq<char>, from: int) -> int
    decreases p.len() - from,
{
    if from < 0 || from >= p.len() {
        p.len() as int
    } else if p[from].0 == k {
        from
    } else {
        key_pos(p, k, from + 1)
    }
}

/// The value of the first pair with key `k`.
pub open spec fn lookup(p: Seq<(Seq<char>, Seq<char>)>, k: Seq<char>) -> Option<Seq<char>> {
    let i = key_pos(p, k, 0);
    if i < p.len() {
        Some(p[i].1)
    } else {
        None
    }
}

/// An attribute as the scanner uses it: the file's contents trimmed, and
/// nothing when the file could not be read or holds only whitespace.
pub open spec fn read_attr(n: NodeV, name: Seq<char>) -> Option<Seq<char>> {
    match lookup(n.files, name) {
        Some(raw) => if trim(raw).len() > 0 {
            Some(trim(raw))
        } else {
            None
        },
        None => None,
    }
}

pub(crate) proof fn lemma_key_pos(p: Seq<(Seq<char>, Seq<char>)>, k: Seq<char>, from: int, i: int)
    requires
        0 <= from <= i <= p.len(),
        forall|j: int| from <= j < i ==> p[j].0 != k,
        i == p.len() || p[i].0 == k,
    ensures
        key_pos(p, k, from) == i,
    decreases i - from,
{
    if from < i {
        lemma_key_pos(p, k, from + 1, i);
    }
}

/// The value of the first pair whose key is `k`.
pub fn lookup_exec(p: &Vec<(String, String)>, k: &str) -> (r: Option<String>)
    ensures
        opt_view(r) == lookup(pairs_view(p@), k@),
{
    let ghost pv = pairs_view(p@);
    let key = String::from_str(k);
    let mut i: usize = 0;
    while i < p.len()
        invariant
            i <= p.len(),
            pv == pairs_view(p@),
            key@ == k@,
            forall|j: int| 0 <= j < i ==> pv[j].0 != k@,
        decreases p.len() - i,
    {
        if p[i].0 == key {
            proof {
                lemma_key_pos(pv, k@, 0, i as int);
            }
            return Some(p[i].1.clone());
        }
        i = i + 1;
    }
    proof {
        lemma_key_pos(pv, k@, 0, p.len() as int);
    }
    None
}

/// `s` trimmed, or nothing when that leaves it empty.
pub fn trimmed_nonempty(s: &String) -> (r: Option<String>)
    ensures
        opt_view(r) == (if trim(s@).len() > 0 {
            Some(trim(s@))
        } else {
            None::<Seq<char>>
        }),
{
    let t = trim_chars(&chars_of(s.as_str()));
    if t.len() > 0 {
        Some(string_of(&t))
    } else {
        None
    }
}

/// An attribute of the node: its file's contents trimmed, or nothing when
/// the file was not read or holds only whitespace.
pub fn attr(n: &SysfsNode, name: &str) -> (r: Option<String>)
    ensures
        opt_view(r) == read_attr(n@, name@),
{
    match lookup_exec(&n.files, name) {
        Some(raw) => trimmed_nonempty(&raw),
        None => None,
    }
}

/// Whether the attribute reads exactly `lit`.
fn attr_is(n: &SysfsNode, name: &str, lit: &str) -> (r: bool)
    ensures
        r == (read_attr(n@, name@) == Some(lit@)),
{
    match attr(n, name) {
        Some(v) => is_lit(&chars_of(v.as_str()), lit),
        None => false,
    }
}

/// The status of a device: its runtime-PM status word if it has one; else
/// offline when `online` reads `0`; else `no_driver` when no driver is
/// bound, and online when one is.
pub open spec fn node_status(n: NodeV, no_driver: DeviceStatus) -> DeviceStatus {
    match read_attr(n, "power/runtime_status"@) {
        Some(w) => status_of_word(w),
        None => if read_attr(n, "online"@) == Some("0"@) {
            DeviceStatus::Offline
        } else if n.driver_link is None {
            no_driver
        } else {
            DeviceStatus::Online
        },
    }
}

fn status_with(n: &SysfsNode, no_driver: DeviceStatus) -> (r: DeviceStatus)
    ensures
        r == node_status(n@, no_driver),
{
    match attr(n, "power/runtime_status") {
        Some(w) => DeviceStatus::from_str(w.as_str()),
        None => {
            if attr_is(n, "online", "0") {
                DeviceStatus::Offline
            } else if n.driver_link.is_none() {
                no_driver
            } else {
                DeviceStatus::Online
            }
        },
    }
}

/// Status of a bus device: as `node_status`, and `Unbound` when no driver
/// is bound.
pub fn read_device_status(n: &SysfsNode) -> (r: DeviceStatus)
    ensures
        r == node_status(n@, DeviceStatus::Unbound),
{
    status_with(n, DeviceStatus::Unbound)
}

/// Status of a class device: as `node_status`, and `Online` when no driver
/// is bound (class devices often have none).
pub fn read_device_status_with_default(n: &SysfsNode) -> (r: DeviceStatus)
    ensures
        r == node_status(n@, DeviceStatus::Online),
{
    status_with(n, DeviceStatus::Online)
}

/// One `:`-separated part of a modalias: `v` followed by eight bytes sets
/// the vendor id, `d` followed by eight bytes the model id.
pub open spec fn modalias_step(d: DeviceV, part: Seq<char>) -> DeviceV {
    if part.len() > 0 && part[0] == 'v' {
        if utf8_len(part.drop_first()) == 8 {
            DeviceV { vendor_id: Some(part.drop_first()), ..d }
        } else {
            d
        }
    } else if part.len() > 0 && part[0] == 'd' {
        if utf8_len(part.drop_first()) == 8 {
            DeviceV { model_id: Some(part.drop_first()), ..d }
        } else {
            d
        }
    } else {
        d
    }
}

pub open spec fn apply_modalias(d: DeviceV, parts: Seq<Seq<char>>) -> DeviceV
    decreases parts.len(),
{
    if parts.len() == 0 {
        d
    } else {
        modalias_step(apply_modalias(d, parts.drop_last()), parts.last())
    }
}

/// Takes the vendor and model ids out of a modalias string.
pub fn parse_modalias(modalias: &str, device: &mut Device)
    ensures
        final(device)@ == apply_modalias(old(device)@, split(modalias@, ':')),
{
    let parts = split_exec(&chars_of(modalias), ':');
    let ghost ps = views(parts@);
    let mut i: usize = 0;
    while i < parts.len()
        invariant
            i <= parts.len(),
            ps == views(parts@),
            ps == split(modalias@, ':'),
            device@ == apply_modalias(old(device)@, ps.take(i as int)),
        decreases parts.len() - i,
    {
        let part = &parts[i];
        proof {
            assert(ps.take(i + 1).drop_last() =~= ps.take(i as int));
            assert(ps.take(i + 1).last() == part@);
        }
        if part.len() > 0 && part[0] == 'v' {
            let rest = slice_of(part, 1, part.len());
            proof {
                assert(rest@ =~= part@.drop_first());
            }
            if utf8_len_exec(&rest) == 8 {
                device.vendor_id = Some(string_of(&rest));
            }
        } else if part.len() > 0 && part[0] == 'd' {
            let rest = slice_of(part, 1, part.len());
            proof {
                assert(rest@ =~= part@.drop_first());
            }
            if utf8_len_exec(&rest) == 8 {
                device.model_id = Some(string_of(&rest));
            }
        }
        i = i + 1;
    }
    proof {
        assert(ps.take(parts.len() as int) =~= ps);
    }
}

/// One `KEY=value` line of a `uevent` file: `DRIVER` fills a missing
/// driver, `PCI_CLASS` a missing vendor, and `MODALIAS` is read for ids.
pub open spec fn uevent_step(d: DeviceV, line: Seq<char>) -> DeviceV {
    match split_once(line, '=') {
        Some((k, v)) => if k == "DRIVER"@ {
            if d.driver is None {
                DeviceV { driver: Some(v), ..d }
            } else {
                d
            }
        } else if k == "PCI_CLASS"@ {
            if d.vendor is None {
                DeviceV { vendor: Some(v), ..d }
            } else {
                d
            }
        } else if k == "MODALIAS"@ {
            apply_modalias(d, split(v, ':'))
        } else {
            d
        },
        None => d,
    }
}

pub open spec fn apply_uevent(d: DeviceV, ls: Seq<Seq<char>>) -> DeviceV
    decreases ls.len(),
{
    if ls.len() == 0 {
        d
    } else {
        uevent_step(apply_uevent(d, ls.drop_last()), ls.last())
    }
}

/// The device after reading the node's `uevent` file, if it was read.
pub open spec fn with_uevent(n: NodeV, d: DeviceV) -> DeviceV {
    match lookup(n.files, "uevent"@) {
        Some(content) => apply_uevent(d, lines(content)),
        None => d,
    }
}

/// Applies the lines of a `uevent` file to the device.
pub fn apply_uevent_text(content: &str, device: &mut Device)
    ensures
        final(device)@ == apply_uevent(old(device)@, lines(content@)),
{
    let ls = lines_exec(&chars_of(content));
    let ghost lv = views(ls@);
    let mut i: usize = 0;
    while i < ls.len()
        invariant
            i <= ls.len(),
            lv == views(ls@),
            lv == lines(content@),
            device@ == apply_uevent(old(device)@, lv.take(i as int)),
        decreases ls.len() - i,
    {
        let line = &ls[i];
        proof {
            assert(lv.take(i + 1).drop_last() =~= lv.take(i as int));
            assert(lv.take(i + 1).last() == line@);
        }
        match split_once_exec(line, '=') {
            Some((k, v)) => {
                if is_lit(&k, "DRIVER") {
                    if device.driver.is_none() {
                        device.driver = Some(string_of(&v));
                    }
                } else if is_lit(&k, "PCI_CLASS") {
                    if device.vendor.is_none() {
                        device.vendor = Some(string_of(&v));
                    }
                } else if is_lit(&k, "MODALIAS") {
                    let vs = string_of(&v);
                    parse_modalias(vs.as_str(), device);
                }
            },
            None => {},
        }
        i = i + 1;
    }
    proof {
        assert(lv.take(ls.len() as int) =~= lv);
    }
}

/// Reads the node's `uevent` file into the device.
pub fn read_uevent_into(n: &SysfsNode, device: &mut Device)
    ensures
        final(device)@ == with_uevent(n@, old(device)@),
{
    match lookup_exec(&n.files, "uevent") {
        Some(content) => apply_uevent_text(content.as_str(), device),
        None => {},
    }
}

/// The properties after setting `k` to `v`: an existing entry for `k`
/// takes the new value in place, otherwise the pair is added at the end.
pub open spec fn props_insert(
    p: Seq<(Seq<char>, Seq<char>)>,
    k: Seq<char>,
    v: Seq<char>,
) -> Seq<(Seq<char>, Seq<char>)> {
    let i = key_pos(p, k, 0);
    if i < p.len() {
        p.update(i, (k, v))
    } else {
        p.push((k, v))
    }
}

pub proof fn lemma_key_pos_bounds(p: Seq<(Seq<char>, Seq<char>)>, k: Seq<char>, from: int)
    requires
        0 <= from <= p.len(),
    ensures
        from <= key_pos(p, k, from) <= p.len(),
        forall|j: int| from <= j < key_pos(p, k, from) ==> p[j].0 != k,
        key_pos(p, k, from) < p.len() ==> p[key_pos(p, k, from)].0 == k,
    decreases p.len() - from,
{
    if from < p.len() && p[from].0 != k {
        lemma_key_pos_bounds(p, k, from + 1);
    }
}

/// Sets property `k` to `v` (map insertion).
pub fn insert_prop(props: &mut Vec<(String, String)>, k: String, v: String)
    ensures
        pairs_view(final(props)@) == props_insert(pairs_view(old(props)@), k@, v@),
{
    let ghost pv = pairs_view(props@);
    let mut i: usize = 0;
    while i < props.len()
        invariant
            i <= props.len(),
            pv == pairs_view(props@),
            pv == pairs_view(old(props)@),
            forall|j: int| 0 <= j < i ==> pv[j].0 != k@,
        decreases props.len() - i,
    {
        if props[i].0 == k {
            proof {
                lemma_key_pos(pv, k@, 0, i as int);
            }
            let ghost kv = k@;
            let ghost vv = v@;
            props.set(i, (k, v));
            proof {
                assert(pairs_view(props@) =~= pv.update(i as int, (kv, vv)));
            }
            return;
        }
        i = i + 1;
    }
    proof {
        lemma_key_pos(pv, k@, 0, props.len() as int);
    }
    let ghost kv = k@;
    let ghost vv = v@;
    props.push((k, v));
    proof {
        assert(pairs_view(props@) =~= pv.push((kv, vv)));
    }
}

/// One readable `power/` entry: recorded as property `power/<entry>` with
/// its trimmed contents; `control` and `async` are editable.
pub open spec fn power_step(d: DeviceV, e: (Seq<char>, Seq<char>)) -> DeviceV {
    let key = "power/"@ + e.0;
    DeviceV {
        editable_properties: if e.0 == "control"@ || e.0 == "async"@ {
            d.editable_properties.push(key)
        } else {
            d.editable_properties
        },
        properties: props_insert(d.properties, key, trim(e.1)),
        ..d
    }
}

pub open spec fn apply_power(d: DeviceV, es: Seq<(Seq<char>, Seq<char>)>) -> DeviceV
    decreases es.len(),
{
    if es.len() == 0 {
        d
    } else {
        power_step(apply_power(d, es.drop_last()), es.last())
    }
}

/// One of the plain attributes kept as properties: recorded when present;
/// `authorized` is editable and sets the authorized flag (`1`), and
/// `removable` sets the removable flag (anything but `fixed`).
pub open spec fn attr_prop_step(n: NodeV, d: DeviceV, prop: Seq<char>) -> DeviceV {
    match read_attr(n, prop) {
        Some(val) => {
            let d1 = DeviceV { properties: props_insert(d.properties, prop, val), ..d };
            if prop == "authorized"@ {
                DeviceV {
                    editable_properties: d1.editable_properties.push(prop),
                    authorized: val == "1"@,
                    ..d1
                }
            } else if prop == "removable"@ {
                DeviceV { removable: val != "fixed"@, ..d1 }
            } else {
                d1
            }
        },
        None => d,
    }
}

/// The device after reading its properties: the `power/` entries, then
/// `removable`, `authorized`, `iommu_group` and `numa_node`.
pub open spec fn with_properties(n: NodeV, d: DeviceV) -> DeviceV {
    let d1 = apply_power(d, n.power_entries);
    let d2 = attr_prop_step(n, d1, "removable"@);
    let d3 = attr_prop_step(n, d2, "authorized"@);
    let d4 = attr_prop_step(n, d3, "iommu_group"@);
    attr_prop_step(n, d4, "numa_node"@)
}


proof fn lemma_modalias_keeps_path(d: DeviceV, parts: Seq<Seq<char>>)
    ensures
        apply_modalias(d, parts).path == d.path,
    decreases parts.len(),
{
    if parts.len() > 0 {
        lemma_modalias_keeps_path(d, parts.drop_last());
    }
}

proof fn lemma_uevent_keeps_path(d: DeviceV, ls: Seq<Seq<char>>)
    ensures
        apply_uevent(d, ls).path == d.path,
    decreases ls.len(),
{
    if ls.len() > 0 {
        lemma_uevent_keeps_path(d, ls.drop_last());
        let e = apply_uevent(d, ls.drop_last());
        match split_once(ls.last(), '=') {
            Some((k, v)) => {
                lemma_modalias_keeps_path(e, split(v, ':'));
            },
            None => {},
        }
    }
}

proof fn lemma_power_keeps_path(d: DeviceV, es: Seq<(Seq<char>, Seq<char>)>)
    ensures
        apply_power(d, es).path == d.path,
    decreases es.len(),
{
    if es.len() > 0 {
        lemma_power_keeps_path(d, es.drop_last());
    }
}

/// Reading the `uevent` file and the properties leaves the path alone.
pub proof fn lemma_readings_keep_path(n: NodeV, d: DeviceV)
    ensures
        with_properties(n, with_uevent(n, d)).path == d.path,
{
    match lookup(n.files, "uevent"@) {
        Some(content) => lemma_uevent_keeps_path(d, lines(content)),
        None => {},
    }
    lemma_power_keeps_path(with_uevent(n, d), n.power_entries);
}

/// A device read from a directory is at that directory's path.
pub proof fn lemma_device_paths(name: Seq<char>, path: Seq<char>, bus: BusV, subsystem: Seq<char>, n: NodeV)
    ensures
        pci_device(name, path, n).path == path,
        usb_device(name, path, n).path == path,
        class_device(name, path, bus, subsystem, n).path == path,
        generic_device(name, path, n).path == path,
{
    lemma_any_readings_keep_path(n);
}

proof fn lemma_any_readings_keep_path(n: NodeV)
    ensures
        forall|d: DeviceV| #[trigger] with_properties(n, with_uevent(n, d)).path == d.path,
{
    assert forall|d: DeviceV| #[trigger] with_properties(n, with_uevent(n, d)).path == d.path by {
        lemma_readings_keep_path(n, d);
    }
}

/// `a` followed by `b`.
pub fn cat(a: &str, b: &str) -> (r: String)
    ensures
        r@ == a@ + b@,
{
    string_of(&concat(&chars_of(a), &chars_of(b)))
}

fn read_attr_prop(n: &SysfsNode, device: &mut Device, prop: &str)
    ensures
        final(device)@ == attr_prop_step(n@, old(device)@, prop@),
{
    match attr(n, prop) {
        Some(val) => {
            let vc = chars_of(val.as_str());
            let key = String::from_str(prop);
            let ghost val_v = val@;
            let auth = is_lit(&vc, "1");
            let fixed = is_lit(&vc, "fixed");
            insert_prop(&mut device.properties, key, val);
            let pc = chars_of(prop);
            if is_lit(&pc, "authorized") {
                let k2 = String::from_str(prop);
                let ghost before = device.editable_properties@;
                device.editable_properties.push(k2);
                proof {
                    assert(strs_view(device.editable_properties@) =~= strs_view(before).push(prop@));
                }
                device.authorized = auth;
            } else if is_lit(&pc, "removable") {
                device.removable = !fixed;
            }
        },
        None => {},
    }
}

/// Reads the node's properties into the device.
pub fn read_properties(n: &SysfsNode, device: &mut Device)
    ensures
        final(device)@ == with_properties(n@, old(device)@),
{
    let ghost es = pairs_view(n.power_entries@);
    let mut i: usize = 0;
    while i < n.power_entries.len()
        invariant
            i <= n.power_entries.len(),
            es == pairs_view(n.power_entries@),
            device@ == apply_power(old(device)@, es.take(i as int)),
        decreases n.power_entries.len() - i,
    {
        let entry = &n.power_entries[i];
        proof {
            assert(es.take(i + 1).drop_last() =~= es.take(i as int));
            assert(es.take(i + 1).last() == (entry.0@, entry.1@));
        }
        let key = cat("power/", entry.0.as_str());
        let ec = chars_of(entry.0.as_str());
        if is_lit(&ec, "control") || is_lit(&ec, "async") {
            let k2 = cat("power/", entry.0.as_str());
            let ghost before = device.editable_properties@;
            device.editable_properties.push(k2);
            proof {
                assert(strs_view(device.editable_properties@) =~= strs_view(before).push(key@));
            }
        }
        let val = string_of(&trim_chars(&chars_of(entry.1.as_str())));
        insert_prop(&mut device.properties, key, val);
        i = i + 1;
    }
    proof {
        assert(es.take(n.power_entries.len() as int) =~= es);
    }
    read_attr_prop(n, device, "removable");
    read_attr_prop(n, device, "authorized");
    read_attr_prop(n, device, "iommu_group");
    read_attr_prop(n, device, "numa_node");
}

/// `s` with every leading repetition of `p` removed
/// (`str::trim_start_matches`).
pub open spec fn strip_all(s: Seq<char>, p: Seq<char>) -> Seq<char>
    decreases s.len(),
{
    if p.len() > 0 && is_prefix(p, s) {
        strip_all(s.skip(p.len() as int), p)
    } else {
        s
    }
}

/// A PCI id attribute (`0x8086`) without its `0x`; nothing when it does not
/// start with `0x`.
pub open spec fn hex_id(v: Option<Seq<char>>) -> Option<Seq<char>> {
    match v {
        Some(s) => if is_prefix("0x"@, s) {
            Some(strip_all(s, "0x"@))
        } else {
            None
        },
        None => None,
    }
}

fn strip_all_exec(s: &Vec<char>, p: &Vec<char>) -> (r: Vec<char>)
    ensures
        r@ == strip_all(s@, p@),
{
    let mut cur = copy(s);
    if p.len() == 0 {
        return cur;
    }
    while starts_with(&cur, p)
        invariant
            p.len() > 0,
            strip_all(cur@, p@) == strip_all(s@, p@),
        decreases cur.len(),
    {
        let ghost prev = cur@;
        cur = slice_of(&cur, p.len(), cur.len());
        proof {
            assert(cur@ =~= prev.skip(p.len() as int));
        }
    }
    cur
}

fn hex_id_exec(v: Option<String>) -> (r: Option<String>)
    ensures
        opt_view(r) == hex_id(opt_view(v)),
{
    match v {
        Some(s) => {
            let c = chars_of(s.as_str());
            let p = chars_of("0x");
            if starts_with(&c, &p) {
                Some(string_of(&strip_all_exec(&c, &p)))
            } else {
                None
            }
        },
        None => None,
    }
}

/// A PCI device read from its node: id `pci-<name>`, named
/// `PCI Device <name>`, vendor and model from `vendor`/`device` (ids without
/// their `0x`), driver, status, removable unless `fixed`, authorized unless
/// not `1`; then its `uevent` and properties.
pub open spec fn pci_device(name: Seq<char>, path: Seq<char>, n: NodeV) -> DeviceV {
    let d0 = new_device("pci-"@ + name, "PCI Device "@ + name, BusV::Pci, "pci"@, path);
    let d1 = DeviceV {
        bus_id: Some(name),
        vendor: read_attr(n, "vendor"@),
        model: read_attr(n, "device"@),
        vendor_id: hex_id(read_attr(n, "vendor"@)),
        model_id: hex_id(read_attr(n, "device"@)),
        driver: n.driver_link,
        status: node_status(n, DeviceStatus::Unbound),
        removable: match read_attr(n, "removable"@) {
            Some(s) => s != "fixed"@,
            None => false,
        },
        authorized: match read_attr(n, "authorized"@) {
            Some(s) => s == "1"@,
            None => true,
        },
        ..d0
    };
    with_properties(n, with_uevent(n, d1))
}

/// Builds the record of the PCI device `name` at `path`.
pub fn parse_pci_device(name: &str, path: &str, n: &SysfsNode) -> (r: Device)
    ensures
        r@ == pci_device(name@, path@, n@),
{
    let mut d = Device::new(
        cat("pci-", name),
        cat("PCI Device ", name),
        Bus::Pci,
        String::from_str("pci"),
        String::from_str(path),
    );
    d.bus_id = Some(String::from_str(name));
    d.vendor = attr(n, "vendor");
    d.model = attr(n, "device");
    d.vendor_id = hex_id_exec(attr(n, "vendor"));
    d.model_id = hex_id_exec(attr(n, "device"));
    d.driver = n.driver_link.clone();
    d.status = read_device_status(n);
    d.removable = match attr(n, "removable") {
        Some(s) => !is_lit(&chars_of(s.as_str()), "fixed"),
        None => false,
    };
    d.authorized = match attr(n, "authorized") {
        Some(s) => is_lit(&chars_of(s.as_str()), "1"),
        None => true,
    };
    read_uevent_into(n, &mut d);
    read_properties(n, &mut d);
    d
}

/// Whether a `uevent` line sets `MODALIAS`, which may carry vendor and
/// model ids of its own.
pub open spec fn is_modalias_line(l: Seq<char>) -> bool {
    match split_once(l, '=') {
        Some((k, _)) => k == "MODALIAS"@,
        None => false,
    }
}

/// Whether the node's `uevent` file has no `MODALIAS` line.
pub open spec fn no_modalias(n: NodeV) -> bool {
    match lookup(n.files, "uevent"@) {
        Some(u) => forall|i: int| 0 <= i < lines(u).len() ==> !is_modalias_line(#[trigger] lines(u)[i]),
        None => true,
    }
}

proof fn lemma_power_keeps_ids(d: DeviceV, es: Seq<(Seq<char>, Seq<char>)>)
    ensures
        apply_power(d, es).vendor_id == d.vendor_id,
        apply_power(d, es).model_id == d.model_id,
    decreases es.len(),
{
    if es.len() > 0 {
        lemma_power_keeps_ids(d, es.drop_last());
    }
}

proof fn lemma_uevent_keeps_ids(d: DeviceV, ls: Seq<Seq<char>>)
    requires
        forall|i: int| 0 <= i < ls.len() ==> !is_modalias_line(#[trigger] ls[i]),
    ensures
        apply_uevent(d, ls).vendor_id == d.vendor_id,
        apply_uevent(d, ls).model_id == d.model_id,
    decreases ls.len(),
{
    if ls.len() > 0 {
        assert forall|i: int| 0 <= i < ls.drop_last().len() implies !is_modalias_line(
            #[trigger] ls.drop_last()[i],
        ) by {
            assert(ls.drop_last()[i] == ls[i]);
        }
        lemma_uevent_keeps_ids(d, ls.drop_last());
        assert(!is_modalias_line(ls[ls.len() - 1]));
    }
}

proof fn lemma_strip_hex(h: Seq<char>)
    requires
        !is_prefix("0x"@, h),
    ensures
        strip_all("0x"@ + h, "0x"@) == h,
{
    reveal_strlit("0x");
    let s = "0x"@ + h;
    assert(s.take(2) =~= "0x"@);
    assert(s.skip(2) =~= h);
    assert(strip_all(h, "0x"@) == h);
    assert(strip_all(s, "0x"@) == strip_all(s.skip(2), "0x"@));
}

/// Reading the `uevent` file and the properties keeps a device's id and
/// name, and, where the `uevent` file sets no `MODALIAS`, its vendor and
/// model ids.
proof fn lemma_finishing_keeps(n: NodeV)
    ensures
        forall|d: DeviceV| #[trigger] with_properties(n, with_uevent(n, d)).id == d.id
            && with_properties(n, with_uevent(n, d)).name == d.name,
        no_modalias(n) ==> forall|d: DeviceV|
            #[trigger] with_properties(n, with_uevent(n, d)).vendor_id == d.vendor_id
                && with_properties(n, with_uevent(n, d)).model_id == d.model_id,
{
    assert forall|d: DeviceV| #[trigger] with_properties(n, with_uevent(n, d)).id == d.id
        && with_properties(n, with_uevent(n, d)).name == d.name by {
        match lookup(n.files, "uevent"@) {
            Some(u) => lemma_uevent_keeps_names(d, lines(u)),
            None => {},
        }
        lemma_power_keeps_names(with_uevent(n, d), n.power_entries);
    }
    if no_modalias(n) {
        assert forall|d: DeviceV|
            #[trigger] with_properties(n, with_uevent(n, d)).vendor_id == d.vendor_id
                && with_properties(n, with_uevent(n, d)).model_id == d.model_id by {
            match lookup(n.files, "uevent"@) {
                Some(u) => lemma_uevent_keeps_ids(d, lines(u)),
                None => {},
            }
            lemma_power_keeps_ids(with_uevent(n, d), n.power_entries);
        }
    }
}

/// A PCI device is `pci-<name>`, shown as `PCI Device <name>`. Its vendor
/// id is its `vendor` attribute without the `0x` it
/// starts with, and its model id its `device` attribute likewise (vendor
/// `0x8086` gives `8086`); an attribute that is missing or does not start
/// with `0x` gives no id. This holds where the `uevent` file sets no
/// `MODALIAS`, whose ids would replace these.
pub proof fn law_pci_ids_from_attributes(name: Seq<char>, path: Seq<char>, n: NodeV)
    ensures
        pci_device(name, path, n).id == "pci-"@ + name,
        pci_device(name, path, n).name == "PCI Device "@ + name,
        no_modalias(n) ==> forall|h: Seq<char>|
            read_attr(n, "vendor"@) == Some(#[trigger] ("0x"@ + h)) && !is_prefix("0x"@, h) ==> pci_device(
                name,
                path,
                n,
            ).vendor_id == Some(h),
        no_modalias(n) ==> forall|h: Seq<char>|
            read_attr(n, "device"@) == Some(#[trigger] ("0x"@ + h)) && !is_prefix("0x"@, h) ==> pci_device(
                name,
                path,
                n,
            ).model_id == Some(h),
        no_modalias(n) && (match read_attr(n, "vendor"@) {
            Some(v) => !is_prefix("0x"@, v),
            None => true,
        }) ==> pci_device(name, path, n).vendor_id is None,
        no_modalias(n) && (match read_attr(n, "device"@) {
            Some(v) => !is_prefix("0x"@, v),
            None => true,
        }) ==> pci_device(name, path, n).model_id is None,
{
    lemma_finishing_keeps(n);
    if no_modalias(n) {
        assert forall|h: Seq<char>|
            read_attr(n, "vendor"@) == Some(#[trigger] ("0x"@ + h)) && !is_prefix("0x"@, h) implies pci_device(
                name,
                path,
                n,
            ).vendor_id == Some(h) by {
            reveal_strlit("0x");
            assert(("0x"@ + h).take(2) =~= "0x"@);
            lemma_strip_hex(h);
        }
        assert forall|h: Seq<char>|
            read_attr(n, "device"@) == Some(#[trigger] ("0x"@ + h)) && !is_prefix("0x"@, h) implies pci_device(
                name,
                path,
                n,
            ).model_id == Some(h) by {
            reveal_strlit("0x");
            assert(("0x"@ + h).take(2) =~= "0x"@);
            lemma_strip_hex(h);
        }
    }
}


/// A USB device read from its node: id `usb-<name>`, named after its
/// `product` (else `idProduct`, else `USB Device <name>`), vendor from
/// `manufacturer`, ids from `idVendor`/`idProduct`, driver, status,
/// removable when `removable` reads `removable`, authorized unless not `1`;
/// then its `uevent` and properties.
pub open spec fn usb_device(name: Seq<char>, path: Seq<char>, n: NodeV) -> DeviceV {
    let product = match read_attr(n, "product"@) {
        Some(p) => Some(p),
        None => read_attr(n, "idProduct"@),
    };
    let display = match product {
        Some(p) => p,
        None => "USB Device "@ + name,
    };
    let d0 = new_device("usb-"@ + name, display, BusV::Usb, "usb"@, path);
    let d1 = DeviceV {
        bus_id: Some(name),
        vendor: read_attr(n, "manufacturer"@),
        model: read_attr(n, "product"@),
        vendor_id: read_attr(n, "idVendor"@),
        model_id: read_attr(n, "idProduct"@),
        driver: n.driver_link,
        status: node_status(n, DeviceStatus::Unbound),
        removable: match read_attr(n, "removable"@) {
            Some(s) => s == "removable"@,
            None => false,
        },
        authorized: match read_attr(n, "authorized"@) {
            Some(s) => s == "1"@,
            None => true,
        },
        ..d0
    };
    with_properties(n, with_uevent(n, d1))
}

proof fn lemma_modalias_keeps_names(d: DeviceV, parts: Seq<Seq<char>>)
    ensures
        apply_modalias(d, parts).id == d.id,
        apply_modalias(d, parts).name == d.name,
    decreases parts.len(),
{
    if parts.len() > 0 {
        lemma_modalias_keeps_names(d, parts.drop_last());
    }
}

proof fn lemma_uevent_keeps_names(d: DeviceV, ls: Seq<Seq<char>>)
    ensures
        apply_uevent(d, ls).id == d.id,
        apply_uevent(d, ls).name == d.name,
    decreases ls.len(),
{
    if ls.len() > 0 {
        lemma_uevent_keeps_names(d, ls.drop_last());
        let e = apply_uevent(d, ls.drop_last());
        match split_once(ls.last(), '=') {
            Some((k, v)) => if k == "MODALIAS"@ {
                lemma_modalias_keeps_names(e, split(v, ':'));
            },
            None => {},
        }
    }
}

proof fn lemma_power_keeps_names(d: DeviceV, es: Seq<(Seq<char>, Seq<char>)>)
    ensures
        apply_power(d, es).id == d.id,
        apply_power(d, es).name == d.name,
    decreases es.len(),
{
    if es.len() > 0 {
        lemma_power_keeps_names(d, es.drop_last());
    }
}

/// A USB device is `usb-<name>`, shown under its `product` attribute, else
/// its `idProduct`, else `USB Device <name>`; where the `uevent` file sets
/// no `MODALIAS`, its vendor id is its `idVendor` attribute and its model
/// id its `idProduct` attribute.
pub proof fn law_usb_ids_from_attributes(name: Seq<char>, path: Seq<char>, n: NodeV)
    ensures
        usb_device(name, path, n).id == "usb-"@ + name,
        usb_device(name, path, n).name == match read_attr(n, "product"@) {
            Some(p) => p,
            None => match read_attr(n, "idProduct"@) {
                Some(p) => p,
                None => "USB Device "@ + name,
            },
        },
        no_modalias(n) ==> usb_device(name, path, n).vendor_id == read_attr(n, "idVendor"@),
        no_modalias(n) ==> usb_device(name, path, n).model_id == read_attr(n, "idProduct"@),
{
    lemma_finishing_keeps(n);
}


/// Builds the record of the USB device `name` at `path`.
pub fn parse_usb_device(name: &str, path: &str, n: &SysfsNode) -> (r: Device)
    ensures
        r@ == usb_device(name@, path@, n@),
{
    let product = match attr(n, "product") {
        Some(p) => Some(p),
        None => attr(n, "idProduct"),
    };
    let display = match product {
        Some(p) => p,
        None => cat("USB Device ", name),
    };
    let mut d = Device::new(
        cat("usb-", name),
        display,
        Bus::Usb,
        String::from_str("usb"),
        String::from_str(path),
    );
    d.bus_id = Some(String::from_str(name));
    d.vendor = attr(n, "manufacturer");
    d.model = attr(n, "product");
    d.vendor_id = attr(n, "idVendor");
    d.model_id = attr(n, "idProduct");
    d.driver = n.driver_link.clone();
    d.status = read_device_status(n);
    d.removable = match attr(n, "removable") {
        Some(s) => is_lit(&chars_of(s.as_str()), "removable"),
        None => false,
    };
    d.authorized = match attr(n, "authorized") {
        Some(s) => is_lit(&chars_of(s.as_str()), "1"),
        None => true,
    };
    read_uevent_into(n, &mut d);
    read_properties(n, &mut d);
    d
}

/// A size in 512-byte sectors, in decimal gigabytes with one decimal.
pub open spec fn gb_label(sectors: nat) -> Seq<char> {
    let tenths = (sectors * 512 + 50_000_000) / 100_000_000;
    dec(tenths / 10) + seq!['.', digit_char(tenths % 10)]
}

/// A size in 512-byte sectors, in decimal gigabytes with one decimal
/// (`1953525168` sectors is `1000.2`).
pub fn gb_label_exec(sectors: u64) -> (r: Vec<char>)
    ensures
        r@ == gb_label(sectors as nat),
{
    let tenths: u128 = ((sectors as u128) * 512 + 50_000_000) / 100_000_000;
    let whole = (tenths / 10) as u64;
    let frac = (tenths % 10) as u64;
    let mut r = fmt_u64(whole);
    r.push('.');
    r.push(fmt_digit(frac));
    r
}

/// A class device read from its node: id `<subsystem>-<name>`, named
/// `<subsystem> Device <name>`, driver, status (online when unbound); input
/// devices take their `name` and bus id, sound cards their `id` or
/// `number`, block devices their size, network interfaces their address;
/// then its `uevent` and properties.
pub open spec fn class_device(
    name: Seq<char>,
    path: Seq<char>,
    bus: BusV,
    subsystem: Seq<char>,
    n: NodeV,
) -> DeviceV {
    let d0 = new_device(subsystem + "-"@ + name, subsystem + " Device "@ + name, bus, subsystem, path);
    let d1 = DeviceV { driver: n.driver_link, status: node_status(n, DeviceStatus::Online), ..d0 };
    let d2 = match bus {
        BusV::Input => DeviceV {
            name: match read_attr(n, "name"@) {
                Some(x) => x,
                None => d1.name,
            },
            bus_id: Some(name),
            ..d1
        },
        BusV::Audio => match read_attr(n, "id"@) {
            Some(c) => DeviceV { name: "Sound Card: "@ + c, ..d1 },
            None => match read_attr(n, "number"@) {
                Some(num) => DeviceV { name: "Sound Card "@ + num, ..d1 },
                None => d1,
            },
        },
        BusV::Block => match read_attr(n, "size"@) {
            Some(sz) => match parse_uint(trim(sz), 10, u64::MAX as nat) {
                Some(sec) => DeviceV { name: d1.name + " ("@ + gb_label(sec) + " GB)"@, ..d1 },
                None => d1,
            },
            None => d1,
        },
        BusV::Net => match read_attr(n, "address"@) {
            Some(a) => DeviceV { name: "NIC "@ + name + " ("@ + a + ")"@, ..d1 },
            None => d1,
        },
        _ => d1,
    };
    with_properties(n, with_uevent(n, d2))
}

/// Builds the record of the class device `name` at `path`.
pub fn parse_class_device(name: &str, path: &str, bus: Bus, subsystem: &str, n: &SysfsNode) -> (r:
    Device)
    ensures
        r@ == class_device(name@, path@, bus@, subsystem@, n@),
{
    let ghost bv = bus@;
    let kind = bus.copy();
    let id = string_of(&concat(&concat(&chars_of(subsystem), &chars_of("-")), &chars_of(name)));
    let display = string_of(
        &concat(&concat(&chars_of(subsystem), &chars_of(" Device ")), &chars_of(name)),
    );
    let mut d = Device::new(id, display, bus, String::from_str(subsystem), String::from_str(path));
    d.driver = n.driver_link.clone();
    d.status = read_device_status_with_default(n);
    match kind {
        Bus::Input => {
            match attr(n, "name") {
                Some(x) => {
                    d.name = x;
                },
                None => {},
            }
            d.bus_id = Some(String::from_str(name));
        },
        Bus::Audio => {
            match attr(n, "id") {
                Some(c) => {
                    d.name = cat("Sound Card: ", c.as_str());
                },
                None => match attr(n, "number") {
                    Some(num) => {
                        d.name = cat("Sound Card ", num.as_str());
                    },
                    None => {},
                },
            }
        },
        Bus::Block => {
            match attr(n, "size") {
                Some(sz) => {
                    match parse_u64(&trim_chars(&chars_of(sz.as_str()))) {
                        Some(sec) => {
                            let mut nm = chars_of(d.name.as_str());
                            push_all(&mut nm, &chars_of(" ("));
                            push_all(&mut nm, &gb_label_exec(sec));
                            push_all(&mut nm, &chars_of(" GB)"));
                            d.name = string_of(&nm);
                        },
                        None => {},
                    }
                },
                None => {},
            }
        },
        Bus::Net => {
            match attr(n, "address") {
                Some(a) => {
                    let mut nm = chars_of("NIC ");
                    push_all(&mut nm, &chars_of(name));
                    push_all(&mut nm, &chars_of(" ("));
                    push_all(&mut nm, &chars_of(a.as_str()));
                    push_all(&mut nm, &chars_of(")"));
                    d.name = string_of(&nm);
                },
                None => {},
            }
        },
        _ => {},
    }
    proof {
        assert(bv == kind@);
    }
    read_uevent_into(n, &mut d);
    read_properties(n, &mut d);
    d
}

/// The subsystem of a generic device: the final component of its
/// `subsystem` attribute, or `unknown`.
pub open spec fn generic_subsystem(n: NodeV) -> Seq<char> {
    match read_attr(n, "subsystem"@) {
        Some(s) => match path_file_name(s) {
            Some(f) => f,
            None => "unknown"@,
        },
        None => "unknown"@,
    }
}

/// A child device found under a bus device: id `dev-<name>`, named `name`,
/// its bus from its subsystem; its `uevent` and properties, then its driver
/// link and status.
pub open spec fn generic_device(name: Seq<char>, path: Seq<char>, n: NodeV) -> DeviceV {
    let sub = generic_subsystem(n);
    let d0 = new_device("dev-"@ + name, name, bus_of_subsystem(sub), sub, path);
    let d1 = with_properties(n, with_uevent(n, d0));
    DeviceV { driver: n.driver_link, status: node_status(n, DeviceStatus::Unbound), ..d1 }
}

/// Builds the record of the child device `name` at `path`.
pub fn parse_generic_device(name: &str, path: &str, n: &SysfsNode) -> (r: Device)
    ensures
        r@ == generic_device(name@, path@, n@),
{
    let sub = match attr(n, "subsystem") {
        Some(s) => match file_name_of(s.as_str()) {
            Some(f) => f,
            None => String::from_str("unknown"),
        },
        None => String::from_str("unknown"),
    };
    let bus = Bus::from_subsystem(sub.as_str());
    let mut d = Device::new(cat("dev-", name), String::from_str(name), bus, sub, String::from_str(path));
    read_uevent_into(n, &mut d);
    read_properties(n, &mut d);
    d.driver = n.driver_link.clone();
    d.status = read_device_status(n);
    d
}

/// The parent directory of a device path, kept only when it lies under
/// `/sys/devices`.
pub open spec fn find_parent(path: Seq<char>) -> Option<Seq<char>> {
    match path_parent(path) {
        Some(p) => if is_prefix("/sys/devices"@, p) {
            Some(p)
        } else {
            None
        },
        None => None,
    }
}

/// The parent directory of a device path, when it lies under `/sys/devices`.
pub fn find_parent_path(path: &str) -> (r: Option<String>)
    ensures
        opt_view(r) == find_parent(path@),
{
    match parent_of(path) {
        Some(p) => {
            if starts_with(&chars_of(p.as_str()), &chars_of("/sys/devices")) {
                Some(p)
            } else {
                None
            }
        },
        None => None,
    }
}

/// The id of the last device whose path is `p`.
pub open spec fn last_id_with_path(ds: Seq<DeviceV>, p: Seq<char>) -> Option<Seq<char>>
    decreases ds.len(),
{
    if ds.len() == 0 {
        None
    } else if ds.last().path == p {
        Some(ds.last().id)
    } else {
        last_id_with_path(ds.drop_last(), p)
    }
}

/// The parent of `d` among `ds`: the device (the last one, if several) whose
/// path is the parent directory of `d`'s path; the parent `d` already has
/// when there is none.
pub open spec fn resolved_parent(ds: Seq<DeviceV>, d: DeviceV) -> Option<Seq<char>> {
    match find_parent(d.path) {
        Some(pp) => match last_id_with_path(ds, pp) {
            Some(id) => Some(id),
            None => d.parent,
        },
        None => d.parent,
    }
}

pub open spec fn parents(ds: Seq<DeviceV>) -> Seq<Option<Seq<char>>> {
    Seq::new(ds.len(), |i: int| resolved_parent(ds, ds[i]))
}

/// The ids, in order, of the first `n` devices whose parent is `id`.
pub open spec fn kids(ds: Seq<DeviceV>, par: Seq<Option<Seq<char>>>, id: Seq<char>, n: int) -> Seq<
    Seq<char>,
>
    decreases n,
{
    if n <= 0 {
        Seq::empty()
    } else if par[n - 1] == Some(id) {
        kids(ds, par, id, n - 1).push(ds[n - 1].id)
    } else {
        kids(ds, par, id, n - 1)
    }
}

/// The ids, in order, of the devices whose resolved parent is `id`.
pub open spec fn children_of(ds: Seq<DeviceV>, id: Seq<char>) -> Seq<Seq<char>> {
    kids(ds, parents(ds), id, ds.len() as int)
}

/// Index of the first device with id `id` at or after `from`, or `ds.len()`.
pub open spec fn id_pos(ds: Seq<DeviceV>, id: Seq<char>, from: int) -> int
    decreases ds.len() - from,
{
    if from < 0 || from >= ds.len() {
        ds.len() as int
    } else if ds[from].id == id {
        from
    } else {
        id_pos(ds, id, from + 1)
    }
}

/// The devices with parents and children linked: every device gets its
/// resolved parent, and the first device with a given id that has any
/// children gets the list of them.
pub open spec fn resolved(ds: Seq<DeviceV>) -> Seq<DeviceV> {
    Seq::new(
        ds.len(),
        |i: int|
            {
                let k = children_of(ds, ds[i].id);
                DeviceV {
                    parent: resolved_parent(ds, ds[i]),
                    children: if id_pos(ds, ds[i].id, 0) == i && k.len() > 0 {
                        k
                    } else {
                        ds[i].children
                    },
                    ..ds[i]
                }
            },
    )
}

fn copy_strings(v: &Vec<String>) -> (r: Vec<String>)
    ensures
        strs_view(r@) == strs_view(v@),
{
    let mut r: Vec<String> = Vec::new();
    let mut i: usize = 0;
    while i < v.len()
        invariant
            i <= v.len(),
            strs_view(r@) == strs_view(v@.take(i as int)),
        decreases v.len() - i,
    {
        let c = v[i].clone();
        let ghost before = r@;
        r.push(c);
        proof {
            assert(strs_view(r@) =~= strs_view(before).push(c@));
            assert(strs_view(v@.take(i + 1)) =~= strs_view(v@.take(i as int)).push(v@[i as int]@));
        }
        i = i + 1;
    }
    proof {
        assert(v@.take(v.len() as int) =~= v@);
    }
    r
}

fn last_with_path(devices: &Vec<Device>, p: &String) -> (r: Option<String>)
    ensures
        opt_view(r) == last_id_with_path(devices_view(devices@), p@),
{
    let ghost dv = devices_view(devices@);
    let mut i = devices.len();
    proof {
        assert(dv.take(i as int) =~= dv);
    }
    while i > 0
        invariant
            i <= devices.len(),
            dv == devices_view(devices@),
            last_id_with_path(dv, p@) == last_id_with_path(dv.take(i as int), p@),
        decreases i,
    {
        proof {
            assert(dv.take(i as int).drop_last() =~= dv.take(i - 1));
            assert(dv.take(i as int).last() == devices@[i - 1]@);
        }
        if devices[i - 1].path == *p {
            return Some(devices[i - 1].id.clone());
        }
        i = i - 1;
    }
    proof {
        assert(dv.take(0) =~= Seq::<DeviceV>::empty());
    }
    None
}

proof fn lemma_id_pos(ds: Seq<DeviceV>, id: Seq<char>, from: int, i: int)
    requires
        0 <= from <= i <= ds.len(),
        forall|j: int| from <= j < i ==> ds[j].id != id,
        i == ds.len() || ds[i].id == id,
    ensures
        id_pos(ds, id, from) == i,
    decreases i - from,
{
    if from < i {
        lemma_id_pos(ds, id, from + 1, i);
    }
}

proof fn lemma_id_pos_le(ds: Seq<DeviceV>, id: Seq<char>, from: int, j: int)
    requires
        0 <= from <= j < ds.len(),
        ds[j].id == id,
    ensures
        id_pos(ds, id, from) <= j,
    decreases j - from,
{
    if from < j && ds[from].id != id {
        lemma_id_pos_le(ds, id, from + 1, j);
    }
}


/// The ids of the devices of `r` whose parent is `id`, in order.
pub open spec fn ids_with_parent(r: Seq<DeviceV>, id: Seq<char>) -> Seq<Seq<char>>
    decreases r.len(),
{
    if r.len() == 0 {
        seq![]
    } else if r.last().parent == Some(id) {
        ids_with_parent(r.drop_last(), id).push(r.last().id)
    } else {
        ids_with_parent(r.drop_last(), id)
    }
}

/// No two devices share an id.
pub open spec fn ids_distinct(ds: Seq<DeviceV>) -> bool {
    forall|i: int, j: int| 0 <= i < j < ds.len() ==> #[trigger] ds[i].id != #[trigger] ds[j].id
}

proof fn lemma_last_id_with_path(ds: Seq<DeviceV>, p: Seq<char>)
    ensures
        (forall|q: int| 0 <= q < ds.len() ==> (#[trigger] ds[q]).path != p) ==> last_id_with_path(ds, p) is None,
        forall|q: int|
            0 <= q < ds.len() && (#[trigger] ds[q]).path == p && (forall|m: int| q < m < ds.len() ==> (
            #[trigger] ds[m]).path != p) ==> last_id_with_path(ds, p) == Some(ds[q].id),
    decreases ds.len(),
{
    if ds.len() > 0 {
        let prev = ds.drop_last();
        lemma_last_id_with_path(prev, p);
        assert forall|q: int| 0 <= q < prev.len() implies #[trigger] prev[q] == ds[q] by {}
        if ds.last().path != p {
            assert forall|q: int|
                0 <= q < ds.len() && (#[trigger] ds[q]).path == p && (forall|m: int| q < m < ds.len() ==> (
                #[trigger] ds[m]).path != p) implies last_id_with_path(ds, p) == Some(ds[q].id) by {
                assert(q < ds.len() - 1);
                assert(prev[q] == ds[q]);
                assert forall|m: int| q < m < prev.len() implies (#[trigger] prev[m]).path != p by {
                    assert(prev[m] == ds[m]);
                }
            }
        } else {
            assert forall|q: int|
                0 <= q < ds.len() && (#[trigger] ds[q]).path == p && (forall|m: int| q < m < ds.len() ==> (
                #[trigger] ds[m]).path != p) implies last_id_with_path(ds, p) == Some(ds[q].id) by {
                if q < ds.len() - 1 {
                    assert(ds[ds.len() - 1].path == p);
                }
            }
        }
    }
}

proof fn lemma_kids_are_ids_with_parent(ds: Seq<DeviceV>, id: Seq<char>, n: int)
    requires
        0 <= n <= ds.len(),
    ensures
        kids(ds, parents(ds), id, n) == ids_with_parent(resolved(ds).take(n), id),
    decreases n,
{
    let r = resolved(ds);
    if n > 0 {
        lemma_kids_are_ids_with_parent(ds, id, n - 1);
        assert(r.take(n).drop_last() =~= r.take(n - 1));
        assert(r.take(n).last() == r[n - 1]);
        assert(r[n - 1].parent == parents(ds)[n - 1]);
        assert(r[n - 1].id == ds[n - 1].id);
    } else {
        assert(r.take(0) =~= Seq::<DeviceV>::empty());
    }
}

/// What resolving the relations does, for devices with distinct ids: the
/// list keeps its length, its order and every field but the parent and the
/// children. A device whose parent directory (under `/sys/devices`) is the
/// path of a listed device gets the id of the last such device as its
/// parent, and keeps its parent otherwise. A device that some device now
/// names as its parent gets the ids of all those devices, in list order, as
/// its children, and keeps its children otherwise.
pub proof fn law_resolve_relations(ds: Seq<DeviceV>)
    requires
        ids_distinct(ds),
    ensures
        resolved(ds).len() == ds.len(),
        forall|i: int| #![trigger resolved(ds)[i]] 0 <= i < ds.len() ==> resolved(ds)[i] == (DeviceV {
            parent: resolved(ds)[i].parent,
            children: resolved(ds)[i].children,
            ..ds[i]
        }),
        forall|i: int| #![trigger resolved(ds)[i]]
            0 <= i < ds.len() && (forall|q: int| 0 <= q < ds.len() ==> find_parent(ds[i].path) != Some(
                (#[trigger] ds[q]).path,
            )) ==> resolved(ds)[i].parent == ds[i].parent,
        forall|i: int, q: int| #![trigger resolved(ds)[i], ds[q]]
            0 <= i < ds.len() && 0 <= q < ds.len() && find_parent(ds[i].path) == Some(ds[q].path) && (forall|
                m: int,
            | q < m < ds.len() ==> (#[trigger] ds[m]).path != ds[q].path) ==> resolved(ds)[i].parent == Some(
                ds[q].id,
            ),
        forall|i: int| #![trigger resolved(ds)[i]]
            0 <= i < ds.len() && ids_with_parent(resolved(ds), ds[i].id).len() > 0 ==> resolved(ds)[i].children
                == ids_with_parent(resolved(ds), ds[i].id),
        forall|i: int| #![trigger resolved(ds)[i]]
            0 <= i < ds.len() && ids_with_parent(resolved(ds), ds[i].id).len() == 0 ==> resolved(ds)[i].children
                == ds[i].children,
{
    let r = resolved(ds);
    assert forall|i: int| #![trigger r[i]] 0 <= i < ds.len() implies id_pos(ds, ds[i].id, 0) == i && children_of(
        ds,
        ds[i].id,
    ) == ids_with_parent(r, ds[i].id) by {
        assert forall|j: int| 0 <= j < i implies ds[j].id != ds[i].id by {
            assert(ds[j].id != ds[i].id);
        }
        lemma_id_pos(ds, ds[i].id, 0, i);
        lemma_kids_are_ids_with_parent(ds, ds[i].id, ds.len() as int);
        assert(r.take(ds.len() as int) =~= r);
    }
    assert forall|i: int| #![trigger r[i]]
        0 <= i < ds.len() && (forall|q: int| 0 <= q < ds.len() ==> find_parent(ds[i].path) != Some(
            (#[trigger] ds[q]).path,
        )) implies r[i].parent == ds[i].parent by {
        match find_parent(ds[i].path) {
            Some(pp) => {
                lemma_last_id_with_path(ds, pp);
            },
            None => {},
        }
    }
    assert forall|i: int, q: int| #![trigger r[i], ds[q]]
        0 <= i < ds.len() && 0 <= q < ds.len() && find_parent(ds[i].path) == Some(ds[q].path) && (forall|
            m: int,
        | q < m < ds.len() ==> (#[trigger] ds[m]).path != ds[q].path) implies r[i].parent == Some(ds[q].id) by {
        lemma_last_id_with_path(ds, ds[q].path);
    }
}

/// Links every device to its parent, and the parents to their children.
pub fn resolve_relations(devices: &mut Vec<Device>)
    ensures
        devices_view(final(devices)@) == resolved(devices_view(old(devices)@)),
{
    let ghost dv = devices_view(devices@);
    let n = devices.len();
    // Pass 1: the resolved parent of each device.
    let mut par: Vec<Option<String>> = Vec::new();
    let mut i: usize = 0;
    while i < n
        invariant
            n == devices.len(),
            dv == devices_view(devices@),
            i <= n,
            par.len() == i,
            forall|j: int| 0 <= j < i ==> opt_view(#[trigger] par@[j]) == parents(dv)[j],
        decreases n - i,
    {
        let p = match find_parent_path(devices[i].path.as_str()) {
            Some(pp) => match last_with_path(devices, &pp) {
                Some(id) => Some(id),
                None => devices[i].parent.clone(),
            },
            None => devices[i].parent.clone(),
        };
        proof {
            assert(dv[i as int] == devices@[i as int]@);
        }
        par.push(p);
        i = i + 1;
    }
    let ghost pv = parents(dv);
    // Pass 2: the children of each device that is the first with its id.
    let mut kid_lists: Vec<Option<Vec<String>>> = Vec::new();
    i = 0;
    while i < n
        invariant
            n == devices.len(),
            n == par.len(),
            dv == devices_view(devices@),
            pv == parents(dv),
            forall|j: int| 0 <= j < n ==> opt_view(#[trigger] par@[j]) == pv[j],
            i <= n,
            kid_lists.len() == i,
            forall|j: int|
                0 <= j < i ==> match #[trigger] kid_lists@[j] {
                    Some(k) => id_pos(dv, dv[j].id, 0) == j && strs_view(k@) == children_of(
                        dv,
                        dv[j].id,
                    ) && strs_view(k@).len() > 0,
                    None => !(id_pos(dv, dv[j].id, 0) == j && children_of(dv, dv[j].id).len()
                        > 0),
                },
        decreases n - i,
    {
        let id = &devices[i].id;
        let mut first = true;
        let mut j: usize = 0;
        while j < i
            invariant
                n == devices.len(),
                dv == devices_view(devices@),
                i < n,
                j <= i,
                id@ == dv[i as int].id,
                first ==> forall|m: int| 0 <= m < j ==> dv[m].id != dv[i as int].id,
                !first ==> id_pos(dv, dv[i as int].id, 0) != i,
            decreases i - j,
        {
            if devices[j].id == *id {
                proof {
                    assert(dv[j as int].id == dv[i as int].id);
                    lemma_id_pos_le(dv, dv[i as int].id, 0, j as int);
                }
                first = false;
            }
            j = j + 1;
        }
        if first {
            proof {
                lemma_id_pos(dv, dv[i as int].id, 0, i as int);
            }
        }
        let mut k: Vec<String> = Vec::new();
        j = 0;
        while j < n
            invariant
                n == devices.len(),
                n == par.len(),
                dv == devices_view(devices@),
                pv == parents(dv),
                forall|m: int| 0 <= m < n ==> opt_view(#[trigger] par@[m]) == pv[m],
                i < n,
                j <= n,
                id@ == dv[i as int].id,
                strs_view(k@) == kids(dv, pv, dv[i as int].id, j as int),
            decreases n - j,
        {
            let is_kid = match &par[j] {
                Some(pid) => *pid == *id,
                None => false,
            };
            proof {
                assert(opt_view(par@[j as int]) == pv[j as int]);
            }
            if is_kid {
                let ghost before = k@;
                k.push(devices[j].id.clone());
                proof {
                    assert(strs_view(k@) =~= strs_view(before).push(dv[j as int].id));
                }
            }
            j = j + 1;
        }
        if first && k.len() > 0 {
            kid_lists.push(Some(k));
        } else {
            kid_lists.push(None);
        }
        i = i + 1;
    }
    // Pass 3: rebuild the list with the links set.
    let ghost res = resolved(dv);
    let mut out: Vec<Device> = Vec::new();
    i = 0;
    while i < n
        invariant
            n == par.len(),
            n == kid_lists.len(),
            i <= n,
            devices@.len() == n - i,
            forall|j: int| 0 <= j < n - i ==> #[trigger] devices@[j]@ == dv[j + i],
            forall|j: int| i <= j < n ==> opt_view(#[trigger] par@[j]) == pv[j],
            pv == parents(dv),
            res == resolved(dv),
            dv.len() == n,
            forall|j: int|
                i <= j < n ==> match #[trigger] kid_lists@[j] {
                    Some(k) => id_pos(dv, dv[j].id, 0) == j && strs_view(k@) == children_of(
                        dv,
                        dv[j].id,
                    ) && strs_view(k@).len() > 0,
                    None => !(id_pos(dv, dv[j].id, 0) == j && children_of(dv, dv[j].id).len()
                        > 0),
                },
            devices_view(out@) == res.take(i as int),
        decreases n - i,
    {
        let ghost before = devices@;
        let mut d = devices.remove(0);
        let p = par[i].clone();
        d.parent = p;
        match &kid_lists[i] {
            Some(k) => {
                d.children = copy_strings(k);
            },
            None => {},
        }
        proof {
            assert(before[0]@ == dv[i as int]);
            assert(pv[i as int] == resolved_parent(dv, dv[i as int]));
            assert(d@.parent == res[i as int].parent);
            assert(d@.children == res[i as int].children);
            assert(d@ == res[i as int]);
            assert forall|j: int| 0 <= j < n - (i + 1) implies #[trigger] devices@[j]@ == dv[j
                + i + 1] by {
                assert(devices@[j] == before[j + 1]);
            }
        }
        let ghost out_before = out@;
        let ghost dval = d@;
        out.push(d);
        proof {
            assert(devices_view(out@) =~= devices_view(out_before).push(dval));
            assert(res.take(i + 1) =~= res.take(i as int).push(res[i as int]));
        }
        i = i + 1;
    }
    *devices = out;
    proof {
        assert(res.take(n as int) =~= res);
    }
}

proof fn lemma_kids_contains(
    ds: Seq<DeviceV>,
    par: Seq<Option<Seq<char>>>,
    id: Seq<char>,
    n: int,
    j: int,
)
    requires
        0 <= j < n,
        par[j] == Some(id),
    ensures
        kids(ds, par, id, n).contains(ds[j].id),
    decreases n,
{
    if j < n - 1 {
        lemma_kids_contains(ds, par, id, n - 1, j);
        if par[n - 1] == Some(id) {
            let k = kids(ds, par, id, n - 1);
            let w = choose|m: int| 0 <= m < k.len() && k[m] == ds[j].id;
            assert(k.push(ds[n - 1].id)[w] == ds[j].id);
        }
    } else {
        let k = kids(ds, par, id, n - 1);
        assert(k.push(ds[n - 1].id)[k.len() as int] == ds[j].id);
    }
}

proof fn lemma_kids_sound(
    ds: Seq<DeviceV>,
    par: Seq<Option<Seq<char>>>,
    id: Seq<char>,
    n: int,
    c: Seq<char>,
)
    requires
        0 <= n <= ds.len(),
        kids(ds, par, id, n).contains(c),
    ensures
        exists|j: int| 0 <= j < n && par[j] == Some(id) && ds[j].id == c,
    decreases n,
{
    if n > 0 {
        let k = kids(ds, par, id, n - 1);
        if par[n - 1] == Some(id) {
            if k.contains(c) {
                lemma_kids_sound(ds, par, id, n - 1, c);
            } else {
                let kp = k.push(ds[n - 1].id);
                let w = choose|m: int| 0 <= m < kp.len() && #[trigger] kp[m] == c;
                if w < k.len() {
                    assert(k[w] == c);
                }
                assert(w == k.len());
            }
        } else {
            lemma_kids_sound(ds, par, id, n - 1, c);
        }
    }
}

/// Parent and child links agree after resolving: a device whose parent is
/// linked is listed among the children of the (first) device with that id,
/// and every child listed for a device names that device as its parent.
pub proof fn law_parent_child_links_agree(ds: Seq<DeviceV>, i: int, j: int)
    requires
        0 <= i < ds.len(),
        0 <= j < ds.len(),
        i == id_pos(ds, ds[i].id, 0),
    ensures
        resolved(ds)[j].parent == Some(resolved(ds)[i].id) ==> resolved(ds)[i].children.contains(
            resolved(ds)[j].id,
        ),
        children_of(ds, ds[i].id).len() > 0 ==> forall|c: Seq<char>|
            #[trigger] resolved(ds)[i].children.contains(c) ==> exists|m: int|
                0 <= m < ds.len() && resolved(ds)[m].parent == Some(resolved(ds)[i].id)
                    && resolved(ds)[m].id == c,
{
    let r = resolved(ds);
    let par = parents(ds);
    let id = ds[i].id;
    if r[j].parent == Some(r[i].id) {
        assert(par[j] == Some(id));
        lemma_kids_contains(ds, par, id, ds.len() as int, j);
    }
    assert forall|c: Seq<char>| children_of(ds, ds[i].id).len() > 0 && #[trigger] r[i].children.contains(
        c,
    ) implies exists|m: int| 0 <= m < ds.len() && r[m].parent == Some(r[i].id) && r[m].id == c by {
        lemma_kids_sound(ds, par, id, ds.len() as int, c);
        let m = choose|m: int| 0 <= m < ds.len() && par[m] == Some(id) && ds[m].id == c;
        assert(r[m].parent == par[m]);
    }
}

/// The canonical paths already taken by the scan, so that no device
/// directory is read twice.
pub struct SeenPaths {
    paths: Vec<String>,
}

impl View for SeenPaths {
    type V = Set<Seq<char>>;

    closed spec fn view(&self) -> Set<Seq<char>> {
        strs_view(self.paths@).to_set()
    }
}

impl SeenPaths {
    /// No path seen yet.
    pub fn new() -> (r: SeenPaths)
        ensures
            r@ == Set::<Seq<char>>::empty(),
    {
        let r = SeenPaths { paths: Vec::new() };
        proof {
            assert(strs_view(r.paths@) =~= Seq::<Seq<char>>::empty());
            assert(r@ =~= Set::<Seq<char>>::empty());
        }
        r
    }

    /// Whether `p` was seen.
    pub fn contains(&self, p: &str) -> (r: bool)
        ensures
            r == self@.contains(p@),
    {
        let ghost sv = strs_view(self.paths@);
        let mut i: usize = 0;
        while i < self.paths.len()
            invariant
                i <= self.paths.len(),
                sv == strs_view(self.paths@),
                forall|j: int| 0 <= j < i ==> sv[j] != p@,
            decreases self.paths.len() - i,
        {
            if is_lit(&chars_of(self.paths[i].as_str()), p) {
                proof {
                    assert(sv[i as int] == p@);
                    assert(sv.to_set().contains(sv[i as int]));
                }
                return true;
            }
            i = i + 1;
        }
        proof {
            if sv.to_set().contains(p@) {
                assert(sv.contains(p@));
            }
        }
        false
    }

    /// Records `p`; true when it had not been seen (`HashSet::insert`).
    pub fn insert(&mut self, p: String) -> (r: bool)
        ensures
            r == !old(self)@.contains(p@),
            final(self)@ == old(self)@.insert(p@),
    {
        if self.contains(p.as_str()) {
            proof {
                assert(self@.insert(p@) =~= self@);
            }
            return false;
        }
        let ghost before = self.paths@;
        let ghost pv = p@;
        self.paths.push(p);
        proof {
            assert(strs_view(self.paths@) =~= strs_view(before).push(pv));
            strs_view(before).lemma_push_to_set_commute(pv);
        }
        true
    }
}

} // verus!
