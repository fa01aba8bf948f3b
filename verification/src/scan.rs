//! The device scan over what was read of `/sys`.
//!
//! Reading the directories is the caller's part: it fills a
//! [`SysfsSnapshot`] with the entries of `/sys/bus/{pci,usb}/devices` (with
//! the subdirectories of each device) and of the classes, each with its
//! canonical path and its readings. The scan decides which entries become
//! devices, in which order, and how they are related.
use vstd::prelude::*;
use crate::device::{Bus, BusV, Device, DeviceV, devices_view, opt_view};
use crate::sysfs::{
    SysfsNode, NodeV, SeenPaths, pci_device, usb_device, class_device, generic_device,
    parse_pci_device, parse_usb_device, parse_class_device, parse_generic_device, resolve_relations,
    resolved, read_attr, attr,
};
use crate::error::DmgrError;

verus! {

/// A subdirectory of a PCI or USB device directory.
pub struct ChildEntry {
    pub name: String,
    /// Its canonical path.
    pub canonical: String,
    /// Whether it holds a `uevent` file (only such directories are devices).
    pub has_uevent: bool,
    pub node: SysfsNode,
}

/// An entry of `/sys/bus/pci/devices` or `/sys/bus/usb/devices` (the
/// symbolic links), with the subdirectories of the device it leads to.
pub struct BusEntry {
    pub name: String,
    pub canonical: String,
    pub node: SysfsNode,
    pub children: Vec<ChildEntry>,
}

/// An entry of a `/sys/class/<class>` directory.
pub struct ClassEntry {
    pub name: String,
    pub canonical: String,
    pub node: SysfsNode,
}

/// What was read of `/sys`, in directory order.
pub struct SysfsSnapshot {
    pub pci: Vec<BusEntry>,
    pub usb: Vec<BusEntry>,
    pub input: Vec<ClassEntry>,
    pub sound: Vec<ClassEntry>,
    pub block: Vec<ClassEntry>,
    pub drm: Vec<ClassEntry>,
    pub net: Vec<ClassEntry>,
    pub tty: Vec<ClassEntry>,
    pub power_supply: Vec<ClassEntry>,
}

pub struct ChildV {
    pub name: Seq<char>,
    pub canonical: Seq<char>,
    pub has_uevent: bool,
    pub node: NodeV,
}

pub struct BusEntryV {
    pub name: Seq<char>,
    pub canonical: Seq<char>,
    pub node: NodeV,
    pub children: Seq<ChildV>,
}

pub struct ClassEntryV {
    pub name: Seq<char>,
    pub canonical: Seq<char>,
    pub node: NodeV,
}

impl View for ChildEntry {
    type V = ChildV;

    open spec fn view(&self) -> ChildV {
        ChildV { name: self.name@, canonical: self.canonical@, has_uevent: self.has_uevent, node: self.node@ }
    }
}

pub open spec fn children_view(v: Seq<ChildEntry>) -> Seq<ChildV> {
    v.map_values(|c: ChildEntry| c@)
}

impl View for BusEntry {
    type V = BusEntryV;

    open spec fn view(&self) -> BusEntryV {
        BusEntryV {
            name: self.name@,
            canonical: self.canonical@,
            node: self.node@,
            children: children_view(self.children@),
        }
    }
}

pub open spec fn bus_entries_view(v: Seq<BusEntry>) -> Seq<BusEntryV> {
    v.map_values(|e: BusEntry| e@)
}

impl View for ClassEntry {
    type V = ClassEntryV;

    open spec fn view(&self) -> ClassEntryV {
        ClassEntryV { name: self.name@, canonical: self.canonical@, node: self.node@ }
    }
}

pub open spec fn class_entries_view(v: Seq<ClassEntry>) -> Seq<ClassEntryV> {
    v.map_values(|e: ClassEntry| e@)
}

/// The devices among the subdirectories `cs` of the device `parent_id`, and
/// the paths seen after them: a directory already seen is skipped; the
/// others are marked seen, and those with a `uevent` file become devices
/// whose parent is `parent_id`.
pub open spec fn children_scan(parent_id: Seq<char>, cs: Seq<ChildV>, seen: Set<Seq<char>>) -> (Seq<
    DeviceV,
>, Set<Seq<char>>)
    decreases cs.len(),
{
    if cs.len() == 0 {
        (seq![], seen)
    } else {
        let c = cs[0];
        if seen.contains(c.canonical) {
            children_scan(parent_id, cs.drop_first(), seen)
        } else {
            let r = children_scan(parent_id, cs.drop_first(), seen.insert(c.canonical));
            if c.has_uevent {
                (
                    seq![DeviceV { parent: Some(parent_id), ..generic_device(c.name, c.canonical, c.node) }]
                        + r.0,
                    r.1,
                )
            } else {
                r
            }
        }
    }
}

/// The device read from a PCI (`pci`) or USB entry.
pub open spec fn bus_device(pci: bool, e: BusEntryV) -> DeviceV {
    if pci {
        pci_device(e.name, e.canonical, e.node)
    } else {
        usb_device(e.name, e.canonical, e.node)
    }
}

/// What one PCI or USB entry adds, and the paths seen after it: nothing if
/// its path was seen; else the devices of its subdirectories, then the
/// device itself.
pub open spec fn bus_step(pci: bool, e: BusEntryV, seen: Set<Seq<char>>) -> (Seq<DeviceV>, Set<Seq<char>>) {
    if seen.contains(e.canonical) {
        (seq![], seen)
    } else {
        let d = bus_device(pci, e);
        let k = children_scan(d.id, e.children, seen.insert(e.canonical));
        (k.0.push(d), k.1)
    }
}

/// The devices of the PCI or USB entries `es`, in order, and the paths seen
/// after them.
pub open spec fn bus_scan(pci: bool, es: Seq<BusEntryV>, seen: Set<Seq<char>>) -> (Seq<DeviceV>, Set<
    Seq<char>,
>)
    decreases es.len(),
{
    if es.len() == 0 {
        (seq![], seen)
    } else {
        let s = bus_step(pci, es[0], seen);
        let r = bus_scan(pci, es.drop_first(), s.1);
        (s.0 + r.0, r.1)
    }
}

/// What one class entry adds, and the paths seen after it: nothing if its
/// path was seen, else its device.
pub open spec fn class_step(bus: BusV, subsystem: Seq<char>, e: ClassEntryV, seen: Set<Seq<char>>) -> (Seq<
    DeviceV,
>, Set<Seq<char>>) {
    if seen.contains(e.canonical) {
        (seq![], seen)
    } else {
        (seq![class_device(e.name, e.canonical, bus, subsystem, e.node)], seen.insert(e.canonical))
    }
}

/// The devices of the entries of one class, in order, and the paths seen
/// after them.
pub open spec fn class_scan(bus: BusV, subsystem: Seq<char>, es: Seq<ClassEntryV>, seen: Set<Seq<char>>) -> (Seq<
    DeviceV,
>, Set<Seq<char>>)
    decreases es.len(),
{
    if es.len() == 0 {
        (seq![], seen)
    } else {
        let s = class_step(bus, subsystem, es[0], seen);
        let r = class_scan(bus, subsystem, es.drop_first(), s.1);
        (s.0 + r.0, r.1)
    }
}

fn scan_children(parent_id: &String, cs: &Vec<ChildEntry>, devices: &mut Vec<Device>, seen: &mut SeenPaths)
    ensures
        devices_view(final(devices)@) == devices_view(old(devices)@) + children_scan(
            parent_id@,
            children_view(cs@),
            old(seen)@,
        ).0,
        final(seen)@ == children_scan(parent_id@, children_view(cs@), old(seen)@).1,
{
    let ghost all = children_view(cs@);
    let ghost total = children_scan(parent_id@, all, seen@);
    let mut i: usize = 0;
    proof {
        assert(all.skip(0) =~= all);
        assert(devices_view(devices@) =~= devices_view(old(devices)@) + Seq::<DeviceV>::empty());
    }
    while i < cs.len()
        invariant
            i <= cs.len(),
            all == children_view(cs@),
            total == children_scan(parent_id@, all, old(seen)@),
            total.0 == devices_view(devices@).skip(old(devices)@.len() as int) + children_scan(
                parent_id@,
                all.skip(i as int),
                seen@,
            ).0,
            total.1 == children_scan(parent_id@, all.skip(i as int), seen@).1,
            devices@.len() >= old(devices)@.len(),
            devices_view(devices@).take(old(devices)@.len() as int) == devices_view(old(devices)@),
        decreases cs.len() - i,
    {
        let c = &cs[i];
        let ghost rest = all.skip(i as int);
        proof {
            assert(rest[0] == c@);
            assert(rest.drop_first() =~= all.skip(i + 1));
        }
        let ghost before = devices@;
        let ghost seen_before = seen@;
        if !seen.contains(c.canonical.as_str()) {
            seen.insert(c.canonical.clone());
            if c.has_uevent {
                let mut child = parse_generic_device(c.name.as_str(), c.canonical.as_str(), &c.node);
                child.parent = Some(parent_id.clone());
                devices.push(child);
                proof {
                    assert(devices_view(devices@) =~= devices_view(before).push(child@));
                    assert(devices_view(devices@).skip(old(devices)@.len() as int) =~= devices_view(
                        before,
                    ).skip(old(devices)@.len() as int).push(child@));
                    assert(devices_view(devices@).take(old(devices)@.len() as int) =~= devices_view(
                        before,
                    ).take(old(devices)@.len() as int));
                }
            }
        }
        i = i + 1;
    }
    proof {
        assert(all.skip(cs.len() as int) =~= Seq::<ChildV>::empty());
        assert(devices_view(devices@) =~= devices_view(old(devices)@) + devices_view(devices@).skip(
            old(devices)@.len() as int,
        ));
    }
}

fn scan_bus_entry(pci: bool, e: &BusEntry, devices: &mut Vec<Device>, seen: &mut SeenPaths)
    ensures
        devices_view(final(devices)@) == devices_view(old(devices)@) + bus_step(pci, e@, old(seen)@).0,
        final(seen)@ == bus_step(pci, e@, old(seen)@).1,
{
    if seen.contains(e.canonical.as_str()) {
        proof {
            assert(devices_view(devices@) =~= devices_view(old(devices)@) + Seq::<DeviceV>::empty());
        }
        return;
    }
    seen.insert(e.canonical.clone());
    let d = if pci {
        parse_pci_device(e.name.as_str(), e.canonical.as_str(), &e.node)
    } else {
        parse_usb_device(e.name.as_str(), e.canonical.as_str(), &e.node)
    };
    let ghost k = children_scan(d@.id, children_view(e.children@), seen@);
    let ghost dv = d@;
    scan_children(&d.id, &e.children, devices, seen);
    let ghost mid = devices@;
    devices.push(d);
    proof {
        assert(devices_view(mid) == devices_view(old(devices)@) + k.0);
        assert(devices_view(devices@) =~= devices_view(mid).push(dv));
        assert(devices_view(devices@) =~= devices_view(old(devices)@) + k.0.push(dv));
    }
}

fn scan_bus(pci: bool, es: &Vec<BusEntry>, devices: &mut Vec<Device>, seen: &mut SeenPaths)
    ensures
        devices_view(final(devices)@) == devices_view(old(devices)@) + bus_scan(
            pci,
            bus_entries_view(es@),
            old(seen)@,
        ).0,
        final(seen)@ == bus_scan(pci, bus_entries_view(es@), old(seen)@).1,
{
    let ghost all = bus_entries_view(es@);
    let ghost total = bus_scan(pci, all, seen@);
    let ghost start = devices_view(devices@);
    let mut i: usize = 0;
    proof {
        assert(all.skip(0) =~= all);
        assert(start + total.0 =~= start + Seq::<DeviceV>::empty() + total.0);
    }
    while i < es.len()
        invariant
            i <= es.len(),
            all == bus_entries_view(es@),
            exists|done: Seq<DeviceV>|
                devices_view(devices@) == start + done && total.0 == done + bus_scan(
                    pci,
                    all.skip(i as int),
                    seen@,
                ).0,
            total.1 == bus_scan(pci, all.skip(i as int), seen@).1,
        decreases es.len() - i,
    {
        let ghost done = choose|done: Seq<DeviceV>|
            devices_view(devices@) == start + done && total.0 == done + bus_scan(
                pci,
                all.skip(i as int),
                seen@,
            ).0;
        let ghost rest = all.skip(i as int);
        let ghost s0 = seen@;
        proof {
            assert(rest[0] == es@[i as int]@);
            assert(rest.drop_first() =~= all.skip(i + 1));
        }
        scan_bus_entry(pci, &es[i], devices, seen);
        proof {
            let st = bus_step(pci, rest[0], s0);
            assert(devices_view(devices@) =~= start + (done + st.0));
            assert(total.0 =~= (done + st.0) + bus_scan(pci, all.skip(i + 1), seen@).0);
        }
        i = i + 1;
    }
    proof {
        assert(all.skip(es.len() as int) =~= Seq::<BusEntryV>::empty());
        let done = choose|done: Seq<DeviceV>|
            devices_view(devices@) == start + done && total.0 == done + bus_scan(
                pci,
                all.skip(i as int),
                seen@,
            ).0;
        assert(total.0 =~= done);
    }
}

fn scan_class(bus: &Bus, subsystem: &str, es: &Vec<ClassEntry>, devices: &mut Vec<Device>, seen: &mut SeenPaths)
    ensures
        devices_view(final(devices)@) == devices_view(old(devices)@) + class_scan(
            bus@,
            subsystem@,
            class_entries_view(es@),
            old(seen)@,
        ).0,
        final(seen)@ == class_scan(bus@, subsystem@, class_entries_view(es@), old(seen)@).1,
{
    let ghost all = class_entries_view(es@);
    let ghost total = class_scan(bus@, subsystem@, all, seen@);
    let ghost start = devices_view(devices@);
    let mut i: usize = 0;
    proof {
        assert(all.skip(0) =~= all);
        assert(start + total.0 =~= start + Seq::<DeviceV>::empty() + total.0);
    }
    while i < es.len()
        invariant
            i <= es.len(),
            all == class_entries_view(es@),
            exists|done: Seq<DeviceV>|
                devices_view(devices@) == start + done && total.0 == done + class_scan(
                    bus@,
                    subsystem@,
                    all.skip(i as int),
                    seen@,
                ).0,
            total.1 == class_scan(bus@, subsystem@, all.skip(i as int), seen@).1,
        decreases es.len() - i,
    {
        let ghost done = choose|done: Seq<DeviceV>|
            devices_view(devices@) == start + done && total.0 == done + class_scan(
                bus@,
                subsystem@,
                all.skip(i as int),
                seen@,
            ).0;
        let ghost rest = all.skip(i as int);
        let ghost s0 = seen@;
        let e = &es[i];
        proof {
            assert(rest[0] == e@);
            assert(rest.drop_first() =~= all.skip(i + 1));
        }
        let ghost before = devices@;
        if !seen.contains(e.canonical.as_str()) {
            seen.insert(e.canonical.clone());
            let d = parse_class_device(e.name.as_str(), e.canonical.as_str(), bus.copy(), subsystem, &e.node);
            devices.push(d);
            proof {
                assert(devices_view(devices@) =~= devices_view(before).push(d@));
            }
        }
        proof {
            let st = class_step(bus@, subsystem@, rest[0], s0);
            assert(devices_view(devices@) =~= start + (done + st.0));
            assert(total.0 =~= (done + st.0) + class_scan(bus@, subsystem@, all.skip(i + 1), seen@).0);
        }
        i = i + 1;
    }
    proof {
        assert(all.skip(es.len() as int) =~= Seq::<ClassEntryV>::empty());
        let done = choose|done: Seq<DeviceV>|
            devices_view(devices@) == start + done && total.0 == done + class_scan(
                bus@,
                subsystem@,
                all.skip(i as int),
                seen@,
            ).0;
        assert(total.0 =~= done);
    }
}

pub struct SnapshotV {
    pub pci: Seq<BusEntryV>,
    pub usb: Seq<BusEntryV>,
    pub input: Seq<ClassEntryV>,
    pub sound: Seq<ClassEntryV>,
    pub block: Seq<ClassEntryV>,
    pub drm: Seq<ClassEntryV>,
    pub net: Seq<ClassEntryV>,
    pub tty: Seq<ClassEntryV>,
    pub power_supply: Seq<ClassEntryV>,
}

impl View for SysfsSnapshot {
    type V = SnapshotV;

    open spec fn view(&self) -> SnapshotV {
        SnapshotV {
            pci: bus_entries_view(self.pci@),
            usb: bus_entries_view(self.usb@),
            input: class_entries_view(self.input@),
            sound: class_entries_view(self.sound@),
            block: class_entries_view(self.block@),
            drm: class_entries_view(self.drm@),
            net: class_entries_view(self.net@),
            tty: class_entries_view(self.tty@),
            power_supply: class_entries_view(self.power_supply@),
        }
    }
}

/// The devices of a snapshot before they are related to each other: PCI,
/// then USB, then the classes `input`, `sound`, `block`, `drm`, `net`,
/// `tty` and `power_supply`, no directory taken twice.
pub open spec fn snapshot_devices(s: SnapshotV) -> Seq<DeviceV> {
    let p = bus_scan(true, s.pci, Set::empty());
    let u = bus_scan(false, s.usb, p.1);
    let i = class_scan(BusV::Input, "input"@, s.input, u.1);
    let so = class_scan(BusV::Audio, "sound"@, s.sound, i.1);
    let b = class_scan(BusV::Block, "block"@, s.block, so.1);
    let d = class_scan(BusV::Drm, "drm"@, s.drm, b.1);
    let n = class_scan(BusV::Net, "net"@, s.net, d.1);
    let t = class_scan(BusV::Tty, "tty"@, s.tty, n.1);
    let pw = class_scan(BusV::Power, "power_supply"@, s.power_supply, t.1);
    p.0 + u.0 + i.0 + so.0 + b.0 + d.0 + n.0 + t.0 + pw.0
}


/// The devices `ds` lie at distinct paths, none of them in `before`, all of
/// them in `after`, which holds all of `before`.
pub open spec fn fresh_paths(ds: Seq<DeviceV>, before: Set<Seq<char>>, after: Set<Seq<char>>) -> bool {
    &&& forall|i: int, j: int| 0 <= i < j < ds.len() ==> #[trigger] ds[i].path != #[trigger] ds[j].path
    &&& forall|i: int| 0 <= i < ds.len() ==> after.contains(#[trigger] ds[i].path) && !before.contains(ds[i].path)
    &&& before.subset_of(after)
}

proof fn lemma_fresh_concat(a: Seq<DeviceV>, b: Seq<DeviceV>, s0: Set<Seq<char>>, s1: Set<Seq<char>>, s2: Set<Seq<char>>)
    requires
        fresh_paths(a, s0, s1),
        fresh_paths(b, s1, s2),
    ensures
        fresh_paths(a + b, s0, s2),
{
    let c = a + b;
    assert forall|i: int, j: int| 0 <= i < j < c.len() implies #[trigger] c[i].path != #[trigger] c[j].path by {
        if j < a.len() {
            assert(c[i] == a[i] && c[j] == a[j]);
        } else if i >= a.len() {
            assert(c[i] == b[i - a.len()] && c[j] == b[j - a.len()]);
        } else {
            assert(c[i] == a[i] && c[j] == b[j - a.len()]);
            assert(s1.contains(a[i].path));
        }
    }
    assert forall|i: int| 0 <= i < c.len() implies s2.contains(#[trigger] c[i].path) && !s0.contains(c[i].path) by {
        if i < a.len() {
            assert(c[i] == a[i]);
        } else {
            assert(c[i] == b[i - a.len()]);
        }
    }
}

proof fn lemma_children_fresh(pid: Seq<char>, cs: Seq<ChildV>, seen: Set<Seq<char>>)
    ensures
        fresh_paths(children_scan(pid, cs, seen).0, seen, children_scan(pid, cs, seen).1),
    decreases cs.len(),
{
    if cs.len() > 0 {
        let c = cs[0];
        if seen.contains(c.canonical) {
            lemma_children_fresh(pid, cs.drop_first(), seen);
        } else {
            let s1 = seen.insert(c.canonical);
            lemma_children_fresh(pid, cs.drop_first(), s1);
            let r = children_scan(pid, cs.drop_first(), s1);
            if c.has_uevent {
                let dev = DeviceV { parent: Some(pid), ..generic_device(c.name, c.canonical, c.node) };
                crate::sysfs::lemma_device_paths(c.name, c.canonical, BusV::Pci, seq![], c.node);
                assert(dev.path == c.canonical);
                assert(fresh_paths(seq![dev], seen, s1));
                lemma_fresh_concat(seq![dev], r.0, seen, s1, r.1);
            } else {
                assert(fresh_paths(Seq::<DeviceV>::empty(), seen, s1));
                lemma_fresh_concat(Seq::<DeviceV>::empty(), r.0, seen, s1, r.1);
                assert(Seq::<DeviceV>::empty() + r.0 =~= r.0);
            }
        }
    }
}

proof fn lemma_bus_fresh(pci: bool, es: Seq<BusEntryV>, seen: Set<Seq<char>>)
    ensures
        fresh_paths(bus_scan(pci, es, seen).0, seen, bus_scan(pci, es, seen).1),
    decreases es.len(),
{
    if es.len() > 0 {
        let e = es[0];
        let st = bus_step(pci, e, seen);
        if seen.contains(e.canonical) {
            assert(fresh_paths(st.0, seen, st.1));
        } else {
            let d = bus_device(pci, e);
            crate::sysfs::lemma_device_paths(e.name, e.canonical, BusV::Pci, seq![], e.node);
            assert(d.path == e.canonical);
            let s1 = seen.insert(e.canonical);
            lemma_children_fresh(d.id, e.children, s1);
            let k = children_scan(d.id, e.children, s1);
            assert(fresh_paths(seq![d], seen, s1));
            lemma_fresh_concat(seq![d], k.0, seen, s1, k.1);
            assert forall|i: int, j: int| 0 <= i < j < st.0.len() implies #[trigger] st.0[i].path
                != #[trigger] st.0[j].path by {
                let c = seq![d] + k.0;
                if j < k.0.len() {
                    assert(st.0[i] == c[i + 1] && st.0[j] == c[j + 1]);
                } else {
                    assert(st.0[i] == c[i + 1] && st.0[j] == c[0]);
                }
            }
            assert forall|i: int| 0 <= i < st.0.len() implies st.1.contains(#[trigger] st.0[i].path)
                && !seen.contains(st.0[i].path) by {
                let c = seq![d] + k.0;
                if i < k.0.len() {
                    assert(st.0[i] == c[i + 1]);
                } else {
                    assert(st.0[i] == c[0]);
                }
            }
        }
        lemma_bus_fresh(pci, es.drop_first(), st.1);
        lemma_fresh_concat(st.0, bus_scan(pci, es.drop_first(), st.1).0, seen, st.1, bus_scan(pci, es.drop_first(), st.1).1);
    }
}

proof fn lemma_class_fresh(bus: BusV, subsystem: Seq<char>, es: Seq<ClassEntryV>, seen: Set<Seq<char>>)
    ensures
        fresh_paths(class_scan(bus, subsystem, es, seen).0, seen, class_scan(bus, subsystem, es, seen).1),
    decreases es.len(),
{
    if es.len() > 0 {
        let e = es[0];
        let st = class_step(bus, subsystem, e, seen);
        crate::sysfs::lemma_device_paths(e.name, e.canonical, bus, subsystem, e.node);
        assert(fresh_paths(st.0, seen, st.1));
        lemma_class_fresh(bus, subsystem, es.drop_first(), st.1);
        let r = class_scan(bus, subsystem, es.drop_first(), st.1);
        lemma_fresh_concat(st.0, r.0, seen, st.1, r.1);
    }
}

/// No directory is scanned twice: the devices of a scan lie at distinct
/// paths.
pub proof fn law_scan_paths_distinct(s: SnapshotV, i: int, j: int)
    requires
        0 <= i < j < resolved(snapshot_devices(s)).len(),
    ensures
        resolved(snapshot_devices(s))[i].path != resolved(snapshot_devices(s))[j].path,
{
    let e = Set::<Seq<char>>::empty();
    let p = bus_scan(true, s.pci, e);
    let u = bus_scan(false, s.usb, p.1);
    let ii = class_scan(BusV::Input, "input"@, s.input, u.1);
    let so = class_scan(BusV::Audio, "sound"@, s.sound, ii.1);
    let b = class_scan(BusV::Block, "block"@, s.block, so.1);
    let d = class_scan(BusV::Drm, "drm"@, s.drm, b.1);
    let n = class_scan(BusV::Net, "net"@, s.net, d.1);
    let t = class_scan(BusV::Tty, "tty"@, s.tty, n.1);
    let pw = class_scan(BusV::Power, "power_supply"@, s.power_supply, t.1);
    lemma_bus_fresh(true, s.pci, e);
    lemma_bus_fresh(false, s.usb, p.1);
    lemma_class_fresh(BusV::Input, "input"@, s.input, u.1);
    lemma_class_fresh(BusV::Audio, "sound"@, s.sound, ii.1);
    lemma_class_fresh(BusV::Block, "block"@, s.block, so.1);
    lemma_class_fresh(BusV::Drm, "drm"@, s.drm, b.1);
    lemma_class_fresh(BusV::Net, "net"@, s.net, d.1);
    lemma_class_fresh(BusV::Tty, "tty"@, s.tty, n.1);
    lemma_class_fresh(BusV::Power, "power_supply"@, s.power_supply, t.1);
    lemma_fresh_concat(p.0, u.0, e, p.1, u.1);
    lemma_fresh_concat(p.0 + u.0, ii.0, e, u.1, ii.1);
    lemma_fresh_concat(p.0 + u.0 + ii.0, so.0, e, ii.1, so.1);
    lemma_fresh_concat(p.0 + u.0 + ii.0 + so.0, b.0, e, so.1, b.1);
    lemma_fresh_concat(p.0 + u.0 + ii.0 + so.0 + b.0, d.0, e, b.1, d.1);
    lemma_fresh_concat(p.0 + u.0 + ii.0 + so.0 + b.0 + d.0, n.0, e, d.1, n.1);
    lemma_fresh_concat(p.0 + u.0 + ii.0 + so.0 + b.0 + d.0 + n.0, t.0, e, n.1, t.1);
    lemma_fresh_concat(p.0 + u.0 + ii.0 + so.0 + b.0 + d.0 + n.0 + t.0, pw.0, e, t.1, pw.1);
    let all = snapshot_devices(s);
    assert(all == p.0 + u.0 + ii.0 + so.0 + b.0 + d.0 + n.0 + t.0 + pw.0);
    assert(resolved(all)[i].path == all[i].path);
    assert(resolved(all)[j].path == all[j].path);
}

/// All devices of the snapshot, each linked to its parent and children.
#[verifier::rlimit(50)]
pub fn scan_all_devices(s: &SysfsSnapshot) -> (r: Result<Vec<Device>, DmgrError>)
    ensures
        r matches Ok(v) && devices_view(v@) == resolved(snapshot_devices(s@)),
{
    let mut devices: Vec<Device> = Vec::new();
    let mut seen = SeenPaths::new();
    proof {
        assert(devices_view(devices@) =~= Seq::<DeviceV>::empty());
    }
    let ghost sv = s@;
    let ghost p = bus_scan(true, sv.pci, Set::empty());
    scan_bus(true, &s.pci, &mut devices, &mut seen);
    let ghost acc = devices_view(devices@);
    proof {
        assert(acc =~= p.0);
    }
    let ghost u = bus_scan(false, sv.usb, p.1);
    scan_bus(false, &s.usb, &mut devices, &mut seen);
    assert(devices_view(devices@) == p.0 + u.0);
    let ghost c1 = class_scan(BusV::Input, "input"@, sv.input, u.1);
    scan_class(&Bus::Input, "input", &s.input, &mut devices, &mut seen);
    assert(devices_view(devices@) == p.0 + u.0 + c1.0);
    let ghost c2 = class_scan(BusV::Audio, "sound"@, sv.sound, c1.1);
    scan_class(&Bus::Audio, "sound", &s.sound, &mut devices, &mut seen);
    assert(devices_view(devices@) == p.0 + u.0 + c1.0 + c2.0);
    let ghost c3 = class_scan(BusV::Block, "block"@, sv.block, c2.1);
    scan_class(&Bus::Block, "block", &s.block, &mut devices, &mut seen);
    assert(devices_view(devices@) == p.0 + u.0 + c1.0 + c2.0 + c3.0);
    let ghost c4 = class_scan(BusV::Drm, "drm"@, sv.drm, c3.1);
    scan_class(&Bus::Drm, "drm", &s.drm, &mut devices, &mut seen);
    assert(devices_view(devices@) == p.0 + u.0 + c1.0 + c2.0 + c3.0 + c4.0);
    let ghost c5 = class_scan(BusV::Net, "net"@, sv.net, c4.1);
    scan_class(&Bus::Net, "net", &s.net, &mut devices, &mut seen);
    assert(devices_view(devices@) == p.0 + u.0 + c1.0 + c2.0 + c3.0 + c4.0 + c5.0);
    let ghost c6 = class_scan(BusV::Tty, "tty"@, sv.tty, c5.1);
    scan_class(&Bus::Tty, "tty", &s.tty, &mut devices, &mut seen);
    assert(devices_view(devices@) == p.0 + u.0 + c1.0 + c2.0 + c3.0 + c4.0 + c5.0 + c6.0);
    let ghost c7 = class_scan(BusV::Power, "power_supply"@, sv.power_supply, c6.1);
    scan_class(&Bus::Power, "power_supply", &s.power_supply, &mut devices, &mut seen);
    proof {
        assert(devices_view(devices@) == p.0 + u.0 + c1.0 + c2.0 + c3.0 + c4.0 + c5.0 + c6.0 + c7.0);
        assert(snapshot_devices(sv) == p.0 + u.0 + c1.0 + c2.0 + c3.0 + c4.0 + c5.0 + c6.0 + c7.0);
    }
    resolve_relations(&mut devices);
    Ok(devices)
}

/// An attribute of the device whose directory `n` was read: its file's
/// contents trimmed, none where unreadable or blank.
pub fn get_property(n: &SysfsNode, property: &str) -> (r: Result<Option<String>, DmgrError>)
    ensures
        r matches Ok(v) && opt_view(v) == read_attr(n@, property@),
{
    Ok(attr(n, property))
}

/// The `modalias` attribute of the device whose directory `n` was read.
pub fn get_modalias(n: &SysfsNode) -> (r: Result<Option<String>, DmgrError>)
    ensures
        r matches Ok(v) && opt_view(v) == read_attr(n@, "modalias"@),
{
    Ok(attr(n, "modalias"))
}

} // verus!
