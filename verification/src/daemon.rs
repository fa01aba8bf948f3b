//! The device store of the background service: the devices it knows, by
//! id, and the searches it answers.
use vstd::prelude::*;
use crate::text::{chars_of, string_of, lowercase, to_lowercase, contains, contains_exec, eq};
use crate::device::{Device, DeviceV, devices_view, bus_label};
use crate::gui::app::text_or_empty;
use crate::udev::UdevEvent;

verus! {

/// The devices the service knows, each under a key (its id when it was
/// stored); no key occurs twice.
pub struct DeviceStore {
    entries: Vec<(String, Device)>,
}

pub open spec fn entries_view(v: Seq<(String, Device)>) -> Seq<(Seq<char>, DeviceV)> {
    v.map_values(|e: (String, Device)| (e.0@, e.1@))
}

/// No key occurs twice.
pub open spec fn keys_distinct(s: Seq<(Seq<char>, DeviceV)>) -> bool {
    forall|i: int, j: int| 0 <= i < j < s.len() ==> s[i].0 != s[j].0
}

/// The index of the entry with key `k`, or `s.len()`.
pub open spec fn key_index(s: Seq<(Seq<char>, DeviceV)>, k: Seq<char>, from: int) -> int
    decreases s.len() - from,
{
    if from < 0 || from >= s.len() {
        s.len() as int
    } else if s[from].0 == k {
        from
    } else {
        key_index(s, k, from + 1)
    }
}

proof fn lemma_key_index(s: Seq<(Seq<char>, DeviceV)>, k: Seq<char>, from: int)
    requires
        0 <= from <= s.len(),
    ensures
        from <= key_index(s, k, from) <= s.len(),
        key_index(s, k, from) < s.len() ==> s[key_index(s, k, from)].0 == k,
        forall|j: int| from <= j < key_index(s, k, from) ==> s[j].0 != k,
    decreases s.len() - from,
{
    if from < s.len() && s[from].0 != k {
        lemma_key_index(s, k, from + 1);
    }
}

/// The store after storing `d` under `k`: it replaces the entry with that
/// key, or is added at the end.
pub open spec fn stored(s: Seq<(Seq<char>, DeviceV)>, k: Seq<char>, d: DeviceV) -> Seq<(Seq<char>, DeviceV)> {
    let i = key_index(s, k, 0);
    if i < s.len() {
        s.update(i, (k, d))
    } else {
        s.push((k, d))
    }
}

/// The device stored under `k`.
pub open spec fn stored_under(s: Seq<(Seq<char>, DeviceV)>, k: Seq<char>) -> Option<DeviceV> {
    let i = key_index(s, k, 0);
    if i < s.len() {
        Some(s[i].1)
    } else {
        None
    }
}

/// The store after storing each device of `ds` under its id, in order.
pub open spec fn stored_all(s: Seq<(Seq<char>, DeviceV)>, ds: Seq<DeviceV>) -> Seq<(Seq<char>, DeviceV)>
    decreases ds.len(),
{
    if ds.len() == 0 {
        s
    } else {
        stored(stored_all(s, ds.drop_last()), ds.last().id, ds.last())
    }
}

impl View for DeviceStore {
    type V = Seq<(Seq<char>, DeviceV)>;

    closed spec fn view(&self) -> Seq<(Seq<char>, DeviceV)> {
        entries_view(self.entries@)
    }
}

impl DeviceStore {
    #[verifier::type_invariant]
    spec fn keys_are_distinct(self) -> bool {
        keys_distinct(entries_view(self.entries@))
    }

    /// An empty store.
    pub fn new() -> (r: DeviceStore)
        ensures
            r@ == Seq::<(Seq<char>, DeviceV)>::empty(),
    {
        let r = DeviceStore { entries: Vec::new() };
        proof {
            assert(entries_view(r.entries@) =~= Seq::<(Seq<char>, DeviceV)>::empty());
        }
        r
    }

    fn find(&self, k: &str) -> (r: usize)
        ensures
            r == key_index(self@, k@, 0),
    {
        let ghost sv = self@;
        let key = String::from_str(k);
        let mut i: usize = 0;
        while i < self.entries.len()
            invariant
                i <= self.entries.len(),
                sv == entries_view(self.entries@),
                key@ == k@,
                forall|j: int| 0 <= j < i ==> sv[j].0 != k@,
            decreases self.entries.len() - i,
        {
            if self.entries[i].0 == key {
                proof {
                    assert(sv[i as int].0 == self.entries@[i as int].0@);
                    assert(sv[i as int].0 == k@);
                    lemma_key_index(sv, k@, 0);
                    if key_index(sv, k@, 0) < i {
                        assert(sv[key_index(sv, k@, 0)].0 == k@);
                    }
                }
                return i;
            }
            i = i + 1;
        }
        proof {
            lemma_key_index(sv, k@, 0);
        }
        i
    }

    /// Stores `d` under `k`, replacing what was stored under it.
    pub fn insert(&mut self, k: String, d: Device)
        ensures
            final(self)@ == stored(old(self)@, k@, d@),
    {
        proof {
            use_type_invariant(&*self);
        }
        let i = self.find(k.as_str());
        let ghost sv = self@;
        proof {
            lemma_key_index(sv, k@, 0);
        }
        let ghost kv = k@;
        let ghost dv = d@;
        let mut entries: Vec<(String, Device)> = Vec::new();
        std::mem::swap(&mut entries, &mut self.entries);
        proof {
            assert(entries_view(entries@) == sv);
        }
        if i < entries.len() {
            entries.remove(i);
            entries.insert(i, (k, d));
            proof {
                assert(entries_view(entries@) =~= sv.update(i as int, (kv, dv)));
                assert forall|a: int, b: int| 0 <= a < b < entries@.len() implies entries_view(
                    entries@,
                )[a].0 != entries_view(entries@)[b].0 by {
                    if a != i && b != i {
                        assert(entries_view(entries@)[a] == sv[a]);
                        assert(entries_view(entries@)[b] == sv[b]);
                    } else if a == i {
                        assert(entries_view(entries@)[b] == sv[b]);
                        assert(sv[i as int].0 == kv);
                    } else {
                        assert(entries_view(entries@)[a] == sv[a]);
                        assert(sv[i as int].0 == kv);
                    }
                }
            }
        } else {
            entries.push((k, d));
            proof {
                assert(entries_view(entries@) =~= sv.push((kv, dv)));
                assert forall|a: int, b: int| 0 <= a < b < entries@.len() implies entries_view(
                    entries@,
                )[a].0 != entries_view(entries@)[b].0 by {
                    if b < sv.len() {
                        assert(entries_view(entries@)[a] == sv[a]);
                        assert(entries_view(entries@)[b] == sv[b]);
                    } else {
                        assert(entries_view(entries@)[a] == sv[a]);
                    }
                }
            }
        }
        self.entries = entries;
    }

    /// Stores the devices of a scan, each under its id, and returns how
    /// many there were.
    pub fn scan(&mut self, devices: Vec<Device>) -> (count: usize)
        ensures
            count == devices@.len(),
            final(self)@ == stored_all(old(self)@, devices_view(devices@)),
    {
        let ghost orig = devices@;
        let count = devices.len();
        let mut devices = devices;
        let ghost mut k: int = 0;
        proof {
            assert(devices_view(orig).take(0) =~= Seq::<DeviceV>::empty());
        }
        while devices.len() > 0
            invariant
                0 <= k <= orig.len(),
                devices@ == orig.skip(k),
                self@ == stored_all(old(self)@, devices_view(orig).take(k)),
            decreases devices.len(),
        {
            let d = devices.remove(0);
            proof {
                assert(d == orig[k]);
                assert(orig.skip(k).drop_first() =~= orig.skip(k + 1));
                assert(devices_view(orig).take(k + 1).drop_last() =~= devices_view(orig).take(k));
                assert(devices_view(orig).take(k + 1).last() == d@);
            }
            let key = d.id.clone();
            self.insert(key, d);
            proof {
                k = k + 1;
            }
        }
        proof {
            assert(devices_view(orig).take(k) =~= devices_view(orig));
        }
        count
    }

    /// A copy of the device stored under `id`.
    pub fn get(&self, id: &str) -> (r: Option<Device>)
        ensures
            match r {
                Some(d) => stored_under(self@, id@) == Some(d@),
                None => stored_under(self@, id@) is None,
            },
    {
        let i = self.find(id);
        if i < self.entries.len() {
            Some(self.entries[i].1.copy())
        } else {
            None
        }
    }

    /// Copies of all stored devices, in the order they were first stored.
    pub fn get_all(&self) -> (r: Vec<Device>)
        ensures
            devices_view(r@) == self@.map_values(|e: (Seq<char>, DeviceV)| e.1),
    {
        let mut out: Vec<Device> = Vec::new();
        let mut i: usize = 0;
        while i < self.entries.len()
            invariant
                i <= self.entries.len(),
                devices_view(out@) == self@.map_values(|e: (Seq<char>, DeviceV)| e.1).take(i as int),
            decreases self.entries.len() - i,
        {
            let ghost prev = out@;
            let d = self.entries[i].1.copy();
            out.push(d);
            proof {
                assert(devices_view(out@) =~= devices_view(prev).push(d@));
                assert(self@.map_values(|e: (Seq<char>, DeviceV)| e.1).take(i + 1) =~= self@.map_values(
                    |e: (Seq<char>, DeviceV)| e.1,
                ).take(i as int).push(self@[i as int].1));
            }
            i = i + 1;
        }
        proof {
            assert(self@.map_values(|e: (Seq<char>, DeviceV)| e.1).take(self.entries.len() as int)
                =~= self@.map_values(|e: (Seq<char>, DeviceV)| e.1));
        }
        out
    }
}

/// What storing does: the device stored under a key is the one stored last
/// under it, and storing under one key leaves the others as they were.
pub proof fn law_store_read_gives_last_write(s: Seq<(Seq<char>, DeviceV)>, k: Seq<char>, d: DeviceV, k2: Seq<char>)
    requires
        keys_distinct(s),
    ensures
        stored_under(stored(s, k, d), k) == Some(d),
        k2 != k ==> stored_under(stored(s, k, d), k2) == stored_under(s, k2),
        keys_distinct(stored(s, k, d)),
{
    lemma_key_index(s, k, 0);
    lemma_key_index(s, k2, 0);
    let t = stored(s, k, d);
    let i = key_index(s, k, 0);
    lemma_key_index(t, k, 0);
    lemma_key_index(t, k2, 0);
    if i < s.len() {
        assert(t[i].0 == k);
        assert(key_index(t, k, 0) == i) by {
            if key_index(t, k, 0) < i {
                assert(t[key_index(t, k, 0)] == s[key_index(t, k, 0)]);
            }
        }
    } else {
        assert(t[s.len() as int].0 == k);
        assert(key_index(t, k, 0) == s.len()) by {
            if key_index(t, k, 0) < s.len() {
                assert(t[key_index(t, k, 0)] == s[key_index(t, k, 0)]);
            }
        }
    }
    if k2 != k {
        let j = key_index(s, k2, 0);
        let j2 = key_index(t, k2, 0);
        if j < s.len() {
            assert(t[j] == s[j]);
            if j2 < j {
                assert(t[j2].0 == k2);
                if j2 < s.len() {
                    assert(t[j2] == s[j2] || j2 == i);
                }
            }
            assert(j2 == j);
        } else {
            if j2 < t.len() {
                assert(t[j2].0 == k2);
                if j2 < s.len() {
                    assert(j2 != i || t[j2].0 == k);
                    assert(t[j2] == s[j2]);
                }
            }
        }
    }
    assert forall|a: int, b: int| 0 <= a < b < t.len() implies t[a].0 != t[b].0 by {
        if i < s.len() {
            if a != i && b != i {
                assert(t[a] == s[a] && t[b] == s[b]);
            } else if a == i {
                assert(t[b] == s[b]);
            } else {
                assert(t[a] == s[a]);
            }
        } else {
            if b < s.len() {
                assert(t[a] == s[a] && t[b] == s[b]);
            } else {
                assert(t[a] == s[a]);
            }
        }
    }
}


/// The last device of `ds` with id `k`.
pub open spec fn last_with_id(ds: Seq<DeviceV>, k: Seq<char>) -> Option<DeviceV>
    decreases ds.len(),
{
    if ds.len() == 0 {
        None
    } else if ds.last().id == k {
        Some(ds.last())
    } else {
        last_with_id(ds.drop_last(), k)
    }
}

/// What a scan stores: after storing the devices of a scan, the device
/// stored under an id is the last scanned device with that id, and ids
/// that no scanned device has keep what they had; no key occurs twice.
pub proof fn law_scan_then_get(s: Seq<(Seq<char>, DeviceV)>, ds: Seq<DeviceV>, k: Seq<char>)
    requires
        keys_distinct(s),
    ensures
        keys_distinct(stored_all(s, ds)),
        stored_under(stored_all(s, ds), k) == match last_with_id(ds, k) {
            Some(d) => Some(d),
            None => stored_under(s, k),
        },
    decreases ds.len(),
{
    if ds.len() > 0 {
        law_scan_then_get(s, ds.drop_last(), k);
        let prev = stored_all(s, ds.drop_last());
        law_store_read_gives_last_write(prev, ds.last().id, ds.last(), k);
    }
}

/// Whether the search `q` (lowercased) finds device `d`: it occurs in its
/// lowercased name, id, vendor, model or driver.
pub open spec fn found_by(d: DeviceV, q: Seq<char>) -> bool {
    contains(lowercase(d.name), q) || contains(lowercase(d.id), q) || contains(
        lowercase(text_or_empty(d.vendor)),
        q,
    ) || contains(lowercase(text_or_empty(d.model)), q) || contains(lowercase(text_or_empty(d.driver)), q)
}

/// The devices found by the search `q` (lowercased), in order.
pub open spec fn search_results(ds: Seq<DeviceV>, q: Seq<char>) -> Seq<DeviceV>
    decreases ds.len(),
{
    if ds.len() == 0 {
        seq![]
    } else if found_by(ds.last(), q) {
        search_results(ds.drop_last(), q).push(ds.last())
    } else {
        search_results(ds.drop_last(), q)
    }
}

/// The devices whose lowercased bus label is `b` (lowercased), in order.
pub open spec fn on_bus(ds: Seq<DeviceV>, b: Seq<char>) -> Seq<DeviceV>
    decreases ds.len(),
{
    if ds.len() == 0 {
        seq![]
    } else if lowercase(bus_label(ds.last().bus)) == b {
        on_bus(ds.drop_last(), b).push(ds.last())
    } else {
        on_bus(ds.drop_last(), b)
    }
}


/// A search answers with stored devices only, each one the search finds.
pub proof fn law_search_results_match(ds: Seq<DeviceV>, q: Seq<char>)
    ensures
        forall|i: int| 0 <= i < search_results(ds, q).len() ==> found_by(#[trigger] search_results(ds, q)[i], q)
            && ds.contains(search_results(ds, q)[i]),
        search_results(ds, q).len() <= ds.len(),
    decreases ds.len(),
{
    if ds.len() > 0 {
        let p = ds.drop_last();
        law_search_results_match(p, q);
        assert forall|i: int| 0 <= i < search_results(ds, q).len() implies found_by(
            #[trigger] search_results(ds, q)[i],
            q,
        ) && ds.contains(search_results(ds, q)[i]) by {
            let r = search_results(ds, q);
            if i < search_results(p, q).len() {
                assert(r[i] == search_results(p, q)[i]);
                let k = choose|k: int| 0 <= k < p.len() && p[k] == r[i];
                assert(ds[k] == r[i]);
            } else {
                assert(r[i] == ds.last());
                assert(ds[ds.len() - 1] == r[i]);
            }
        }
    }
}

/// A search answers with exactly the stored devices, in their order, whose
/// lowercased name, id, vendor, model or driver holds the query `q`; so
/// every such device is found, and only such devices.
pub proof fn law_search_finds_every_match(ds: Seq<DeviceV>, q: Seq<char>)
    ensures
        search_results(ds, q) == ds.filter(
            |d: DeviceV|
                contains(lowercase(text_or_empty(d.driver)), q) || contains(
                    lowercase(text_or_empty(d.model)),
                    q,
                ) || contains(lowercase(text_or_empty(d.vendor)), q) || contains(lowercase(d.id), q)
                    || contains(lowercase(d.name), q),
        ),
        forall|i: int|
            0 <= i < ds.len() && (contains(lowercase(text_or_empty(ds[i].driver)), q) || contains(
                lowercase(text_or_empty(ds[i].model)),
                q,
            ) || contains(lowercase(text_or_empty(ds[i].vendor)), q) || contains(lowercase(ds[i].id), q)
                || contains(lowercase(#[trigger] ds[i].name), q)) ==> search_results(ds, q).contains(ds[i]),
    decreases ds.len(),
{
    reveal(Seq::filter);
    let pred = |d: DeviceV|
        contains(lowercase(text_or_empty(d.driver)), q) || contains(lowercase(text_or_empty(d.model)), q)
            || contains(lowercase(text_or_empty(d.vendor)), q) || contains(lowercase(d.id), q) || contains(
            lowercase(d.name),
            q,
        );
    if ds.len() > 0 {
        law_search_finds_every_match(ds.drop_last(), q);
    }
    assert(search_results(ds, q) == ds.filter(pred));
    assert forall|i: int| 0 <= i < ds.len() && pred(ds[i]) implies search_results(ds, q).contains(
        ds[i],
    ) by {
        ds.lemma_filter_contains(pred, i);
    }
}

/// A bus filter answers with exactly the stored devices, in their order,
/// whose bus label, lowercased, is the (lowercased) filter `b`.
pub proof fn law_bus_filter_finds_every_match(ds: Seq<DeviceV>, b: Seq<char>)
    ensures
        on_bus(ds, b) == ds.filter(|d: DeviceV| lowercase(bus_label(d.bus)) == b),
    decreases ds.len(),
{
    reveal(Seq::filter);
    if ds.len() > 0 {
        law_bus_filter_finds_every_match(ds.drop_last(), b);
    }
}

/// A bus filter answers with stored devices only, each on that bus.
pub proof fn law_bus_results_match(ds: Seq<DeviceV>, b: Seq<char>)
    ensures
        forall|i: int| 0 <= i < on_bus(ds, b).len() ==> lowercase(bus_label(#[trigger] on_bus(ds, b)[i].bus)) == b
            && ds.contains(on_bus(ds, b)[i]),
        on_bus(ds, b).len() <= ds.len(),
    decreases ds.len(),
{
    if ds.len() > 0 {
        let p = ds.drop_last();
        law_bus_results_match(p, b);
        assert forall|i: int| 0 <= i < on_bus(ds, b).len() implies lowercase(
            bus_label(#[trigger] on_bus(ds, b)[i].bus),
        ) == b && ds.contains(on_bus(ds, b)[i]) by {
            let r = on_bus(ds, b);
            if i < on_bus(p, b).len() {
                assert(r[i] == on_bus(p, b)[i]);
                let k = choose|k: int| 0 <= k < p.len() && p[k] == r[i];
                assert(ds[k] == r[i]);
            } else {
                assert(r[i] == ds.last());
                assert(ds[ds.len() - 1] == r[i]);
            }
        }
    }
}

fn lower_has(s: &str, q: &Vec<char>) -> (r: bool)
    ensures
        r == contains(lowercase(s@), q@),
{
    contains_exec(&chars_of(to_lowercase(s).as_str()), q)
}

fn opt_text(o: &Option<String>) -> (r: String)
    ensures
        r@ == text_or_empty(crate::device::opt_view(*o)),
{
    match o {
        Some(s) => s.clone(),
        None => String::new(),
    }
}

fn search_in(all: &Vec<Device>, query: &str) -> (r: Vec<Device>)
    ensures
        devices_view(r@) == search_results(devices_view(all@), lowercase(query@)),
{
    let q = chars_of(to_lowercase(query).as_str());
    let ghost dv = devices_view(all@);
    let mut out: Vec<Device> = Vec::new();
    let mut i: usize = 0;
    proof {
        assert(dv.take(0) =~= Seq::<DeviceV>::empty());
    }
    while i < all.len()
        invariant
            i <= all.len(),
            dv == devices_view(all@),
            devices_view(out@) == search_results(dv.take(i as int), q@),
        decreases all.len() - i,
    {
        let ghost prev = out@;
        proof {
            assert(dv.take(i + 1).drop_last() =~= dv.take(i as int));
            assert(dv.take(i + 1).last() == all@[i as int]@);
        }
        let d = &all[i];
        if lower_has(d.name.as_str(), &q) || lower_has(d.id.as_str(), &q) || lower_has(
            opt_text(&d.vendor).as_str(),
            &q,
        ) || lower_has(opt_text(&d.model).as_str(), &q) || lower_has(opt_text(&d.driver).as_str(), &q) {
            let c = d.copy();
            out.push(c);
            proof {
                assert(devices_view(out@) =~= devices_view(prev).push(c@));
            }
        }
        i = i + 1;
    }
    proof {
        assert(dv.take(all.len() as int) =~= dv);
    }
    out
}

fn on_bus_in(all: &Vec<Device>, bus: &str) -> (r: Vec<Device>)
    ensures
        devices_view(r@) == on_bus(devices_view(all@), lowercase(bus@)),
{
    let b = chars_of(to_lowercase(bus).as_str());
    let ghost dv = devices_view(all@);
    let mut out: Vec<Device> = Vec::new();
    let mut i: usize = 0;
    proof {
        assert(dv.take(0) =~= Seq::<DeviceV>::empty());
    }
    while i < all.len()
        invariant
            i <= all.len(),
            dv == devices_view(all@),
            devices_view(out@) == on_bus(dv.take(i as int), b@),
        decreases all.len() - i,
    {
        let ghost prev = out@;
        proof {
            assert(dv.take(i + 1).drop_last() =~= dv.take(i as int));
            assert(dv.take(i + 1).last() == all@[i as int]@);
        }
        let l = chars_of(to_lowercase(all[i].bus.label().as_str()).as_str());
        if eq(&l, &b) {
            let c = all[i].copy();
            out.push(c);
            proof {
                assert(devices_view(out@) =~= devices_view(prev).push(c@));
            }
        }
        i = i + 1;
    }
    proof {
        assert(dv.take(all.len() as int) =~= dv);
    }
    out
}


/// The devices stored in `s`, in order.
pub open spec fn stored_devices(s: Seq<(Seq<char>, DeviceV)>) -> Seq<DeviceV> {
    s.map_values(|e: (Seq<char>, DeviceV)| e.1)
}

/// The index of the first device of `ds` at `path` or with id `id`, or
/// `ds.len()`.
pub open spec fn first_match(ds: Seq<DeviceV>, path: Seq<char>, id: Seq<char>, from: int) -> int
    decreases ds.len() - from,
{
    if from < 0 || from >= ds.len() {
        ds.len() as int
    } else if ds[from].path == path || ds[from].id == id {
        from
    } else {
        first_match(ds, path, id, from + 1)
    }
}

proof fn lemma_first_match(ds: Seq<DeviceV>, path: Seq<char>, id: Seq<char>, from: int)
    requires
        0 <= from <= ds.len(),
    ensures
        from <= first_match(ds, path, id, from) <= ds.len(),
        forall|j: int| from <= j < first_match(ds, path, id, from) ==> ds[j].path != path && ds[j].id != id,
        first_match(ds, path, id, from) < ds.len() ==> (ds[first_match(ds, path, id, from)].path == path
            || ds[first_match(ds, path, id, from)].id == id),
    decreases ds.len() - from,
{
    if from < ds.len() && !(ds[from].path == path || ds[from].id == id) {
        lemma_first_match(ds, path, id, from + 1);
    }
}

/// The store after refreshing the device stored under `id` from a rescan:
/// the first device of the rescan at its path or with its id replaces it.
/// Where nothing is stored under `id`, the rescan failed or found no such
/// device, the store stays as it was.
pub open spec fn refreshed(s: Seq<(Seq<char>, DeviceV)>, id: Seq<char>, rescan: Option<Seq<DeviceV>>) -> Seq<(Seq<char>, DeviceV)> {
    match (stored_under(s, id), rescan) {
        (Some(d), Some(ds)) => {
            let i = first_match(ds, d.path, id, 0);
            if i < ds.len() {
                stored(s, id, ds[i])
            } else {
                s
            }
        },
        _ => s,
    }
}

/// Whether refreshing the device stored under `id` from `rescan` replaces it.
pub open spec fn refresh_finds(s: Seq<(Seq<char>, DeviceV)>, id: Seq<char>, rescan: Option<Seq<DeviceV>>) -> bool {
    match (stored_under(s, id), rescan) {
        (Some(d), Some(ds)) => first_match(ds, d.path, id, 0) < ds.len(),
        _ => false,
    }
}

pub open spec fn opt_devices_view(o: Option<Vec<Device>>) -> Option<Seq<DeviceV>> {
    match o {
        Some(v) => Some(devices_view(v@)),
        None => None,
    }
}

impl DeviceStore {
    /// The stored devices found by `query` (compared lowercased) in their
    /// name, id, vendor, model or driver.
    pub fn search(&self, query: &str) -> (r: Vec<Device>)
        ensures
            devices_view(r@) == search_results(stored_devices(self@), lowercase(query@)),
    {
        let all = self.get_all();
        search_in(&all, query)
    }

    /// The stored devices on the bus named `bus` (its label, compared
    /// lowercased).
    pub fn get_by_bus(&self, bus: &str) -> (r: Vec<Device>)
        ensures
            devices_view(r@) == on_bus(stored_devices(self@), lowercase(bus@)),
    {
        let all = self.get_all();
        on_bus_in(&all, bus)
    }

    /// Refreshes the device stored under `id` after a change to it, from a
    /// rescan (`None` where it failed); returns whether it was replaced.
    pub fn update_device(&mut self, id: &str, rescan: Option<Vec<Device>>) -> (updated: bool)
        ensures
            updated == refresh_finds(old(self)@, id@, opt_devices_view(rescan)),
            final(self)@ == refreshed(old(self)@, id@, opt_devices_view(rescan)),
    {
        let ghost rv = opt_devices_view(rescan);
        let path = match self.get(id) {
            Some(d) => d.path,
            None => {
                return false;
            },
        };
        let devices = match rescan {
            Some(v) => v,
            None => {
                return false;
            },
        };
        let ghost dv = devices_view(devices@);
        let mut devices = devices;
        let ghost orig = devices@;
        let mut i: usize = 0;
        let n = devices.len();
        while i < n
            invariant
                n == devices.len(),
                i <= n,
                devices@ == orig,
                dv == devices_view(orig),
                rv == Some(dv),
                rv == opt_devices_view(rescan),
                self@ == old(self)@,
                stored_under(self@, id@) is Some,
                stored_under(self@, id@)->0.path == path@,
                forall|j: int| 0 <= j < i ==> dv[j].path != path@ && dv[j].id != id@,
            decreases n - i,
        {
            proof {
                assert(dv[i as int] == devices@[i as int]@);
            }
            if eq_str(devices[i].path.as_str(), path.as_str()) || eq_str(devices[i].id.as_str(), id) {
                proof {
                    assert(dv[i as int].path == path@ || dv[i as int].id == id@);
                    lemma_first_match(dv, path@, id@, 0);
                    if first_match(dv, path@, id@, 0) < i {
                        assert(dv[first_match(dv, path@, id@, 0)].path != path@);
                    }
                    assert(first_match(dv, path@, id@, 0) == i);
                }
                let d = devices.remove(i);
                proof {
                    assert(d@ == dv[i as int]);
                }
                let key = String::from_str(id);
                self.insert(key, d);
                return true;
            }
            i = i + 1;
        }
        proof {
            lemma_first_match(dv, path@, id@, 0);
            let f = first_match(dv, path@, id@, 0);
            if f < n {
                assert(dv[f].path != path@ && dv[f].id != id@);
            }
        }
        false
    }
}

fn eq_str(a: &str, b: &str) -> (r: bool)
    ensures
        r == (a@ == b@),
{
    let x = chars_of(a);
    let y = chars_of(b);
    eq(&x, &y)
}

/// The signal the service sends on a hotplug event, after rescanning.
#[derive(Clone, Debug)]
pub enum DaemonSignal {
    DeviceAdded(u32),
    DeviceRemoved(u32),
    DeviceChanged(String),
    ScanFinished(u32),
}

/// The signal for `event`, where `scanned` is how many devices the rescan
/// found (none where it failed) and `known` how many the store then holds:
/// additions and removals carry the scan's count (0 where it failed),
/// changes the device path, a finished scan the store's size.
pub fn signal_for(event: UdevEvent, scanned: Option<usize>, known: usize) -> (r: DaemonSignal)
    ensures
        match event {
            UdevEvent::DeviceAdded(_) => r matches DaemonSignal::DeviceAdded(c) && c == (match scanned {
                Some(n) => n,
                None => 0,
            }) as u32,
            UdevEvent::DeviceRemoved(_) => r matches DaemonSignal::DeviceRemoved(c) && c == (match scanned {
                Some(n) => n,
                None => 0,
            }) as u32,
            UdevEvent::DeviceChanged(p) => r matches DaemonSignal::DeviceChanged(q) && q@ == p@,
            UdevEvent::ScanComplete => r matches DaemonSignal::ScanFinished(c) && c == known as u32,
        },
{
    let count: usize = match scanned {
        Some(n) => n,
        None => 0,
    };
    match event {
        UdevEvent::DeviceAdded(_) => DaemonSignal::DeviceAdded(count as u32),
        UdevEvent::DeviceRemoved(_) => DaemonSignal::DeviceRemoved(count as u32),
        UdevEvent::DeviceChanged(p) => DaemonSignal::DeviceChanged(p),
        UdevEvent::ScanComplete => DaemonSignal::ScanFinished(known as u32),
    }
}

} // verus!
