//! What the detail panel of the window shows for the selected device, and
//! the confirmations its buttons ask for.
use vstd::prelude::*;
use crate::text::{chars_of, string_of, push_all, trim, trim_chars};
use crate::device::{Device, DeviceV, opt_view, pairs_view, strs_view, InterfaceV, Interface, interfaces_view};
use crate::sysfs::{lookup, lookup_exec};
use crate::sort::{keyed, isort, sort_by_key, map_payload, lemma_isort_map};
use crate::gui::worker::WorkerMsg;

verus! {

/// A dialog that asks before an action is sent to the background thread.
#[derive(Clone, Debug)]
pub struct ConfirmPending {
    pub title: String,
    pub body: String,
    pub action: WorkerMsg,
}

/// A labelled value, or none.
pub open spec fn row_if(label: Seq<char>, v: Option<Seq<char>>) -> Seq<(Seq<char>, Seq<char>)> {
    match v {
        Some(x) => seq![(label, x)],
        None => seq![],
    }
}

/// The row of a name with its id in brackets (`Vendor`, `Model`), or of the
/// id alone (`Vendor ID`, `Model ID`).
pub open spec fn named_row(
    label: Seq<char>,
    id_label: Seq<char>,
    name: Option<Seq<char>>,
    id: Option<Seq<char>>,
) -> Seq<(Seq<char>, Seq<char>)> {
    match (name, id) {
        (Some(n), Some(i)) => seq![(label, n + " ("@ + i + ")"@)],
        (Some(n), None) => seq![(label, n)],
        (None, Some(i)) => seq![(id_label, i)],
        (None, None) => seq![],
    }
}

/// The identity rows: id, subsystem, bus id, vendor, model, sysfs path.
pub open spec fn identity(d: DeviceV) -> Seq<(Seq<char>, Seq<char>)> {
    seq![("ID"@, d.id), ("Subsystem"@, d.subsystem)] + row_if("Bus ID"@, d.bus_id) + named_row(
        "Vendor"@,
        "Vendor ID"@,
        d.vendor,
        d.vendor_id,
    ) + named_row("Model"@, "Model ID"@, d.model, d.model_id) + seq![("sysfs path"@, d.path)]
}

fn text2(a: &str, b: &str) -> (r: String)
    ensures
        r@ == a@ + b@,
{
    let mut c = chars_of(a);
    push_all(&mut c, &chars_of(b));
    string_of(&c)
}

fn push_named(
    rows: &mut Vec<(String, String)>,
    label: &str,
    id_label: &str,
    name: &Option<String>,
    id: &Option<String>,
)
    ensures
        pairs_view(final(rows)@) == pairs_view(old(rows)@) + named_row(label@, id_label@, opt_view(*name), opt_view(*id)),
{
    let ghost before = pairs_view(rows@);
    match (name, id) {
        (Some(n), Some(i)) => {
            let mut v = chars_of(n.as_str());
            push_all(&mut v, &chars_of(" ("));
            push_all(&mut v, &chars_of(i.as_str()));
            push_all(&mut v, &chars_of(")"));
            rows.push((String::from_str(label), string_of(&v)));
        },
        (Some(n), None) => {
            rows.push((String::from_str(label), n.clone()));
        },
        (None, Some(i)) => {
            rows.push((String::from_str(id_label), i.clone()));
        },
        (None, None) => {},
    }
    proof {
        assert(pairs_view(rows@) =~= before + named_row(label@, id_label@, opt_view(*name), opt_view(*id)));
    }
}

/// The identity rows of `dev`, as label and value.
pub fn identity_rows(dev: &Device) -> (r: Vec<(String, String)>)
    ensures
        pairs_view(r@) == identity(dev@),
{
    let mut rows: Vec<(String, String)> = Vec::new();
    rows.push((String::from_str("ID"), dev.id.clone()));
    rows.push((String::from_str("Subsystem"), dev.subsystem.clone()));
    let ghost a = pairs_view(rows@);
    proof {
        assert(a =~= seq![("ID"@, dev@.id), ("Subsystem"@, dev@.subsystem)]);
    }
    match &dev.bus_id {
        Some(v) => {
            rows.push((String::from_str("Bus ID"), v.clone()));
        },
        None => {},
    }
    let ghost b = pairs_view(rows@);
    proof {
        assert(b =~= a + row_if("Bus ID"@, dev@.bus_id));
    }
    push_named(&mut rows, "Vendor", "Vendor ID", &dev.vendor, &dev.vendor_id);
    push_named(&mut rows, "Model", "Model ID", &dev.model, &dev.model_id);
    let ghost c = pairs_view(rows@);
    rows.push((String::from_str("sysfs path"), dev.path.clone()));
    proof {
        assert(pairs_view(rows@) =~= c + seq![("sysfs path"@, dev@.path)]);
    }
    rows
}

/// The driver the bind button binds: the typed name, trimmed, where one was
/// typed; else the one chosen from the list.
pub open spec fn bind_choice(selected: Seq<char>, custom: Seq<char>) -> Seq<char> {
    if trim(custom).len() == 0 {
        selected
    } else {
        trim(custom)
    }
}

/// See [`bind_choice`].
pub fn driver_to_bind(selected: &str, custom: &str) -> (r: String)
    ensures
        r@ == bind_choice(selected@, custom@),
{
    let t = trim_chars(&chars_of(custom));
    if t.len() == 0 {
        String::from_str(selected)
    } else {
        string_of(&t)
    }
}

/// The caption of the bind button (which is enabled only for a non-empty
/// driver name).
pub fn bind_button_label(driver: &str) -> (r: String)
    ensures
        driver@.len() == 0 ==> r@ == "Bind Driver"@,
        driver@.len() > 0 ==> r@ == "  Bind '"@ + driver@ + "'  "@,
{
    if driver.unicode_len() == 0 {
        String::from_str("Bind Driver")
    } else {
        let mut v = chars_of("  Bind '");
        push_all(&mut v, &chars_of(driver));
        push_all(&mut v, &chars_of("'  "));
        string_of(&v)
    }
}

/// The confirmation before binding `driver` to `dev`.
pub fn bind_confirm(dev: &Device, driver: String) -> (r: ConfirmPending)
    ensures
        r.title@ == "Bind Driver"@,
        r.body@ == "Bind driver '"@ + driver@ + "' to '"@ + dev.name@ + "' ?\n\nThis may affect system hardware."@,
        r.action matches WorkerMsg::BindDriver { dev_id, path, driver: d } && dev_id@ == dev.id@ && path@
            == dev.path@ && d@ == driver@,
{
    let mut b = chars_of("Bind driver '");
    push_all(&mut b, &chars_of(driver.as_str()));
    push_all(&mut b, &chars_of("' to '"));
    push_all(&mut b, &chars_of(dev.name.as_str()));
    push_all(&mut b, &chars_of("' ?\n\nThis may affect system hardware."));
    ConfirmPending {
        title: String::from_str("Bind Driver"),
        body: string_of(&b),
        action: WorkerMsg::BindDriver { dev_id: dev.id.clone(), path: dev.path.clone(), driver },
    }
}

/// The confirmation before unbinding the driver of `dev`; none when no
/// driver is bound (the panel then shows `None` and no button).
pub fn unbind_confirm(dev: &Device) -> (r: Option<ConfirmPending>)
    ensures
        dev.driver is None ==> r is None,
        dev.driver matches Some(drv) ==> (r matches Some(c) && c.title@ == "Unbind Driver"@ && c.body@
            == "Unbind driver '"@ + drv@ + "' from '"@ + dev.name@ + "' ?\n\nThe device may stop working."@
            && (c.action matches WorkerMsg::UnbindDriver { dev_id, path } && dev_id@ == dev.id@ && path@
            == dev.path@)),
{
    match &dev.driver {
        None => None,
        Some(drv) => {
            let mut b = chars_of("Unbind driver '");
            push_all(&mut b, &chars_of(drv.as_str()));
            push_all(&mut b, &chars_of("' from '"));
            push_all(&mut b, &chars_of(dev.name.as_str()));
            push_all(&mut b, &chars_of("' ?\n\nThe device may stop working."));
            Some(
                ConfirmPending {
                    title: String::from_str("Unbind Driver"),
                    body: string_of(&b),
                    action: WorkerMsg::UnbindDriver { dev_id: dev.id.clone(), path: dev.path.clone() },
                },
            )
        },
    }
}

/// The confirmation before writing `value` to the attribute `attr` of `dev`.
pub fn set_confirm(dev: &Device, attr: &str, value: &str) -> (r: ConfirmPending)
    ensures
        r.title@ == "Set Property"@,
        r.body@ == "Set '"@ + attr@ + "' = '"@ + value@ + "' on '"@ + dev.name@ + "' ?"@,
        r.action matches WorkerMsg::SetProperty { dev_id, path, attr: a, value: v } && dev_id@ == dev.id@
            && path@ == dev.path@ && a@ == attr@ && v@ == value@,
{
    let mut b = chars_of("Set '");
    push_all(&mut b, &chars_of(attr));
    push_all(&mut b, &chars_of("' = '"));
    push_all(&mut b, &chars_of(value));
    push_all(&mut b, &chars_of("' on '"));
    push_all(&mut b, &chars_of(dev.name.as_str()));
    push_all(&mut b, &chars_of("' ?"));
    ConfirmPending {
        title: String::from_str("Set Property"),
        body: string_of(&b),
        action: WorkerMsg::SetProperty {
            dev_id: dev.id.clone(),
            path: dev.path.clone(),
            attr: String::from_str(attr),
            value: String::from_str(value),
        },
    }
}

/// The value of attribute `attr` as scanned (empty where it has none).
pub open spec fn current_value(d: DeviceV, attr: Seq<char>) -> Seq<char> {
    match lookup(d.properties, attr) {
        Some(v) => v,
        None => seq![],
    }
}

/// Whether the edited value of `attr` differs from its scanned value (which
/// enables its Set button); an attribute not edited yet is unchanged.
pub open spec fn edit_differs(d: DeviceV, edits: Seq<(Seq<char>, Seq<char>)>, attr: Seq<char>) -> bool {
    match lookup(edits, attr) {
        Some(v) => v != current_value(d, attr),
        None => false,
    }
}

fn current_of(dev: &Device, attr: &str) -> (r: String)
    ensures
        r@ == current_value(dev@, attr@),
{
    match lookup_exec(&dev.properties, attr) {
        Some(v) => v,
        None => String::new(),
    }
}

/// See [`edit_differs`].
pub fn edit_changed(dev: &Device, edits: &Vec<(String, String)>, attr: &str) -> (r: bool)
    ensures
        r == edit_differs(dev@, pairs_view(edits@), attr@),
{
    match lookup_exec(edits, attr) {
        Some(v) => {
            let cur = current_of(dev, attr);
            !(v == cur)
        },
        None => false,
    }
}

/// The pairs with the first pair of key `k` given the value `v`, or
/// `(k, v)` added at the end.
pub open spec fn put(p: Seq<(Seq<char>, Seq<char>)>, k: Seq<char>, v: Seq<char>) -> Seq<(Seq<char>, Seq<char>)> {
    let i = crate::sysfs::key_pos(p, k, 0);
    if i < p.len() {
        p.update(i, (k, v))
    } else {
        p.push((k, v))
    }
}

/// Puts the edit of `attr` back to its scanned value (the reset button).
pub fn reset_edit(edits: &mut Vec<(String, String)>, dev: &Device, attr: &str)
    ensures
        pairs_view(final(edits)@) == put(pairs_view(old(edits)@), attr@, current_value(dev@, attr@)),
{
    let cur = current_of(dev, attr);
    let ghost pv = pairs_view(edits@);
    let key = String::from_str(attr);
    let mut i: usize = 0;
    while i < edits.len()
        invariant
            i <= edits.len(),
            pv == pairs_view(edits@),
            pv == pairs_view(old(edits)@),
            key@ == attr@,
            cur@ == current_value(dev@, attr@),
            forall|j: int| 0 <= j < i ==> pv[j].0 != attr@,
        decreases edits.len() - i,
    {
        if edits[i].0 == key {
            proof {
                crate::sysfs::lemma_key_pos(pv, attr@, 0, i as int);
            }
            let ghost cv = cur@;
            edits.set(i, (key, cur));
            proof {
                assert(pairs_view(edits@) =~= pv.update(i as int, (attr@, cv)));
            }
            return;
        }
        i = i + 1;
    }
    proof {
        crate::sysfs::lemma_key_pos(pv, attr@, 0, edits.len() as int);
    }
    let ghost cv = cur@;
    edits.push((key, cur));
    proof {
        assert(pairs_view(edits@) =~= pv.push((attr@, cv)));
    }
}

/// A row of the attribute table: name, value, and whether it is editable.
pub open spec fn prop_row_view(x: (String, String, bool)) -> (Seq<char>, Seq<char>, bool) {
    (x.0@, x.1@, x.2)
}

/// The rows of an attribute table.
pub open spec fn rows_view(v: Seq<(String, String, bool)>) -> Seq<(Seq<char>, Seq<char>, bool)> {
    v.map_values(|x: (String, String, bool)| prop_row_view(x))
}

/// [`prop_row_view`] as a function value.
pub open spec fn prop_row_fn() -> spec_fn((String, String, bool)) -> (Seq<char>, Seq<char>, bool) {
    |x: (String, String, bool)| prop_row_view(x)
}

/// The attributes keyed by name, each with its row.
pub open spec fn prop_rows_keyed(d: DeviceV) -> Seq<(Seq<char>, (Seq<char>, Seq<char>, bool))> {
    d.properties.map_values(
        |p: (Seq<char>, Seq<char>)| (p.0, (p.0, p.1, d.editable_properties.contains(p.0))),
    )
}

/// The attribute table: all attributes sorted by name, each marked when it
/// is editable.
pub open spec fn prop_table(d: DeviceV) -> Seq<(Seq<char>, Seq<char>, bool)> {
    isort(prop_rows_keyed(d)).map_values(|e: (Seq<char>, (Seq<char>, Seq<char>, bool))| e.1)
}

fn contains_name(v: &Vec<String>, s: &String) -> (r: bool)
    ensures
        r == strs_view(v@).contains(s@),
{
    let mut i: usize = 0;
    while i < v.len()
        invariant
            i <= v.len(),
            forall|j: int| 0 <= j < i ==> strs_view(v@)[j] != s@,
        decreases v.len() - i,
    {
        if v[i] == *s {
            proof {
                assert(strs_view(v@)[i as int] == s@);
            }
            return true;
        }
        i = i + 1;
    }
    false
}

/// See [`prop_table`].
pub fn property_rows(dev: &Device) -> (r: Vec<(String, String, bool)>)
    ensures
        rows_view(r@) == prop_table(dev@),
{
    let ghost f = prop_row_fn();
    let mut items: Vec<(Vec<char>, (String, String, bool))> = Vec::new();
    let mut i: usize = 0;
    while i < dev.properties.len()
        invariant
            i <= dev.properties.len(),
            items@.len() == i,
            f == prop_row_fn(),
            map_payload(keyed(items@), f) == prop_rows_keyed(dev@).take(i as int),
        decreases dev.properties.len() - i,
    {
        let k = dev.properties[i].0.clone();
        let v = dev.properties[i].1.clone();
        let e = contains_name(&dev.editable_properties, &k);
        let ghost before = items@;
        items.push((chars_of(k.as_str()), (k, v, e)));
        proof {
            assert(dev@.properties[i as int] == (dev.properties@[i as int].0@, dev.properties@[i as int].1@));
            assert(dev@.editable_properties == strs_view(dev.editable_properties@));
            assert(keyed(items@) =~= keyed(before).push((k@, items@[i as int].1)));
            assert(map_payload(keyed(items@), f) =~= map_payload(keyed(before), f).push(
                (k@, (k@, v@, e)),
            ));
            assert(prop_rows_keyed(dev@).take(i + 1) =~= prop_rows_keyed(dev@).take(i as int).push(
                prop_rows_keyed(dev@)[i as int],
            ));
        }
        i = i + 1;
    }
    proof {
        assert(prop_rows_keyed(dev@).take(dev.properties.len() as int) =~= prop_rows_keyed(dev@));
        lemma_isort_map(keyed(items@), f);
    }
    let sorted = sort_by_key(items);
    let mut out: Vec<(String, String, bool)> = Vec::new();
    let ghost target = prop_table(dev@);
    let ghost all = sorted@;
    let mut j: usize = 0;
    let n = sorted.len();
    proof {
        assert(map_payload(keyed(all), f) == isort(prop_rows_keyed(dev@)));
        assert(target.len() == n);
    }
    while j < n
        invariant
            n == all.len(),
            j <= n,
            sorted@.len() == n,
            forall|m: int| j <= m < n ==> sorted@[m] == all[m],
            target == prop_table(dev@),
            map_payload(keyed(all), f) == isort(prop_rows_keyed(dev@)),
            target.len() == n,
            f == prop_row_fn(),
            rows_view(out@) == target.take(j as int),
        decreases n - j,
    {
        let row = (sorted[j].1.0.clone(), sorted[j].1.1.clone(), sorted[j].1.2);
        proof {
            assert(map_payload(keyed(all), f)[j as int].1 == prop_row_view(all[j as int].1));
            assert(target[j as int] == isort(prop_rows_keyed(dev@))[j as int].1);
        }
        let ghost prev = out@;
        out.push(row);
        proof {
            assert(rows_view(out@) =~= rows_view(prev).push(prop_row_view(row)));
            assert(target.take(j + 1) =~= target.take(j as int).push(target[j as int]));
        }
        j = j + 1;
    }
    proof {
        assert(target.take(n as int) =~= target);
    }
    out
}

/// An interface row: name, class, and protocol (`—` where unknown).
pub open spec fn interface_row(i: InterfaceV) -> (Seq<char>, Seq<char>, Seq<char>) {
    (i.name, i.class, match i.protocol {
        Some(p) => p,
        None => "—"@,
    })
}

pub open spec fn row3_view(x: (String, String, String)) -> (Seq<char>, Seq<char>, Seq<char>) {
    (x.0@, x.1@, x.2@)
}

pub open spec fn rows3_view(v: Seq<(String, String, String)>) -> Seq<(Seq<char>, Seq<char>, Seq<char>)> {
    v.map_values(|x: (String, String, String)| row3_view(x))
}

/// The interface table of a device.
pub open spec fn interface_table(d: DeviceV) -> Seq<(Seq<char>, Seq<char>, Seq<char>)> {
    d.interfaces.map_values(|i: InterfaceV| interface_row(i))
}

/// The rows of the interface table, in order.
pub fn interface_rows(dev: &Device) -> (r: Vec<(String, String, String)>)
    ensures
        rows3_view(r@) == interface_table(dev@),
{
    let mut out: Vec<(String, String, String)> = Vec::new();
    let mut i: usize = 0;
    let ghost target = interface_table(dev@);
    while i < dev.interfaces.len()
        invariant
            i <= dev.interfaces.len(),
            target == interface_table(dev@),
            target.len() == dev.interfaces.len(),
            rows3_view(out@) == target.take(i as int),
        decreases dev.interfaces.len() - i,
    {
        let it = &dev.interfaces[i];
        let p = match &it.protocol {
            Some(p) => p.clone(),
            None => String::from_str("—"),
        };
        proof {
            assert(dev@.interfaces[i as int] == it@);
        }
        let ghost prev = out@;
        let row = (it.name.clone(), it.class.clone(), p);
        out.push(row);
        proof {
            assert(rows3_view(out@) =~= rows3_view(prev).push(row3_view(row)));
            assert(target.take(i + 1) =~= target.take(i as int).push(target[i as int]));
        }
        i = i + 1;
    }
    proof {
        assert(target.take(dev.interfaces.len() as int) =~= target);
    }
    out
}

} // verus!
