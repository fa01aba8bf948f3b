//! Bluetooth on Windows, from the Plug and Play device list: paired devices
//! are listed and the adapter can be switched; the other actions are left to
//! Windows Settings.
use vstd::prelude::*;
use crate::text::{
    chars_of, string_of, lowercase, to_lowercase, contains, contains_exec, is_prefix, trim,
    ascii_upper, is_hex_digit, eq_ignore_case, utf8_len, starts_with, trim_chars,
    ascii_upper_exec, eq_ignore_case_exec, utf8_len_exec, slice_of, push_all,
};
use crate::num::{parse_int};
use super::{BtDevice, BtDeviceV, BtState, BtError, BtErrorV, BtRun, bt_view, copy_bt, debug_code, text_result, unit_bt_result};

verus! {

/// Whether a Plug and Play instance id is that of a paired remote device
/// (enumerated under `BTHENUM` or `BTHLE`) rather than of a radio or an
/// enumerator.
pub open spec fn is_paired_instance(id: Seq<char>) -> bool {
    is_prefix("BTHENUM"@, ascii_upper(id)) || is_prefix("BTHLE"@, ascii_upper(id))
}

/// See [`is_paired_instance`].
pub fn is_paired_device(instance_id: &str) -> (r: bool)
    ensures
        r == is_paired_instance(instance_id@),
{
    let id = ascii_upper_exec(&chars_of(instance_id));
    starts_with(&id, &chars_of("BTHENUM")) || starts_with(&id, &chars_of("BTHLE"))
}

/// How deep in `{...}` spans the end of `s` is.
pub open spec fn brace_depth(s: Seq<char>) -> nat
    decreases s.len(),
{
    if s.len() == 0 {
        0
    } else {
        let d = brace_depth(s.drop_last());
        if s.last() == '{' {
            d + 1
        } else if s.last() == '}' {
            if d > 0 {
                (d - 1) as nat
            } else {
                0
            }
        } else {
            d
        }
    }
}

/// `s` with the braces and everything inside `{...}` spans replaced by
/// spaces.
pub open spec fn without_braces(s: Seq<char>) -> Seq<char>
    decreases s.len(),
{
    if s.len() == 0 {
        seq![]
    } else {
        let c = s.last();
        without_braces(s.drop_last()).push(
            if c == '{' || c == '}' || brace_depth(s.drop_last()) > 0 {
                ' '
            } else {
                c
            },
        )
    }
}

/// See [`without_braces`].
pub fn strip_braces(s: &Vec<char>) -> (r: Vec<char>)
    ensures
        r@ == without_braces(s@),
{
    let mut out: Vec<char> = Vec::new();
    let mut depth: usize = 0;
    let mut i: usize = 0;
    while i < s.len()
        invariant
            i <= s.len(),
            depth <= i,
            depth == brace_depth(s@.take(i as int)),
            out@ == without_braces(s@.take(i as int)),
        decreases s.len() - i,
    {
        let c = s[i];
        proof {
            assert(s@.take(i + 1).drop_last() =~= s@.take(i as int));
            assert(s@.take(i + 1).last() == c);
        }
        if c == '{' {
            depth = depth + 1;
            out.push(' ');
        } else if c == '}' {
            if depth > 0 {
                depth = depth - 1;
            }
            out.push(' ');
        } else {
            out.push(if depth == 0 {
                c
            } else {
                ' '
            });
        }
        i = i + 1;
    }
    proof {
        assert(s@.take(s.len() as int) =~= s@);
    }
    out
}

/// Length of the run of hex digits in `s` from `i`.
pub open spec fn hex_run_len(s: Seq<char>, i: int) -> nat
    decreases s.len() - i,
{
    if 0 <= i < s.len() && is_hex_digit(s[i]) {
        1 + hex_run_len(s, i + 1)
    } else {
        0
    }
}

pub proof fn lemma_hex_run(s: Seq<char>, i: int)
    requires
        0 <= i <= s.len(),
    ensures
        i + hex_run_len(s, i) <= s.len(),
        i < s.len() && is_hex_digit(s[i]) ==> hex_run_len(s, i) >= 1,
        forall|j: int| i <= j < i + hex_run_len(s, i) ==> is_hex_digit(#[trigger] s[j]),
        i + hex_run_len(s, i) < s.len() ==> !is_hex_digit(s[i + hex_run_len(s, i)]),
    decreases s.len() - i,
{
    if i < s.len() && is_hex_digit(s[i]) {
        lemma_hex_run(s, i + 1);
    }
}

/// The first maximal run of hex digits, from `i` on, that is exactly 12
/// digits long.
pub open spec fn mac_run(s: Seq<char>, i: int) -> Option<Seq<char>>
    decreases s.len() - i,
{
    if i < 0 || i >= s.len() {
        None
    } else if !is_hex_digit(s[i]) {
        mac_run(s, i + 1)
    } else {
        let n = hex_run_len(s, i);
        if n == 12 {
            Some(s.subrange(i, i + 12))
        } else {
            proof {
                lemma_hex_run(s, i);
            }
            mac_run(s, i + n)
        }
    }
}

/// The characters in pairs joined by `:` (`A4F6E8279B47` gives
/// `A4:F6:E8:27:9B:47`).
pub open spec fn pairs_joined(s: Seq<char>) -> Seq<char>
    decreases s.len(),
{
    if s.len() <= 2 {
        s
    } else {
        s.take(2) + seq![':'] + pairs_joined(s.skip(2))
    }
}

/// The address in a Bluetooth instance id: the first run of exactly 12 hex
/// digits once uppercased and with `{...}` spans blanked (so that the tail
/// of a GUID is not taken for an address), written with colons.
pub open spec fn mac_of_instance(instance: Seq<char>) -> Option<Seq<char>> {
    match mac_run(without_braces(ascii_upper(instance)), 0) {
        Some(r) => Some(pairs_joined(r)),
        None => None,
    }
}

/// See [`pairs_joined`].
pub fn fmt_mac(hex: &Vec<char>) -> (r: Vec<char>)
    ensures
        r@ == pairs_joined(hex@),
{
    let mut out: Vec<char> = Vec::new();
    let mut i: usize = 0;
    proof {
        assert(hex@.skip(0) =~= hex@);
    }
    while hex.len() - i > 2
        invariant
            i <= hex.len(),
            pairs_joined(hex@) == out@ + pairs_joined(hex@.skip(i as int)),
        decreases hex.len() - i,
    {
        let ghost rest = hex@.skip(i as int);
        proof {
            assert(rest.take(2) =~= seq![hex@[i as int], hex@[i + 1]]);
            assert(rest.skip(2) =~= hex@.skip(i + 2));
        }
        let ghost before = out@;
        out.push(hex[i]);
        out.push(hex[i + 1]);
        out.push(':');
        proof {
            assert(out@ =~= before + rest.take(2) + seq![':']);
        }
        i = i + 2;
    }
    let ghost before = out@;
    let mut j = i;
    while j < hex.len()
        invariant
            i <= j <= hex.len(),
            out@ == before + hex@.subrange(i as int, j as int),
        decreases hex.len() - j,
    {
        out.push(hex[j]);
        j = j + 1;
    }
    proof {
        assert(hex@.subrange(i as int, hex.len() as int) =~= hex@.skip(i as int));
    }
    out
}

/// See [`mac_of_instance`].
pub fn mac_from_instance(instance: &str) -> (r: Option<String>)
    ensures
        match r {
            Some(m) => mac_of_instance(instance@) == Some(m@),
            None => mac_of_instance(instance@) is None,
        },
{
    let cleaned = strip_braces(&ascii_upper_exec(&chars_of(instance)));
    let ghost cv = cleaned@;
    let mut i: usize = 0;
    while i < cleaned.len()
        invariant
            i <= cleaned.len(),
            cv == cleaned@,
            cv == without_braces(ascii_upper(instance@)),
            mac_run(cv, 0) == mac_run(cv, i as int),
        decreases cleaned.len() - i,
    {
        let c = cleaned[i];
        if !(('0' <= c && c <= '9') || ('a' <= c && c <= 'f') || ('A' <= c && c <= 'F')) {
            i = i + 1;
        } else {
            let mut n: usize = 0;
            proof {
                lemma_hex_run(cv, i as int);
            }
            while i + n < cleaned.len() && (('0' <= cleaned[i + n] && cleaned[i + n] <= '9') || (
            'a' <= cleaned[i + n] && cleaned[i + n] <= 'f') || ('A' <= cleaned[i + n]
                && cleaned[i + n] <= 'F'))
                invariant
                    i < cleaned.len(),
                    i + n <= cleaned.len(),
                    cv == cleaned@,
                    hex_run_len(cv, i as int) == n + hex_run_len(cv, i + n),
                decreases cleaned.len() - i - n,
            {
                n = n + 1;
            }
            proof {
                assert(hex_run_len(cv, i + n) == 0);
                assert(hex_run_len(cv, i as int) == n);
            }
            if n == 12 {
                let run = slice_of(&cleaned, i, i + 12);
                return Some(string_of(&fmt_mac(&run)));
            }
            i = i + n;
        }
    }
    None
}

/// Whether a name is that of a profile or transport sub-node (AVRCP, A2DP,
/// hands-free, ...) rather than of the device itself.
pub open spec fn is_subprofile_name(name: Seq<char>) -> bool {
    let n = lowercase(name);
    contains(n, "avrcp"@) || contains(n, "transporte"@) || contains(n, "a2dp"@) || contains(
        n,
        "avdtp"@,
    ) || contains(n, "hands-free"@) || contains(n, "handsfree"@) || contains(n, "hfp"@)
        || contains(n, "transport"@)
}

fn has_word(n: &Vec<char>, w: &str) -> (r: bool)
    ensures
        r == contains(n@, w@),
{
    contains_exec(n, &chars_of(w))
}

/// See [`is_subprofile_name`].
pub fn is_subprofile(name: &str) -> (r: bool)
    ensures
        r == is_subprofile_name(name@),
{
    let n = chars_of(to_lowercase(name).as_str());
    has_word(&n, "avrcp") || has_word(&n, "transporte") || has_word(&n, "a2dp") || has_word(
        &n,
        "avdtp",
    ) || has_word(&n, "hands-free") || has_word(&n, "handsfree") || has_word(&n, "hfp")
        || has_word(&n, "transport")
}

/// The icon a device name suggests.
pub open spec fn icon_of(name: Seq<char>) -> Seq<char> {
    let n = lowercase(name);
    if contains(n, "head"@) || contains(n, "buds"@) || contains(n, "airpod"@) || contains(
        n,
        "speaker"@,
    ) || contains(n, "audio"@) {
        "audio-card"@
    } else if contains(n, "keyboard"@) {
        "input-keyboard"@
    } else if contains(n, "mouse"@) {
        "input-mouse"@
    } else if contains(n, "phone"@) {
        "phone"@
    } else {
        seq![]
    }
}

/// See [`icon_of`].
pub fn icon_for(name: &str) -> (r: String)
    ensures
        r@ == icon_of(name@),
{
    let n = chars_of(to_lowercase(name).as_str());
    if has_word(&n, "head") || has_word(&n, "buds") || has_word(&n, "airpod") || has_word(
        &n,
        "speaker",
    ) || has_word(&n, "audio") {
        String::from_str("audio-card")
    } else if has_word(&n, "keyboard") {
        String::from_str("input-keyboard")
    } else if has_word(&n, "mouse") {
        String::from_str("input-mouse")
    } else if has_word(&n, "phone") {
        String::from_str("phone")
    } else {
        String::new()
    }
}

/// The first device from `i` on with address `mac`, or `ds.len()`.
pub open spec fn find_mac(ds: Seq<BtDeviceV>, mac: Seq<char>, i: int) -> int
    decreases ds.len() - i,
{
    if i < 0 || i >= ds.len() {
        ds.len() as int
    } else if ds[i].mac == mac {
        i
    } else {
        find_mac(ds, mac, i + 1)
    }
}

proof fn lemma_find_mac(ds: Seq<BtDeviceV>, mac: Seq<char>, i: int)
    requires
        0 <= i <= ds.len(),
    ensures
        i <= find_mac(ds, mac, i) <= ds.len(),
        find_mac(ds, mac, i) < ds.len() ==> ds[find_mac(ds, mac, i)].mac == mac,
        forall|j: int| i <= j < find_mac(ds, mac, i) ==> ds[j].mac != mac,
    decreases ds.len() - i,
{
    if i < ds.len() && ds[i].mac != mac {
        lemma_find_mac(ds, mac, i + 1);
    }
}

/// Whether the name of a merged entry is replaced by `name`: a sub-profile
/// name gives way to a device name, and of two device names the shorter
/// (in bytes) is kept.
pub open spec fn prefers(old_name: Seq<char>, name: Seq<char>) -> bool {
    (is_subprofile_name(old_name) && !is_subprofile_name(name)) || (!is_subprofile_name(old_name)
        && !is_subprofile_name(name) && utf8_len(name) < utf8_len(old_name))
}

/// The list after adding the entry `(mac, name, connected)`: merged into the
/// device with the same address if there is one (connected if either is),
/// else appended as a new paired device.
pub open spec fn merged(ds: Seq<BtDeviceV>, mac: Seq<char>, name: Seq<char>, connected: bool) -> Seq<
    BtDeviceV,
> {
    let j = find_mac(ds, mac, 0);
    if j < ds.len() {
        let d = ds[j];
        let d2 = BtDeviceV { connected: d.connected || connected, ..d };
        ds.update(
            j,
            if prefers(d.name, name) {
                BtDeviceV { icon: icon_of(name), name, ..d2 }
            } else {
                d2
            },
        )
    } else {
        ds.push(
            BtDeviceV {
                mac,
                name,
                paired: true,
                connected,
                trusted: false,
                icon: icon_of(name),
                battery: None,
                rssi: None,
            },
        )
    }
}

/// No two devices share an address.
pub open spec fn macs_unique(ds: Seq<BtDeviceV>) -> bool {
    forall|i: int, j: int| 0 <= i < j < ds.len() ==> ds[i].mac != ds[j].mac
}

/// Adds the entry `(mac, name, connected)` to `devices`, merging it into the
/// device with the same address.
pub fn merge_device(devices: &mut Vec<BtDevice>, mac: String, name: String, connected: bool)
    ensures
        bt_view(final(devices)@) == merged(bt_view(old(devices)@), mac@, name@, connected),
{
    let ghost dv = bt_view(devices@);
    let mut j: usize = 0;
    while j < devices.len() && devices[j].mac != mac
        invariant
            j <= devices.len(),
            dv == bt_view(devices@),
            find_mac(dv, mac@, 0) == find_mac(dv, mac@, j as int),
        decreases devices.len() - j,
    {
        proof {
            assert(dv[j as int] == devices@[j as int]@);
        }
        j = j + 1;
    }
    proof {
        if j < devices.len() {
            assert(dv[j as int] == devices@[j as int]@);
        }
        assert(find_mac(dv, mac@, 0) == j);
    }
    if j < devices.len() {
        let old_d = devices.remove(j);
        let was_sub = is_subprofile(old_d.name.as_str());
        let new_sub = is_subprofile(name.as_str());
        let replace = (was_sub && !new_sub) || (!was_sub && !new_sub && utf8_len_exec(
            &chars_of(name.as_str()),
        ) < utf8_len_exec(&chars_of(old_d.name.as_str())));
        let d = if replace {
            BtDevice {
                icon: icon_for(name.as_str()),
                name,
                connected: old_d.connected || connected,
                ..old_d
            }
        } else {
            BtDevice { connected: old_d.connected || connected, ..old_d }
        };
        let ghost removed = devices@;
        devices.insert(j, d);
        proof {
            assert(bt_view(devices@) =~= dv.update(j as int, d@));
        }
    } else {
        let icon = icon_for(name.as_str());
        let d = BtDevice {
            icon,
            mac,
            name,
            paired: true,
            connected,
            trusted: false,
            battery: None,
            rssi: None,
        };
        devices.push(d);
        proof {
            assert(bt_view(devices@) =~= dv.push(d@));
        }
    }
}

/// Merging an entry keeps the addresses distinct, and the entry's address is
/// then on the list.
pub proof fn law_merge_keeps_addresses_unique(
    ds: Seq<BtDeviceV>,
    mac: Seq<char>,
    name: Seq<char>,
    connected: bool,
)
    requires
        macs_unique(ds),
    ensures
        macs_unique(merged(ds, mac, name, connected)),
        exists|k: int|
            0 <= k < merged(ds, mac, name, connected).len() && #[trigger] merged(
                ds,
                mac,
                name,
                connected,
            )[k].mac == mac,
        merged(ds, mac, name, connected).len() == ds.len() + if find_mac(ds, mac, 0) < ds.len() {
            0int
        } else {
            1int
        },
{
    lemma_find_mac(ds, mac, 0);
    let m = merged(ds, mac, name, connected);
    let j = find_mac(ds, mac, 0);
    if j < ds.len() {
        assert(m[j].mac == mac);
        assert forall|a: int, b: int| 0 <= a < b < m.len() implies m[a].mac != m[b].mac by {
            assert(m[a].mac == ds[a].mac);
            assert(m[b].mac == ds[b].mac);
        }
    } else {
        assert(m[ds.len() as int].mac == mac);
        assert forall|a: int, b: int| 0 <= a < b < m.len() implies m[a].mac != m[b].mac by {
            if b < ds.len() {
                assert(m[a] == ds[a]);
                assert(m[b] == ds[b]);
            } else {
                assert(m[a] == ds[a]);
                assert(ds[a].mac != mac);
            }
        }
    }
}

/// A Bluetooth entry of the Plug and Play list: its instance id, friendly
/// name and status (each empty where the list gave none).
#[derive(Clone, Debug)]
pub struct PnpItem {
    pub instance_id: String,
    pub friendly_name: String,
    pub status: String,
}

pub struct PnpItemV {
    pub instance_id: Seq<char>,
    pub friendly_name: Seq<char>,
    pub status: Seq<char>,
}

impl View for PnpItem {
    type V = PnpItemV;

    open spec fn view(&self) -> PnpItemV {
        PnpItemV {
            instance_id: self.instance_id@,
            friendly_name: self.friendly_name@,
            status: self.status@,
        }
    }
}

pub open spec fn items_view(v: Seq<PnpItem>) -> Seq<PnpItemV> {
    v.map_values(|i: PnpItem| i@)
}

/// What the entries say: paired devices (merged by address, named by their
/// friendly name or else their instance id, keyed by their address or else
/// their instance id, connected when their status is `OK`), and whether some
/// other entry (a radio) is `OK`, which means the adapter is on.
pub open spec fn pnp_fold(items: Seq<PnpItemV>) -> (Seq<BtDeviceV>, bool)
    decreases items.len(),
{
    if items.len() == 0 {
        (seq![], false)
    } else {
        let st = pnp_fold(items.drop_last());
        let it = items.last();
        let ok = eq_ignore_case(it.status, "OK"@);
        if is_paired_instance(it.instance_id) {
            let name = if it.friendly_name.len() == 0 {
                it.instance_id
            } else {
                it.friendly_name
            };
            let mac = match mac_of_instance(it.instance_id) {
                Some(m) => m,
                None => it.instance_id,
            };
            (merged(st.0, mac, name, ok), st.1)
        } else {
            (st.0, st.1 || ok)
        }
    }
}

/// The Bluetooth state from the Plug and Play entries (`None` where the
/// listing printed nothing or could not be read): available when there is
/// any entry.
pub fn pnp_state(items: Option<Vec<PnpItem>>) -> (r: BtState)
    ensures
        match items {
            None => !r.available && !r.powered && r.devices@.len() == 0,
            Some(v) => r.available == (v@.len() > 0) && r.powered == pnp_fold(items_view(v@)).1
                && bt_view(r.devices@) == pnp_fold(items_view(v@)).0,
        },
{
    let items = match items {
        Some(v) => v,
        None => {
            return BtState { available: false, powered: false, devices: Vec::new() };
        },
    };
    let ghost iv = items_view(items@);
    let mut devices: Vec<BtDevice> = Vec::new();
    let mut powered = false;
    let mut i: usize = 0;
    proof {
        assert(iv.take(0) =~= Seq::<PnpItemV>::empty());
    }
    while i < items.len()
        invariant
            i <= items.len(),
            iv == items_view(items@),
            (bt_view(devices@), powered) == pnp_fold(iv.take(i as int)),
        decreases items.len() - i,
    {
        proof {
            assert(iv.take(i + 1).drop_last() =~= iv.take(i as int));
            assert(iv.take(i + 1).last() == items@[i as int]@);
        }
        let it = &items[i];
        let ok = eq_ignore_case_exec(&chars_of(it.status.as_str()), &chars_of("OK"));
        if is_paired_device(it.instance_id.as_str()) {
            let name = if it.friendly_name.as_str().is_empty() {
                it.instance_id.clone()
            } else {
                it.friendly_name.clone()
            };
            let mac = match mac_from_instance(it.instance_id.as_str()) {
                Some(m) => m,
                None => it.instance_id.clone(),
            };
            merge_device(&mut devices, mac, name, ok);
        } else if ok {
            powered = true;
        }
        i = i + 1;
    }
    proof {
        assert(iv.take(items.len() as int) =~= iv);
    }
    BtState { available: items.len() > 0, powered, devices }
}

/// The PowerShell script that enables or disables every Bluetooth radio
/// (not the paired-device entries).
pub open spec fn power_script(on: bool) -> Seq<char> {
    "Get-PnpDevice -Class Bluetooth | Where-Object { $_.InstanceId -notlike 'BTHENUM*' -and $_.InstanceId -notlike 'BTHLE*' } | "@
        + if on {
        "Enable-PnpDevice"@
    } else {
        "Disable-PnpDevice"@
    } + " -Confirm:$false"@
}

/// See [`power_script`]; it is run elevated.
pub fn set_power(on: bool) -> (r: String)
    ensures
        r@ == power_script(on),
{
    let mut c = chars_of(
        "Get-PnpDevice -Class Bluetooth | Where-Object { $_.InstanceId -notlike 'BTHENUM*' -and $_.InstanceId -notlike 'BTHLE*' } | ",
    );
    push_all(&mut c, &chars_of(if on {
        "Enable-PnpDevice"
    } else {
        "Disable-PnpDevice"
    }));
    push_all(&mut c, &chars_of(" -Confirm:$false"));
    string_of(&c)
}

/// Connecting is left to Windows Settings.
pub fn connect(mac: &str) -> (r: Result<(), BtError>)
    ensures
        unit_bt_result(r) == Err::<(), BtErrorV>(BtErrorV::Backend(
            "Connecting Bluetooth devices isn't supported on Windows yet — pair/connect from Windows Settings. You can still toggle the adapter here."@,
        )),
{
    Err(
        BtError::Backend(
            String::from_str(
                "Connecting Bluetooth devices isn't supported on Windows yet — pair/connect from Windows Settings. You can still toggle the adapter here.",
            ),
        ),
    )
}

/// Disconnecting is left to Windows Settings.
pub fn disconnect(mac: &str) -> (r: Result<(), BtError>)
    ensures
        unit_bt_result(r) == Err::<(), BtErrorV>(BtErrorV::Backend(
            "Disconnecting Bluetooth devices isn't supported on Windows yet — use Windows Settings."@,
        )),
{
    Err(
        BtError::Backend(
            String::from_str(
                "Disconnecting Bluetooth devices isn't supported on Windows yet — use Windows Settings.",
            ),
        ),
    )
}

/// Trust does not apply on Windows.
pub fn set_trust(mac: &str, trust: bool) -> (r: Result<(), BtError>)
    ensures
        unit_bt_result(r) == Err::<(), BtErrorV>(BtErrorV::Backend(
            "Trust management isn't applicable on Windows."@,
        )),
{
    Err(BtError::Backend(String::from_str("Trust management isn't applicable on Windows.")))
}

/// Removing a device is left to Windows Settings.
pub fn remove(mac: &str) -> (r: Result<(), BtError>)
    ensures
        unit_bt_result(r) == Err::<(), BtErrorV>(BtErrorV::Backend(
            "Removing paired devices isn't supported on Windows yet — use Windows Settings → Bluetooth & devices → Devices."@,
        )),
{
    Err(
        BtError::Backend(
            String::from_str(
                "Removing paired devices isn't supported on Windows yet — use Windows Settings → Bluetooth & devices → Devices.",
            ),
        ),
    )
}

/// Pairing is left to Windows Settings.
pub fn pair(mac: &str) -> (r: Result<(), BtError>)
    ensures
        unit_bt_result(r) == Err::<(), BtErrorV>(BtErrorV::Backend(
            "Pairing new devices isn't supported on Windows yet — pair from Windows Settings → Bluetooth & devices."@,
        )),
{
    Err(
        BtError::Backend(
            String::from_str(
                "Pairing new devices isn't supported on Windows yet — pair from Windows Settings → Bluetooth & devices.",
            ),
        ),
    )
}

/// Scanning is left to Windows Settings.
pub fn scan(secs: u64) -> (r: Result<Vec<BtDevice>, BtError>)
    ensures
        r matches Err(e) && e@ == BtErrorV::Backend(
            "Scanning for new devices isn't supported on Windows yet — pair from Windows Settings → Bluetooth & devices."@,
        ),
{
    Err(
        BtError::Backend(
            String::from_str(
                "Scanning for new devices isn't supported on Windows yet — pair from Windows Settings → Bluetooth & devices.",
            ),
        ),
    )
}

/// The output of a PowerShell run: `NotInstalled` where it could not start,
/// `Timeout` where it ran too long, `powershell exit <code>` where it failed.
pub open spec fn ps_result_of(o: BtRun) -> Result<Seq<char>, BtErrorV> {
    match o {
        BtRun::NotStarted => Err(BtErrorV::NotInstalled),
        BtRun::TimedOut(s) => Err(BtErrorV::Timeout(s)),
        BtRun::Finished { success, code, stdout, utf8_error } => if !success {
            Err(BtErrorV::Backend("powershell exit "@ + debug_code(code)))
        } else {
            Ok(stdout@)
        },
    }
}

/// See [`ps_result_of`].
pub fn ps_result(o: BtRun) -> (r: Result<String, BtError>)
    ensures
        text_result(r) == ps_result_of(o),
{
    match o {
        BtRun::NotStarted => Err(BtError::NotInstalled),
        BtRun::TimedOut(s) => Err(BtError::Timeout(s)),
        BtRun::Finished { success, code, stdout, utf8_error } => {
            if !success {
                let mut c = chars_of("powershell exit ");
                let dc: Vec<char> = match code {
                    Some(v) => {
                        let mut x = chars_of("Some(");
                        push_all(&mut x, &crate::num::fmt_i64(v as i64));
                        push_all(&mut x, &chars_of(")"));
                        x
                    },
                    None => chars_of("None"),
                };
                push_all(&mut c, &dc);
                Err(BtError::Backend(string_of(&c)))
            } else {
                Ok(stdout)
            }
        },
    }
}

/// Whether Bluetooth is there, from the count of Bluetooth entries that
/// PowerShell printed: a number above zero.
pub fn is_available(count_out: Result<String, BtError>) -> (r: bool)
    ensures
        r == match count_out {
            Ok(s) => match parse_int(trim(s@), i64::MIN as int, i64::MAX as int) {
                Some(n) => n > 0,
                None => false,
            },
            Err(_) => false,
        },
{
    match count_out {
        Ok(s) => match crate::num::parse_int_exec(&trim_chars(&chars_of(s.as_str())), i64::MIN, i64::MAX) {
            Some(n) => n > 0,
            None => false,
        },
        Err(_) => false,
    }
}

} // verus!
