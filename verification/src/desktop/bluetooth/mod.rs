//! Bluetooth devices: on Linux through `bluetoothctl`, on Windows through the
//! Plug and Play device list.
//!
//! Running `bluetoothctl` (bounded by a timeout) is the caller's part; the
//! functions here read what it printed, say what to run next, and map how a
//! run ended to the result and error the user sees.
use vstd::prelude::*;
use crate::text::{
    lead_ws, trail_ws, chars_of, string_of, trim, is_prefix, contains, lines, views, find_from, lemma_find_from_bounds,
    words, slice_of, trim_chars, starts_with, contains_exec, lines_exec, find_char, words_exec,
    strip_prefix, eq, push_all, copy,
};
use crate::num::{parse_uint, parse_int, dec_int, parse_u8, parse_u8_hex, parse_i16, fmt_i64, fmt_u64, dec};
use crate::desktop::command::{joined, strings_view, join_args};

pub mod windows;

verus! {

/// A Bluetooth device.
#[derive(Clone, Debug)]
pub struct BtDevice {
    pub mac: String,
    pub name: String,
    pub paired: bool,
    pub connected: bool,
    pub trusted: bool,
    /// `audio-card`, `input-keyboard`, `phone`, ...
    pub icon: String,
    /// Battery level in percent, when the device reports it.
    pub battery: Option<u8>,
    /// Signal strength in dBm, when the device is in range.
    pub rssi: Option<i16>,
}

pub struct BtDeviceV {
    pub mac: Seq<char>,
    pub name: Seq<char>,
    pub paired: bool,
    pub connected: bool,
    pub trusted: bool,
    pub icon: Seq<char>,
    pub battery: Option<u8>,
    pub rssi: Option<i16>,
}

impl View for BtDevice {
    type V = BtDeviceV;

    open spec fn view(&self) -> BtDeviceV {
        BtDeviceV {
            mac: self.mac@,
            name: self.name@,
            paired: self.paired,
            connected: self.connected,
            trusted: self.trusted,
            icon: self.icon@,
            battery: self.battery,
            rssi: self.rssi,
        }
    }
}

pub open spec fn bt_view(v: Seq<BtDevice>) -> Seq<BtDeviceV> {
    v.map_values(|d: BtDevice| d@)
}

/// A copy of `d`.
pub fn copy_bt(d: &BtDevice) -> (r: BtDevice)
    ensures
        r@ == d@,
{
    BtDevice {
        mac: d.mac.clone(),
        name: d.name.clone(),
        paired: d.paired,
        connected: d.connected,
        trusted: d.trusted,
        icon: d.icon.clone(),
        battery: d.battery,
        rssi: d.rssi,
    }
}

/// Whether Bluetooth can be used, whether the adapter is on, and the known
/// devices.
#[derive(Clone, Debug)]
pub struct BtState {
    pub available: bool,
    pub powered: bool,
    pub devices: Vec<BtDevice>,
}

/// What went wrong in a Bluetooth operation.
#[derive(Clone, Debug)]
pub enum BtError {
    NotInstalled,
    DaemonDown,
    DeviceNotFound(String),
    NotPowered,
    /// The operation took longer than this many seconds.
    Timeout(u64),
    Backend(String),
}

/// The text an error is shown with.
pub open spec fn bt_error_message(e: BtError) -> Seq<char> {
    match e {
        BtError::NotInstalled => "bluetoothctl not found — install bluez-utils"@,
        BtError::DaemonDown => "bluetoothd is not running"@,
        BtError::DeviceNotFound(m) => "device "@ + m@ + " not found"@,
        BtError::NotPowered => "adapter is not powered"@,
        BtError::Timeout(s) => "operation timed out after "@ + dec(s as nat) + "s"@,
        BtError::Backend(m) => "bluetoothctl: "@ + m@,
    }
}

impl BtError {
    /// The text the error is shown with.
    pub fn message(&self) -> (r: String)
        ensures
            r@ == bt_error_message(*self),
    {
        match self {
            BtError::NotInstalled => String::from_str("bluetoothctl not found — install bluez-utils"),
            BtError::DaemonDown => String::from_str("bluetoothd is not running"),
            BtError::DeviceNotFound(m) => {
                let mut c = chars_of("device ");
                push_all(&mut c, &chars_of(m.as_str()));
                push_all(&mut c, &chars_of(" not found"));
                string_of(&c)
            },
            BtError::NotPowered => String::from_str("adapter is not powered"),
            BtError::Timeout(s) => {
                let mut c = chars_of("operation timed out after ");
                push_all(&mut c, &fmt_u64(*s));
                push_all(&mut c, &chars_of("s"));
                string_of(&c)
            },
            BtError::Backend(m) => {
                let mut c = chars_of("bluetoothctl: ");
                push_all(&mut c, &chars_of(m.as_str()));
                string_of(&c)
            },
        }
    }
}

/// Seconds allowed to read-only queries (state, info, list).
pub const QUERY_TIMEOUT_SECS: u64 = 3;

/// Seconds allowed to actions (pairing, connecting, power).
pub const ACTION_TIMEOUT_SECS: u64 = 8;

/// Seconds allowed to switching discovery on or off.
pub const SCAN_SWITCH_TIMEOUT_SECS: u64 = 2;

// ── reading `bluetoothctl` output ────────────────────────────────────────────

/// Whether some line of `s`, trimmed, starts with `p`.
pub open spec fn some_line_starts(s: Seq<char>, p: Seq<char>) -> bool {
    exists|i: int| 0 <= i < lines(s).len() && is_prefix(p, trim(#[trigger] lines(s)[i]))
}

/// `(has_controller, powered)` from what `bluetoothctl show` printed: no
/// controller when it printed nothing or says `not available` (the daemon
/// is down); powered when a line says `Powered: yes`.
pub open spec fn show_status(show: Seq<char>) -> (bool, bool) {
    if show.len() == 0 || contains(show, "not available"@) {
        (false, false)
    } else {
        (true, some_line_starts(show, "Powered: yes"@))
    }
}

/// See [`show_status`].
pub fn parse_show(show: &str) -> (r: (bool, bool))
    ensures
        r == show_status(show@),
{
    let s = chars_of(show);
    if s.len() == 0 || contains_exec(&s, &chars_of("not available")) {
        return (false, false);
    }
    let p = chars_of("Powered: yes");
    let ls = lines_exec(&s);
    let ghost lsv = views(ls@);
    let mut i: usize = 0;
    while i < ls.len()
        invariant
            i <= ls.len(),
            lsv == views(ls@),
            lsv == lines(s@),
            s@ == show@,
            !(s@.len() == 0 || contains(s@, "not available"@)),
            p@ == "Powered: yes"@,
            forall|j: int| 0 <= j < i ==> !is_prefix(p@, trim(#[trigger] lsv[j])),
        decreases ls.len() - i,
    {
        proof {
            assert(ls@[i as int]@ == lsv[i as int]);
        }
        if starts_with(&trim_chars(&ls[i]), &p) {
            proof {
                assert(is_prefix(p@, trim(lines(s@)[i as int])));
            }
            return (true, true);
        }
        i = i + 1;
    }
    (true, false)
}

/// The value of the first line that, trimmed, starts with `key`: the rest of
/// that line, trimmed.
pub open spec fn info_field(ls: Seq<Seq<char>>, key: Seq<char>) -> Option<Seq<char>>
    decreases ls.len(),
{
    if ls.len() == 0 {
        None
    } else if is_prefix(key, trim(ls[0])) {
        Some(trim(trim(ls[0]).skip(key.len() as int)))
    } else {
        info_field(ls.drop_first(), key)
    }
}

/// Whether the field `key` says `yes`.
pub open spec fn info_yes(ls: Seq<Seq<char>>, key: Seq<char>) -> bool {
    info_field(ls, key) == Some("yes"@)
}

/// The text between the first `(` and the next `)`, trimmed.
pub open spec fn paren_inner(v: Seq<char>) -> Option<Seq<char>> {
    let s = find_from(v, '(', 0);
    if s >= v.len() {
        None
    } else {
        let rest = v.skip(s + 1);
        let e = find_from(rest, ')', 0);
        if e >= rest.len() {
            None
        } else {
            Some(trim(rest.take(e)))
        }
    }
}

/// A battery level: `0x55 (85)` gives the decimal in parentheses, else a hex
/// `0x55`, else a bare decimal.
pub open spec fn paren_num(v: Seq<char>) -> Option<u8> {
    let r = match paren_inner(v) {
        Some(inner) => parse_uint(inner, 10, 255),
        None => if is_prefix("0x"@, trim(v)) {
            parse_uint(trim(v).skip(2), 16, 255)
        } else {
            parse_uint(trim(v), 10, 255)
        },
    };
    match r {
        Some(n) => Some(n as u8),
        None => None,
    }
}

/// A signal strength: `0xffffffce (-50)` gives the decimal in parentheses,
/// else the first word.
pub open spec fn signed_num(v: Seq<char>) -> Option<i16> {
    let r = match paren_inner(v) {
        Some(inner) => parse_int(inner, -32768, 32767),
        None => if words(v).len() > 0 {
            parse_int(words(v)[0], -32768, 32767)
        } else {
            None
        },
    };
    match r {
        Some(n) => Some(n as i16),
        None => None,
    }
}

/// The device that `bluetoothctl info <mac>` describes: named by its
/// `Name:` field, else by its address.
pub open spec fn info_device(text: Seq<char>, mac: Seq<char>) -> BtDeviceV {
    let ls = lines(text);
    BtDeviceV {
        mac,
        name: match info_field(ls, "Name:"@) {
            Some(n) => n,
            None => mac,
        },
        paired: info_yes(ls, "Paired:"@),
        connected: info_yes(ls, "Connected:"@),
        trusted: info_yes(ls, "Trusted:"@),
        icon: match info_field(ls, "Icon:"@) {
            Some(n) => n,
            None => seq![],
        },
        battery: match info_field(ls, "Battery Percentage:"@) {
            Some(v) => paren_num(v),
            None => None,
        },
        rssi: match info_field(ls, "RSSI:"@) {
            Some(v) => signed_num(v),
            None => None,
        },
    }
}

fn info_field_exec(ls: &Vec<Vec<char>>, key: &str) -> (r: Option<Vec<char>>)
    ensures
        match r {
            Some(v) => info_field(views(ls@), key@) == Some(v@),
            None => info_field(views(ls@), key@) is None,
        },
{
    let k = chars_of(key);
    let ghost lv = views(ls@);
    let mut i: usize = 0;
    proof {
        assert(lv.skip(0) =~= lv);
    }
    while i < ls.len()
        invariant
            i <= ls.len(),
            lv == views(ls@),
            k@ == key@,
            info_field(lv, key@) == info_field(lv.skip(i as int), key@),
        decreases ls.len() - i,
    {
        proof {
            assert(lv.skip(i as int)[0] == ls@[i as int]@);
            assert(lv.skip(i as int).drop_first() =~= lv.skip(i + 1));
        }
        let t = trim_chars(&ls[i]);
        match strip_prefix(&t, &k) {
            Some(v) => {
                return Some(trim_chars(&v));
            },
            None => {},
        }
        i = i + 1;
    }
    proof {
        assert(lv.skip(ls.len() as int) =~= Seq::<Seq<char>>::empty());
    }
    None
}

fn paren_inner_exec(v: &Vec<char>) -> (r: Option<Vec<char>>)
    ensures
        match r {
            Some(x) => paren_inner(v@) == Some(x@),
            None => paren_inner(v@) is None,
        },
{
    let s = find_char(v, '(', 0);
    if s >= v.len() {
        return None;
    }
    let rest = slice_of(v, s + 1, v.len());
    proof {
        assert(rest@ =~= v@.skip(s + 1));
    }
    let e = find_char(&rest, ')', 0);
    if e >= rest.len() {
        return None;
    }
    let inner = slice_of(&rest, 0, e);
    proof {
        assert(inner@ =~= rest@.take(e as int));
    }
    Some(trim_chars(&inner))
}

/// See [`paren_num`].
pub fn parse_paren_num(v: &Vec<char>) -> (r: Option<u8>)
    ensures
        r == paren_num(v@),
{
    match paren_inner_exec(v) {
        Some(inner) => {
            return parse_u8(&inner);
        },
        None => {},
    }
    let t = trim_chars(v);
    match strip_prefix(&t, &chars_of("0x")) {
        Some(hex) => {
            proof {
                reveal_strlit("0x");
            }
            parse_u8_hex(&hex)
        },
        None => parse_u8(&t),
    }
}

/// See [`signed_num`].
pub fn parse_signed(v: &Vec<char>) -> (r: Option<i16>)
    ensures
        r == signed_num(v@),
{
    match paren_inner_exec(v) {
        Some(inner) => {
            return parse_i16(&inner);
        },
        None => {},
    }
    let ws = words_exec(v);
    if ws.len() > 0 {
        proof {
            assert(views(ws@)[0] == ws@[0]@);
        }
        parse_i16(&ws[0])
    } else {
        None
    }
}

/// Reads what `bluetoothctl info <mac>` printed.
pub fn parse_info(text: &str, mac: &str) -> (r: BtDevice)
    ensures
        r@ == info_device(text@, mac@),
{
    let ls = lines_exec(&chars_of(text));
    let name = match info_field_exec(&ls, "Name:") {
        Some(n) => string_of(&n),
        None => String::from_str(mac),
    };
    let yes = chars_of("yes");
    let paired = match info_field_exec(&ls, "Paired:") {
        Some(v) => eq(&v, &yes),
        None => false,
    };
    let connected = match info_field_exec(&ls, "Connected:") {
        Some(v) => eq(&v, &yes),
        None => false,
    };
    let trusted = match info_field_exec(&ls, "Trusted:") {
        Some(v) => eq(&v, &yes),
        None => false,
    };
    let icon = match info_field_exec(&ls, "Icon:") {
        Some(v) => string_of(&v),
        None => String::new(),
    };
    let battery = match info_field_exec(&ls, "Battery Percentage:") {
        Some(v) => parse_paren_num(&v),
        None => None,
    };
    let rssi = match info_field_exec(&ls, "RSSI:") {
        Some(v) => parse_signed(&v),
        None => None,
    };
    BtDevice { mac: String::from_str(mac), name, paired, connected, trusted, icon, battery, rssi }
}

/// The address on a line of `bluetoothctl devices`
/// (`Device AA:BB:CC:DD:EE:FF Name Here`): the word after a first word
/// `Device`.
pub open spec fn mac_of_line(line: Seq<char>) -> Option<Seq<char>> {
    let t = trim(line);
    let i = find_from(t, ' ', 0);
    if i >= t.len() || t.take(i) != "Device"@ {
        None
    } else {
        let rest = t.skip(i + 1);
        Some(rest.take(find_from(rest, ' ', 0)))
    }
}

pub open spec fn macs_of_lines(ls: Seq<Seq<char>>) -> Seq<Seq<char>>
    decreases ls.len(),
{
    if ls.len() == 0 {
        seq![]
    } else {
        match mac_of_line(ls.last()) {
            Some(m) => macs_of_lines(ls.drop_last()).push(m),
            None => macs_of_lines(ls.drop_last()),
        }
    }
}

fn mac_of_line_exec(line: &Vec<char>) -> (r: Option<Vec<char>>)
    ensures
        match r {
            Some(m) => mac_of_line(line@) == Some(m@),
            None => mac_of_line(line@) is None,
        },
{
    let t = trim_chars(line);
    let i = find_char(&t, ' ', 0);
    if i >= t.len() {
        return None;
    }
    let first = slice_of(&t, 0, i);
    proof {
        assert(first@ =~= t@.take(i as int));
    }
    if !eq(&first, &chars_of("Device")) {
        return None;
    }
    let rest = slice_of(&t, i + 1, t.len());
    proof {
        assert(rest@ =~= t@.skip(i + 1));
    }
    let e = find_char(&rest, ' ', 0);
    let m = slice_of(&rest, 0, e);
    proof {
        assert(m@ =~= rest@.take(e as int));
    }
    Some(m)
}

/// The addresses that `bluetoothctl devices` listed, in order.
pub fn device_macs(list: &str) -> (r: Vec<String>)
    ensures
        strings_view(r@) == macs_of_lines(lines(list@)),
{
    let ls = lines_exec(&chars_of(list));
    let ghost lsv = views(ls@);
    let mut out: Vec<String> = Vec::new();
    let mut i: usize = 0;
    proof {
        assert(lsv.take(0) =~= Seq::<Seq<char>>::empty());
    }
    while i < ls.len()
        invariant
            i <= ls.len(),
            lsv == views(ls@),
            strings_view(out@) == macs_of_lines(lsv.take(i as int)),
        decreases ls.len() - i,
    {
        let ghost prev = out@;
        proof {
            assert(lsv.take(i + 1).drop_last() =~= lsv.take(i as int));
            assert(lsv.take(i + 1).last() == ls@[i as int]@);
        }
        match mac_of_line_exec(&ls[i]) {
            Some(m) => {
                let s = string_of(&m);
                out.push(s);
                proof {
                    assert(strings_view(out@) =~= strings_view(prev).push(m@));
                }
            },
            None => {},
        }
        i = i + 1;
    }
    proof {
        assert(lsv.take(ls.len() as int) =~= lsv);
    }
    out
}

// ── the state of the adapter ─────────────────────────────────────────────────

/// What the state query does once `bluetoothctl show` has answered.
#[derive(Clone, Debug)]
pub enum ShowStep {
    /// The state is known.
    Done(BtState),
    /// A controller is there; list its devices, then report it with this
    /// power state.
    ListDevices { powered: bool },
}

pub open spec fn state_is(s: BtState, available: bool, powered: bool) -> bool {
    s.available == available && s.powered == powered && s.devices@.len() == 0
}

/// The state query after `bluetoothctl --version` (`available`) and
/// `bluetoothctl show` (`show`) have run: without the tool, nothing is
/// available; if `show` could not run, or ran but failed or timed out, or
/// shows no controller, the adapter is reported off; else its devices are
/// listed next.
pub fn state_after_show(available: bool, show: &Result<String, BtError>) -> (r: ShowStep)
    ensures
        !available ==> (r matches ShowStep::Done(s) && state_is(s, false, false)),
        available ==> match show {
            Err(BtError::NotInstalled) => (r matches ShowStep::Done(s) && state_is(s, false, false)),
            Err(_) => (r matches ShowStep::Done(s) && state_is(s, true, false)),
            Ok(t) => if show_status(t@).0 {
                (r matches ShowStep::ListDevices { powered } && powered == show_status(t@).1)
            } else {
                (r matches ShowStep::Done(s) && state_is(s, true, false))
            },
        },
{
    if !available {
        return ShowStep::Done(BtState { available: false, powered: false, devices: Vec::new() });
    }
    match show {
        Err(BtError::NotInstalled) => ShowStep::Done(
            BtState { available: false, powered: false, devices: Vec::new() },
        ),
        Err(_) => ShowStep::Done(BtState { available: true, powered: false, devices: Vec::new() }),
        Ok(t) => {
            let (has_controller, powered) = parse_show(t.as_str());
            if !has_controller {
                ShowStep::Done(BtState { available: true, powered: false, devices: Vec::new() })
            } else {
                ShowStep::ListDevices { powered }
            }
        },
    }
}

/// The state once the devices were listed; a failed listing reports no
/// devices rather than failing.
pub fn state_with_devices(powered: bool, devices: Result<Vec<BtDevice>, BtError>) -> (r: BtState)
    ensures
        r.available,
        r.powered == powered,
        match devices {
            Ok(ds) => r.devices@ == ds@,
            Err(_) => r.devices@.len() == 0,
        },
{
    let ds = match devices {
        Ok(ds) => ds,
        Err(_) => Vec::new(),
    };
    BtState { available: true, powered, devices: ds }
}

// ── running `bluetoothctl` ───────────────────────────────────────────────────

/// How a run of `bluetoothctl` (or PowerShell) ended.
#[derive(Clone, Debug)]
pub enum BtRun {
    /// It could not be started.
    NotStarted,
    /// It did not finish within this many seconds.
    TimedOut(u64),
    /// It finished: whether it succeeded, its exit code, what it printed
    /// (invalid UTF-8 replaced), and the UTF-8 error where its output was not
    /// valid UTF-8.
    Finished { success: bool, code: Option<i32>, stdout: String, utf8_error: Option<String> },
}

/// `{:?}` of an exit code: `Some(1)` or `None`.
pub open spec fn debug_code(code: Option<i32>) -> Seq<char> {
    match code {
        Some(c) => "Some("@ + dec_int(c as int) + ")"@,
        None => "None"@,
    }
}

fn debug_code_exec(code: Option<i32>) -> (r: Vec<char>)
    ensures
        r@ == debug_code(code),
{
    match code {
        Some(c) => {
            let mut v = chars_of("Some(");
            push_all(&mut v, &fmt_i64(c as i64));
            push_all(&mut v, &chars_of(")"));
            v
        },
        None => chars_of("None"),
    }
}

/// `bluetoothctl <args> failed (exit <code>)`.
pub open spec fn failed_message(args: Seq<Seq<char>>, code: Option<i32>) -> Seq<char> {
    "bluetoothctl "@ + joined(args) + " failed (exit "@ + debug_code(code) + ")"@
}

fn failed_message_exec(args: &Vec<String>, code: Option<i32>) -> (r: String)
    ensures
        r@ == failed_message(strings_view(args@), code),
{
    let mut c = chars_of("bluetoothctl ");
    push_all(&mut c, &chars_of(join_args(args).as_str()));
    push_all(&mut c, &chars_of(" failed (exit "));
    push_all(&mut c, &debug_code_exec(code));
    push_all(&mut c, &chars_of(")"));
    string_of(&c)
}

/// An error as a value: what [`BtError`] holds, texts as sequences.
pub enum BtErrorV {
    NotInstalled,
    DaemonDown,
    DeviceNotFound(Seq<char>),
    NotPowered,
    Timeout(u64),
    Backend(Seq<char>),
}

impl View for BtError {
    type V = BtErrorV;

    open spec fn view(&self) -> BtErrorV {
        match self {
            BtError::NotInstalled => BtErrorV::NotInstalled,
            BtError::DaemonDown => BtErrorV::DaemonDown,
            BtError::DeviceNotFound(m) => BtErrorV::DeviceNotFound(m@),
            BtError::NotPowered => BtErrorV::NotPowered,
            BtError::Timeout(s) => BtErrorV::Timeout(*s),
            BtError::Backend(m) => BtErrorV::Backend(m@),
        }
    }
}

pub open spec fn text_result(r: Result<String, BtError>) -> Result<Seq<char>, BtErrorV> {
    match r {
        Ok(s) => Ok(s@),
        Err(e) => Err(e@),
    }
}

pub open spec fn unit_bt_result(r: Result<(), BtError>) -> Result<(), BtErrorV> {
    match r {
        Ok(()) => Ok(()),
        Err(e) => Err(e@),
    }
}

/// The output of a query: `NotInstalled` where it could not start, `Timeout`
/// where it ran too long, a backend error where it failed or printed invalid
/// UTF-8.
pub open spec fn query_result(args: Seq<Seq<char>>, o: BtRun) -> Result<Seq<char>, BtErrorV> {
    match o {
        BtRun::NotStarted => Err(BtErrorV::NotInstalled),
        BtRun::TimedOut(s) => Err(BtErrorV::Timeout(s)),
        BtRun::Finished { success, code, stdout, utf8_error } => if !success {
            Err(BtErrorV::Backend(failed_message(args, code)))
        } else {
            match utf8_error {
                Some(e) => Err(BtErrorV::Backend("invalid utf-8: "@ + e@)),
                None => Ok(stdout@),
            }
        },
    }
}

/// See [`query_result`].
pub fn run_result(args: &Vec<String>, o: BtRun) -> (r: Result<String, BtError>)
    ensures
        text_result(r) == query_result(strings_view(args@), o),
{
    match o {
        BtRun::NotStarted => Err(BtError::NotInstalled),
        BtRun::TimedOut(s) => Err(BtError::Timeout(s)),
        BtRun::Finished { success, code, stdout, utf8_error } => {
            if !success {
                return Err(BtError::Backend(failed_message_exec(args, code)));
            }
            match utf8_error {
                Some(e) => {
                    let mut c = chars_of("invalid utf-8: ");
                    push_all(&mut c, &chars_of(e.as_str()));
                    Err(BtError::Backend(string_of(&c)))
                },
                None => Ok(stdout),
            }
        },
    }
}

/// Whether a line reports a failed action.
pub open spec fn reports_failure(l: Seq<char>) -> bool {
    contains(l, "Failed"@) || contains(l, "not available"@)
}

/// The first line that reports a failure.
pub open spec fn failure_line(ls: Seq<Seq<char>>) -> Option<Seq<char>>
    decreases ls.len(),
{
    if ls.len() == 0 {
        None
    } else if reports_failure(ls[0]) {
        Some(ls[0])
    } else {
        failure_line(ls.drop_first())
    }
}

/// The result of an action. `bluetoothctl` exits successfully even when an
/// action failed, so output that says `Failed` or `not available` is an
/// error carrying the first such line, trimmed.
pub open spec fn action_result(args: Seq<Seq<char>>, o: BtRun) -> Result<(), BtErrorV> {
    match o {
        BtRun::NotStarted => Err(BtErrorV::NotInstalled),
        BtRun::TimedOut(s) => Err(BtErrorV::Timeout(s)),
        BtRun::Finished { success, code, stdout, utf8_error } => if reports_failure(stdout@) {
            Err(
                BtErrorV::Backend(
                    trim(
                        match failure_line(lines(stdout@)) {
                            Some(l) => l,
                            None => "operation failed"@,
                        },
                    ),
                ),
            )
        } else if success {
            Ok(())
        } else {
            Err(BtErrorV::Backend(failed_message(args, code)))
        },
    }
}

proof fn lemma_failure_line(ls: Seq<Seq<char>>)
    ensures
        failure_line(ls) matches Some(l) ==> exists|k: int|
            0 <= k < ls.len() && ls[k] == l && (contains(ls[k], "Failed"@) || contains(
                ls[k],
                "not available"@,
            )) && forall|j: int|
                0 <= j < k ==> !contains(#[trigger] ls[j], "Failed"@) && !contains(ls[j], "not available"@),
        failure_line(ls) is None ==> forall|j: int|
            0 <= j < ls.len() ==> !contains(#[trigger] ls[j], "Failed"@) && !contains(ls[j], "not available"@),
    decreases ls.len(),
{
    if ls.len() > 0 {
        let t = ls.drop_first();
        lemma_failure_line(t);
        if !reports_failure(ls[0]) {
            if let Some(l) = failure_line(t) {
                let k = choose|k: int|
                    0 <= k < t.len() && t[k] == l && (contains(t[k], "Failed"@) || contains(
                        t[k],
                        "not available"@,
                    )) && forall|j: int|
                        0 <= j < k ==> !contains(#[trigger] t[j], "Failed"@) && !contains(
                            t[j],
                            "not available"@,
                        );
                assert(ls[k + 1] == t[k]);
                assert forall|j: int| 0 <= j < k + 1 implies !contains(#[trigger] ls[j], "Failed"@)
                    && !contains(ls[j], "not available"@) by {
                    if j > 0 {
                        assert(ls[j] == t[j - 1]);
                    }
                }
            } else {
                assert forall|j: int| 0 <= j < ls.len() implies !contains(#[trigger] ls[j], "Failed"@)
                    && !contains(ls[j], "not available"@) by {
                    if j > 0 {
                        assert(ls[j] == t[j - 1]);
                    }
                }
            }
        }
    }
}

/// The outcome of an action: where `bluetoothctl` printed `Failed` or
/// `not available`, the action failed, whatever its exit status, with the
/// first line saying so, trimmed (or `operation failed` where no single
/// line does); otherwise it succeeded exactly when `bluetoothctl` did.
pub proof fn law_action_failure_text_wins(args: Seq<Seq<char>>, o: BtRun)
    ensures
        o matches BtRun::Finished { stdout, .. } ==> (contains(stdout@, "Failed"@) || contains(
            stdout@,
            "not available"@,
        )) ==> (exists|k: int|
            0 <= k < lines(stdout@).len() && (contains(lines(stdout@)[k], "Failed"@) || contains(
                lines(stdout@)[k],
                "not available"@,
            )) && (forall|j: int|
                0 <= j < k ==> !contains(#[trigger] lines(stdout@)[j], "Failed"@) && !contains(
                    lines(stdout@)[j],
                    "not available"@,
                )) && action_result(args, o) == Err::<(), BtErrorV>(BtErrorV::Backend(trim(lines(stdout@)[k]))))
            || ((forall|j: int|
            0 <= j < lines(stdout@).len() ==> !contains(#[trigger] lines(stdout@)[j], "Failed"@)
                && !contains(lines(stdout@)[j], "not available"@)) && action_result(args, o) == Err::<
            (),
            BtErrorV,
        >(BtErrorV::Backend("operation failed"@))),
        o matches BtRun::Finished { stdout, success, .. } ==> (!contains(stdout@, "Failed"@) && !contains(
            stdout@,
            "not available"@,
        )) ==> (action_result(args, o) is Ok <==> success),
{
    match o {
        BtRun::Finished { stdout, .. } => {
            let ls = lines(stdout@);
            lemma_failure_line(ls);
            if let Some(l) = failure_line(ls) {
                let k = choose|k: int|
                    0 <= k < ls.len() && ls[k] == l && (contains(ls[k], "Failed"@) || contains(
                        ls[k],
                        "not available"@,
                    )) && forall|j: int|
                        0 <= j < k ==> !contains(#[trigger] ls[j], "Failed"@) && !contains(
                            ls[j],
                            "not available"@,
                        );
                assert(contains(stdout@, "Failed"@) || contains(stdout@, "not available"@) ==> action_result(
                    args,
                    o,
                ) == Err::<(), BtErrorV>(BtErrorV::Backend(trim(ls[k]))));
                assert(contains(stdout@, "Failed"@) || contains(stdout@, "not available"@) ==> exists|k2: int|
                    0 <= k2 < ls.len() && (contains(ls[k2], "Failed"@) || contains(
                        ls[k2],
                        "not available"@,
                    )) && (forall|j: int|
                        0 <= j < k2 ==> !contains(#[trigger] ls[j], "Failed"@) && !contains(
                            ls[j],
                            "not available"@,
                        )) && action_result(args, o) == Err::<(), BtErrorV>(BtErrorV::Backend(trim(ls[k2]))));
            } else {
                reveal_strlit("operation failed");
                let m = "operation failed"@;
                assert(lead_ws(m) == 0);
                assert(m.skip(0) =~= m);
                assert(trail_ws(m) == 0);
                assert(m.take(m.len() as int) =~= m);
                assert(trim(m) == m);
                assert(contains(stdout@, "Failed"@) || contains(stdout@, "not available"@) ==> action_result(
                    args,
                    o,
                ) == Err::<(), BtErrorV>(BtErrorV::Backend("operation failed"@)));
            }
        },
        _ => {},
    }
}

fn reports_failure_exec(l: &Vec<char>) -> (r: bool)
    ensures
        r == reports_failure(l@),
{
    contains_exec(l, &chars_of("Failed")) || contains_exec(l, &chars_of("not available"))
}

fn first_failure_line(out: &Vec<char>) -> (r: Option<Vec<char>>)
    ensures
        match r {
            Some(l) => failure_line(lines(out@)) == Some(l@),
            None => failure_line(lines(out@)) is None,
        },
{
    let ls = lines_exec(out);
    let ghost lv = views(ls@);
    let mut i: usize = 0;
    proof {
        assert(lv.skip(0) =~= lv);
    }
    while i < ls.len()
        invariant
            i <= ls.len(),
            lv == views(ls@),
            lv == lines(out@),
            failure_line(lv) == failure_line(lv.skip(i as int)),
        decreases ls.len() - i,
    {
        proof {
            assert(lv.skip(i as int)[0] == ls@[i as int]@);
            assert(lv.skip(i as int).drop_first() =~= lv.skip(i + 1));
        }
        if reports_failure_exec(&ls[i]) {
            return Some(copy(&ls[i]));
        }
        i = i + 1;
    }
    proof {
        assert(lv.skip(ls.len() as int) =~= Seq::<Seq<char>>::empty());
    }
    None
}

/// See [`action_result`].
pub fn run_cmd_result(args: &Vec<String>, o: BtRun) -> (r: Result<(), BtError>)
    ensures
        unit_bt_result(r) == action_result(strings_view(args@), o),
{
    match o {
        BtRun::NotStarted => Err(BtError::NotInstalled),
        BtRun::TimedOut(s) => Err(BtError::Timeout(s)),
        BtRun::Finished { success, code, stdout, utf8_error } => {
            let out = chars_of(stdout.as_str());
            if reports_failure_exec(&out) {
                let line = match first_failure_line(&out) {
                    Some(l) => l,
                    None => chars_of("operation failed"),
                };
                return Err(BtError::Backend(string_of(&trim_chars(&line))));
            }
            if success {
                Ok(())
            } else {
                Err(BtError::Backend(failed_message_exec(args, code)))
            }
        },
    }
}

// ── actions ──────────────────────────────────────────────────────────────────

/// The `bluetoothctl` arguments that pair with `mac`.
pub fn pair(mac: &str) -> (r: Vec<String>)
    ensures
        strings_view(r@) == seq!["pair"@, mac@],
{
    crate::desktop::command::args2("pair", mac)
}

/// The `bluetoothctl` arguments that connect `mac`.
pub fn connect(mac: &str) -> (r: Vec<String>)
    ensures
        strings_view(r@) == seq!["connect"@, mac@],
{
    crate::desktop::command::args2("connect", mac)
}

/// The `bluetoothctl` arguments that disconnect `mac`.
pub fn disconnect(mac: &str) -> (r: Vec<String>)
    ensures
        strings_view(r@) == seq!["disconnect"@, mac@],
{
    crate::desktop::command::args2("disconnect", mac)
}

/// The `bluetoothctl` arguments that switch the adapter on or off.
pub fn set_power(on: bool) -> (r: Vec<String>)
    ensures
        strings_view(r@) == seq!["power"@, if on {
            "on"@
        } else {
            "off"@
        }],
{
    crate::desktop::command::args2("power", if on {
        "on"
    } else {
        "off"
    })
}

/// The `bluetoothctl` arguments that trust or untrust `mac`.
pub fn set_trust(mac: &str, trust: bool) -> (r: Vec<String>)
    ensures
        strings_view(r@) == seq![if trust {
            "trust"@
        } else {
            "untrust"@
        }, mac@],
{
    crate::desktop::command::args2(if trust {
        "trust"
    } else {
        "untrust"
    }, mac)
}

/// The `bluetoothctl` arguments that forget `mac`.
pub fn remove(mac: &str) -> (r: Vec<String>)
    ensures
        strings_view(r@) == seq!["remove"@, mac@],
{
    crate::desktop::command::args2("remove", mac)
}

/// The length of a discovery scan: between 1 and 30 seconds.
pub fn scan_seconds(secs: u64) -> (r: u64)
    ensures
        r == if secs < 1 {
            1
        } else if secs > 30 {
            30
        } else {
            secs
        },
{
    if secs < 1 {
        1
    } else if secs > 30 {
        30
    } else {
        secs
    }
}

/// The order of scan results: connected devices first, then by lowercased
/// name; the key is `0` or `1` followed by that name.
pub open spec fn scan_key(d: BtDeviceV) -> Seq<char> {
    seq![if d.connected {
        '0'
    } else {
        '1'
    }] + crate::text::lowercase(d.name)
}

pub open spec fn scan_items(v: Seq<BtDevice>) -> Seq<(Seq<char>, BtDevice)> {
    v.map_values(|d: BtDevice| (scan_key(d@), d))
}

pub open spec fn unkeyed<T>(v: Seq<(Seq<char>, T)>) -> Seq<T> {
    v.map_values(|p: (Seq<char>, T)| p.1)
}


proof fn lemma_scan_item_keys(v: Seq<BtDevice>, i: int)
    requires
        0 <= i < v.len(),
    ensures
        crate::sort::isort(scan_items(v))[i].0 == scan_key(crate::sort::isort(scan_items(v))[i].1@),
{
    let s = scan_items(v);
    let t = crate::sort::isort(s);
    crate::sort::law_sort_is_permutation(s);
    crate::sort::law_sort_orders_by_key(s);
    t.to_multiset_ensures();
    s.to_multiset_ensures();
    assert(t.contains(t[i]));
    assert(t.to_multiset().count(t[i]) > 0);
    assert(s.contains(t[i]));
    let k = choose|k: int| 0 <= k < s.len() && s[k] == t[i];
    assert(s[k] == (scan_key(v[k]@), v[k]));
}

/// The order of scan results: connected devices come before the others,
/// and among devices alike in that, lowercased names are in order.
pub proof fn law_scan_connected_first_then_by_name(v: Seq<BtDevice>, i: int, j: int)
    requires
        0 <= i < j < v.len(),
    ensures
        ({
            let r = unkeyed(crate::sort::isort(scan_items(v)));
            ||| r[i]@.connected && !r[j]@.connected
            ||| r[i]@.connected == r[j]@.connected && crate::sort::lex_le(
                crate::text::lowercase(r[i]@.name),
                crate::text::lowercase(r[j]@.name),
            )
        }),
{
    let s = scan_items(v);
    let t = crate::sort::isort(s);
    crate::sort::law_sort_orders_by_key(s);
    let r = unkeyed(t);
    lemma_scan_item_keys(v, i);
    lemma_scan_item_keys(v, j);
    assert(r[i] == t[i].1 && r[j] == t[j].1);
    let a = t[i].1@;
    let b = t[j].1@;
    assert(crate::sort::lex_le(t[i].0, t[j].0));
    let ka = scan_key(a);
    let kb = scan_key(b);
    assert(ka.drop_first() =~= crate::text::lowercase(a.name));
    assert(kb.drop_first() =~= crate::text::lowercase(b.name));
    if !a.connected && b.connected {
        assert(crate::sort::lex_lt(kb, ka));
    }
    if a.connected == b.connected {
        assert(ka[0] == kb[0]);
        assert(crate::sort::lex_lt(kb, ka) == crate::sort::lex_lt(kb.drop_first(), ka.drop_first()));
    }
}

/// The devices a scan found, connected ones first, then by lowercased name,
/// devices that compare equal in their original order.
pub fn sort_scan(devices: Vec<BtDevice>) -> (r: Vec<BtDevice>)
    ensures
        r@ == unkeyed(crate::sort::isort(scan_items(devices@))),
{
    let ghost orig = devices@;
    let mut devices = devices;
    let mut items: Vec<(Vec<char>, BtDevice)> = Vec::new();
    let ghost mut k: int = 0;
    while devices.len() > 0
        invariant
            0 <= k <= orig.len(),
            devices@ == orig.skip(k),
            crate::sort::keyed(items@) == scan_items(orig).take(k),
        decreases devices.len(),
    {
        let d = devices.remove(0);
        let mut key: Vec<char> = Vec::new();
        key.push(if d.connected {
            '0'
        } else {
            '1'
        });
        push_all(&mut key, &chars_of(crate::text::to_lowercase(d.name.as_str()).as_str()));
        let ghost before = items@;
        items.push((key, d));
        proof {
            assert(d == orig[k]);
            assert(key@ =~= scan_key(d@));
            assert(crate::sort::keyed(items@) =~= crate::sort::keyed(before).push((key@, d)));
            assert(scan_items(orig).take(k + 1) =~= scan_items(orig).take(k).push((key@, d)));
            assert(orig.skip(k).drop_first() =~= orig.skip(k + 1));
            k = k + 1;
        }
    }
    proof {
        assert(scan_items(orig).take(k) =~= scan_items(orig));
    }
    let mut sorted = crate::sort::sort_by_key(items);
    let ghost sk = crate::sort::keyed(sorted@);
    let mut out: Vec<BtDevice> = Vec::new();
    let ghost mut m: int = 0;
    while sorted.len() > 0
        invariant
            0 <= m <= sk.len(),
            crate::sort::keyed(sorted@) == sk.skip(m),
            out@ == unkeyed(sk.take(m)),
        decreases sorted.len(),
    {
        let ghost old_s = sorted@;
        let pair = sorted.remove(0);
        let d = pair.1;
        proof {
            assert(pair == old_s[0]);
            assert(sorted@ == old_s.remove(0));
            assert(crate::sort::keyed(old_s).len() == old_s.len());
            assert(m < sk.len());
            assert(crate::sort::keyed(old_s)[0] == sk.skip(m)[0]);
            assert(sk.skip(m)[0] == sk[m]);
            assert(crate::sort::keyed(sorted@) =~= crate::sort::keyed(old_s).drop_first());
            assert(crate::sort::keyed(old_s).drop_first() =~= sk.skip(m + 1));
            assert(sk.take(m + 1) =~= sk.take(m).push(sk[m]));
            assert(unkeyed(sk.take(m + 1)) =~= unkeyed(sk.take(m)).push(d));
            m = m + 1;
        }
        out.push(d);
    }
    proof {
        assert(sk.take(m) =~= sk);
    }
    out
}

} // verus!
