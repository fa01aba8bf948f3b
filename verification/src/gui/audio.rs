//! Sound devices as `pactl list sinks` and `pactl list sources` report them.
//!
//! Running `pactl` is the caller's part: these functions take what it
//! printed (or `None` where it could not be run or failed) and build the
//! device list from it.
use vstd::prelude::*;
use crate::text::{
    chars_of, string_of, lowercase, to_lowercase, contains, contains_exec, is_prefix, is_suffix,
    trim, trim_start, lines, views, slice_of, trim_chars, trim_start_chars, starts_with,
    ends_with, strip_prefix, lines_exec, eq, push_all,
};
use crate::num::{parse_uint, parse_u32};
use crate::device::is_lit;
use crate::desktop::command::{RunOutcome, run_result, command_result, unit_result, strings_view, args2};

verus! {

/// How a sound device is attached.
#[derive(Clone, Copy, Debug, PartialEq, Eq, Structural)]
pub enum AudioKind {
    Builtin,
    Usb,
    Hdmi,
    Bluetooth,
    Virtual,
}

/// The kind that a lowercased device name shows.
pub open spec fn kind_of_lowered(n: Seq<char>) -> AudioKind {
    if contains(n, "bluez"@) || contains(n, "bluetooth"@) {
        AudioKind::Bluetooth
    } else if contains(n, "hdmi"@) || contains(n, "iec958"@) || contains(n, "spdif"@) {
        AudioKind::Hdmi
    } else if contains(n, "usb"@) {
        AudioKind::Usb
    } else if contains(n, "null"@) || contains(n, "virtual"@) || contains(n, "pipewire"@) {
        AudioKind::Virtual
    } else {
        AudioKind::Builtin
    }
}

/// The kind of the device named `name`, judged by its lowercased name.
pub open spec fn kind_of(name: Seq<char>) -> AudioKind {
    kind_of_lowered(lowercase(name))
}

fn has_word(n: &Vec<char>, w: &str) -> (r: bool)
    ensures
        r == contains(n@, w@),
{
    contains_exec(n, &chars_of(w))
}

/// The kind of the device named `name`.
pub fn detect_kind(name: &str) -> (r: AudioKind)
    ensures
        r == kind_of(name@),
{
    let lowered = to_lowercase(name);
    let n = chars_of(lowered.as_str());
    if has_word(&n, "bluez") || has_word(&n, "bluetooth") {
        AudioKind::Bluetooth
    } else if has_word(&n, "hdmi") || has_word(&n, "iec958") || has_word(&n, "spdif") {
        AudioKind::Hdmi
    } else if has_word(&n, "usb") {
        AudioKind::Usb
    } else if has_word(&n, "null") || has_word(&n, "virtual") || has_word(&n, "pipewire") {
        AudioKind::Virtual
    } else {
        AudioKind::Builtin
    }
}

/// The symbol shown beside a device of kind `k`.
pub open spec fn kind_icon(k: AudioKind) -> Seq<char> {
    match k {
        AudioKind::Bluetooth => "🔵"@,
        AudioKind::Hdmi => "🖥"@,
        AudioKind::Usb => "🔌"@,
        AudioKind::Virtual => "⬡"@,
        AudioKind::Builtin => "🔊"@,
    }
}

/// A sink or source.
#[derive(Clone, Debug)]
pub struct AudioDevice {
    pub index: u32,
    /// The name `pactl` knows the device by, used to switch to it.
    pub name: String,
    /// The name shown to the user.
    pub description: String,
    /// `RUNNING`, `SUSPENDED` or `IDLE`.
    pub state: String,
    pub muted: bool,
    pub is_default: bool,
    pub kind: AudioKind,
}

pub struct AudioDeviceV {
    pub index: u32,
    pub name: Seq<char>,
    pub description: Seq<char>,
    pub state: Seq<char>,
    pub muted: bool,
    pub is_default: bool,
    pub kind: AudioKind,
}

impl View for AudioDevice {
    type V = AudioDeviceV;

    open spec fn view(&self) -> AudioDeviceV {
        AudioDeviceV {
            index: self.index,
            name: self.name@,
            description: self.description@,
            state: self.state@,
            muted: self.muted,
            is_default: self.is_default,
            kind: self.kind,
        }
    }
}

pub open spec fn audio_view(v: Seq<AudioDevice>) -> Seq<AudioDeviceV> {
    v.map_values(|d: AudioDevice| d@)
}

/// A copy of `d`.
pub fn copy_device(d: &AudioDevice) -> (r: AudioDevice)
    ensures
        r@ == d@,
{
    AudioDevice {
        index: d.index,
        name: d.name.clone(),
        description: d.description.clone(),
        state: d.state.clone(),
        muted: d.muted,
        is_default: d.is_default,
        kind: d.kind,
    }
}

/// The colour (red, green, blue) of a device's state: green when running,
/// yellow when idle, grey otherwise (lighter when suspended).
pub open spec fn state_rgb(state: Seq<char>) -> (u8, u8, u8) {
    if state == "RUNNING"@ {
        (80, 200, 120)
    } else if state == "IDLE"@ {
        (180, 180, 80)
    } else if state == "SUSPENDED"@ {
        (120, 120, 120)
    } else {
        (100, 100, 100)
    }
}

impl AudioDevice {
    /// The colour its state is shown in, as red, green and blue.
    pub fn state_color(&self) -> (r: (u8, u8, u8))
        ensures
            r == state_rgb(self.state@),
    {
        let st = chars_of(self.state.as_str());
        if is_lit(&st, "RUNNING") {
            (80, 200, 120)
        } else if is_lit(&st, "IDLE") {
            (180, 180, 80)
        } else if is_lit(&st, "SUSPENDED") {
            (120, 120, 120)
        } else {
            (100, 100, 100)
        }
    }

    /// The symbol shown beside the device.
    pub fn icon(&self) -> (r: &'static str)
        ensures
            r@ == kind_icon(self.kind),
    {
        match self.kind {
            AudioKind::Bluetooth => "🔵",
            AudioKind::Hdmi => "🖥",
            AudioKind::Usb => "🔌",
            AudioKind::Virtual => "⬡",
            AudioKind::Builtin => "🔊",
        }
    }
}

/// The fields of a device before any line of its block is read.
pub open spec fn blank_fields() -> AudioDeviceV {
    AudioDeviceV {
        index: 0,
        name: seq![],
        description: seq![],
        state: seq![],
        muted: false,
        is_default: false,
        kind: AudioKind::Builtin,
    }
}

/// `u32::from_str` of `s`, or 0 where it fails.
pub open spec fn u32_or_zero(s: Seq<char>) -> u32 {
    match parse_uint(s, 10, u32::MAX as nat) {
        Some(v) => v as u32,
        None => 0,
    }
}

/// What one line of a block sets: the block header (`p`) sets the index, and
/// the `Name: `, `Description: `, `State: ` and `Mute: ` lines their field.
pub open spec fn field_step(f: AudioDeviceV, line: Seq<char>, p: Seq<char>) -> AudioDeviceV {
    let t = trim(line);
    if is_prefix(p, t) {
        AudioDeviceV { index: u32_or_zero(trim(t.skip(p.len() as int))), ..f }
    } else if is_prefix("Name: "@, t) {
        AudioDeviceV { name: t.skip("Name: "@.len() as int), ..f }
    } else if is_prefix("Description: "@, t) {
        AudioDeviceV { description: t.skip("Description: "@.len() as int), ..f }
    } else if is_prefix("State: "@, t) {
        AudioDeviceV { state: t.skip("State: "@.len() as int), ..f }
    } else if is_prefix("Mute: "@, t) {
        AudioDeviceV { muted: trim(t.skip("Mute: "@.len() as int)) == "yes"@, ..f }
    } else {
        f
    }
}

/// The fields after reading the lines `ls` in order: a later line overrides
/// an earlier one.
pub open spec fn fields_of(ls: Seq<Seq<char>>, p: Seq<char>) -> AudioDeviceV
    decreases ls.len(),
{
    if ls.len() == 0 {
        blank_fields()
    } else {
        field_step(fields_of(ls.drop_last(), p), ls.last(), p)
    }
}

/// The device as listed: its description is its name where none was given,
/// it is the default when its name is `default_name`, and its kind is what
/// its name shows.
pub open spec fn finish(f: AudioDeviceV, default_name: Seq<char>) -> AudioDeviceV {
    AudioDeviceV {
        description: if f.description.len() == 0 {
            f.name
        } else {
            f.description
        },
        is_default: f.name == default_name,
        kind: kind_of(f.name),
        ..f
    }
}

/// The indices from `i` on of the lines that start with `p`.
pub open spec fn header_lines(ls: Seq<Seq<char>>, p: Seq<char>, i: int) -> Seq<int>
    decreases ls.len() - i,
{
    if i < 0 || i >= ls.len() {
        seq![]
    } else if is_prefix(p, ls[i]) {
        seq![i] + header_lines(ls, p, i + 1)
    } else {
        header_lines(ls, p, i + 1)
    }
}

/// The lines at which the blocks start: the first line, and each later line
/// that starts with the header `p`.
pub open spec fn block_starts(text: Seq<char>, p: Seq<char>) -> Seq<int> {
    if text.len() == 0 {
        seq![]
    } else {
        seq![0int] + header_lines(lines(text), p, 1)
    }
}

/// The line at which block `q` ends: where the next block starts, or `n`,
/// the number of lines, for the last block.
pub open spec fn block_end(starts: Seq<int>, q: int, n: int) -> int {
    if q + 1 < starts.len() {
        starts[q + 1]
    } else {
        n
    }
}

/// Whether the lines `bl` of a block begin with the header `p`: the first
/// line holding more than whitespace starts, after that whitespace, with `p`.
pub open spec fn begins_with_header(bl: Seq<Seq<char>>, p: Seq<char>) -> bool
    decreases bl.len(),
{
    if bl.len() == 0 {
        false
    } else if trim_start(bl[0]).len() == 0 {
        begins_with_header(bl.drop_first(), p)
    } else {
        is_prefix(p, trim_start(bl[0]))
    }
}

/// The device read from the lines `bl` of one block: none where the block
/// does not begin with the header, or gives no name.
pub open spec fn block_device(bl: Seq<Seq<char>>, p: Seq<char>, d: Seq<char>) -> Option<AudioDeviceV> {
    if !begins_with_header(bl, p) {
        None
    } else {
        let f = fields_of(bl, p);
        if f.name.len() == 0 {
            None
        } else {
            Some(finish(f, d))
        }
    }
}

/// The devices of the first `k` blocks, each block being the lines from its
/// start up to the next block's start.
pub open spec fn devices_from(ls: Seq<Seq<char>>, p: Seq<char>, d: Seq<char>, starts: Seq<int>, k: int) -> Seq<
    AudioDeviceV,
>
    decreases k,
{
    if k <= 0 {
        seq![]
    } else {
        let rest = devices_from(ls, p, d, starts, k - 1);
        match block_device(ls.subrange(starts[k - 1], block_end(starts, k - 1, ls.len() as int)), p, d) {
            Some(v) => rest.push(v),
            None => rest,
        }
    }
}

/// The devices listed in `text`, a `pactl list` report of devices of kind
/// `kind` (`Sink` or `Source`), with `default_name` the default device.
pub open spec fn parsed_devices(text: Seq<char>, kind: Seq<char>, default_name: Seq<char>) -> Seq<
    AudioDeviceV,
> {
    let p = kind + " #"@;
    let st = block_starts(text, p);
    devices_from(lines(text), p, default_name, st, st.len() as int)
}

/// The lines at which blocks start (see [`block_starts`]).
fn block_start_lines(t: &Vec<char>, ls: &Vec<Vec<char>>, p: &Vec<char>) -> (starts: Vec<usize>)
    requires
        views(ls@) == lines(t@),
    ensures
        starts@.map_values(|s: usize| s as int) == block_starts(t@, p@),
        forall|k: int| 0 <= k < starts.len() ==> starts@[k] < ls.len(),
        forall|k: int, l: int| 0 <= k < l < starts.len() ==> starts@[k] < starts@[l],
{
    let ghost lsv = views(ls@);
    let mut starts: Vec<usize> = Vec::new();
    if t.len() > 0 {
        starts.push(0);
    }
    let mut i: usize = 1;
    proof {
        if t.len() == 0 {
            assert(lines(t@) =~= Seq::<Seq<char>>::empty());
        }
    }
    while i < ls.len()
        invariant
            1 <= i,
            lsv == views(ls@),
            lsv == lines(t@),
            t.len() == 0 ==> ls.len() == 0,
            starts@.map_values(|s: usize| s as int) + header_lines(lsv, p@, i as int)
                == block_starts(t@, p@),
            forall|k: int| 0 <= k < starts.len() ==> starts@[k] < ls.len(),
            forall|k: int| 0 <= k < starts.len() ==> starts@[k] < i,
            forall|k: int, l: int| 0 <= k < l < starts.len() ==> starts@[k] < starts@[l],
        decreases ls.len() - i,
    {
        let ghost before = starts@;
        if starts_with(&ls[i], p) {
            starts.push(i);
            proof {
                assert(starts@.map_values(|s: usize| s as int) =~= before.map_values(
                    |s: usize| s as int,
                ).push(i as int));
            }
        }
        proof {
            assert(ls@[i as int]@ == lsv[i as int]);
            assert(starts@.map_values(|s: usize| s as int) + header_lines(lsv, p@, i + 1)
                =~= before.map_values(|s: usize| s as int) + header_lines(lsv, p@, i as int));
        }
        i = i + 1;
    }
    proof {
        assert(header_lines(lsv, p@, i as int) =~= Seq::<int>::empty());
        assert(starts@.map_values(|s: usize| s as int) =~= block_starts(t@, p@));
    }
    starts
}

/// Whether the lines of a block begin with the header (see
/// [`begins_with_header`]).
fn begins_with_header_exec(bl: &Vec<Vec<char>>, p: &Vec<char>) -> (r: bool)
    ensures
        r == begins_with_header(views(bl@), p@),
{
    let ghost v = views(bl@);
    let mut i: usize = 0;
    proof {
        assert(v.skip(0) =~= v);
    }
    while i < bl.len()
        invariant
            i <= bl.len(),
            v == views(bl@),
            begins_with_header(v, p@) == begins_with_header(v.skip(i as int), p@),
        decreases bl.len() - i,
    {
        let t = trim_start_chars(&bl[i]);
        proof {
            assert(v.skip(i as int)[0] == bl@[i as int]@);
            assert(v.skip(i as int).drop_first() =~= v.skip(i + 1));
        }
        if t.len() > 0 {
            return starts_with(&t, p);
        }
        i = i + 1;
    }
    proof {
        assert(v.skip(i as int) =~= Seq::<Seq<char>>::empty());
    }
    false
}

/// Copies of the lines `a` up to `b`.
fn lines_between(ls: &Vec<Vec<char>>, a: usize, b: usize) -> (r: Vec<Vec<char>>)
    requires
        a <= b <= ls.len(),
    ensures
        views(r@) == views(ls@).subrange(a as int, b as int),
{
    let mut r: Vec<Vec<char>> = Vec::new();
    let mut j: usize = a;
    proof {
        assert(views(r@) =~= views(ls@).subrange(a as int, a as int));
    }
    while j < b
        invariant
            a <= j <= b,
            b <= ls.len(),
            views(r@) == views(ls@).subrange(a as int, j as int),
        decreases b - j,
    {
        let ghost prev = r@;
        let c = crate::text::copy(&ls[j]);
        r.push(c);
        proof {
            assert(views(r@) =~= views(prev).push(ls@[j as int]@));
            assert(views(ls@).subrange(a as int, j + 1) =~= views(ls@).subrange(a as int, j as int).push(
                ls@[j as int]@,
            ));
        }
        j = j + 1;
    }
    r
}

fn fields_exec(bl: &Vec<Vec<char>>, p: &Vec<char>) -> (r: (u32, Vec<char>, Vec<char>, Vec<char>, bool))
    ensures
        ({
            let f = fields_of(views(bl@), p@);
            r.0 == f.index && r.1@ == f.name && r.2@ == f.description && r.3@ == f.state && r.4
                == f.muted
        }),
{
    let name_lit = chars_of("Name: ");
    let desc_lit = chars_of("Description: ");
    let state_lit = chars_of("State: ");
    let mute_lit = chars_of("Mute: ");
    let yes_lit = chars_of("yes");
    let mut index: u32 = 0;
    let mut name: Vec<char> = Vec::new();
    let mut desc: Vec<char> = Vec::new();
    let mut state: Vec<char> = Vec::new();
    let mut muted = false;
    let mut j: usize = 0;
    proof {
        assert(views(bl@).take(0) =~= Seq::<Seq<char>>::empty());
    }
    while j < bl.len()
        invariant
            j <= bl.len(),
            name_lit@ == "Name: "@,
            desc_lit@ == "Description: "@,
            state_lit@ == "State: "@,
            mute_lit@ == "Mute: "@,
            yes_lit@ == "yes"@,
            ({
                let f = fields_of(views(bl@).take(j as int), p@);
                index == f.index && name@ == f.name && desc@ == f.description && state@ == f.state
                    && muted == f.muted
            }),
        decreases bl.len() - j,
    {
        proof {
            assert(views(bl@).take(j + 1).drop_last() =~= views(bl@).take(j as int));
            assert(views(bl@).take(j + 1).last() == bl@[j as int]@);
        }
        let t = trim_chars(&bl[j]);
        if starts_with(&t, p) {
            let rest = slice_of(&t, p.len(), t.len());
            let rt = trim_chars(&rest);
            proof {
                assert(rest@ =~= t@.skip(p@.len() as int));
            }
            index = match parse_u32(&rt) {
                Some(v) => v,
                None => 0,
            };
        } else {
            match strip_prefix(&t, &name_lit) {
                Some(v) => {
                    name = v;
                },
                None => match strip_prefix(&t, &desc_lit) {
                    Some(v) => {
                        desc = v;
                    },
                    None => match strip_prefix(&t, &state_lit) {
                        Some(v) => {
                            state = v;
                        },
                        None => match strip_prefix(&t, &mute_lit) {
                            Some(v) => {
                                let vt = trim_chars(&v);
                                muted = eq(&vt, &yes_lit);
                            },
                            None => {},
                        },
                    },
                },
            }
        }
        j = j + 1;
    }
    proof {
        assert(views(bl@).take(bl.len() as int) =~= views(bl@));
    }
    (index, name, desc, state, muted)
}

/// Reads the devices of a `pactl list sinks` or `pactl list sources` report.
///
/// The text is cut into blocks of lines: one from the first line, and one
/// from each later line that starts with `<kind> #`, each running up to the
/// next such line (or the end of the text). A block that begins with the
/// header and names a device gives that device.
pub fn parse_devices(text: &str, kind: &str, default_name: &str) -> (r: Vec<AudioDevice>)
    ensures
        audio_view(r@) == parsed_devices(text@, kind@, default_name@),
{
    let t = chars_of(text);
    let d = chars_of(default_name);
    let mut p = chars_of(kind);
    push_all(&mut p, &chars_of(" #"));
    let ls = lines_exec(&t);
    let ghost lsv = views(ls@);
    let starts = block_start_lines(&t, &ls, &p);
    let ghost sv = starts@.map_values(|s: usize| s as int);
    let n = starts.len();
    let mut out: Vec<AudioDevice> = Vec::new();
    let mut k: usize = 0;
    while k < n
        invariant
            k <= n,
            n == starts.len(),
            lsv == views(ls@),
            lsv == lines(t@),
            t@ == text@,
            p@ == kind@ + " #"@,
            sv == starts@.map_values(|s: usize| s as int),
            sv == block_starts(t@, p@),
            forall|q: int| 0 <= q < starts.len() ==> starts@[q] < ls.len(),
            forall|q: int, l: int| 0 <= q < l < starts.len() ==> starts@[q] < starts@[l],
            audio_view(out@) == devices_from(lsv, p@, d@, sv, k as int),
        decreases n - k,
    {
        let a = starts[k];
        let b = if k + 1 < n {
            starts[k + 1]
        } else {
            ls.len()
        };
        proof {
            assert(sv[k as int] == a as int);
            assert(block_end(sv, k as int, lsv.len() as int) == b as int);
        }
        let bl = lines_between(&ls, a, b);
        let ghost prev = out@;
        if begins_with_header_exec(&bl, &p) {
            let (index, name, desc, state, muted) = fields_exec(&bl, &p);
            if name.len() > 0 {
                let description = if desc.len() == 0 {
                    string_of(&name)
                } else {
                    string_of(&desc)
                };
                let name_s = string_of(&name);
                let kind_v = detect_kind(name_s.as_str());
                let dev = AudioDevice {
                    index,
                    name: name_s,
                    description,
                    state: string_of(&state),
                    muted,
                    is_default: eq(&name, &d),
                    kind: kind_v,
                };
                out.push(dev);
                proof {
                    assert(audio_view(out@) =~= audio_view(prev).push(dev@));
                }
            }
        }
        k = k + 1;
    }
    out
}

/// The default device's name from what `pactl get-default-sink` (or
/// `-source`) printed: the text trimmed, or empty where it gave nothing.
pub open spec fn default_name_of(out: Option<Seq<char>>) -> Seq<char> {
    match out {
        Some(s) => trim(s),
        None => seq![],
    }
}

fn default_name_exec(out: Option<&str>) -> (r: Vec<char>)
    ensures
        r@ == default_name_of(match out {
            Some(s) => Some(s@),
            None => None,
        }),
{
    match out {
        Some(s) => trim_chars(&chars_of(s)),
        None => Vec::new(),
    }
}

/// The sinks, from what `pactl get-default-sink` and `pactl list sinks`
/// printed.
pub fn list_sinks(default_out: Option<&str>, list_out: Option<&str>) -> (r: Vec<AudioDevice>)
    ensures
        audio_view(r@) == match list_out {
            Some(t) => parsed_devices(
                t@,
                "Sink"@,
                default_name_of(
                    match default_out {
                        Some(s) => Some(s@),
                        None => None,
                    },
                ),
            ),
            None => Seq::<AudioDeviceV>::empty(),
        },
{
    let d = default_name_exec(default_out);
    match list_out {
        Some(t) => parse_devices(t, "Sink", string_of(&d).as_str()),
        None => Vec::new(),
    }
}

/// A source that is a real input: not the monitor of a sink.
pub open spec fn is_input(d: AudioDeviceV) -> bool {
    !is_suffix(".monitor"@, d.name) && !is_prefix("Monitor of"@, d.description)
}

/// The devices of `v` that are real inputs, in order.
pub open spec fn inputs_only(v: Seq<AudioDeviceV>) -> Seq<AudioDeviceV>
    decreases v.len(),
{
    if v.len() == 0 {
        seq![]
    } else if is_input(v.last()) {
        inputs_only(v.drop_last()).push(v.last())
    } else {
        inputs_only(v.drop_last())
    }
}

/// The sources that are real inputs, from what `pactl get-default-source`
/// and `pactl list sources` printed.
pub fn list_sources(default_out: Option<&str>, list_out: Option<&str>) -> (r: Vec<AudioDevice>)
    ensures
        audio_view(r@) == match list_out {
            Some(t) => inputs_only(
                parsed_devices(
                    t@,
                    "Source"@,
                    default_name_of(
                        match default_out {
                            Some(s) => Some(s@),
                            None => None,
                        },
                    ),
                ),
            ),
            None => Seq::<AudioDeviceV>::empty(),
        },
{
    let d = default_name_exec(default_out);
    let all = match list_out {
        Some(t) => parse_devices(t, "Source", string_of(&d).as_str()),
        None => {
            return Vec::new();
        },
    };
    let monitor = chars_of(".monitor");
    let monitor_of = chars_of("Monitor of");
    let mut out: Vec<AudioDevice> = Vec::new();
    let mut i: usize = 0;
    proof {
        assert(audio_view(all@).take(0) =~= Seq::<AudioDeviceV>::empty());
    }
    while i < all.len()
        invariant
            i <= all.len(),
            monitor@ == ".monitor"@,
            monitor_of@ == "Monitor of"@,
            audio_view(out@) == inputs_only(audio_view(all@).take(i as int)),
        decreases all.len() - i,
    {
        let ghost prev = out@;
        proof {
            assert(audio_view(all@).take(i + 1).drop_last() =~= audio_view(all@).take(i as int));
            assert(audio_view(all@).take(i + 1).last() == all@[i as int]@);
        }
        let n = chars_of(all[i].name.as_str());
        let ds = chars_of(all[i].description.as_str());
        if !ends_with(&n, &monitor) && !starts_with(&ds, &monitor_of) {
            let dev = copy_device(&all[i]);
            out.push(dev);
            proof {
                assert(audio_view(out@) =~= audio_view(prev).push(all@[i as int]@));
            }
        }
        i = i + 1;
    }
    proof {
        assert(audio_view(all@).take(all.len() as int) =~= audio_view(all@));
    }
    out
}

/// The `pactl` arguments that make `name` the default sink.
pub fn set_default_sink(name: &str) -> (r: Vec<String>)
    ensures
        strings_view(r@) == seq!["set-default-sink"@, name@],
{
    args2("set-default-sink", name)
}

/// The `pactl` arguments that make `name` the default source.
pub fn set_default_source(name: &str) -> (r: Vec<String>)
    ensures
        strings_view(r@) == seq!["set-default-source"@, name@],
{
    args2("set-default-source", name)
}

/// What a run of `pactl` with `args` means: success, `pactl not found: ...`
/// or `pactl <args> failed (exit <code>)`.
pub fn pactl_result(args: &Vec<String>, o: &RunOutcome) -> (r: Result<(), String>)
    ensures
        unit_result(r) == run_result("pactl"@, strings_view(args@), *o, true),
{
    command_result("pactl", args, o, true)
}


/// Block `q` of the lines `ls`, whose blocks start at `starts`: the lines
/// from its start up to the next block's start (or the end).
pub open spec fn block_of(ls: Seq<Seq<char>>, starts: Seq<int>, q: int) -> Seq<Seq<char>> {
    ls.subrange(starts[q], block_end(starts, q, ls.len() as int))
}

/// The block that device `j` of the first `k` blocks' devices comes from.
spec fn device_block(ls: Seq<Seq<char>>, p: Seq<char>, d: Seq<char>, starts: Seq<int>, k: int, j: int) -> int
    decreases k,
{
    if k <= 0 {
        0
    } else if j < devices_from(ls, p, d, starts, k - 1).len() {
        device_block(ls, p, d, starts, k - 1, j)
    } else {
        k - 1
    }
}

proof fn lemma_devices_len(ls: Seq<Seq<char>>, p: Seq<char>, d: Seq<char>, starts: Seq<int>, k: int)
    requires
        0 <= k,
    ensures
        devices_from(ls, p, d, starts, k).len() <= k,
    decreases k,
{
    if k > 0 {
        lemma_devices_len(ls, p, d, starts, k - 1);
    }
}

/// Device `j` comes from block `device_block(.., j)`, one of the first `k`.
proof fn lemma_device_origin(ls: Seq<Seq<char>>, p: Seq<char>, d: Seq<char>, starts: Seq<int>, k: int, j: int)
    requires
        0 <= j < devices_from(ls, p, d, starts, k).len(),
    ensures
        0 <= device_block(ls, p, d, starts, k, j) < k,
        block_device(block_of(ls, starts, device_block(ls, p, d, starts, k, j)), p, d) == Some(
            devices_from(ls, p, d, starts, k)[j],
        ),
    decreases k,
{
    if k > 0 {
        let rest = devices_from(ls, p, d, starts, k - 1);
        if j < rest.len() {
            lemma_device_origin(ls, p, d, starts, k - 1, j);
        }
    }
}

/// Later devices come from later blocks.
proof fn lemma_device_order(ls: Seq<Seq<char>>, p: Seq<char>, d: Seq<char>, starts: Seq<int>, k: int, j1: int, j2: int)
    requires
        0 <= j1 < j2 < devices_from(ls, p, d, starts, k).len(),
    ensures
        device_block(ls, p, d, starts, k, j1) < device_block(ls, p, d, starts, k, j2),
    decreases k,
{
    if k > 0 {
        let rest = devices_from(ls, p, d, starts, k - 1);
        if j2 < rest.len() {
            lemma_device_order(ls, p, d, starts, k - 1, j1, j2);
        } else {
            lemma_device_origin(ls, p, d, starts, k - 1, j1);
        }
    }
}

/// Whether `f` assigns each of the devices `r` the block it is read from:
/// device `j` is what the lines of block `f(j)` give (the block begins with
/// the header `p`, names the device, and the device is finished from its
/// fields with the default name `d`), and later devices come from later
/// blocks.
pub open spec fn read_from_blocks(
    r: Seq<AudioDeviceV>,
    ls: Seq<Seq<char>>,
    starts: Seq<int>,
    p: Seq<char>,
    d: Seq<char>,
    f: spec_fn(int) -> int,
) -> bool {
    &&& forall|j: int|
        #![trigger f(j)]
        0 <= j < r.len() ==> 0 <= f(j) < starts.len() && begins_with_header(
            block_of(ls, starts, f(j)),
            p,
        ) && fields_of(block_of(ls, starts, f(j)), p).name.len() > 0 && r[j] == finish(
            fields_of(block_of(ls, starts, f(j)), p),
            d,
        )
    &&& forall|j1: int, j2: int| #![trigger f(j1), f(j2)] 0 <= j1 < j2 < r.len() ==> f(j1) < f(j2)
}

/// Each device read from a `pactl list` report comes from a block of its
/// own, and the devices come in the order of their blocks, so there are no
/// more devices than blocks (the first line and each header line start
/// one). A block runs from its start up to the next header line, and the
/// device is what that block's own lines give: the block begins with the
/// header and names the device, and the device's description is the
/// block's description or, where it has none, the name. Each device has a
/// name, is the default exactly when its name is `default_name`, and has
/// the kind its name shows.
pub proof fn law_devices_one_per_block(text: Seq<char>, kind: Seq<char>, default_name: Seq<char>)
    ensures
        parsed_devices(text, kind, default_name).len() <= block_starts(text, kind + " #"@).len(),
        exists|f: spec_fn(int) -> int|
            #[trigger] read_from_blocks(parsed_devices(text, kind, default_name), lines(text), block_starts(text, kind + " #"@), kind + " #"@, default_name, f),
        forall|j: int|
            #![trigger parsed_devices(text, kind, default_name)[j]]
            0 <= j < parsed_devices(text, kind, default_name).len() ==> parsed_devices(text, kind, default_name)[j].name.len() > 0 && parsed_devices(text, kind, default_name)[j].is_default == (parsed_devices(text, kind, default_name)[j].name
                == default_name) && parsed_devices(text, kind, default_name)[j].kind == kind_of(parsed_devices(text, kind, default_name)[j].name),
{
    let p = kind + " #"@;
    let st = block_starts(text, p);
    let ls = lines(text);
    let r = parsed_devices(text, kind, default_name);
    let n = st.len() as int;
    lemma_devices_len(ls, p, default_name, st, n);
    let f = |j: int| device_block(ls, p, default_name, st, n, j);
    assert forall|j: int|
        #![trigger f(j)]
        0 <= j < r.len() implies 0 <= f(j) < st.len() && begins_with_header(block_of(ls, st, f(j)), p)
            && fields_of(block_of(ls, st, f(j)), p).name.len() > 0 && r[j] == finish(
            fields_of(block_of(ls, st, f(j)), p),
            default_name,
        ) by {
        lemma_device_origin(ls, p, default_name, st, n, j);
    }
    assert forall|j1: int, j2: int| #![trigger f(j1), f(j2)] 0 <= j1 < j2 < r.len() implies f(j1) < f(
        j2,
    ) by {
        lemma_device_order(ls, p, default_name, st, n, j1, j2);
    }
    assert(read_from_blocks(r, ls, st, p, default_name, f));
    assert forall|j: int|
        #![trigger r[j]]
        0 <= j < r.len() implies r[j].name.len() > 0 && r[j].is_default == (r[j].name
            == default_name) && r[j].kind == kind_of(r[j].name) by {
        lemma_device_origin(ls, p, default_name, st, n, j);
    }
}

} // verus!
