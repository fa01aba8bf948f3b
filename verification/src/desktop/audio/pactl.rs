//! The `pactl` backend, for PipeWire-pulse and PulseAudio.
use vstd::prelude::*;
use crate::text::{
    chars_of, string_of, trim, is_prefix, split, lines, views, trim_end_char, trim_chars,
    starts_with, strip_prefix, slice_of, lines_exec, split_exec, trim_end_char_exec, eq, push_all,
    ends_with, is_suffix,
};
use crate::num::{parse_uint, parse_u32, dec, fmt_u64};
use crate::gui::audio::{kind_of, u32_or_zero};
use crate::desktop::command::{RunOutcome, run_result, command_result, unit_result, strings_view};
use super::{AudioDevice, AudioDeviceV, AudioBackend, devices_view, kind_label, detect_kind, copy_device};

verus! {

/// The `pactl` backend.
pub struct Pactl;

impl AudioBackend for Pactl {
    fn name(&self) -> (r: &'static str)
        ensures
            r@ == "pactl"@,
    {
        "pactl"
    }
}

/// The device a block header with index `index` opens.
pub open spec fn fresh_device(index: u32) -> AudioDeviceV {
    AudioDeviceV {
        index,
        name: seq![],
        description: seq![],
        state: seq![],
        muted: false,
        volume: None,
        is_default: false,
        kind: "Builtin"@,
    }
}

/// The first of the pieces that ends in `%` once trimmed, trimmed.
pub open spec fn first_percent_piece(ps: Seq<Seq<char>>) -> Option<Seq<char>>
    decreases ps.len(),
{
    if ps.len() == 0 {
        None
    } else if trim(ps[0]).len() > 0 && trim(ps[0]).last() == '%' {
        Some(trim(ps[0]))
    } else {
        first_percent_piece(ps.drop_first())
    }
}

/// The volume on a `Volume:` line: the first `/`-separated piece that ends in
/// `%`, without its `%`s, read as a `u32`.
pub open spec fn volume_of(line: Seq<char>) -> Option<u32> {
    match first_percent_piece(split(line, '/')) {
        Some(s) => match parse_uint(trim(trim_end_char(s, '%')), 10, u32::MAX as nat) {
            Some(v) => Some(v as u32),
            None => None,
        },
        None => None,
    }
}

/// What a trimmed line inside a block sets on the device being read.
pub open spec fn dev_step(d: AudioDeviceV, t: Seq<char>, default_name: Seq<char>) -> AudioDeviceV {
    if is_prefix("Name: "@, t) {
        let v = t.skip("Name: "@.len() as int);
        AudioDeviceV { name: v, kind: kind_label(kind_of(v)), is_default: v == default_name, ..d }
    } else if is_prefix("Description: "@, t) {
        AudioDeviceV { description: t.skip("Description: "@.len() as int), ..d }
    } else if is_prefix("State: "@, t) {
        AudioDeviceV { state: t.skip("State: "@.len() as int), ..d }
    } else if is_prefix("Mute: "@, t) {
        AudioDeviceV { muted: trim(t.skip("Mute: "@.len() as int)) == "yes"@, ..d }
    } else if d.volume is None && is_prefix("Volume:"@, t) {
        AudioDeviceV { volume: volume_of(t), ..d }
    } else {
        d
    }
}

/// A device's description, or its name where it has none.
pub open spec fn described(d: AudioDeviceV) -> AudioDeviceV {
    if d.description.len() == 0 {
        AudioDeviceV { description: d.name, ..d }
    } else {
        d
    }
}

/// The list once the device being read is done with: it joins the list when
/// it has a name.
pub open spec fn flushed(out: Seq<AudioDeviceV>, cur: Option<AudioDeviceV>) -> Seq<AudioDeviceV> {
    match cur {
        Some(d) => if d.name.len() > 0 {
            out.push(described(d))
        } else {
            out
        },
        None => out,
    }
}

/// One line of the report: a header (`p`) ends the device being read and
/// opens the next; other lines fill in the device being read, if any.
pub open spec fn pactl_step(
    st: (Seq<AudioDeviceV>, Option<AudioDeviceV>),
    line: Seq<char>,
    p: Seq<char>,
    default_name: Seq<char>,
) -> (Seq<AudioDeviceV>, Option<AudioDeviceV>) {
    let t = trim(line);
    if is_prefix(p, t) {
        (flushed(st.0, st.1), Some(fresh_device(u32_or_zero(trim(t.skip(p.len() as int))))))
    } else {
        match st.1 {
            Some(d) => (st.0, Some(dev_step(d, t, default_name))),
            None => st,
        }
    }
}

pub open spec fn pactl_fold(ls: Seq<Seq<char>>, p: Seq<char>, default_name: Seq<char>) -> (Seq<
    AudioDeviceV,
>, Option<AudioDeviceV>)
    decreases ls.len(),
{
    if ls.len() == 0 {
        (seq![], None)
    } else {
        pactl_step(pactl_fold(ls.drop_last(), p, default_name), ls.last(), p, default_name)
    }
}

/// The devices of a `pactl list sinks|sources` report, `kind` being `Sink` or
/// `Source` and `default_name` the default device's name.
pub open spec fn pactl_devices(text: Seq<char>, kind: Seq<char>, default_name: Seq<char>) -> Seq<
    AudioDeviceV,
> {
    let st = pactl_fold(lines(text), kind + " #"@, default_name);
    flushed(st.0, st.1)
}

pub open spec fn opt_dev_view(o: Option<AudioDevice>) -> Option<AudioDeviceV> {
    match o {
        Some(d) => Some(d@),
        None => None,
    }
}

fn flush(out: &mut Vec<AudioDevice>, cur: Option<AudioDevice>)
    ensures
        devices_view(final(out)@) == flushed(devices_view(old(out)@), opt_dev_view(cur)),
{
    match cur {
        Some(d) => {
            if !d.name.as_str().is_empty() {
                let mut d = d;
                if d.description.as_str().is_empty() {
                    d.description = d.name.clone();
                }
                let ghost before = out@;
                out.push(d);
                proof {
                    assert(devices_view(out@) =~= devices_view(before).push(d@));
                }
            }
        },
        None => {},
    }
}

fn volume_exec(t: &Vec<char>) -> (r: Option<u32>)
    ensures
        r == volume_of(t@),
{
    let ps = split_exec(t, '/');
    let ghost pv = views(ps@);
    let mut i: usize = 0;
    proof {
        assert(pv.skip(0) =~= pv);
    }
    while i < ps.len()
        invariant
            i <= ps.len(),
            pv == views(ps@),
            pv == split(t@, '/'),
            first_percent_piece(pv) == first_percent_piece(pv.skip(i as int)),
        decreases ps.len() - i,
    {
        let piece = trim_chars(&ps[i]);
        proof {
            assert(pv.skip(i as int)[0] == ps@[i as int]@);
            assert(pv.skip(i as int).drop_first() =~= pv.skip(i + 1));
        }
        if piece.len() > 0 && piece[piece.len() - 1] == '%' {
            let stripped = trim_end_char_exec(&piece, '%');
            let st = trim_chars(&stripped);
            return parse_u32(&st);
        }
        i = i + 1;
    }
    proof {
        assert(pv.skip(ps.len() as int) =~= Seq::<Seq<char>>::empty());
    }
    None
}

fn dev_step_exec(d: AudioDevice, t: &Vec<char>, default_name: &Vec<char>) -> (r: AudioDevice)
    ensures
        r@ == dev_step(d@, t@, default_name@),
{
    let mut d = d;
    match strip_prefix(t, &chars_of("Name: ")) {
        Some(v) => {
            let name = string_of(&v);
            d.kind = String::from_str(detect_kind(name.as_str()));
            d.is_default = eq(&v, default_name);
            d.name = name;
            return d;
        },
        None => {},
    }
    match strip_prefix(t, &chars_of("Description: ")) {
        Some(v) => {
            d.description = string_of(&v);
            return d;
        },
        None => {},
    }
    match strip_prefix(t, &chars_of("State: ")) {
        Some(v) => {
            d.state = string_of(&v);
            return d;
        },
        None => {},
    }
    match strip_prefix(t, &chars_of("Mute: ")) {
        Some(v) => {
            d.muted = eq(&trim_chars(&v), &chars_of("yes"));
            return d;
        },
        None => {},
    }
    if d.volume.is_none() && starts_with(t, &chars_of("Volume:")) {
        d.volume = volume_exec(t);
    }
    d
}

/// Reads the devices of a `pactl list sinks` or `pactl list sources` report:
/// each `<kind> #<index>` line opens a device, and the `Name:`,
/// `Description:`, `State:`, `Mute:` and first `Volume:` lines after it fill
/// it in. Devices without a name are left out; a device without a
/// description is described by its name.
pub fn parse(text: &str, kind: &str, default_name: &str) -> (r: Vec<AudioDevice>)
    ensures
        devices_view(r@) == pactl_devices(text@, kind@, default_name@),
{
    let t = chars_of(text);
    let dflt = chars_of(default_name);
    let mut p = chars_of(kind);
    push_all(&mut p, &chars_of(" #"));
    let ls = lines_exec(&t);
    let ghost lsv = views(ls@);
    let mut out: Vec<AudioDevice> = Vec::new();
    let mut cur: Option<AudioDevice> = None;
    let mut i: usize = 0;
    proof {
        assert(lsv.take(0) =~= Seq::<Seq<char>>::empty());
    }
    while i < ls.len()
        invariant
            i <= ls.len(),
            lsv == views(ls@),
            lsv == lines(t@),
            (devices_view(out@), opt_dev_view(cur)) == pactl_fold(lsv.take(i as int), p@, dflt@),
        decreases ls.len() - i,
    {
        proof {
            assert(lsv.take(i + 1).drop_last() =~= lsv.take(i as int));
            assert(lsv.take(i + 1).last() == ls@[i as int]@);
        }
        let line = trim_chars(&ls[i]);
        if starts_with(&line, &p) {
            let rest = slice_of(&line, p.len(), line.len());
            proof {
                assert(rest@ =~= line@.skip(p@.len() as int));
            }
            let index = match parse_u32(&trim_chars(&rest)) {
                Some(v) => v,
                None => 0,
            };
            flush(&mut out, cur);
            cur = Some(
                AudioDevice {
                    index,
                    name: String::new(),
                    description: String::new(),
                    state: String::new(),
                    muted: false,
                    volume: None,
                    is_default: false,
                    kind: String::from_str("Builtin"),
                },
            );
        } else {
            cur = match cur {
                Some(d) => Some(dev_step_exec(d, &line, &dflt)),
                None => None,
            };
        }
        i = i + 1;
    }
    proof {
        assert(lsv.take(ls.len() as int) =~= lsv);
    }
    flush(&mut out, cur);
    out
}

/// The default device's name from what `pactl get-default-sink` (or
/// `-source`) printed: trimmed, or empty where it gave nothing.
pub open spec fn default_of(out: Option<Seq<char>>) -> Seq<char> {
    match out {
        Some(s) => trim(s),
        None => seq![],
    }
}

pub open spec fn str_view(o: Option<&str>) -> Option<Seq<char>> {
    match o {
        Some(s) => Some(s@),
        None => None,
    }
}

pub fn default_exec(out: Option<&str>) -> (r: String)
    ensures
        r@ == default_of(str_view(out)),
{
    match out {
        Some(s) => string_of(&trim_chars(&chars_of(s))),
        None => String::new(),
    }
}

/// A source that is a real input, not the monitor of a sink.
pub open spec fn is_input(d: AudioDeviceV) -> bool {
    !is_suffix(".monitor"@, d.name) && !is_prefix("Monitor of"@, d.description)
}

/// The real inputs among `v`, in order.
pub open spec fn inputs_only(v: Seq<AudioDeviceV>) -> Seq<AudioDeviceV>
    decreases v.len(),
{
    if v.len() == 0 {
        seq![]
    } else if is_input(v.last()) {
        inputs_only(v.drop_last()).push(v.last())
    } else {
        inputs_only(v.drop_last())
    }
}

/// The real inputs among `all`.
pub fn keep_inputs(all: &Vec<AudioDevice>) -> (r: Vec<AudioDevice>)
    ensures
        devices_view(r@) == inputs_only(devices_view(all@)),
{
    let monitor = chars_of(".monitor");
    let monitor_of = chars_of("Monitor of");
    let mut out: Vec<AudioDevice> = Vec::new();
    let mut i: usize = 0;
    proof {
        assert(devices_view(all@).take(0) =~= Seq::<AudioDeviceV>::empty());
    }
    while i < all.len()
        invariant
            i <= all.len(),
            monitor@ == ".monitor"@,
            monitor_of@ == "Monitor of"@,
            devices_view(out@) == inputs_only(devices_view(all@).take(i as int)),
        decreases all.len() - i,
    {
        let ghost prev = out@;
        proof {
            assert(devices_view(all@).take(i + 1).drop_last() =~= devices_view(all@).take(
                i as int,
            ));
            assert(devices_view(all@).take(i + 1).last() == all@[i as int]@);
        }
        let n = chars_of(all[i].name.as_str());
        let ds = chars_of(all[i].description.as_str());
        if !ends_with(&n, &monitor) && !starts_with(&ds, &monitor_of) {
            let dev = copy_device(&all[i]);
            out.push(dev);
            proof {
                assert(devices_view(out@) =~= devices_view(prev).push(all@[i as int]@));
            }
        }
        i = i + 1;
    }
    proof {
        assert(devices_view(all@).take(all.len() as int) =~= devices_view(all@));
    }
    out
}

/// `p` capped at 150, then `%`: the volume argument of `set-sink-volume`.
pub open spec fn percent_arg(p: u32) -> Seq<char> {
    dec((if p > 150 {
        150
    } else {
        p
    }) as nat) + "%"@
}

/// The volume argument of `set-sink-volume` is the percentage capped at
/// 150, written in decimal digits without a leading zero, then `%` (5
/// gives `5%`, 200 gives `150%`).
pub proof fn law_percent_arg(p: u32)
    ensures
        percent_arg(p).len() >= 2,
        percent_arg(p).last() == '%',
        crate::num::all_digits(percent_arg(p).drop_last(), 10),
        crate::num::digits_value(percent_arg(p).drop_last(), 10) == if p > 150 {
            150
        } else {
            p as nat
        },
        percent_arg(p)[0] == '0' ==> p == 0 && percent_arg(p).len() == 2,
{
    let q: nat = if p > 150 {
        150
    } else {
        p as nat
    };
    crate::num::law_dec_reads_back(q);
    reveal_strlit("%");
    assert(percent_arg(p).drop_last() =~= dec(q));
    assert(percent_arg(p)[0] == dec(q)[0]);
}

pub fn percent_arg_exec(p: u32) -> (r: String)
    ensures
        r@ == percent_arg(p),
{
    let q: u64 = if p > 150 {
        150
    } else {
        p as u64
    };
    let mut c = fmt_u64(q);
    push_all(&mut c, &chars_of("%"));
    string_of(&c)
}

/// `"1"` to mute, `"0"` to unmute.
pub fn flag_arg(muted: bool) -> (r: &'static str)
    ensures
        r@ == if muted {
            "1"@
        } else {
            "0"@
        },
{
    if muted {
        "1"
    } else {
        "0"
    }
}

impl Pactl {
    /// The sinks, from what `pactl get-default-sink` and `pactl list sinks`
    /// printed (`None` where a run failed).
    pub fn outputs(&self, default_out: Option<&str>, list_out: Option<&str>) -> (r: Vec<AudioDevice>)
        ensures
            devices_view(r@) == match list_out {
                Some(t) => pactl_devices(t@, "Sink"@, default_of(str_view(default_out))),
                None => Seq::<AudioDeviceV>::empty(),
            },
    {
        let d = default_exec(default_out);
        match list_out {
            Some(t) => parse(t, "Sink", d.as_str()),
            None => Vec::new(),
        }
    }

    /// The sources that are real inputs, from what `pactl get-default-source`
    /// and `pactl list sources` printed.
    pub fn inputs(&self, default_out: Option<&str>, list_out: Option<&str>) -> (r: Vec<AudioDevice>)
        ensures
            devices_view(r@) == match list_out {
                Some(t) => inputs_only(pactl_devices(t@, "Source"@, default_of(str_view(default_out)))),
                None => Seq::<AudioDeviceV>::empty(),
            },
    {
        let d = default_exec(default_out);
        match list_out {
            Some(t) => keep_inputs(&parse(t, "Source", d.as_str())),
            None => Vec::new(),
        }
    }

    /// The `pactl` arguments that make `id` the default sink.
    pub fn set_default_output(&self, id: &str) -> (r: Vec<String>)
        ensures
            strings_view(r@) == seq!["set-default-sink"@, id@],
    {
        crate::desktop::command::args2("set-default-sink", id)
    }

    /// The `pactl` arguments that make `id` the default source.
    pub fn set_default_input(&self, id: &str) -> (r: Vec<String>)
        ensures
            strings_view(r@) == seq!["set-default-source"@, id@],
    {
        crate::desktop::command::args2("set-default-source", id)
    }

    /// The `pactl` arguments that set the volume of `id`, capped at 150%.
    pub fn set_volume(&self, id: &str, percent: u32) -> (r: Vec<String>)
        ensures
            strings_view(r@) == seq!["set-sink-volume"@, id@, percent_arg(percent)],
    {
        crate::desktop::command::args3("set-sink-volume", id, percent_arg_exec(percent).as_str())
    }

    /// The `pactl` arguments that mute or unmute `id`.
    pub fn set_mute(&self, id: &str, muted: bool) -> (r: Vec<String>)
        ensures
            strings_view(r@) == seq!["set-sink-mute"@, id@, if muted {
                "1"@
            } else {
                "0"@
            }],
    {
        crate::desktop::command::args3("set-sink-mute", id, flag_arg(muted))
    }

    /// What a run of `pactl` with `args` means: success, `pactl not found:
    /// ...` or `pactl <args> failed`.
    pub fn result(&self, args: &Vec<String>, o: &RunOutcome) -> (r: Result<(), String>)
        ensures
            unit_result(r) == run_result("pactl"@, strings_view(args@), *o, false),
    {
        command_result("pactl", args, o, false)
    }
}

} // verus!
