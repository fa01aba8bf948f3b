//! The ALSA fallback: lists hardware devices from `aplay -l` / `arecord -l`.
//! It cannot switch devices; the set operations answer with a hint to install
//! PipeWire or PulseAudio.
use vstd::prelude::*;
use crate::text::{
    chars_of, string_of, trim, is_prefix, split_once, lines, views, find_str, lemma_find_str,
    digit_run, slice_of, trim_chars, starts_with, split_once_exec, lines_exec, find_str_exec,
    leading_digits, push_all,
};
use crate::num::{parse_uint, parse_u32, dec, fmt_u64};
use crate::gui::audio::kind_of;
use super::{AudioDevice, AudioDeviceV, AudioBackend, devices_view, kind_label, detect_kind};

verus! {

/// The ALSA backend.
pub struct Alsa;

impl AudioBackend for Alsa {
    fn name(&self) -> (r: &'static str)
        ensures
            r@ == "alsa"@,
    {
        "alsa"
    }
}

/// The answer to every request to switch or change a device.
pub open spec fn read_only_message() -> Seq<char> {
    "ALSA backend is read-only. Install PipeWire (wpctl) or PulseAudio (pactl) to switch devices."@
}

/// The number that follows the first `key` in `line`: the digits right
/// after it, as a `u32`.
pub open spec fn field_num(line: Seq<char>, key: Seq<char>) -> Option<u32> {
    match find_str(line, key, 0) {
        None => None,
        Some(i) => {
            let rest = line.skip(i + key.len());
            match parse_uint(rest.take(digit_run(rest) as int), 10, u32::MAX as nat) {
                Some(v) => Some(v as u32),
                None => None,
            }
        },
    }
}

/// `line` up to the first `p`, or all of it.
pub open spec fn before(line: Seq<char>, p: Seq<char>) -> Seq<char> {
    match find_str(line, p, 0) {
        Some(i) => line.take(i),
        None => line,
    }
}

/// The device on a line of `aplay -l`, such as
/// `card 0: PCH [HDA Intel PCH], device 0: ALC892 Analog [ALC892 Analog]`:
/// key `hw:<card>,<device>`, described by what follows the first `:` before
/// `, device`. Card 0 device 0 is the default.
pub open spec fn alsa_line(line: Seq<char>) -> Option<AudioDeviceV> {
    let t = trim(line);
    if !is_prefix("card "@, t) {
        None
    } else {
        match field_num(t, "card "@) {
            None => None,
            Some(card) => {
                let device: u32 = match field_num(t, "device "@) {
                    Some(d) => d,
                    None => 0,
                };
                let desc = match split_once(before(t, ", device"@), ':') {
                    Some((_, n)) => trim(n),
                    None => t,
                };
                Some(
                    AudioDeviceV {
                        index: card,
                        name: "hw:"@ + dec(card as nat) + ","@ + dec(device as nat),
                        description: desc,
                        state: seq![],
                        muted: false,
                        volume: None,
                        is_default: card == 0 && device == 0,
                        kind: kind_label(kind_of(desc)),
                    },
                )
            },
        }
    }
}

pub open spec fn alsa_lines(ls: Seq<Seq<char>>) -> Seq<AudioDeviceV>
    decreases ls.len(),
{
    if ls.len() == 0 {
        seq![]
    } else {
        match alsa_line(ls.last()) {
            Some(d) => alsa_lines(ls.drop_last()).push(d),
            None => alsa_lines(ls.drop_last()),
        }
    }
}

fn field_num_exec(line: &Vec<char>, key: &Vec<char>) -> (r: Option<u32>)
    ensures
        r == field_num(line@, key@),
{
    match find_str_exec(line, key) {
        None => None,
        Some(i) => {
            assert(i + key@.len() <= line@.len());
            assert(line@.len() == line.len() && key@.len() == key.len());
            let rest = slice_of(line, i + key.len(), line.len());
            proof {
                assert(rest@ =~= line@.skip(i + key@.len()));
            }
            parse_u32(&leading_digits(&rest))
        },
    }
}

fn before_exec(line: &Vec<char>, p: &Vec<char>) -> (r: Vec<char>)
    ensures
        r@ == before(line@, p@),
{
    match find_str_exec(line, p) {
        Some(i) => {
            let r = slice_of(line, 0, i);
            proof {
                assert(r@ =~= line@.take(i as int));
            }
            r
        },
        None => crate::text::copy(line),
    }
}

fn alsa_line_exec(line: &Vec<char>) -> (r: Option<AudioDevice>)
    ensures
        match r {
            Some(d) => alsa_line(line@) == Some(d@),
            None => alsa_line(line@) is None,
        },
{
    let t = trim_chars(line);
    if !starts_with(&t, &chars_of("card ")) {
        return None;
    }
    let card = match field_num_exec(&t, &chars_of("card ")) {
        Some(c) => c,
        None => {
            return None;
        },
    };
    let device: u32 = match field_num_exec(&t, &chars_of("device ")) {
        Some(d) => d,
        None => 0,
    };
    let head = before_exec(&t, &chars_of(", device"));
    let desc = match split_once_exec(&head, ':') {
        Some((_, n)) => trim_chars(&n),
        None => t,
    };
    let mut name = chars_of("hw:");
    push_all(&mut name, &fmt_u64(card as u64));
    push_all(&mut name, &chars_of(","));
    push_all(&mut name, &fmt_u64(device as u64));
    let desc_s = string_of(&desc);
    let kind = String::from_str(detect_kind(desc_s.as_str()));
    Some(
        AudioDevice {
            index: card,
            name: string_of(&name),
            description: desc_s,
            state: String::new(),
            muted: false,
            volume: None,
            is_default: card == 0 && device == 0,
            kind,
        },
    )
}

/// The devices that `aplay -l` (or `arecord -l`) listed, from what it printed
/// (`None` where it could not be run or failed).
pub fn list(out: Option<&str>) -> (r: Vec<AudioDevice>)
    ensures
        devices_view(r@) == match out {
            Some(t) => alsa_lines(lines(t@)),
            None => Seq::<AudioDeviceV>::empty(),
        },
{
    let text = match out {
        Some(t) => t,
        None => {
            return Vec::new();
        },
    };
    let ls = lines_exec(&chars_of(text));
    let ghost lsv = views(ls@);
    let mut devices: Vec<AudioDevice> = Vec::new();
    let mut i: usize = 0;
    proof {
        assert(lsv.take(0) =~= Seq::<Seq<char>>::empty());
    }
    while i < ls.len()
        invariant
            i <= ls.len(),
            lsv == views(ls@),
            devices_view(devices@) == alsa_lines(lsv.take(i as int)),
        decreases ls.len() - i,
    {
        let ghost prev = devices@;
        proof {
            assert(lsv.take(i + 1).drop_last() =~= lsv.take(i as int));
            assert(lsv.take(i + 1).last() == ls@[i as int]@);
        }
        match alsa_line_exec(&ls[i]) {
            Some(d) => {
                devices.push(d);
                proof {
                    assert(devices_view(devices@) =~= devices_view(prev).push(d@));
                }
            },
            None => {},
        }
        i = i + 1;
    }
    proof {
        assert(lsv.take(ls.len() as int) =~= lsv);
    }
    devices
}

/// The message of every switching request.
pub fn read_only() -> (r: Result<(), String>)
    ensures
        r matches Err(e) && e@ == read_only_message(),
{
    Err(
        String::from_str(
            "ALSA backend is read-only. Install PipeWire (wpctl) or PulseAudio (pactl) to switch devices.",
        ),
    )
}

impl Alsa {
    /// The playback devices, from what `aplay -l` printed.
    pub fn outputs(&self, aplay_out: Option<&str>) -> (r: Vec<AudioDevice>)
        ensures
            devices_view(r@) == match aplay_out {
                Some(t) => alsa_lines(lines(t@)),
                None => Seq::<AudioDeviceV>::empty(),
            },
    {
        list(aplay_out)
    }

    /// The capture devices, from what `arecord -l` printed.
    pub fn inputs(&self, arecord_out: Option<&str>) -> (r: Vec<AudioDevice>)
        ensures
            devices_view(r@) == match arecord_out {
                Some(t) => alsa_lines(lines(t@)),
                None => Seq::<AudioDeviceV>::empty(),
            },
    {
        list(arecord_out)
    }

    /// Switching the default output is refused.
    pub fn set_default_output(&self, id: &str) -> (r: Result<(), String>)
        ensures
            r matches Err(e) && e@ == read_only_message(),
    {
        read_only()
    }

    /// Switching the default input is refused.
    pub fn set_default_input(&self, id: &str) -> (r: Result<(), String>)
        ensures
            r matches Err(e) && e@ == read_only_message(),
    {
        read_only()
    }

    /// Setting a volume is refused.
    pub fn set_volume(&self, id: &str, percent: u32) -> (r: Result<(), String>)
        ensures
            r matches Err(e) && e@ == read_only_message(),
    {
        read_only()
    }

    /// Muting is refused.
    pub fn set_mute(&self, id: &str, muted: bool) -> (r: Result<(), String>)
        ensures
            r matches Err(e) && e@ == read_only_message(),
    {
        read_only()
    }
}

} // verus!
