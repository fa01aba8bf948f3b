//! The WirePlumber backend: reads `wpctl status` and switches by node id.
use vstd::prelude::*;
use crate::text::{
    chars_of, string_of, trim, trim_end, contains, has_char, split_once, words, lines, views,
    trim_end_char, find_from, lemma_find_from_bounds, slice_of, trim_chars, split_once_exec,
    trim_end_char_exec, contains_exec, has_char_exec, words_exec, lines_exec, push_all, find_char,
};
use crate::num::{parse_uint, parse_u32, all_digits, digits_value, digit_val, dec, fmt_u64};
use crate::gui::audio::kind_of;
use crate::desktop::command::{RunOutcome, run_result, command_result, unit_result, strings_view};
use super::{AudioDevice, AudioDeviceV, AudioBackend, devices_view, kind_label, detect_kind};

verus! {

/// The WirePlumber backend.
pub struct Wpctl;

impl AudioBackend for Wpctl {
    fn name(&self) -> (r: &'static str)
        ensures
            r@ == "wpctl"@,
    {
        "wpctl"
    }
}

/// A character of the tree drawing (and the default marker) that starts the
/// lines of `wpctl status`.
pub open spec fn is_tree_char(c: char) -> bool {
    c == '│' || c == '├' || c == '└' || c == '─' || c == ' ' || c == '*'
}

pub open spec fn tree_run(s: Seq<char>) -> nat
    decreases s.len(),
{
    if s.len() > 0 && is_tree_char(s[0]) {
        1 + tree_run(s.drop_first())
    } else {
        0
    }
}

/// Digit `i` of `ds`, 0 outside it.
pub open spec fn digit_at(ds: Seq<char>, i: int) -> nat {
    if 0 <= i < ds.len() {
        digit_val(ds[i], 10) as nat
    } else {
        0
    }
}

/// The number written by the first `n` digits of `ds`, with zeros past
/// its end (0 where `n <= 0`).
pub open spec fn shifted_value(ds: Seq<char>, n: int) -> nat
    decreases n,
{
    if n <= 0 {
        0
    } else {
        shifted_value(ds, n - 1) * 10 + digit_at(ds, n - 1)
    }
}

/// Whether `s` is the word `lo` in any mix of its lower case `lo` and upper
/// case `up` letters.
pub open spec fn word_ignoring_case(s: Seq<char>, lo: Seq<char>, up: Seq<char>) -> bool {
    &&& s.len() == lo.len()
    &&& up.len() == lo.len()
    &&& forall|i: int| 0 <= i < s.len() ==> s[i] == lo[i] || s[i] == up[i]
}

/// The position of the first `e` or `E` in `s` from `i` on, or `s.len()`.
pub open spec fn exp_mark(s: Seq<char>, i: int) -> int
    decreases s.len() - i,
{
    if i < 0 || i >= s.len() {
        s.len() as int
    } else if s[i] == 'e' || s[i] == 'E' {
        i
    } else {
        exp_mark(s, i + 1)
    }
}

/// The exponent written after the `e`: an optional sign, then digits.
pub open spec fn exponent_value(x: Seq<char>) -> Option<int> {
    let neg = x.len() > 0 && x[0] == '-';
    let ds = if x.len() > 0 && (x[0] == '+' || x[0] == '-') {
        x.drop_first()
    } else {
        x
    };
    if ds.len() == 0 || !all_digits(ds, 10) {
        None
    } else if neg {
        Some(-(digits_value(ds, 10) as int))
    } else {
        Some(digits_value(ds, 10) as int)
    }
}

/// A volume token in percent, as `f32`'s `FromStr` reads it followed by
/// `(f * 100).round() as u32`, with the number taken exactly: an optional
/// sign, then `inf`, `infinity` or `nan` in any case, or digits with an
/// optional point (at least one digit in all) and an optional exponent
/// (`e` or `E`, an optional sign, digits). The percent is rounded half up
/// and capped at `u32::MAX`; negative volumes and `nan` give 0, `inf`
/// gives `u32::MAX`.
pub open spec fn decimal_percent(tok: Seq<char>) -> Option<u32> {
    let neg = tok.len() > 0 && tok[0] == '-';
    let body = if tok.len() > 0 && (tok[0] == '+' || tok[0] == '-') {
        tok.drop_first()
    } else {
        tok
    };
    if word_ignoring_case(body, "inf"@, "INF"@) || word_ignoring_case(
        body,
        "infinity"@,
        "INFINITY"@,
    ) {
        Some(
            if neg {
                0
            } else {
                u32::MAX
            },
        )
    } else if word_ignoring_case(body, "nan"@, "NAN"@) {
        Some(0)
    } else {
        let em = exp_mark(body, 0);
        let mant = body.take(em);
        let exp = if em < body.len() {
            exponent_value(body.skip(em + 1))
        } else {
            Some(0int)
        };
        let dot = find_from(mant, '.', 0);
        let ip = mant.take(dot);
        let fp = if dot < mant.len() {
            mant.skip(dot + 1)
        } else {
            seq![]
        };
        if !all_digits(ip, 10) || !all_digits(fp, 10) || ip.len() + fp.len() == 0 || exp is None {
            None
        } else if neg {
            Some(0)
        } else {
            Some(percent_at(ip + fp, ip.len() + 2 + exp->0))
        }
    }
}

/// The digits `ds` read with the point before digit `pos`, rounded half up
/// to a whole number and capped at `u32::MAX`.
pub open spec fn percent_at(ds: Seq<char>, pos: int) -> u32 {
    let v = shifted_value(ds, pos) + if digit_at(ds, pos) >= 5 {
        1nat
    } else {
        0nat
    };
    if v > u32::MAX {
        u32::MAX
    } else {
        v as u32
    }
}

/// The volume of the first token that reads as a number.
pub open spec fn first_volume(ws: Seq<Seq<char>>) -> Option<u32>
    decreases ws.len(),
{
    if ws.len() == 0 {
        None
    } else if decimal_percent(ws[0]) is Some {
        decimal_percent(ws[0])
    } else {
        first_volume(ws.drop_first())
    }
}

/// The device on a line of a `wpctl status` section, such as
/// `│  *   49. Built-in Audio Analog Stereo  [vol: 0.65]`: its node id, its
/// name and what the brackets say. The node id is the switching key; a `*`
/// marks the default.
pub open spec fn wp_parse_line(line: Seq<char>) -> Option<AudioDeviceV> {
    let s = trim(line.skip(tree_run(line) as int));
    match split_once(s, '.') {
        None => None,
        Some((idp, rest0)) => match parse_uint(trim(idp), 10, u32::MAX as nat) {
            None => None,
            Some(id) => {
                let rest = trim(rest0);
                let nv: (Seq<char>, Seq<char>) = match split_once(rest, '[') {
                    Some((n, v)) => (trim(n), trim_end_char(v, ']')),
                    None => (rest, seq![]),
                };
                if nv.0.len() == 0 {
                    None
                } else {
                    Some(
                        AudioDeviceV {
                            index: id as u32,
                            name: dec(id),
                            description: nv.0,
                            state: seq![],
                            muted: contains(nv.1, "MUTED"@),
                            volume: first_volume(words(nv.1)),
                            is_default: exists|i: int| 0 <= i < line.len() && line[i] == '*',
                            kind: kind_label(kind_of(nv.0)),
                        },
                    )
                }
            },
        },
    }
}

/// A line that opens a sub-tree of `wpctl status` (`├─ Sources:`).
pub open spec fn is_tree_header(line: Seq<char>) -> bool {
    (contains(line, "├─"@) || contains(line, "└─"@)) && trim_end(line).len() > 0 && trim_end(
        line,
    ).last() == ':'
}

/// The first line from `i` on that contains `needle`, or `ls.len()`.
pub open spec fn first_containing(ls: Seq<Seq<char>>, needle: Seq<char>, i: int) -> int
    decreases ls.len() - i,
{
    if i < 0 || i >= ls.len() {
        ls.len() as int
    } else if contains(ls[i], needle) {
        i
    } else {
        first_containing(ls, needle, i + 1)
    }
}

/// The first sub-tree header from `i` on, or `ls.len()`.
pub open spec fn first_header(ls: Seq<Seq<char>>, i: int) -> int
    decreases ls.len() - i,
{
    if i < 0 || i >= ls.len() {
        ls.len() as int
    } else if is_tree_header(ls[i]) {
        i
    } else {
        first_header(ls, i + 1)
    }
}

/// The devices of the lines that read as one, in order.
pub open spec fn parsed_lines(ls: Seq<Seq<char>>) -> Seq<AudioDeviceV>
    decreases ls.len(),
{
    if ls.len() == 0 {
        seq![]
    } else {
        match wp_parse_line(ls.last()) {
            Some(d) => parsed_lines(ls.drop_last()).push(d),
            None => parsed_lines(ls.drop_last()),
        }
    }
}

/// The devices of the `<header>:` section of `wpctl status`: the lines after
/// the first line that contains `<header>:`, up to the next sub-tree header.
pub open spec fn section_devices(text: Seq<char>, header: Seq<char>) -> Seq<AudioDeviceV> {
    let ls = lines(text);
    let k = first_containing(ls, header + ":"@, 0);
    if k >= ls.len() {
        seq![]
    } else {
        parsed_lines(ls.subrange(k + 1, first_header(ls, k + 1)))
    }
}

proof fn lemma_first_containing(ls: Seq<Seq<char>>, needle: Seq<char>, i: int)
    requires
        0 <= i <= ls.len(),
    ensures
        i <= first_containing(ls, needle, i) <= ls.len(),
    decreases ls.len() - i,
{
    if i < ls.len() && !contains(ls[i], needle) {
        lemma_first_containing(ls, needle, i + 1);
    }
}

proof fn lemma_first_header(ls: Seq<Seq<char>>, i: int)
    requires
        0 <= i <= ls.len(),
    ensures
        i <= first_header(ls, i) <= ls.len(),
    decreases ls.len() - i,
{
    if i < ls.len() && !is_tree_header(ls[i]) {
        lemma_first_header(ls, i + 1);
    }
}

fn is_tree_char_exec(c: char) -> (r: bool)
    ensures
        r == is_tree_char(c),
{
    c == '│' || c == '├' || c == '└' || c == '─' || c == ' ' || c == '*'
}

/// One more than `u32::MAX`: past every volume.
const SAT: u64 = 4294967296;

/// `x`, or [`SAT`] where it is larger.
spec fn sat(x: nat) -> nat {
    if x > SAT {
        SAT as nat
    } else {
        x
    }
}

/// The largest exponent kept as it is; larger ones are read as this one.
const ECAP: u128 = 1267650600228229401496703205376;

spec fn pow10(j: nat) -> nat
    decreases j,
{
    if j == 0 {
        1
    } else {
        10 * pow10((j - 1) as nat)
    }
}

proof fn lemma_shifted_mono(ds: Seq<char>, k: int, n: int)
    requires
        k <= n,
    ensures
        shifted_value(ds, k) <= shifted_value(ds, n),
    decreases n - k,
{
    if k < n {
        lemma_shifted_mono(ds, k, n - 1);
    }
}

proof fn lemma_shifted_zero_tail(ds: Seq<char>, k: int, n: int)
    requires
        ds.len() <= k <= n,
        shifted_value(ds, k) == 0,
    ensures
        shifted_value(ds, n) == 0,
    decreases n - k,
{
    if k < n {
        lemma_shifted_zero_tail(ds, k, n - 1);
    }
}

proof fn lemma_shifted_grow(ds: Seq<char>, j: nat)
    requires
        shifted_value(ds, ds.len() as int) >= 1,
    ensures
        shifted_value(ds, ds.len() + j as int) >= pow10(j),
    decreases j,
{
    if j > 0 {
        lemma_shifted_grow(ds, (j - 1) as nat);
        assert(shifted_value(ds, ds.len() + j as int) == shifted_value(ds, ds.len() + j - 1) * 10);
    }
}

/// Past eleven zeros after the digits, more zeros change nothing once
/// capped.
proof fn lemma_sat_stable(ds: Seq<char>, n: int)
    requires
        n >= ds.len() + 11,
    ensures
        sat(shifted_value(ds, n)) == sat(shifted_value(ds, ds.len() + 11int)),
{
    let l = ds.len() as int;
    if shifted_value(ds, l) == 0 {
        lemma_shifted_zero_tail(ds, l, n);
        lemma_shifted_zero_tail(ds, l, l + 11);
    } else {
        lemma_shifted_grow(ds, 11);
        assert(pow10(11) == 100000000000) by {
            reveal_with_fuel(pow10, 12);
        }
        lemma_shifted_mono(ds, l + 11, n);
    }
}

fn word_ignoring_case_exec(s: &Vec<char>, lo: &Vec<char>, up: &Vec<char>) -> (r: bool)
    ensures
        r == word_ignoring_case(s@, lo@, up@),
{
    if s.len() != lo.len() || up.len() != lo.len() {
        return false;
    }
    let mut i: usize = 0;
    while i < s.len()
        invariant
            i <= s.len(),
            s.len() == lo.len(),
            up.len() == lo.len(),
            forall|j: int| 0 <= j < i ==> s@[j] == lo@[j] || s@[j] == up@[j],
        decreases s.len() - i,
    {
        if s[i] != lo[i] && s[i] != up[i] {
            return false;
        }
        i = i + 1;
    }
    true
}

fn exp_mark_exec(s: &Vec<char>) -> (r: usize)
    ensures
        r == exp_mark(s@, 0),
        r <= s.len(),
{
    let mut i: usize = 0;
    while i < s.len()
        invariant
            i <= s.len(),
            exp_mark(s@, 0) == exp_mark(s@, i as int),
        decreases s.len() - i,
    {
        if s[i] == 'e' || s[i] == 'E' {
            return i;
        }
        i = i + 1;
    }
    i
}

/// Whether `s[a..b]` is all decimal digits.
fn all_digits_exec(s: &Vec<char>, a: usize, b: usize) -> (r: bool)
    requires
        a <= b <= s.len(),
    ensures
        r == all_digits(s@.subrange(a as int, b as int), 10),
{
    let mut i = a;
    while i < b
        invariant
            a <= i <= b <= s.len(),
            forall|j: int| a <= j < i ==> digit_val(#[trigger] s@[j], 10) >= 0,
        decreases b - i,
    {
        if !('0' <= s[i] && s[i] <= '9') {
            proof {
                assert(s@.subrange(a as int, b as int)[i - a] == s@[i as int]);
            }
            return false;
        }
        i = i + 1;
    }
    proof {
        assert forall|j: int| 0 <= j < b - a implies digit_val(
            #[trigger] s@.subrange(a as int, b as int)[j],
            10,
        ) >= 0 by {
            assert(s@.subrange(a as int, b as int)[j] == s@[a + j]);
        }
    }
    true
}

/// The exponent written in `x` (see [`exponent_value`]), with values past
/// [`ECAP`] either way read as `ECAP` or `-ECAP`.
fn exponent_exec(x: &Vec<char>) -> (r: Option<i128>)
    ensures
        r is Some <==> exponent_value(x@) is Some,
        r matches Some(v) ==> {
            let e = exponent_value(x@)->0;
            &&& (-(ECAP as int) < e < ECAP ==> v == e)
            &&& (e >= ECAP ==> v == ECAP)
            &&& (e <= -(ECAP as int) ==> v == -(ECAP as int))
        },
{
    let neg = x.len() > 0 && x[0] == '-';
    let start: usize = if x.len() > 0 && (x[0] == '+' || x[0] == '-') {
        1
    } else {
        0
    };
    let ghost ds = if x.len() > 0 && (x[0] == '+' || x[0] == '-') {
        x@.drop_first()
    } else {
        x@
    };
    proof {
        assert(x@.subrange(start as int, x.len() as int) =~= ds);
    }
    if start == x.len() || !all_digits_exec(x, start, x.len()) {
        return None;
    }
    let mut acc: u128 = 0;
    let mut i = start;
    while i < x.len()
        invariant
            start <= i <= x.len(),
            ds == x@.subrange(start as int, x.len() as int),
            all_digits(ds, 10),
            acc == if digits_value(x@.subrange(start as int, i as int), 10) > ECAP {
                ECAP as nat
            } else {
                digits_value(x@.subrange(start as int, i as int), 10)
            },
        decreases x.len() - i,
    {
        let c = x[i];
        let ghost pre = x@.subrange(start as int, i as int);
        let ghost nxt = x@.subrange(start as int, i + 1);
        proof {
            assert(ds[i - start] == c);
            assert(nxt.drop_last() =~= pre);
            assert(nxt.last() == c);
        }
        let d: u128 = (c as u32 - '0' as u32) as u128;
        proof {
            assert(digit_val(c, 10) == d);
            assert(digits_value(nxt, 10) == digits_value(pre, 10) * 10 + d);
        }
        acc = if acc >= ECAP {
            ECAP
        } else {
            let y = acc * 10 + d;
            if y > ECAP {
                ECAP
            } else {
                y
            }
        };
        i = i + 1;
    }
    proof {
        assert(x@.subrange(start as int, x.len() as int) =~= ds);
    }
    if neg {
        Some(-(acc as i128))
    } else {
        Some(acc as i128)
    }
}

/// The decimal value of the digit `c`.
fn digit_u64(c: char) -> (r: u64)
    requires
        digit_val(c, 10) >= 0,
    ensures
        r == digit_val(c, 10),
{
    (c as u32 - '0' as u32) as u64
}

/// See [`decimal_percent`].
pub fn decimal_percent_exec(tok: &Vec<char>) -> (r: Option<u32>)
    ensures
        r == decimal_percent(tok@),
{
    let neg = tok.len() > 0 && tok[0] == '-';
    let start: usize = if tok.len() > 0 && (tok[0] == '+' || tok[0] == '-') {
        1
    } else {
        0
    };
    let body = slice_of(tok, start, tok.len());
    proof {
        if start == 1 {
            assert(body@ =~= tok@.drop_first());
        } else {
            assert(body@ =~= tok@);
        }
    }
    if word_ignoring_case_exec(&body, &chars_of("inf"), &chars_of("INF")) || word_ignoring_case_exec(
        &body,
        &chars_of("infinity"),
        &chars_of("INFINITY"),
    ) {
        return Some(
            if neg {
                0
            } else {
                u32::MAX
            },
        );
    }
    if word_ignoring_case_exec(&body, &chars_of("nan"), &chars_of("NAN")) {
        return Some(0);
    }
    let em = exp_mark_exec(&body);
    let mant = slice_of(&body, 0, em);
    proof {
        assert(mant@ =~= body@.take(em as int));
    }
    let exp: Option<i128> = if em < body.len() {
        let xs = slice_of(&body, em + 1, body.len());
        proof {
            assert(xs@ =~= body@.skip(em + 1));
        }
        exponent_exec(&xs)
    } else {
        Some(0)
    };
    let ghost exp_s: Option<int> = if em < body.len() {
        exponent_value(body@.skip(em + 1))
    } else {
        Some(0int)
    };
    let dot = find_char(&mant, '.', 0);
    let fstart = if dot < mant.len() {
        dot + 1
    } else {
        mant.len()
    };
    let ghost ipv = mant@.take(dot as int);
    let ghost fpv = if dot < mant.len() {
        mant@.skip(dot + 1)
    } else {
        Seq::<char>::empty()
    };
    proof {
        assert(mant@.subrange(0, dot as int) =~= ipv);
        assert(mant@.subrange(fstart as int, mant.len() as int) =~= fpv);
    }
    if !all_digits_exec(&mant, 0, dot) || !all_digits_exec(&mant, fstart, mant.len()) || dot + (
    mant.len() - fstart) == 0 {
        return None;
    }
    let e = match exp {
        Some(e) => e,
        None => {
            return None;
        },
    };
    if neg {
        return Some(0);
    }
    let mut ds = slice_of(&mant, 0, dot);
    push_all(&mut ds, &slice_of(&mant, fstart, mant.len()));
    let ghost dsv = ipv + fpv;
    proof {
        assert(ds@ =~= dsv);
        assert forall|j: int| 0 <= j < dsv.len() implies digit_val(#[trigger] dsv[j], 10) >= 0 by {
            if j < ipv.len() {
                assert(dsv[j] == ipv[j]);
            } else {
                assert(dsv[j] == fpv[j - ipv.len()]);
            }
        }
    }
    let r = percent_exec(&ds, dot, e, Ghost(exp_s->0));
    Some(r)
}

/// [`percent_at`] of the digits `ds` with the point after digit
/// `ip_len` moved by the exponent `es`, which `e` gives as
/// [`exponent_exec`] reads it.
fn percent_exec(ds: &Vec<char>, ip_len: usize, e: i128, Ghost(es): Ghost<int>) -> (r: u32)
    requires
        ip_len <= ds.len(),
        all_digits(ds@, 10),
        -(ECAP as int) < es < ECAP ==> e == es,
        es >= ECAP ==> e == ECAP,
        es <= -(ECAP as int) ==> e == -(ECAP as int),
    ensures
        r == percent_at(ds@, ip_len + 2 + es),
{
    let ghost dsv = ds@;
    let ghost pos_s = ip_len + 2 + es;
    let pos: i128 = ip_len as i128 + 2 + e;
    let lim: u128 = ds.len() as u128 + 11;
    let mut acc: u64 = 0;
    let mut k: u128 = 0;
    while (k as i128) < pos && k < lim
        invariant
            k <= lim,
            lim == ds.len() + 11,
            ds@ == dsv,
            all_digits(dsv, 10),
            acc == sat(shifted_value(dsv, k as int)),
            k == 0 || k <= pos,
        decreases lim - k,
    {
        let d: u64 = if k < ds.len() as u128 {
            digit_u64(ds[k as usize])
        } else {
            0
        };
        proof {
            assert(d == digit_at(dsv, k as int));
            assert(shifted_value(dsv, k + 1) == shifted_value(dsv, k as int) * 10 + d);
        }
        acc = if acc >= SAT {
            SAT
        } else {
            let y = acc * 10 + d;
            if y > SAT {
                SAT
            } else {
                y
            }
        };
        k = k + 1;
    }
    let rd: u64 = if 0 <= pos && pos < ds.len() as i128 {
        digit_u64(ds[pos as usize])
    } else {
        0
    };
    proof {
        if es >= ECAP {
            assert(k == lim);
            lemma_sat_stable(dsv, pos_s);
            lemma_sat_stable(dsv, k as int);
        } else if es <= -(ECAP as int) {
            assert(k == 0);
        } else {
            if (k as i128) < pos {
                lemma_sat_stable(dsv, pos_s);
            }
        }
        assert(rd == digit_at(dsv, pos_s));
        assert(acc == sat(shifted_value(dsv, pos_s)));
    }
    let v: u64 = acc + if rd >= 5 {
        1
    } else {
        0
    };
    if v > u32::MAX as u64 {
        u32::MAX
    } else {
        v as u32
    }
}

fn first_volume_exec(ws: &Vec<Vec<char>>) -> (r: Option<u32>)
    ensures
        r == first_volume(views(ws@)),
{
    let ghost wv = views(ws@);
    let mut i: usize = 0;
    proof {
        assert(wv.skip(0) =~= wv);
    }
    while i < ws.len()
        invariant
            i <= ws.len(),
            wv == views(ws@),
            first_volume(wv) == first_volume(wv.skip(i as int)),
        decreases ws.len() - i,
    {
        proof {
            assert(wv.skip(i as int)[0] == ws@[i as int]@);
            assert(wv.skip(i as int).drop_first() =~= wv.skip(i + 1));
        }
        let v = decimal_percent_exec(&ws[i]);
        if v.is_some() {
            return v;
        }
        i = i + 1;
    }
    proof {
        assert(wv.skip(ws.len() as int) =~= Seq::<Seq<char>>::empty());
    }
    None
}

/// See [`wp_parse_line`].
pub fn parse_line(line: &Vec<char>) -> (r: Option<AudioDevice>)
    ensures
        match r {
            Some(d) => wp_parse_line(line@) == Some(d@),
            None => wp_parse_line(line@) is None,
        },
{
    let mut k: usize = 0;
    proof {
        assert(line@.skip(0) =~= line@);
    }
    while k < line.len() && is_tree_char_exec(line[k])
        invariant
            k <= line.len(),
            tree_run(line@) == k + tree_run(line@.skip(k as int)),
        decreases line.len() - k,
    {
        proof {
            assert(line@.skip(k as int).drop_first() =~= line@.skip(k + 1));
        }
        k = k + 1;
    }
    let tail = slice_of(line, k, line.len());
    proof {
        assert(tail@ =~= line@.skip(k as int));
    }
    let s = trim_chars(&tail);
    let (idp, rest0) = match split_once_exec(&s, '.') {
        Some(pair) => pair,
        None => {
            return None;
        },
    };
    let id = match parse_u32(&trim_chars(&idp)) {
        Some(v) => v,
        None => {
            return None;
        },
    };
    let rest = trim_chars(&rest0);
    let (name, vol) = match split_once_exec(&rest, '[') {
        Some((n, v)) => (trim_chars(&n), trim_end_char_exec(&v, ']')),
        None => (rest, Vec::new()),
    };
    if name.len() == 0 {
        return None;
    }
    let muted = contains_exec(&vol, &chars_of("MUTED"));
    let volume = first_volume_exec(&words_exec(&vol));
    let is_default = has_char_exec(line, '*');
    let name_s = string_of(&name);
    let kind = String::from_str(detect_kind(name_s.as_str()));
    Some(
        AudioDevice {
            index: id,
            name: string_of(&fmt_u64(id as u64)),
            description: name_s,
            state: String::new(),
            muted,
            volume,
            is_default,
            kind,
        },
    )
}

fn is_tree_header_exec(line: &Vec<char>) -> (r: bool)
    ensures
        r == is_tree_header(line@),
{
    if !(contains_exec(line, &chars_of("├─")) || contains_exec(line, &chars_of("└─"))) {
        return false;
    }
    let mut b = line.len();
    while b > 0 && crate::text::is_ws_char(line[b - 1])
        invariant
            b <= line.len(),
            forall|j: int| b <= j < line.len() ==> crate::text::is_ws(line@[j]),
        decreases b,
    {
        b = b - 1;
    }
    proof {
        crate::text::lemma_trim_end_at(line@, b as int);
    }
    b > 0 && line[b - 1] == ':'
}

/// The devices of the `<header>:` section of a `wpctl status` report.
pub fn section(text: &str, header: &str) -> (r: Vec<AudioDevice>)
    ensures
        devices_view(r@) == section_devices(text@, header@),
{
    let t = chars_of(text);
    let ls = lines_exec(&t);
    let ghost lsv = views(ls@);
    let mut needle = chars_of(header);
    push_all(&mut needle, &chars_of(":"));
    let mut k: usize = 0;
    while k < ls.len() && !contains_exec(&ls[k], &needle)
        invariant
            k <= ls.len(),
            lsv == views(ls@),
            first_containing(lsv, needle@, 0) == first_containing(lsv, needle@, k as int),
        decreases ls.len() - k,
    {
        proof {
            assert(ls@[k as int]@ == lsv[k as int]);
        }
        k = k + 1;
    }
    proof {
        if k < ls.len() {
            assert(ls@[k as int]@ == lsv[k as int]);
        }
    }
    if k >= ls.len() {
        return Vec::new();
    }
    let mut e = k + 1;
    while e < ls.len() && !is_tree_header_exec(&ls[e])
        invariant
            k < e <= ls.len(),
            lsv == views(ls@),
            first_header(lsv, k + 1) == first_header(lsv, e as int),
        decreases ls.len() - e,
    {
        proof {
            assert(ls@[e as int]@ == lsv[e as int]);
        }
        e = e + 1;
    }
    proof {
        if e < ls.len() {
            assert(ls@[e as int]@ == lsv[e as int]);
        }
        assert(first_header(lsv, k + 1) == e);
    }
    let ghost sub = lsv.subrange(k + 1, e as int);
    let mut out: Vec<AudioDevice> = Vec::new();
    let mut j = k + 1;
    proof {
        assert(sub.take(0) =~= Seq::<Seq<char>>::empty());
    }
    while j < e
        invariant
            k < j <= e <= ls.len(),
            lsv == views(ls@),
            sub == lsv.subrange(k + 1, e as int),
            devices_view(out@) == parsed_lines(sub.take(j - k - 1)),
        decreases e - j,
    {
        let ghost prev = out@;
        proof {
            assert(sub.take(j - k).drop_last() =~= sub.take(j - k - 1));
            assert(sub.take(j - k).last() == ls@[j as int]@);
        }
        match parse_line(&ls[j]) {
            Some(d) => {
                out.push(d);
                proof {
                    assert(devices_view(out@) =~= devices_view(prev).push(d@));
                }
            },
            None => {},
        }
        j = j + 1;
    }
    proof {
        assert(sub.take(e - k - 1) =~= sub);
        assert(lines(t@) == lsv);
    }
    out
}

/// The volume argument of `wpctl set-volume`: the percentage capped at 150,
/// as a fraction with two decimals (`0.65`).
pub open spec fn fraction_arg(p: u32) -> Seq<char> {
    let q: nat = if p > 150 {
        150
    } else {
        p as nat
    };
    dec(q / 100) + "."@ + seq![crate::num::digit_char((q % 100) / 10), crate::num::digit_char(q % 10)]
}

/// The volume argument of `set-volume` is the capped percentage over 100
/// written with two decimals: one digit, a point, two digits, whose value
/// in hundredths is `min(percent, 150)` (5 gives `0.05`, 65 gives `0.65`,
/// 200 gives `1.50`).
pub proof fn law_volume_fraction(percent: u32)
    ensures
        fraction_arg(percent).len() == 4,
        fraction_arg(percent)[1] == '.',
        digit_val(fraction_arg(percent)[0], 10) >= 0,
        digit_val(fraction_arg(percent)[2], 10) >= 0,
        digit_val(fraction_arg(percent)[3], 10) >= 0,
        digit_val(fraction_arg(percent)[0], 10) * 100 + digit_val(fraction_arg(percent)[2], 10) * 10
            + digit_val(fraction_arg(percent)[3], 10) == if percent > 150 {
            150
        } else {
            percent as int
        },
{
    let q: nat = if percent > 150 {
        150
    } else {
        percent as nat
    };
    assert(q / 100 < 10);
    assert(dec(q / 100) == seq![crate::num::digit_char(q / 100)]);
    let a = fraction_arg(percent);
    assert(a == seq![crate::num::digit_char(q / 100)] + "."@ + seq![
        crate::num::digit_char((q % 100) / 10),
        crate::num::digit_char(q % 10),
    ]);
    reveal_strlit(".");
    assert(a[0] == crate::num::digit_char(q / 100));
    assert(a[1] == '.');
    assert(a[2] == crate::num::digit_char((q % 100) / 10));
    assert(a[3] == crate::num::digit_char(q % 10));
    assert(q == (q / 100) * 100 + ((q % 100) / 10) * 10 + q % 10);
}

pub fn fraction_arg_exec(p: u32) -> (r: String)
    ensures
        r@ == fraction_arg(p),
{
    let q: u64 = if p > 150 {
        150
    } else {
        p as u64
    };
    let mut c = fmt_u64(q / 100);
    push_all(&mut c, &chars_of("."));
    c.push(crate::num::fmt_digit((q % 100) / 10));
    c.push(crate::num::fmt_digit(q % 10));
    proof {
        assert(c@ =~= dec((q / 100) as nat) + "."@ + seq![
            crate::num::digit_char(((q % 100) / 10) as nat),
            crate::num::digit_char((q % 10) as nat),
        ]);
    }
    string_of(&c)
}

impl Wpctl {
    /// The sinks, from what `wpctl status` printed (`None` where it failed).
    pub fn outputs(&self, status_out: Option<&str>) -> (r: Vec<AudioDevice>)
        ensures
            devices_view(r@) == match status_out {
                Some(t) => section_devices(t@, "Sinks"@),
                None => Seq::<AudioDeviceV>::empty(),
            },
    {
        match status_out {
            Some(t) => section(t, "Sinks"),
            None => Vec::new(),
        }
    }

    /// The sources, from what `wpctl status` printed.
    pub fn inputs(&self, status_out: Option<&str>) -> (r: Vec<AudioDevice>)
        ensures
            devices_view(r@) == match status_out {
                Some(t) => section_devices(t@, "Sources"@),
                None => Seq::<AudioDeviceV>::empty(),
            },
    {
        match status_out {
            Some(t) => section(t, "Sources"),
            None => Vec::new(),
        }
    }

    /// The `wpctl` arguments that make node `id` the default output.
    pub fn set_default_output(&self, id: &str) -> (r: Vec<String>)
        ensures
            strings_view(r@) == seq!["set-default"@, id@],
    {
        crate::desktop::command::args2("set-default", id)
    }

    /// The `wpctl` arguments that make node `id` the default input.
    pub fn set_default_input(&self, id: &str) -> (r: Vec<String>)
        ensures
            strings_view(r@) == seq!["set-default"@, id@],
    {
        crate::desktop::command::args2("set-default", id)
    }

    /// The `wpctl` arguments that set the volume of node `id`.
    pub fn set_volume(&self, id: &str, percent: u32) -> (r: Vec<String>)
        ensures
            strings_view(r@) == seq!["set-volume"@, id@, fraction_arg(percent)],
    {
        crate::desktop::command::args3("set-volume", id, fraction_arg_exec(percent).as_str())
    }

    /// The `wpctl` arguments that mute or unmute node `id`.
    pub fn set_mute(&self, id: &str, muted: bool) -> (r: Vec<String>)
        ensures
            strings_view(r@) == seq!["set-mute"@, id@, if muted {
                "1"@
            } else {
                "0"@
            }],
    {
        crate::desktop::command::args3("set-mute", id, super::pactl::flag_arg(muted))
    }

    /// What a run of `wpctl` with `args` means.
    pub fn result(&self, args: &Vec<String>, o: &RunOutcome) -> (r: Result<(), String>)
        ensures
            unit_result(r) == run_result("wpctl"@, strings_view(args@), *o, false),
    {
        command_result("wpctl", args, o, false)
    }
}

} // verus!
