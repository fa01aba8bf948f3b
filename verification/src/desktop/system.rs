//! The read-only system overview: kernel, CPU, memory, uptime and load, read
//! from the texts of `/proc`.
use vstd::prelude::*;
use crate::text::{
    chars_of, string_of, trim, is_prefix, lines, views, words, find_from, trim_chars,
    strip_prefix, lines_exec, words_exec, find_char, slice_of, push_all, starts_with,
};
use crate::num::{parse_uint, parse_u64, dec, fmt_u64};
use crate::desktop::command::{joined, join_args, strings_view};

verus! {

/// The system overview.
#[derive(Clone, Debug)]
pub struct SystemInfo {
    pub hostname: String,
    pub kernel: String,
    pub arch: String,
    pub uptime: String,
    pub cpu_model: String,
    pub cpu_cores: u32,
    pub mem_total_mb: u64,
    pub mem_used_mb: u64,
    pub load_avg: String,
}

/// What follows `key` on the first line that starts with it.
pub open spec fn after_key(ls: Seq<Seq<char>>, key: Seq<char>) -> Option<Seq<char>>
    decreases ls.len(),
{
    if ls.len() == 0 {
        None
    } else if is_prefix(key, ls[0]) {
        Some(ls[0].skip(key.len() as int))
    } else {
        after_key(ls.drop_first(), key)
    }
}

fn after_key_exec(ls: &Vec<Vec<char>>, key: &Vec<char>) -> (r: Option<Vec<char>>)
    ensures
        match r {
            Some(v) => after_key(views(ls@), key@) == Some(v@),
            None => after_key(views(ls@), key@) is None,
        },
{
    let ghost lv = views(ls@);
    let mut i: usize = 0;
    proof {
        assert(lv.skip(0) =~= lv);
    }
    while i < ls.len()
        invariant
            i <= ls.len(),
            lv == views(ls@),
            after_key(lv, key@) == after_key(lv.skip(i as int), key@),
        decreases ls.len() - i,
    {
        proof {
            assert(lv.skip(i as int)[0] == ls@[i as int]@);
            assert(lv.skip(i as int).drop_first() =~= lv.skip(i + 1));
        }
        match strip_prefix(&ls[i], key) {
            Some(v) => {
                return Some(v);
            },
            None => {},
        }
        i = i + 1;
    }
    proof {
        assert(lv.skip(ls.len() as int) =~= Seq::<Seq<char>>::empty());
    }
    None
}

/// The number of kB after `key` in `/proc/meminfo` (`MemTotal:  16331756 kB`
/// gives 16331756): the first word after the key on the first line that
/// starts with it, or 0.
pub open spec fn meminfo_value(text: Seq<char>, key: Seq<char>) -> u64 {
    match after_key(lines(text), key) {
        Some(v) => if words(v).len() > 0 {
            match parse_uint(words(v)[0], 10, u64::MAX as nat) {
                Some(n) => n as u64,
                None => 0,
            }
        } else {
            0
        },
        None => 0,
    }
}

/// See [`meminfo_value`].
pub fn parse_meminfo(text: &str, key: &str) -> (r: u64)
    ensures
        r == meminfo_value(text@, key@),
{
    let ls = lines_exec(&chars_of(text));
    match after_key_exec(&ls, &chars_of(key)) {
        Some(v) => {
            let ws = words_exec(&v);
            if ws.len() > 0 {
                proof {
                    assert(views(ws@)[0] == ws@[0]@);
                }
                match parse_u64(&ws[0]) {
                    Some(n) => n,
                    None => 0,
                }
            } else {
                0
            }
        },
        None => 0,
    }
}

/// The whole seconds of `/proc/uptime`: its text up to the first `.`,
/// trimmed, as a number, or 0.
pub open spec fn uptime_secs(text: Seq<char>) -> u64 {
    match parse_uint(trim(text.take(find_from(text, '.', 0))), 10, u64::MAX as nat) {
        Some(n) => n as u64,
        None => 0,
    }
}

/// See [`uptime_secs`].
pub fn parse_uptime(text: &str) -> (r: u64)
    ensures
        r == uptime_secs(text@),
{
    let t = chars_of(text);
    let i = find_char(&t, '.', 0);
    let head = slice_of(&t, 0, i);
    proof {
        assert(head@ =~= t@.take(i as int));
    }
    match parse_u64(&trim_chars(&head)) {
        Some(n) => n,
        None => 0,
    }
}

/// An uptime as `1d 1h 1m`, `1h 1m` or `1m`.
pub open spec fn uptime_text(secs: u64) -> Seq<char> {
    let d = secs / 86400;
    let h = (secs % 86400) / 3600;
    let m = (secs % 3600) / 60;
    if d > 0 {
        dec(d as nat) + "d "@ + dec(h as nat) + "h "@ + dec(m as nat) + "m"@
    } else if h > 0 {
        dec(h as nat) + "h "@ + dec(m as nat) + "m"@
    } else {
        dec(m as nat) + "m"@
    }
}

/// See [`uptime_text`].
pub fn fmt_uptime(secs: u64) -> (r: String)
    ensures
        r@ == uptime_text(secs),
{
    let d = secs / 86400;
    let h = (secs % 86400) / 3600;
    let m = (secs % 3600) / 60;
    let mut c: Vec<char> = Vec::new();
    if d > 0 {
        push_all(&mut c, &fmt_u64(d));
        push_all(&mut c, &chars_of("d "));
        push_all(&mut c, &fmt_u64(h));
        push_all(&mut c, &chars_of("h "));
    } else if h > 0 {
        push_all(&mut c, &fmt_u64(h));
        push_all(&mut c, &chars_of("h "));
    }
    push_all(&mut c, &fmt_u64(m));
    push_all(&mut c, &chars_of("m"));
    string_of(&c)
}

/// `s` without the run of `c` at its start.
pub open spec fn trim_start_char(s: Seq<char>, c: char) -> Seq<char>
    decreases s.len(),
{
    if s.len() > 0 && s[0] == c {
        trim_start_char(s.drop_first(), c)
    } else {
        s
    }
}

fn trim_start_char_exec(s: &Vec<char>, c: char) -> (r: Vec<char>)
    ensures
        r@ == trim_start_char(s@, c),
{
    let mut a: usize = 0;
    proof {
        assert(s@.skip(0) =~= s@);
    }
    while a < s.len() && s[a] == c
        invariant
            a <= s.len(),
            trim_start_char(s@, c) == trim_start_char(s@.skip(a as int), c),
        decreases s.len() - a,
    {
        proof {
            assert(s@.skip(a as int).drop_first() =~= s@.skip(a + 1));
        }
        a = a + 1;
    }
    let r = slice_of(s, a, s.len());
    proof {
        assert(r@ =~= s@.skip(a as int));
    }
    r
}

/// The CPU model from `/proc/cpuinfo`: what follows `model name` on the
/// first such line, without the `:` and surrounding spaces.
pub open spec fn cpu_model(text: Seq<char>) -> Seq<char> {
    match after_key(lines(text), "model name"@) {
        Some(v) => trim(trim_start_char(trim(v), ':')),
        None => seq![],
    }
}

/// See [`cpu_model`].
pub fn parse_cpu_model(text: &str) -> (r: String)
    ensures
        r@ == cpu_model(text@),
{
    let ls = lines_exec(&chars_of(text));
    match after_key_exec(&ls, &chars_of("model name")) {
        Some(v) => string_of(&trim_chars(&trim_start_char_exec(&trim_chars(&v), ':'))),
        None => String::new(),
    }
}

/// How many lines start with `processor`.
pub open spec fn processor_lines(ls: Seq<Seq<char>>) -> nat
    decreases ls.len(),
{
    if ls.len() == 0 {
        0
    } else {
        processor_lines(ls.drop_last()) + if is_prefix("processor"@, ls.last()) {
            1nat
        } else {
            0nat
        }
    }
}

/// The number of CPUs in `/proc/cpuinfo`: its lines that start with
/// `processor`.
pub fn parse_cpu_cores(text: &str) -> (r: u32)
    ensures
        r == processor_lines(lines(text@)) as u32,
{
    let ls = lines_exec(&chars_of(text));
    let ghost lv = views(ls@);
    let p = chars_of("processor");
    let mut n: usize = 0;
    let mut i: usize = 0;
    proof {
        assert(lv.take(0) =~= Seq::<Seq<char>>::empty());
    }
    while i < ls.len()
        invariant
            i <= ls.len(),
            n <= i,
            lv == views(ls@),
            p@ == "processor"@,
            n == processor_lines(lv.take(i as int)),
        decreases ls.len() - i,
    {
        proof {
            assert(lv.take(i + 1).drop_last() =~= lv.take(i as int));
            assert(lv.take(i + 1).last() == ls@[i as int]@);
        }
        if starts_with(&ls[i], &p) {
            n = n + 1;
        }
        i = i + 1;
    }
    proof {
        assert(lv.take(ls.len() as int) =~= lv);
    }
    n as u32
}

/// The first three words of `/proc/loadavg`, joined by spaces.
pub open spec fn loadavg_text(text: Seq<char>) -> Seq<char> {
    joined(words(text).take(if words(text).len() < 3 {
        words(text).len() as int
    } else {
        3
    }))
}

/// See [`loadavg_text`].
pub fn parse_loadavg(text: &str) -> (r: String)
    ensures
        r@ == loadavg_text(text@),
{
    let ws = words_exec(&chars_of(text));
    let mut parts: Vec<String> = Vec::new();
    let n = if ws.len() < 3 {
        ws.len()
    } else {
        3
    };
    let mut i: usize = 0;
    while i < n
        invariant
            i <= n <= ws.len(),
            n == if ws.len() < 3 {
                ws.len()
            } else {
                3
            },
            strings_view(parts@) == views(ws@).take(i as int),
        decreases n - i,
    {
        let ghost prev = parts@;
        let w = string_of(&ws[i]);
        parts.push(w);
        proof {
            assert(strings_view(parts@) =~= strings_view(prev).push(w@));
            assert(views(ws@).take(i + 1) =~= views(ws@).take(i as int).push(ws@[i as int]@));
        }
        i = i + 1;
    }
    join_args(&parts)
}

/// The overview, from the texts of `/proc/sys/kernel/hostname`,
/// `/proc/sys/kernel/osrelease`, `/proc/uptime`, `/proc/cpuinfo`,
/// `/proc/meminfo` and `/proc/loadavg` (empty where unreadable), and the
/// architecture.
pub fn info(
    hostname: &str,
    osrelease: &str,
    arch: &str,
    uptime: &str,
    cpuinfo: &str,
    meminfo: &str,
    loadavg: &str,
) -> (r: SystemInfo)
    ensures
        r.hostname@ == trim(hostname@),
        r.kernel@ == trim(osrelease@),
        r.arch@ == arch@,
        r.uptime@ == uptime_text(uptime_secs(uptime@)),
        r.cpu_model@ == cpu_model(cpuinfo@),
        r.cpu_cores == processor_lines(lines(cpuinfo@)) as u32,
        r.mem_total_mb == meminfo_value(meminfo@, "MemTotal:"@) / 1024,
        r.mem_used_mb == (if meminfo_value(meminfo@, "MemTotal:"@) >= meminfo_value(
            meminfo@,
            "MemAvailable:"@,
        ) {
            meminfo_value(meminfo@, "MemTotal:"@) - meminfo_value(meminfo@, "MemAvailable:"@)
        } else {
            0
        }) / 1024,
        r.load_avg@ == loadavg_text(loadavg@),
{
    let total_kb = parse_meminfo(meminfo, "MemTotal:");
    let avail_kb = parse_meminfo(meminfo, "MemAvailable:");
    SystemInfo {
        hostname: string_of(&trim_chars(&chars_of(hostname))),
        kernel: string_of(&trim_chars(&chars_of(osrelease))),
        arch: String::from_str(arch),
        uptime: fmt_uptime(parse_uptime(uptime)),
        cpu_model: parse_cpu_model(cpuinfo),
        cpu_cores: parse_cpu_cores(cpuinfo),
        mem_total_mb: total_kb / 1024,
        mem_used_mb: total_kb.saturating_sub(avail_kb) / 1024,
        load_avg: parse_loadavg(loadavg),
    }
}

} // verus!
