//! Power management: power-profiles-daemon profiles, battery and backlight.
use vstd::prelude::*;
use crate::text::{
    chars_of, string_of, trim, is_suffix, lines, views, trim_chars, lines_exec, strip_suffix,
    eq, push_all,
};
use crate::num::{dec, fmt_u64, parse_uint, parse_u8, parse_u64};
use crate::device::is_lit;
use crate::desktop::command::{RunOutcome, strings_view, unit_result, args2};

verus! {

/// The power state of the machine.
#[derive(Clone, Debug)]
pub struct PowerInfo {
    /// Whether power-profiles-daemon answers.
    pub has_ppd: bool,
    pub profiles: Vec<String>,
    pub active_profile: String,
    pub battery_percent: Option<u8>,
    /// `Charging`, `Discharging`, `Full` or empty.
    pub battery_status: String,
    pub has_brightness: bool,
    pub brightness_percent: Option<u8>,
}

/// One of the three profiles of power-profiles-daemon.
pub open spec fn is_profile(p: Seq<char>) -> bool {
    p == "power-saver"@ || p == "balanced"@ || p == "performance"@
}

/// What a line of `powerprofilesctl list` says: a profile header
/// (`balanced:`, or `* balanced:` for the active one) gives the profile and
/// whether it is active.
pub open spec fn profile_line(line: Seq<char>) -> Option<(Seq<char>, bool)> {
    let t = trim(line);
    let active = t.len() > 0 && t[0] == '*';
    let body = if active {
        trim(t.drop_first())
    } else {
        t
    };
    if body.len() > 0 && body.last() == ':' && is_profile(body.drop_last()) {
        Some((body.drop_last(), active))
    } else {
        None
    }
}

/// The profiles listed, in order, and the last one marked active (empty if
/// none).
pub open spec fn profiles_of(ls: Seq<Seq<char>>) -> (Seq<Seq<char>>, Seq<char>)
    decreases ls.len(),
{
    if ls.len() == 0 {
        (seq![], seq![])
    } else {
        let st = profiles_of(ls.drop_last());
        match profile_line(ls.last()) {
            Some((name, active)) => (st.0.push(name), if active {
                name
            } else {
                st.1
            }),
            None => st,
        }
    }
}


/// Whether `line` is the profile line of profile `n`.
pub open spec fn names_profile(line: Seq<char>, n: Seq<char>) -> bool {
    profile_line(line) matches Some((m, _)) && m == n
}

/// What the profile list holds: only the three profiles, each from a
/// profile line of the text and in text order, and an active profile that
/// is empty or one of those listed.
pub proof fn law_profiles_from_profile_lines(ls: Seq<Seq<char>>)
    ensures
        ({
            let r = profiles_of(ls);
            &&& forall|i: int| 0 <= i < r.0.len() ==> is_profile(#[trigger] r.0[i])
            &&& forall|i: int| #![trigger r.0[i]] 0 <= i < r.0.len() ==> exists|j: int|
                0 <= j < ls.len() && names_profile(#[trigger] ls[j], r.0[i])
            &&& r.0.len() <= ls.len()
            &&& (r.1.len() == 0 || r.0.contains(r.1))
        }),
    decreases ls.len(),
{
    if ls.len() > 0 {
        let prev = ls.drop_last();
        law_profiles_from_profile_lines(prev);
        let st = profiles_of(prev);
        let r = profiles_of(ls);
        assert forall|i: int| #![trigger st.0[i]] 0 <= i < st.0.len() implies exists|j: int|
            0 <= j < ls.len() && names_profile(#[trigger] ls[j], st.0[i]) by {
            let j = choose|j: int| 0 <= j < prev.len() && names_profile(#[trigger] prev[j], st.0[i]);
            assert(ls[j] == prev[j]);
        }
        match profile_line(ls.last()) {
            Some((name, active)) => {
                assert(r.0 == st.0.push(name));
                assert forall|i: int| 0 <= i < r.0.len() implies is_profile(#[trigger] r.0[i]) by {
                    if i < st.0.len() {
                        assert(r.0[i] == st.0[i]);
                    }
                }
                assert forall|i: int| #![trigger r.0[i]] 0 <= i < r.0.len() implies exists|j: int|
                    0 <= j < ls.len() && names_profile(#[trigger] ls[j], r.0[i]) by {
                    if i < st.0.len() {
                        assert(r.0[i] == st.0[i]);
                    } else {
                        assert(profile_line(ls[ls.len() - 1]) == Some((name, active)));
                    }
                }
                if active {
                    assert(r.0[r.0.len() - 1] == name);
                } else if st.1.len() > 0 {
                    let k = choose|k: int| 0 <= k < st.0.len() && st.0[k] == st.1;
                    assert(r.0[k] == st.1);
                }
            },
            None => {},
        }
    }
}

fn profile_line_exec(line: &Vec<char>) -> (r: Option<(Vec<char>, bool)>)
    ensures
        match r {
            Some((n, a)) => profile_line(line@) == Some((n@, a)),
            None => profile_line(line@) is None,
        },
{
    let t = trim_chars(line);
    let active = t.len() > 0 && t[0] == '*';
    let body = if active {
        let rest = crate::text::slice_of(&t, 1, t.len());
        proof {
            assert(rest@ =~= t@.drop_first());
        }
        trim_chars(&rest)
    } else {
        t
    };
    if body.len() > 0 && body[body.len() - 1] == ':' {
        let name = crate::text::slice_of(&body, 0, body.len() - 1);
        proof {
            assert(name@ =~= body@.drop_last());
        }
        if eq(&name, &chars_of("power-saver")) || eq(&name, &chars_of("balanced")) || eq(
            &name,
            &chars_of("performance"),
        ) {
            return Some((name, active));
        }
    }
    None
}

/// Reads `powerprofilesctl list`: the profiles in order and the active one.
pub fn parse_profiles(text: &str) -> (r: (Vec<String>, String))
    ensures
        (strings_view(r.0@), r.1@) == profiles_of(lines(text@)),
{
    let ls = lines_exec(&chars_of(text));
    let ghost lv = views(ls@);
    let mut profiles: Vec<String> = Vec::new();
    let mut active = String::new();
    let mut i: usize = 0;
    proof {
        assert(lv.take(0) =~= Seq::<Seq<char>>::empty());
    }
    while i < ls.len()
        invariant
            i <= ls.len(),
            lv == views(ls@),
            (strings_view(profiles@), active@) == profiles_of(lv.take(i as int)),
        decreases ls.len() - i,
    {
        let ghost prev = profiles@;
        proof {
            assert(lv.take(i + 1).drop_last() =~= lv.take(i as int));
            assert(lv.take(i + 1).last() == ls@[i as int]@);
        }
        match profile_line_exec(&ls[i]) {
            Some((name, is_active)) => {
                let s = string_of(&name);
                if is_active {
                    active = string_of(&name);
                }
                profiles.push(s);
                proof {
                    assert(strings_view(profiles@) =~= strings_view(prev).push(name@));
                }
            },
            None => {},
        }
        i = i + 1;
    }
    proof {
        assert(lv.take(ls.len() as int) =~= lv);
    }
    (profiles, active)
}

/// The backlight level in percent: `cur * 100 / max` cut to a byte, then
/// capped at 100; none for a zero maximum.
pub open spec fn backlight_percent(cur: u64, max: u64) -> Option<u8> {
    if max > 0 {
        let v = ((cur * 100) as int / (max as int)) as u8;
        Some(if v > 100 {
            100
        } else {
            v
        })
    } else {
        None
    }
}

/// See [`backlight_percent`]; `cur * 100` must fit in a `u64`.
pub fn brightness_percent(cur: u64, max: u64) -> (r: Option<u8>)
    requires
        cur * 100 <= u64::MAX,
    ensures
        r == backlight_percent(cur, max),
{
    if max > 0 {
        let v = (cur * 100 / max) as u8;
        Some(if v > 100 {
            100
        } else {
            v
        })
    } else {
        None
    }
}


/// A number read from a sysfs file: its trimmed text as a `u64`.
pub open spec fn reading(t: Option<Seq<char>>) -> Option<nat> {
    match t {
        Some(s) => parse_uint(trim(s), 10, u64::MAX as nat),
        None => None,
    }
}

/// The view of what was read of the power supplies: for each, its `type`
/// (empty where unreadable), its `capacity` (none where unreadable) and its
/// `status` (empty where unreadable).
pub open spec fn supplies_view(v: Seq<(String, Option<String>, String)>) -> Seq<(Seq<char>, Option<Seq<char>>, Seq<char>)> {
    v.map_values(|e: (String, Option<String>, String)| (e.0@, crate::device::opt_view(e.1), e.2@))
}

/// The level and status of the first supply, from index `from`, whose type
/// is `Battery`; none where its capacity cannot be read as a byte (the
/// search ends at the first battery).
pub open spec fn battery_from(s: Seq<(Seq<char>, Option<Seq<char>>, Seq<char>)>, from: int) -> Option<(u8, Seq<char>)>
    decreases s.len() - from,
{
    if from < 0 || from >= s.len() {
        None
    } else if trim(s[from].0) == "Battery"@ {
        match s[from].1 {
            Some(c) => match parse_uint(trim(c), 10, u8::MAX as nat) {
                Some(v) => Some((v as u8, trim(s[from].2))),
                None => None,
            },
            None => None,
        }
    } else {
        battery_from(s, from + 1)
    }
}

/// The first battery among the power supplies read (in directory order),
/// with its level and status.
pub fn battery_of(supplies: &Vec<(String, Option<String>, String)>) -> (r: Option<(u8, String)>)
    ensures
        match r {
            Some((p, st)) => battery_from(supplies_view(supplies@), 0) == Some((p, st@)),
            None => battery_from(supplies_view(supplies@), 0) is None,
        },
{
    let ghost sv = supplies_view(supplies@);
    let mut i: usize = 0;
    while i < supplies.len()
        invariant
            i <= supplies.len(),
            sv == supplies_view(supplies@),
            battery_from(sv, 0) == battery_from(sv, i as int),
        decreases supplies.len() - i,
    {
        let e = &supplies[i];
        proof {
            assert(sv[i as int] == (e.0@, crate::device::opt_view(e.1), e.2@));
        }
        let kind = trim_chars(&chars_of(e.0.as_str()));
        if is_lit(&kind, "Battery") {
            let c = match &e.1 {
                Some(c) => c,
                None => {
                    return None;
                },
            };
            let pct = match parse_u8(&trim_chars(&chars_of(c.as_str()))) {
                Some(v) => v,
                None => {
                    return None;
                },
            };
            let status = string_of(&trim_chars(&chars_of(e.2.as_str())));
            return Some((pct, status));
        }
        i = i + 1;
    }
    None
}

/// The view of what was read of the backlights: for each, its `brightness`
/// and `max_brightness` (none where unreadable).
pub open spec fn panels_view(v: Seq<(Option<String>, Option<String>)>) -> Seq<(Option<Seq<char>>, Option<Seq<char>>)> {
    v.map_values(|e: (Option<String>, Option<String>)| (crate::device::opt_view(e.0), crate::device::opt_view(e.1)))
}

/// The level of the first backlight, from index `from`, whose two values
/// read as numbers with a maximum above zero.
pub open spec fn backlight_from(p: Seq<(Option<Seq<char>>, Option<Seq<char>>)>, from: int) -> Option<u8>
    decreases p.len() - from,
{
    if from < 0 || from >= p.len() {
        None
    } else {
        match (reading(p[from].0), reading(p[from].1)) {
            (Some(c), Some(m)) => if m > 0 {
                backlight_percent(c as u64, m as u64)
            } else {
                backlight_from(p, from + 1)
            },
            _ => backlight_from(p, from + 1),
        }
    }
}

/// Whether the backlight that [`backlight_from`] picks has a level whose
/// hundredfold fits in a `u64`.
pub open spec fn backlight_fits(p: Seq<(Option<Seq<char>>, Option<Seq<char>>)>, from: int) -> bool
    decreases p.len() - from,
{
    if from < 0 || from >= p.len() {
        true
    } else {
        match (reading(p[from].0), reading(p[from].1)) {
            (Some(c), Some(m)) => if m > 0 {
                c * 100 <= u64::MAX
            } else {
                backlight_fits(p, from + 1)
            },
            _ => backlight_fits(p, from + 1),
        }
    }
}

/// The level of the first backlight read (in directory order) with both
/// values and a maximum above zero.
pub fn backlight_of(panels: &Vec<(Option<String>, Option<String>)>) -> (r: Option<u8>)
    requires
        backlight_fits(panels_view(panels@), 0),
    ensures
        r == backlight_from(panels_view(panels@), 0),
{
    let ghost pv = panels_view(panels@);
    let mut i: usize = 0;
    while i < panels.len()
        invariant
            i <= panels.len(),
            pv == panels_view(panels@),
            backlight_from(pv, 0) == backlight_from(pv, i as int),
            backlight_fits(pv, i as int),
        decreases panels.len() - i,
    {
        let e = &panels[i];
        proof {
            assert(pv[i as int] == (crate::device::opt_view(e.0), crate::device::opt_view(e.1)));
        }
        let cur = read_u64(&e.0);
        let max = read_u64(&e.1);
        match (cur, max) {
            (Some(c), Some(m)) => {
                if m > 0 {
                    return brightness_percent(c, m);
                }
            },
            _ => {},
        }
        i = i + 1;
    }
    None
}


/// Whether [`backlight_of`] may be called on these readings: the level of
/// the backlight it picks, times 100, fits in a `u64`.
pub fn backlight_in_range(panels: &Vec<(Option<String>, Option<String>)>) -> (r: bool)
    ensures
        r == backlight_fits(panels_view(panels@), 0),
{
    let ghost pv = panels_view(panels@);
    let mut i: usize = 0;
    while i < panels.len()
        invariant
            i <= panels.len(),
            pv == panels_view(panels@),
            backlight_fits(pv, 0) == backlight_fits(pv, i as int),
        decreases panels.len() - i,
    {
        let e = &panels[i];
        proof {
            assert(pv[i as int] == (crate::device::opt_view(e.0), crate::device::opt_view(e.1)));
        }
        let cur = read_u64(&e.0);
        let max = read_u64(&e.1);
        match (cur, max) {
            (Some(c), Some(m)) => {
                if m > 0 {
                    let limit: u64 = u64::MAX / 100;
                    proof {
                        assert(c <= limit <==> c * 100 <= u64::MAX) by (nonlinear_arith)
                            requires
                                limit == u64::MAX / 100,
                        ;
                    }
                    return c <= limit;
                }
            },
            _ => {},
        }
        i = i + 1;
    }
    true
}

fn read_u64(t: &Option<String>) -> (r: Option<u64>)
    ensures
        match r {
            Some(v) => reading(crate::device::opt_view(*t)) == Some(v as nat),
            None => reading(crate::device::opt_view(*t)) is None,
        },
{
    match t {
        Some(s) => parse_u64(&trim_chars(&chars_of(s.as_str()))),
        None => None,
    }
}

/// The power state from what was read: the output of `powerprofilesctl
/// list` (`None` where it failed), the first battery's level and status,
/// and the backlight level. Profiles count only when some were listed.
pub fn info(ppd_out: Option<&str>, battery: Option<(u8, String)>, brightness: Option<u8>) -> (r: PowerInfo)
    ensures
        ({
            let pr = match ppd_out {
                Some(t) => profiles_of(lines(t@)),
                None => (Seq::<Seq<char>>::empty(), Seq::<char>::empty()),
            };
            &&& r.has_ppd == (pr.0.len() > 0)
            &&& strings_view(r.profiles@) == (if pr.0.len() > 0 {
                pr.0
            } else {
                Seq::<Seq<char>>::empty()
            })
            &&& r.active_profile@ == (if pr.0.len() > 0 {
                pr.1
            } else {
                Seq::<char>::empty()
            })
            &&& r.battery_percent == match battery {
                Some((p, _)) => Some(p),
                None => None,
            }
            &&& r.battery_status@ == match battery {
                Some((_, s)) => s@,
                None => Seq::<char>::empty(),
            }
            &&& r.has_brightness == brightness is Some
            &&& r.brightness_percent == brightness
        }),
{
    let mut p = PowerInfo {
        has_ppd: false,
        profiles: Vec::new(),
        active_profile: String::new(),
        battery_percent: None,
        battery_status: String::new(),
        has_brightness: false,
        brightness_percent: None,
    };
    proof {
        assert(strings_view(p.profiles@) =~= Seq::<Seq<char>>::empty());
    }
    match ppd_out {
        Some(t) => {
            let (profiles, active) = parse_profiles(t);
            if profiles.len() > 0 {
                p.has_ppd = true;
                p.profiles = profiles;
                p.active_profile = active;
            }
        },
        None => {},
    }
    match battery {
        Some((pct, status)) => {
            p.battery_percent = Some(pct);
            p.battery_status = status;
        },
        None => {},
    }
    match brightness {
        Some(pct) => {
            p.has_brightness = true;
            p.brightness_percent = Some(pct);
        },
        None => {},
    }
    p
}

/// The `powerprofilesctl` arguments that switch to `profile`; an error for
/// an unknown profile, and off Linux.
pub fn set_profile(profile: &str, linux: bool) -> (r: Result<Vec<String>, String>)
    ensures
        !linux ==> (r matches Err(e) && e@ == "not supported on this platform"@),
        linux && !is_profile(profile@) ==> (r matches Err(e) && e@ == "unknown power profile"@),
        linux && is_profile(profile@) ==> (r matches Ok(a) && strings_view(a@) == seq![
            "set"@,
            profile@,
        ]),
{
    if !linux {
        return Err(String::from_str("not supported on this platform"));
    }
    let p = chars_of(profile);
    if !(eq(&p, &chars_of("power-saver")) || eq(&p, &chars_of("balanced")) || eq(
        &p,
        &chars_of("performance"),
    )) {
        return Err(String::from_str("unknown power profile"));
    }
    Ok(args2("set", profile))
}

/// How a run of `powerprofilesctl set` ended, as the user sees it.
pub fn profile_result(o: &RunOutcome) -> (r: Result<(), String>)
    ensures
        unit_result(r) == match *o {
            RunOutcome::NotStarted(e) => Err("powerprofilesctl not found: "@ + e@),
            RunOutcome::Finished { success, code } => if success {
                Ok(())
            } else {
                Err("failed to set power profile"@)
            },
        },
{
    match o {
        RunOutcome::NotStarted(e) => {
            let mut c = chars_of("powerprofilesctl not found: ");
            push_all(&mut c, &chars_of(e.as_str()));
            Err(string_of(&c))
        },
        RunOutcome::Finished { success, code } => {
            if *success {
                Ok(())
            } else {
                Err(String::from_str("failed to set power profile"))
            }
        },
    }
}

/// The `brightnessctl` arguments that set the backlight to `percent`
/// (capped at 100); an error off Linux.
pub fn set_brightness(percent: u8, linux: bool) -> (r: Result<Vec<String>, String>)
    ensures
        !linux ==> (r matches Err(e) && e@ == "not supported on this platform"@),
        linux ==> (r matches Ok(a) && strings_view(a@) == seq![
            "set"@,
            dec((if percent > 100 {
                100
            } else {
                percent
            }) as nat) + "%"@,
        ]),
{
    if !linux {
        return Err(String::from_str("not supported on this platform"));
    }
    let p: u64 = if percent > 100 {
        100
    } else {
        percent as u64
    };
    let mut c = fmt_u64(p);
    push_all(&mut c, &chars_of("%"));
    Ok(args2("set", string_of(&c).as_str()))
}

/// How a run of `brightnessctl set` ended, as the user sees it.
pub fn brightness_result(o: &RunOutcome) -> (r: Result<(), String>)
    ensures
        unit_result(r) == match *o {
            RunOutcome::NotStarted(_) => Err(
                "brightnessctl not found — install it to control brightness"@,
            ),
            RunOutcome::Finished { success, code } => if success {
                Ok(())
            } else {
                Err("failed to set brightness"@)
            },
        },
{
    match o {
        RunOutcome::NotStarted(_) => Err(
            String::from_str("brightnessctl not found — install it to control brightness"),
        ),
        RunOutcome::Finished { success, code } => {
            if *success {
                Ok(())
            } else {
                Err(String::from_str("failed to set brightness"))
            }
        },
    }
}

} // verus!
