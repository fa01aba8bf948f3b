//! systemd services: the unit list and the actions on a unit, which run
//! `systemctl` as root.
use vstd::prelude::*;
use crate::text::{
    chars_of, string_of, trim, is_suffix, is_ascii_alnum, lines, views, words, trim_chars,
    lines_exec, words_exec, ends_with, eq,
};
use crate::desktop::command::{joined, join_args, strings_view, args2};

verus! {

/// A systemd service.
#[derive(Clone, Debug)]
pub struct Service {
    pub name: String,
    /// `active`, `inactive` or `failed`.
    pub active: String,
    /// `running`, `exited`, `dead` or `failed`.
    pub sub: String,
    pub description: String,
}

pub struct ServiceV {
    pub name: Seq<char>,
    pub active: Seq<char>,
    pub sub: Seq<char>,
    pub description: Seq<char>,
}

impl View for Service {
    type V = ServiceV;

    open spec fn view(&self) -> ServiceV {
        ServiceV {
            name: self.name@,
            active: self.active@,
            sub: self.sub@,
            description: self.description@,
        }
    }
}

pub open spec fn services_view(v: Seq<Service>) -> Seq<ServiceV> {
    v.map_values(|s: Service| s@)
}

/// A unit name that may be passed on: a non-empty `*.service` name of ASCII
/// letters, digits, `.`, `-`, `_` and `@`.
pub open spec fn is_valid_unit(name: Seq<char>) -> bool {
    name.len() > 0 && is_suffix(".service"@, name) && forall|i: int|
        0 <= i < name.len() ==> is_ascii_alnum(#[trigger] name[i]) || name[i] == '.' || name[i]
            == '-' || name[i] == '_' || name[i] == '@'
}

/// See [`is_valid_unit`].
pub fn valid_unit(name: &str) -> (r: bool)
    ensures
        r == is_valid_unit(name@),
{
    let n = chars_of(name);
    if n.len() == 0 || !ends_with(&n, &chars_of(".service")) {
        return false;
    }
    let mut i: usize = 0;
    while i < n.len()
        invariant
            i <= n.len(),
            n@ == name@,
            forall|j: int|
                0 <= j < i ==> is_ascii_alnum(#[trigger] n@[j]) || n@[j] == '.' || n@[j] == '-'
                    || n@[j] == '_' || n@[j] == '@',
        decreases n.len() - i,
    {
        let c = n[i];
        if !(('a' <= c && c <= 'z') || ('A' <= c && c <= 'Z') || ('0' <= c && c <= '9') || c == '.'
            || c == '-' || c == '_' || c == '@') {
            return false;
        }
        i = i + 1;
    }
    true
}

/// The word at `i`, or empty.
pub open spec fn word_or_empty(ws: Seq<Seq<char>>, i: int) -> Seq<char> {
    if 0 <= i < ws.len() {
        ws[i]
    } else {
        seq![]
    }
}

/// The service on a row of `systemctl list-units --plain --no-legend`
/// (`UNIT LOAD ACTIVE SUB DESCRIPTION...`): rows whose first word ends in
/// `.service`; the description is the remaining words joined by spaces.
pub open spec fn service_of_line(line: Seq<char>) -> Option<ServiceV> {
    let ws = words(trim(line));
    if ws.len() == 0 || !is_suffix(".service"@, ws[0]) {
        None
    } else {
        Some(
            ServiceV {
                name: ws[0],
                active: word_or_empty(ws, 2),
                sub: word_or_empty(ws, 3),
                description: if ws.len() > 4 {
                    joined(ws.skip(4))
                } else {
                    seq![]
                },
            },
        )
    }
}

pub open spec fn services_of_lines(ls: Seq<Seq<char>>) -> Seq<ServiceV>
    decreases ls.len(),
{
    if ls.len() == 0 {
        seq![]
    } else {
        match service_of_line(ls.last()) {
            Some(s) => services_of_lines(ls.drop_last()).push(s),
            None => services_of_lines(ls.drop_last()),
        }
    }
}

fn word_exec(ws: &Vec<Vec<char>>, i: usize) -> (r: String)
    ensures
        r@ == word_or_empty(views(ws@), i as int),
{
    if i < ws.len() {
        proof {
            assert(views(ws@)[i as int] == ws@[i as int]@);
        }
        string_of(&ws[i])
    } else {
        String::new()
    }
}

fn service_of_line_exec(line: &Vec<char>) -> (r: Option<Service>)
    ensures
        match r {
            Some(s) => service_of_line(line@) == Some(s@),
            None => service_of_line(line@) is None,
        },
{
    let ws = words_exec(&trim_chars(line));
    let ghost wv = views(ws@);
    if ws.len() == 0 {
        return None;
    }
    proof {
        assert(wv[0] == ws@[0]@);
    }
    if !ends_with(&ws[0], &chars_of(".service")) {
        return None;
    }
    let mut rest: Vec<String> = Vec::new();
    let mut i: usize = 4;
    while i < ws.len()
        invariant
            4 <= i,
            wv == views(ws@),
            i <= ws.len() || ws.len() <= 4,
            ws.len() > 4 ==> strings_view(rest@) == wv.subrange(4, i as int),
            ws.len() <= 4 ==> rest@.len() == 0,
        decreases ws.len() - i,
    {
        let ghost prev = rest@;
        let w = string_of(&ws[i]);
        rest.push(w);
        proof {
            assert(strings_view(rest@) =~= strings_view(prev).push(w@));
            assert(wv.subrange(4, i + 1) =~= wv.subrange(4, i as int).push(ws@[i as int]@));
        }
        i = i + 1;
    }
    let description = if ws.len() > 4 {
        proof {
            assert(wv.subrange(4, ws.len() as int) =~= wv.skip(4));
        }
        join_args(&rest)
    } else {
        String::new()
    };
    Some(
        Service {
            name: string_of(&ws[0]),
            active: word_exec(&ws, 2),
            sub: word_exec(&ws, 3),
            description,
        },
    )
}

/// The services of a `systemctl list-units` report.
pub fn parse_units(text: &str) -> (r: Vec<Service>)
    ensures
        services_view(r@) == services_of_lines(lines(text@)),
{
    let ls = lines_exec(&chars_of(text));
    let ghost lv = views(ls@);
    let mut out: Vec<Service> = Vec::new();
    let mut i: usize = 0;
    proof {
        assert(lv.take(0) =~= Seq::<Seq<char>>::empty());
    }
    while i < ls.len()
        invariant
            i <= ls.len(),
            lv == views(ls@),
            services_view(out@) == services_of_lines(lv.take(i as int)),
        decreases ls.len() - i,
    {
        let ghost prev = out@;
        proof {
            assert(lv.take(i + 1).drop_last() =~= lv.take(i as int));
            assert(lv.take(i + 1).last() == ls@[i as int]@);
        }
        match service_of_line_exec(&ls[i]) {
            Some(s) => {
                out.push(s);
                proof {
                    assert(services_view(out@) =~= services_view(prev).push(s@));
                }
            },
            None => {},
        }
        i = i + 1;
    }
    proof {
        assert(lv.take(ls.len() as int) =~= lv);
    }
    out
}

/// The services, from what `systemctl list-units --type=service --all
/// --no-pager --plain --no-legend` printed (`None` where it failed or this is
/// not Linux).
pub fn list(out: Option<&str>) -> (r: Vec<Service>)
    ensures
        services_view(r@) == match out {
            Some(t) => services_of_lines(lines(t@)),
            None => Seq::<ServiceV>::empty(),
        },
{
    match out {
        Some(t) => parse_units(t),
        None => Vec::new(),
    }
}

/// An action that may be taken on a unit.
pub open spec fn is_unit_action(a: Seq<char>) -> bool {
    a == "start"@ || a == "stop"@ || a == "restart"@ || a == "enable"@ || a == "disable"@
}

/// The `systemctl` arguments (`<action> <name>`, to run as root) of an
/// action on a unit; errors for an invalid unit name or action, and off
/// Linux.
pub fn action(name: &str, act: &str, linux: bool) -> (r: Result<Vec<String>, String>)
    ensures
        !linux ==> (r matches Err(e) && e@ == "systemd services aren't available on this platform"@),
        linux && !is_valid_unit(name@) ==> (r matches Err(e) && e@ == "invalid service name"@),
        linux && is_valid_unit(name@) && !is_unit_action(act@) ==> (r matches Err(e) && e@
            == "invalid action"@),
        linux && is_valid_unit(name@) && is_unit_action(act@) ==> (r matches Ok(a) && strings_view(
            a@,
        ) == seq![act@, name@]),
{
    if !linux {
        return Err(String::from_str("systemd services aren't available on this platform"));
    }
    if !valid_unit(name) {
        return Err(String::from_str("invalid service name"));
    }
    let a = chars_of(act);
    if !(eq(&a, &chars_of("start")) || eq(&a, &chars_of("stop")) || eq(&a, &chars_of("restart"))
        || eq(&a, &chars_of("enable")) || eq(&a, &chars_of("disable"))) {
        return Err(String::from_str("invalid action"));
    }
    Ok(args2(act, name))
}

} // verus!
