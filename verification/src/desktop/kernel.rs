//! Kernel modules: the list from `/proc/modules`, the details `modinfo`
//! gives, and loading and unloading through `modprobe` run as root.
use vstd::prelude::*;
use crate::text::{
    chars_of, string_of, trim, lines, views, words, split, split_once, is_ascii_alnum,
    trim_chars, lines_exec, words_exec, split_exec, split_once_exec, eq, push_all,
};
use crate::num::{parse_uint, parse_int, parse_u64, parse_i32};
use crate::sort::{isort, keyed, sort_by_key, map_payload, lemma_isort_map};
use crate::desktop::command::strings_view;

verus! {

/// A loaded kernel module.
#[derive(Clone, Debug)]
pub struct KernelModule {
    pub name: String,
    pub size_kb: u64,
    pub refcount: i32,
    pub used_by: Vec<String>,
    /// `Live`, `Loading` or `Unloading`.
    pub state: String,
}

pub struct KernelModuleV {
    pub name: Seq<char>,
    pub size_kb: u64,
    pub refcount: i32,
    pub used_by: Seq<Seq<char>>,
    pub state: Seq<char>,
}

impl View for KernelModule {
    type V = KernelModuleV;

    open spec fn view(&self) -> KernelModuleV {
        KernelModuleV {
            name: self.name@,
            size_kb: self.size_kb,
            refcount: self.refcount,
            used_by: strings_view(self.used_by@),
            state: self.state@,
        }
    }
}

pub open spec fn modules_view(v: Seq<KernelModule>) -> Seq<KernelModuleV> {
    v.map_values(|m: KernelModule| m@)
}

/// The non-empty pieces, in order.
pub open spec fn non_empty(v: Seq<Seq<char>>) -> Seq<Seq<char>>
    decreases v.len(),
{
    if v.len() == 0 {
        seq![]
    } else if v.last().len() > 0 {
        non_empty(v.drop_last()).push(v.last())
    } else {
        non_empty(v.drop_last())
    }
}

fn non_empty_exec(v: &Vec<Vec<char>>) -> (r: Vec<String>)
    ensures
        strings_view(r@) == non_empty(views(v@)),
{
    let ghost vv = views(v@);
    let mut out: Vec<String> = Vec::new();
    let mut i: usize = 0;
    proof {
        assert(vv.take(0) =~= Seq::<Seq<char>>::empty());
    }
    while i < v.len()
        invariant
            i <= v.len(),
            vv == views(v@),
            strings_view(out@) == non_empty(vv.take(i as int)),
        decreases v.len() - i,
    {
        let ghost prev = out@;
        proof {
            assert(vv.take(i + 1).drop_last() =~= vv.take(i as int));
            assert(vv.take(i + 1).last() == v@[i as int]@);
        }
        if v[i].len() > 0 {
            let s = string_of(&v[i]);
            out.push(s);
            proof {
                assert(strings_view(out@) =~= strings_view(prev).push(s@));
            }
        }
        i = i + 1;
    }
    proof {
        assert(vv.take(v.len() as int) =~= vv);
    }
    out
}

/// The module on a line of `/proc/modules` (`name size refcount used_by
/// state address`), for lines of at least five words: the size in kB
/// (0 where unreadable), the users (none for `-`).
pub open spec fn module_of_line(line: Seq<char>) -> Option<KernelModuleV> {
    let f = words(line);
    if f.len() < 5 {
        None
    } else {
        Some(
            KernelModuleV {
                name: f[0],
                size_kb: (match parse_uint(f[1], 10, u64::MAX as nat) {
                    Some(n) => n,
                    None => 0,
                }) as u64 / 1024,
                refcount: match parse_int(f[2], i32::MIN as int, i32::MAX as int) {
                    Some(n) => n as i32,
                    None => 0,
                },
                used_by: if f[3] == "-"@ {
                    seq![]
                } else {
                    non_empty(split(f[3], ','))
                },
                state: f[4],
            },
        )
    }
}

pub open spec fn modules_of_lines(ls: Seq<Seq<char>>) -> Seq<KernelModuleV>
    decreases ls.len(),
{
    if ls.len() == 0 {
        seq![]
    } else {
        match module_of_line(ls.last()) {
            Some(m) => modules_of_lines(ls.drop_last()).push(m),
            None => modules_of_lines(ls.drop_last()),
        }
    }
}

pub open spec fn by_name(v: Seq<KernelModuleV>) -> Seq<(Seq<char>, KernelModuleV)> {
    v.map_values(|m: KernelModuleV| (m.name, m))
}

pub open spec fn payloads<T>(v: Seq<(Seq<char>, T)>) -> Seq<T> {
    v.map_values(|p: (Seq<char>, T)| p.1)
}

pub open spec fn module_view_fn() -> spec_fn(KernelModule) -> KernelModuleV {
    |m: KernelModule| m@
}

/// The modules of a `/proc/modules` text, sorted by name (stably).
pub open spec fn proc_modules(text: Seq<char>) -> Seq<KernelModuleV> {
    payloads(isort(by_name(modules_of_lines(lines(text)))))
}


/// Sorting keeps the payloads, as many times as they occur.
proof fn lemma_sort_keeps_payloads<T>(s: Seq<(Seq<char>, T)>)
    ensures
        payloads(isort(s)).to_multiset() == payloads(s).to_multiset(),
    decreases s.len(),
{
    if s.len() > 0 {
        let r = isort(s.drop_last());
        lemma_sort_keeps_payloads(s.drop_last());
        crate::sort::law_sort_orders_by_key(s.drop_last());
        let x = s.last();
        let p = crate::sort::ins_pos(r, x.0, 0);
        crate::sort::lemma_ins_pos_bounds(r, x.0, 0);
        assert(payloads(r.insert(p, x)) =~= payloads(r).insert(p, x.1));
        vstd::seq_lib::to_multiset_insert(payloads(r), p, x.1);
        assert(payloads(s) =~= payloads(s.drop_last()).push(x.1));
        vstd::seq_lib::to_multiset_build(payloads(s.drop_last()), x.1);
        assert(payloads(s.drop_last()).push(x.1).to_multiset() == payloads(s.drop_last()).to_multiset().insert(x.1));
    } else {
        assert(isort(s) == s);
    }
}

/// Each module comes from a line of the text, in text order, one per line
/// of at least five words.
proof fn lemma_modules_from_lines(ls: Seq<Seq<char>>)
    ensures
        modules_of_lines(ls).len() <= ls.len(),
        forall|i: int| #![trigger modules_of_lines(ls)[i]] 0 <= i < modules_of_lines(ls).len() ==> exists|j: int|
            0 <= j < ls.len() && #[trigger] module_of_line(ls[j]) == Some(modules_of_lines(ls)[i]),
    decreases ls.len(),
{
    if ls.len() > 0 {
        let prev = ls.drop_last();
        lemma_modules_from_lines(prev);
        let m0 = modules_of_lines(prev);
        let m = modules_of_lines(ls);
        assert forall|i: int| #![trigger m[i]] 0 <= i < m.len() implies exists|j: int|
            0 <= j < ls.len() && #[trigger] module_of_line(ls[j]) == Some(m[i]) by {
            if i < m0.len() {
                assert(m[i] == m0[i]);
                let j = choose|j: int| 0 <= j < prev.len() && #[trigger] module_of_line(prev[j]) == Some(m0[i]);
                assert(ls[j] == prev[j]);
            } else {
                assert(module_of_line(ls[ls.len() - 1]) == Some(m[i]));
            }
        }
    }
}

/// The module list: sorted by name, holding exactly the modules of the
/// lines of at least five words (as many times as they occur), each read
/// from its line.
pub proof fn law_modules_sorted_one_per_line(text: Seq<char>)
    ensures
        forall|i: int, j: int| 0 <= i < j < proc_modules(text).len() ==> crate::sort::lex_le(
            #[trigger] proc_modules(text)[i].name,
            #[trigger] proc_modules(text)[j].name,
        ),
        proc_modules(text).to_multiset() == modules_of_lines(lines(text)).to_multiset(),
        modules_of_lines(lines(text)).len() <= lines(text).len(),
        forall|i: int| #![trigger modules_of_lines(lines(text))[i]] 0 <= i < modules_of_lines(lines(text)).len()
            ==> exists|j: int| 0 <= j < lines(text).len() && #[trigger] module_of_line(lines(text)[j]) == Some(
                modules_of_lines(lines(text))[i],
            ),
{
    let m = modules_of_lines(lines(text));
    let s = by_name(m);
    let t = isort(s);
    let r = proc_modules(text);
    lemma_modules_from_lines(lines(text));
    lemma_sort_keeps_payloads(s);
    assert(payloads(s) =~= m);
    crate::sort::law_sort_orders_by_key(s);
    crate::sort::law_sort_is_permutation(s);
    t.to_multiset_ensures();
    s.to_multiset_ensures();
    assert forall|i: int| 0 <= i < t.len() implies (#[trigger] t[i]).0 == t[i].1.name by {
        assert(t.contains(t[i]));
        assert(t.to_multiset().count(t[i]) > 0);
        assert(s.contains(t[i]));
        let k = choose|k: int| 0 <= k < s.len() && s[k] == t[i];
        assert(s[k] == (m[k].name, m[k]));
    }
    assert forall|i: int, j: int| 0 <= i < j < r.len() implies crate::sort::lex_le(
        #[trigger] r[i].name,
        #[trigger] r[j].name,
    ) by {
        assert(r[i] == t[i].1 && r[j] == t[j].1);
        assert(t[i].0 == t[i].1.name && t[j].0 == t[j].1.name);
    }
}

/// The pieces `ps` written one after another with `c` between them.
pub open spec fn joined_by(ps: Seq<Seq<char>>, c: char) -> Seq<char>
    decreases ps.len(),
{
    if ps.len() == 0 {
        seq![]
    } else if ps.len() == 1 {
        ps[0]
    } else {
        ps[0] + seq![c] + joined_by(ps.drop_first(), c)
    }
}

/// Splitting at `c` cuts `s` into pieces without `c` that, joined with `c`,
/// give `s` back.
proof fn lemma_split_pieces(s: Seq<char>, c: char)
    ensures
        split(s, c).len() >= 1,
        forall|k: int| 0 <= k < split(s, c).len() ==> !(#[trigger] split(s, c)[k]).contains(c),
        joined_by(split(s, c), c) == s,
    decreases s.len(),
{
    let i = crate::text::find_from(s, c, 0);
    crate::text::lemma_find_from_bounds(s, c, 0);
    if i < s.len() {
        let rest = s.skip(i + 1);
        lemma_split_pieces(rest, c);
        let ps = split(s, c);
        assert(ps == seq![s.take(i)] + split(rest, c));
        assert(ps.drop_first() =~= split(rest, c));
        assert(!s.take(i).contains(c)) by {
            if s.take(i).contains(c) {
                let j = choose|j: int| 0 <= j < s.take(i).len() && s.take(i)[j] == c;
                assert(s[j] == c);
            }
        }
        assert forall|k: int| 0 <= k < ps.len() implies !(#[trigger] ps[k]).contains(c) by {
            if k > 0 {
                assert(ps[k] == split(rest, c)[k - 1]);
            }
        }
        assert(s.take(i) + seq![c] + rest =~= s);
    } else {
        assert(!s.contains(c)) by {
            if s.contains(c) {
                let j = choose|j: int| 0 <= j < s.len() && s[j] == c;
            }
        }
    }
}

/// A line of at least five words gives a module named by the first word,
/// in the state the fifth word gives. Its users are the comma-separated
/// names of the fourth field
/// of its line (none for `-`), the empty ones left out: each user is a
/// non-empty name without a comma.
pub proof fn law_module_users(line: Seq<char>)
    ensures
        module_of_line(line) is Some <==> words(line).len() >= 5,
        module_of_line(line) matches Some(m) ==> m.name == words(line)[0] && m.state == words(line)[4],
        module_of_line(line) matches Some(m) ==> forall|k: int|
            0 <= k < m.used_by.len() ==> (#[trigger] m.used_by[k]).len() > 0 && !m.used_by[k].contains(','),
        module_of_line(line) matches Some(m) ==> (words(line)[3] == "-"@ ==> m.used_by.len() == 0),
        module_of_line(line) matches Some(m) ==> (words(line)[3] != "-"@ ==> m.used_by == split(
            words(line)[3],
            ',',
        ).filter(|u: Seq<char>| u.len() > 0)),
        joined_by(split(words(line)[3], ','), ',') == words(line)[3],
        forall|k: int|
            0 <= k < split(words(line)[3], ',').len() ==> !(#[trigger] split(words(line)[3], ',')[k]).contains(','),
{
    let f3 = words(line)[3];
    lemma_split_pieces(f3, ',');
    lemma_non_empty_is_filter(split(f3, ','));
    let ps = split(f3, ',');
    let pred = |u: Seq<char>| u.len() > 0;
    if let Some(m) = module_of_line(line) {
        if f3 != "-"@ {
            assert forall|k: int| 0 <= k < m.used_by.len() implies (#[trigger] m.used_by[k]).len() > 0
                && !m.used_by[k].contains(',') by {
                ps.lemma_filter_pred(pred, k);
                assert(ps.filter(pred).contains(m.used_by[k]));
                ps.lemma_filter_contains_rev(pred, m.used_by[k]);
                let j = choose|j: int| 0 <= j < ps.len() && ps[j] == m.used_by[k];
                assert(!ps[j].contains(','));
            }
        }
    }
}

/// In the module list of a `/proc/modules` text, every user of every
/// module is a non-empty name without a comma.
pub proof fn law_listed_users_are_names(text: Seq<char>)
    ensures
        forall|i: int, k: int|
            0 <= i < proc_modules(text).len() && 0 <= k < proc_modules(text)[i].used_by.len() ==> (
            #[trigger] proc_modules(text)[i].used_by[k]).len() > 0
                && !proc_modules(text)[i].used_by[k].contains(','),
{
    let r = proc_modules(text);
    let m = modules_of_lines(lines(text));
    law_modules_sorted_one_per_line(text);
    r.to_multiset_ensures();
    m.to_multiset_ensures();
    assert forall|i: int, k: int|
        0 <= i < r.len() && 0 <= k < r[i].used_by.len() implies (#[trigger] r[i].used_by[k]).len() > 0
            && !r[i].used_by[k].contains(',') by {
        assert(r.contains(r[i]));
        assert(r.to_multiset().count(r[i]) > 0);
        assert(m.contains(r[i]));
        let a = choose|a: int| 0 <= a < m.len() && m[a] == r[i];
        let j = choose|j: int| 0 <= j < lines(text).len() && #[trigger] module_of_line(lines(text)[j]) == Some(m[a]);
        law_module_users(lines(text)[j]);
    }
}

proof fn lemma_non_empty_is_filter(v: Seq<Seq<char>>)
    ensures
        non_empty(v) == v.filter(|u: Seq<char>| u.len() > 0),
    decreases v.len(),
{
    reveal(Seq::filter);
    if v.len() > 0 {
        lemma_non_empty_is_filter(v.drop_last());
    }
}

fn module_of_line_exec(line: &Vec<char>) -> (r: Option<KernelModule>)
    ensures
        match r {
            Some(m) => module_of_line(line@) == Some(m@),
            None => module_of_line(line@) is None,
        },
{
    let f = words_exec(line);
    if f.len() < 5 {
        return None;
    }
    proof {
        assert(views(f@)[0] == f@[0]@);
        assert(views(f@)[1] == f@[1]@);
        assert(views(f@)[2] == f@[2]@);
        assert(views(f@)[3] == f@[3]@);
        assert(views(f@)[4] == f@[4]@);
    }
    let used_by = if eq(&f[3], &chars_of("-")) {
        Vec::new()
    } else {
        non_empty_exec(&split_exec(&f[3], ','))
    };
    let size: u64 = match parse_u64(&f[1]) {
        Some(n) => n,
        None => 0,
    };
    let refcount: i32 = match parse_i32(&f[2]) {
        Some(n) => n,
        None => 0,
    };
    let m = KernelModule {
        name: string_of(&f[0]),
        size_kb: size / 1024,
        refcount,
        used_by,
        state: string_of(&f[4]),
    };
    proof {
        if f[3]@ == "-"@ {
            assert(strings_view(m.used_by@) =~= Seq::<Seq<char>>::empty());
        }
    }
    Some(m)
}

/// See [`proc_modules`].
pub fn parse_proc_modules(text: &str) -> (r: Vec<KernelModule>)
    ensures
        modules_view(r@) == proc_modules(text@),
{
    let ls = lines_exec(&chars_of(text));
    let ghost lv = views(ls@);
    let mut items: Vec<(Vec<char>, KernelModule)> = Vec::new();
    let mut i: usize = 0;
    proof {
        assert(lv.take(0) =~= Seq::<Seq<char>>::empty());
    }
    while i < ls.len()
        invariant
            i <= ls.len(),
            lv == views(ls@),
            map_payload(keyed(items@), module_view_fn()) == by_name(modules_of_lines(lv.take(i as int))),
        decreases ls.len() - i,
    {
        let ghost prev = items@;
        proof {
            assert(lv.take(i + 1).drop_last() =~= lv.take(i as int));
            assert(lv.take(i + 1).last() == ls@[i as int]@);
        }
        match module_of_line_exec(&ls[i]) {
            Some(m) => {
                let k = chars_of(m.name.as_str());
                let ghost mv = m@;
                items.push((k, m));
                proof {
                    assert(map_payload(keyed(items@), module_view_fn()) =~= map_payload(
                        keyed(prev),
                        module_view_fn(),
                    ).push((mv.name, mv)));
                    assert(by_name(modules_of_lines(lv.take(i + 1))) =~= by_name(
                        modules_of_lines(lv.take(i as int)),
                    ).push((mv.name, mv)));
                }
            },
            None => {},
        }
        i = i + 1;
    }
    proof {
        assert(lv.take(ls.len() as int) =~= lv);
    }
    let ghost all = keyed(items@);
    let mut sorted = sort_by_key(items);
    proof {
        lemma_isort_map(all, module_view_fn());
    }
    let ghost sk = keyed(sorted@);
    let mut out: Vec<KernelModule> = Vec::new();
    let ghost mut m: int = 0;
    while sorted.len() > 0
        invariant
            0 <= m <= sk.len(),
            keyed(sorted@) == sk.skip(m),
            out@ == payloads(sk.take(m)),
        decreases sorted.len(),
    {
        let ghost old_s = sorted@;
        let pair = sorted.remove(0);
        let d = pair.1;
        proof {
            assert(keyed(old_s).len() == old_s.len());
            assert(m < sk.len());
            assert(keyed(old_s)[0] == sk.skip(m)[0]);
            assert(sk.skip(m)[0] == sk[m]);
            assert(keyed(sorted@) =~= keyed(old_s).drop_first());
            assert(keyed(old_s).drop_first() =~= sk.skip(m + 1));
            assert(sk.take(m + 1) =~= sk.take(m).push(sk[m]));
            assert(payloads(sk.take(m + 1)) =~= payloads(sk.take(m)).push(d));
            m = m + 1;
        }
        out.push(d);
    }
    proof {
        assert(sk.take(m) =~= sk);
        assert(modules_view(out@) =~= payloads(map_payload(sk, module_view_fn())));
    }
    out
}

/// The modules in the text of `/proc/modules` (empty where unreadable).
pub fn list(proc_modules_text: &str) -> (r: Vec<KernelModule>)
    ensures
        modules_view(r@) == proc_modules(proc_modules_text@),
{
    parse_proc_modules(proc_modules_text)
}

/// What `modinfo` says of a module.
#[derive(Clone, Debug)]
pub struct ModuleInfo {
    pub name: String,
    pub filename: Option<String>,
    pub description: Option<String>,
    pub author: Option<String>,
    pub license: Option<String>,
    pub version: Option<String>,
    pub depends: Vec<String>,
    pub params: Vec<String>,
}

/// The value on a `modinfo` line (`key: value`) whose key, trimmed, is
/// `key`: the text after the first `:`, trimmed.
pub open spec fn modinfo_value(line: Seq<char>, key: Seq<char>) -> Option<Seq<char>> {
    match split_once(line, ':') {
        Some((k, v)) => if trim(k) == key {
            Some(trim(v))
        } else {
            None
        },
        None => None,
    }
}

/// The value of the first line with key `key`.
pub open spec fn modinfo_field(ls: Seq<Seq<char>>, key: Seq<char>) -> Option<Seq<char>>
    decreases ls.len(),
{
    if ls.len() == 0 {
        None
    } else if modinfo_value(ls[0], key) is Some {
        modinfo_value(ls[0], key)
    } else {
        modinfo_field(ls.drop_first(), key)
    }
}

/// The values of all lines with key `key`, in order.
pub open spec fn modinfo_all(ls: Seq<Seq<char>>, key: Seq<char>) -> Seq<Seq<char>>
    decreases ls.len(),
{
    if ls.len() == 0 {
        seq![]
    } else {
        match modinfo_value(ls.last(), key) {
            Some(v) => modinfo_all(ls.drop_last(), key).push(v),
            None => modinfo_all(ls.drop_last(), key),
        }
    }
}

pub open spec fn opt_text(o: Option<String>) -> Option<Seq<char>> {
    match o {
        Some(s) => Some(s@),
        None => None,
    }
}

fn modinfo_value_exec(line: &Vec<char>, key: &Vec<char>) -> (r: Option<Vec<char>>)
    ensures
        match r {
            Some(v) => modinfo_value(line@, key@) == Some(v@),
            None => modinfo_value(line@, key@) is None,
        },
{
    match split_once_exec(line, ':') {
        Some((k, v)) => {
            if eq(&trim_chars(&k), key) {
                Some(trim_chars(&v))
            } else {
                None
            }
        },
        None => None,
    }
}

fn modinfo_field_exec(ls: &Vec<Vec<char>>, key: &str) -> (r: Option<String>)
    ensures
        opt_text(r) == modinfo_field(views(ls@), key@),
{
    let k = chars_of(key);
    let ghost lv = views(ls@);
    let mut i: usize = 0;
    proof {
        assert(lv.skip(0) =~= lv);
    }
    while i < ls.len()
        invariant
            i <= ls.len(),
            lv == views(ls@),
            k@ == key@,
            modinfo_field(lv, key@) == modinfo_field(lv.skip(i as int), key@),
        decreases ls.len() - i,
    {
        proof {
            assert(lv.skip(i as int)[0] == ls@[i as int]@);
            assert(lv.skip(i as int).drop_first() =~= lv.skip(i + 1));
        }
        match modinfo_value_exec(&ls[i], &k) {
            Some(v) => {
                return Some(string_of(&v));
            },
            None => {},
        }
        i = i + 1;
    }
    proof {
        assert(lv.skip(ls.len() as int) =~= Seq::<Seq<char>>::empty());
    }
    None
}

fn modinfo_all_exec(ls: &Vec<Vec<char>>, key: &str) -> (r: Vec<String>)
    ensures
        strings_view(r@) == modinfo_all(views(ls@), key@),
{
    let k = chars_of(key);
    let ghost lv = views(ls@);
    let mut out: Vec<String> = Vec::new();
    let mut i: usize = 0;
    proof {
        assert(lv.take(0) =~= Seq::<Seq<char>>::empty());
    }
    while i < ls.len()
        invariant
            i <= ls.len(),
            lv == views(ls@),
            k@ == key@,
            strings_view(out@) == modinfo_all(lv.take(i as int), key@),
        decreases ls.len() - i,
    {
        let ghost prev = out@;
        proof {
            assert(lv.take(i + 1).drop_last() =~= lv.take(i as int));
            assert(lv.take(i + 1).last() == ls@[i as int]@);
        }
        match modinfo_value_exec(&ls[i], &k) {
            Some(v) => {
                let s = string_of(&v);
                out.push(s);
                proof {
                    assert(strings_view(out@) =~= strings_view(prev).push(s@));
                }
            },
            None => {},
        }
        i = i + 1;
    }
    proof {
        assert(lv.take(ls.len() as int) =~= lv);
    }
    out
}

/// The details of module `name` from what `modinfo <name>` printed (`None`
/// where it failed): the first `filename`, `description`, `author`,
/// `license` and `version` values, the non-empty comma-separated entries of
/// `depends`, and every `parm` value.
pub fn info(name: &str, modinfo_out: Option<&str>) -> (r: ModuleInfo)
    ensures
        ({
            let ls = lines(
                match modinfo_out {
                    Some(t) => t@,
                    None => Seq::<char>::empty(),
                },
            );
            &&& r.name@ == name@
            &&& opt_text(r.filename) == modinfo_field(ls, "filename"@)
            &&& opt_text(r.description) == modinfo_field(ls, "description"@)
            &&& opt_text(r.author) == modinfo_field(ls, "author"@)
            &&& opt_text(r.license) == modinfo_field(ls, "license"@)
            &&& opt_text(r.version) == modinfo_field(ls, "version"@)
            &&& strings_view(r.depends@) == match modinfo_field(ls, "depends"@) {
                Some(d) => non_empty(split(d, ',')),
                None => Seq::<Seq<char>>::empty(),
            }
            &&& strings_view(r.params@) == modinfo_all(ls, "parm"@)
        }),
{
    let t = match modinfo_out {
        Some(t) => chars_of(t),
        None => Vec::new(),
    };
    let ls = lines_exec(&t);
    let depends = match modinfo_field_exec(&ls, "depends") {
        Some(d) => non_empty_exec(&split_exec(&chars_of(d.as_str()), ',')),
        None => {
            let v: Vec<String> = Vec::new();
            proof {
                assert(strings_view(v@) =~= Seq::<Seq<char>>::empty());
            }
            v
        },
    };
    ModuleInfo {
        name: String::from_str(name),
        filename: modinfo_field_exec(&ls, "filename"),
        description: modinfo_field_exec(&ls, "description"),
        author: modinfo_field_exec(&ls, "author"),
        license: modinfo_field_exec(&ls, "license"),
        version: modinfo_field_exec(&ls, "version"),
        depends,
        params: modinfo_all_exec(&ls, "parm"),
    }
}

/// A module name that may be passed on: non-empty, of ASCII letters, digits,
/// `_` and `-`.
pub open spec fn valid_module_name(name: Seq<char>) -> bool {
    name.len() > 0 && forall|i: int|
        0 <= i < name.len() ==> is_ascii_alnum(#[trigger] name[i]) || name[i] == '_' || name[i] == '-'
}

/// Refuses a module name that is not [`valid_module_name`].
pub fn validate(name: &str) -> (r: Result<(), String>)
    ensures
        r is Ok <==> valid_module_name(name@),
        r matches Err(e) ==> e@ == "invalid module name"@,
{
    let n = chars_of(name);
    if n.len() == 0 {
        return Err(String::from_str("invalid module name"));
    }
    let mut i: usize = 0;
    while i < n.len()
        invariant
            i <= n.len(),
            n@ == name@,
            forall|j: int| 0 <= j < i ==> is_ascii_alnum(#[trigger] n@[j]) || n@[j] == '_' || n@[j] == '-',
        decreases n.len() - i,
    {
        let c = n[i];
        if !(('a' <= c && c <= 'z') || ('A' <= c && c <= 'Z') || ('0' <= c && c <= '9') || c == '_'
            || c == '-') {
            return Err(String::from_str("invalid module name"));
        }
        i = i + 1;
    }
    Ok(())
}

/// The `modprobe` arguments that load module `name`, to run as root; on
/// Windows, where there are no kernel modules, an error.
pub fn load(name: &str, windows: bool) -> (r: Result<Vec<String>, String>)
    ensures
        !valid_module_name(name@) ==> (r matches Err(e) && e@ == "invalid module name"@),
        valid_module_name(name@) && windows ==> (r matches Err(e) && e@
            == "kernel modules are Linux-only"@),
        valid_module_name(name@) && !windows ==> (r matches Ok(a) && strings_view(a@) == seq![
            name@,
        ]),
{
    validate(name)?;
    if windows {
        return Err(String::from_str("kernel modules are Linux-only"));
    }
    let mut a: Vec<String> = Vec::new();
    a.push(String::from_str(name));
    proof {
        assert(strings_view(a@) =~= seq![name@]);
    }
    Ok(a)
}

/// The `modprobe` arguments that unload module `name` (`-r <name>`).
pub fn unload(name: &str, windows: bool) -> (r: Result<Vec<String>, String>)
    ensures
        !valid_module_name(name@) ==> (r matches Err(e) && e@ == "invalid module name"@),
        valid_module_name(name@) && windows ==> (r matches Err(e) && e@
            == "kernel modules are Linux-only"@),
        valid_module_name(name@) && !windows ==> (r matches Ok(a) && strings_view(a@) == seq![
            "-r"@,
            name@,
        ]),
{
    validate(name)?;
    if windows {
        return Err(String::from_str("kernel modules are Linux-only"));
    }
    Ok(crate::desktop::command::args2("-r", name))
}

} // verus!
