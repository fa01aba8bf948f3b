//! Subsystem detection and the driver list of a device.
use vstd::prelude::*;
use crate::text::{chars_of, string_of, is_prefix, split, split_exec, slice_of, starts_with};
use crate::device::{opt_view, strs_view, is_lit};
use crate::paths::{path_file_name, path_ancestors, file_name_of, ancestors_of};

verus! {

/// The subsystem named by the first ancestor of a device path that lies in
/// `/sys/bus/<subsystem>/...`, looking no further up than `/sys`.
pub open spec fn subsystem_from_ancestors(anc: Seq<Seq<char>>) -> Option<Seq<char>>
    decreases anc.len(),
{
    if anc.len() == 0 {
        None
    } else if anc[0] == "/sys"@ {
        None
    } else if is_prefix("/sys/bus/"@, anc[0]) {
        Some(split(anc[0].skip(9), '/')[0])
    } else {
        subsystem_from_ancestors(anc.drop_first())
    }
}

/// The subsystem of a device: the final component of the target of its
/// `subsystem` link when it has one, else what its path shows.
pub open spec fn subsystem_guess(link_target: Option<Seq<char>>, path: Seq<char>) -> Option<
    Seq<char>,
> {
    let from_link = match link_target {
        Some(t) => path_file_name(t),
        None => None,
    };
    match from_link {
        Some(n) => Some(n),
        None => subsystem_from_ancestors(path_ancestors(path)),
    }
}

pub open spec fn str_opt_view(o: Option<&str>) -> Option<Seq<char>> {
    match o {
        Some(t) => Some(t@),
        None => None,
    }
}

/// The subsystem of the device at `path`, from the target of its
/// `subsystem` link (`link_target`, when it could be read) or its path.
pub fn subsystem_of(link_target: Option<&str>, path: &str) -> (r: Option<String>)
    ensures
        opt_view(r) == subsystem_guess(str_opt_view(link_target), path@),
{
    let ghost lt = str_opt_view(link_target);
    match link_target {
        Some(t) => match file_name_of(t) {
            Some(n) => {
                return Some(n);
            },
            None => {},
        },
        None => {},
    }
    proof {
        assert(subsystem_guess(lt, path@) == subsystem_from_ancestors(path_ancestors(path@)));
    }
    let anc = ancestors_of(path);
    let ghost av = strs_view(anc@);
    let prefix = chars_of("/sys/bus/");
    let mut i: usize = 0;
    proof {
        assert(av.skip(0) =~= av);
    }
    while i < anc.len()
        invariant
            i <= anc.len(),
            subsystem_guess(lt, path@) == subsystem_from_ancestors(path_ancestors(path@)),
            lt == str_opt_view(link_target),
            av == strs_view(anc@),
            av == path_ancestors(path@),
            prefix@ == "/sys/bus/"@,
            subsystem_from_ancestors(av) == subsystem_from_ancestors(av.skip(i as int)),
        decreases anc.len() - i,
    {
        let seg = chars_of(anc[i].as_str());
        proof {
            assert(av.skip(i as int)[0] == seg@);
            assert(av.skip(i as int).drop_first() =~= av.skip(i + 1));
        }
        if is_lit(&seg, "/sys") {
            proof {
                assert(subsystem_from_ancestors(av.skip(i as int)) == None::<Seq<char>>);
                assert(subsystem_guess(lt, path@) == None::<Seq<char>>);
            }
            return None;
        }
        if starts_with(&seg, &prefix) {
            proof {
                reveal_strlit("/sys/bus/");
            }
            let rest = slice_of(&seg, 9, seg.len());
            let parts = split_exec(&rest, '/');
            proof {
                assert(rest@ =~= seg@.skip(9));
                assert(parts@.len() > 0) by {
                    lemma_split_nonempty(rest@, '/');
                }
                assert(crate::text::views(parts@)[0] == parts@[0]@);
            }
            return Some(string_of(&parts[0]));
        }
        i = i + 1;
    }
    proof {
        assert(av.skip(anc.len() as int) =~= Seq::<Seq<char>>::empty());
    }
    None
}

proof fn lemma_split_nonempty(s: Seq<char>, c: char)
    ensures
        split(s, c).len() > 0,
    decreases s.len(),
{
    let i = crate::text::find_from(s, c, 0);
    crate::text::lemma_find_from_bounds(s, c, 0);
    if i < s.len() {
        lemma_split_nonempty(s.skip(i + 1), c);
    }
}

/// The subsystem used to list drivers: as `subsystem_of`, and `unknown`
/// when neither the link nor the path shows one.
pub fn guess_subsystem(link_target: Option<&str>, path: &str) -> (r: String)
    ensures
        r@ == match subsystem_guess(str_opt_view(link_target), path@) {
            Some(s) => s,
            None => "unknown"@,
        },
{
    match subsystem_of(link_target, path) {
        Some(s) => s,
        None => String::from_str("unknown"),
    }
}

/// The directory listing the drivers of a subsystem.
pub fn drivers_dir(subsystem: &str) -> (r: String)
    ensures
        r@ == "/sys/bus/"@ + subsystem@ + "/drivers"@,
{
    let mut c = chars_of("/sys/bus/");
    crate::text::push_all(&mut c, &chars_of(subsystem));
    crate::text::push_all(&mut c, &chars_of("/drivers"));
    string_of(&c)
}

/// A write to a sysfs attribute: the file and the text to write.
#[derive(Clone, Debug)]
pub struct SysfsWrite {
    pub file: String,
    pub value: String,
}

/// The write that sets `property` of the device at `path` to `value`: to
/// the file `property` under the device directory. A failed write is
/// reported with [`crate::control::attribute_write_error`].
pub fn set_property(path: &str, property: &str, value: &str) -> (r: SysfsWrite)
    ensures
        r.file@ == crate::paths::path_join(path@, property@),
        r.value@ == value@,
{
    SysfsWrite { file: crate::paths::join_of(path, property), value: String::from_str(value) }
}

pub open spec fn names_view(v: Seq<String>) -> Seq<Seq<char>> {
    v.map_values(|s: String| s@)
}

/// The non-empty names, in order.
pub open spec fn non_empty_names(v: Seq<Seq<char>>) -> Seq<Seq<char>>
    decreases v.len(),
{
    if v.len() == 0 {
        seq![]
    } else if v.last().len() > 0 {
        non_empty_names(v.drop_last()).push(v.last())
    } else {
        non_empty_names(v.drop_last())
    }
}

pub open spec fn keyed_names(v: Seq<Seq<char>>) -> Seq<(Seq<char>, ())> {
    v.map_values(|n: Seq<char>| (n, ()))
}

pub open spec fn keys_of(v: Seq<(Seq<char>, ())>) -> Seq<Seq<char>> {
    v.map_values(|p: (Seq<char>, ())| p.0)
}

/// The drivers of a subsystem, from the entries of its `drivers` directory
/// (see [`drivers_dir`]): the non-empty names, sorted.
pub fn get_available_drivers(entries: Vec<String>) -> (r: Result<Vec<String>, crate::error::DmgrError>)
    ensures
        r matches Ok(v) && names_view(v@) == keys_of(crate::sort::isort(keyed_names(non_empty_names(names_view(entries@))))),
{
    let ghost ev = names_view(entries@);
    let mut items: Vec<(Vec<char>, ())> = Vec::new();
    let mut i: usize = 0;
    proof {
        assert(ev.take(0) =~= Seq::<Seq<char>>::empty());
    }
    while i < entries.len()
        invariant
            i <= entries.len(),
            ev == names_view(entries@),
            crate::sort::keyed(items@) == keyed_names(non_empty_names(ev.take(i as int))),
        decreases entries.len() - i,
    {
        let ghost prev = items@;
        proof {
            assert(ev.take(i + 1).drop_last() =~= ev.take(i as int));
            assert(ev.take(i + 1).last() == entries@[i as int]@);
        }
        let n = chars_of(entries[i].as_str());
        if n.len() > 0 {
            let ghost nv = n@;
            items.push((n, ()));
            proof {
                assert(crate::sort::keyed(items@) =~= crate::sort::keyed(prev).push((nv, ())));
                assert(keyed_names(non_empty_names(ev.take(i + 1))) =~= keyed_names(
                    non_empty_names(ev.take(i as int)),
                ).push((nv, ())));
            }
        }
        i = i + 1;
    }
    proof {
        assert(ev.take(entries.len() as int) =~= ev);
    }
    let sorted = crate::sort::sort_by_key(items);
    let ghost sk = crate::sort::keyed(sorted@);
    let mut out: Vec<String> = Vec::new();
    let mut j: usize = 0;
    while j < sorted.len()
        invariant
            j <= sorted.len(),
            sk == crate::sort::keyed(sorted@),
            names_view(out@) == keys_of(sk.take(j as int)),
        decreases sorted.len() - j,
    {
        let ghost prev = out@;
        let s = string_of(&sorted[j].0);
        out.push(s);
        proof {
            assert(sk[j as int].0 == sorted@[j as int].0@);
            assert(names_view(out@) =~= names_view(prev).push(s@));
            assert(keys_of(sk.take(j + 1)) =~= keys_of(sk.take(j as int)).push(sk[j as int].0));
        }
        j = j + 1;
    }
    proof {
        assert(sk.take(sorted.len() as int) =~= sk);
    }
    Ok(out)
}

} // verus!
