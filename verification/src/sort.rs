//! Stable sorting by a text key, in the order of `str`'s `Ord`
//! (lexicographic by character).
use vstd::prelude::*;

verus! {

/// `a < b` in the order of `str`'s `Ord`.
pub open spec fn lex_lt(a: Seq<char>, b: Seq<char>) -> bool
    decreases a.len(),
{
    if a.len() == 0 {
        b.len() > 0
    } else if b.len() == 0 {
        false
    } else if a[0] < b[0] {
        true
    } else if a[0] > b[0] {
        false
    } else {
        lex_lt(a.drop_first(), b.drop_first())
    }
}

pub open spec fn lex_le(a: Seq<char>, b: Seq<char>) -> bool {
    !lex_lt(b, a)
}

/// The keys of a keyed list.
pub open spec fn keyed<T>(s: Seq<(Vec<char>, T)>) -> Seq<(Seq<char>, T)> {
    s.map_values(|p: (Vec<char>, T)| (p.0@, p.1))
}

/// Where a new element with key `k` goes: before the first element with a
/// greater key (after all elements with an equal key).
pub open spec fn ins_pos<T>(s: Seq<(Seq<char>, T)>, k: Seq<char>, from: int) -> int
    decreases s.len() - from,
{
    if from < 0 || from >= s.len() {
        s.len() as int
    } else if lex_lt(k, s[from].0) {
        from
    } else {
        ins_pos(s, k, from + 1)
    }
}

/// The stable sort by key: elements in order of key, elements with equal
/// keys in their original order.
pub open spec fn isort<T>(s: Seq<(Seq<char>, T)>) -> Seq<(Seq<char>, T)>
    decreases s.len(),
{
    if s.len() == 0 {
        s
    } else {
        let r = isort(s.drop_last());
        r.insert(ins_pos(r, s.last().0, 0), s.last())
    }
}

/// Whether `a < b` in the order of `str`'s `Ord`.
pub fn lex_lt_exec(a: &Vec<char>, b: &Vec<char>) -> (r: bool)
    ensures
        r == lex_lt(a@, b@),
{
    let mut i: usize = 0;
    proof {
        assert(a@.skip(0) =~= a@);
        assert(b@.skip(0) =~= b@);
    }
    while i < a.len() && i < b.len() && a[i] == b[i]
        invariant
            i <= a.len(),
            i <= b.len(),
            lex_lt(a@, b@) == lex_lt(a@.skip(i as int), b@.skip(i as int)),
        decreases a.len() - i,
    {
        proof {
            assert(a@.skip(i as int).drop_first() =~= a@.skip(i + 1));
            assert(b@.skip(i as int).drop_first() =~= b@.skip(i + 1));
        }
        i = i + 1;
    }
    proof {
        if i < a.len() && i < b.len() {
            assert(a@.skip(i as int)[0] == a@[i as int]);
            assert(b@.skip(i as int)[0] == b@[i as int]);
        }
    }
    if i == a.len() {
        i < b.len()
    } else if i == b.len() {
        false
    } else {
        a[i] < b[i]
    }
}

proof fn lemma_ins_pos<T>(s: Seq<(Seq<char>, T)>, k: Seq<char>, from: int, p: int)
    requires
        0 <= from <= p <= s.len(),
        forall|j: int| from <= j < p ==> !lex_lt(k, s[j].0),
        p == s.len() || lex_lt(k, s[p].0),
    ensures
        ins_pos(s, k, from) == p,
    decreases p - from,
{
    if from < p {
        lemma_ins_pos(s, k, from + 1, p);
    }
}

/// The elements sorted by key, stably (`sort_by` on the keys).
pub fn sort_by_key<T>(items: Vec<(Vec<char>, T)>) -> (r: Vec<(Vec<char>, T)>)
    ensures
        keyed(r@) == isort(keyed(items@)),
{
    let ghost all = keyed(items@);
    let mut rest = items;
    let mut out: Vec<(Vec<char>, T)> = Vec::new();
    let ghost mut done: int = 0;
    proof {
        assert(all.take(0) =~= Seq::<(Seq<char>, T)>::empty());
        assert(keyed(out@) =~= Seq::<(Seq<char>, T)>::empty());
        assert(keyed(rest@) =~= all.skip(0));
    }
    while rest.len() > 0
        invariant
            0 <= done <= all.len(),
            keyed(rest@) == all.skip(done),
            keyed(out@) == isort(all.take(done)),
        decreases rest.len(),
    {
        let ghost before = rest@;
        let x = rest.remove(0);
        proof {
            assert(keyed(before).len() == before.len());
            assert(done < all.len());
            assert(keyed(rest@) =~= all.skip(done + 1)) by {
                assert forall|j: int| 0 <= j < rest@.len() implies #[trigger] keyed(rest@)[j]
                    == all.skip(done + 1)[j] by {
                    assert(rest@[j] == before[j + 1]);
                    assert(keyed(before)[j + 1] == all.skip(done)[j + 1]);
                    assert(keyed(rest@)[j] == (rest@[j].0@, rest@[j].1));
                    assert(keyed(before)[j + 1] == (before[j + 1].0@, before[j + 1].1));
                }
            }
            assert(keyed(before)[0] == all[done]);
        }
        let ghost cur = keyed(out@);
        let mut p: usize = 0;
        while p < out.len() && !lex_lt_exec(&x.0, &out[p].0)
            invariant
                p <= out.len(),
                cur == keyed(out@),
                forall|j: int| 0 <= j < p ==> !lex_lt(x.0@, cur[j].0),
            decreases out.len() - p,
        {
            p = p + 1;
        }
        proof {
            lemma_ins_pos(cur, x.0@, 0, p as int);
            assert(all.take(done + 1).drop_last() =~= all.take(done));
            assert(all.take(done + 1).last() == (x.0@, x.1));
        }
        let ghost xv = (x.0@, x.1);
        out.insert(p, x);
        proof {
            assert(keyed(out@) =~= cur.insert(p as int, xv));
            done = done + 1;
        }
    }
    proof {
        assert(all.take(done) =~= all);
    }
    out
}

pub proof fn lemma_lex_irrefl(a: Seq<char>)
    ensures
        !lex_lt(a, a),
    decreases a.len(),
{
    if a.len() > 0 {
        lemma_lex_irrefl(a.drop_first());
    }
}

pub proof fn lemma_lex_total(a: Seq<char>, b: Seq<char>)
    ensures
        lex_lt(a, b) || a == b || lex_lt(b, a),
    decreases a.len(),
{
    if a.len() > 0 && b.len() > 0 && a[0] == b[0] {
        lemma_lex_total(a.drop_first(), b.drop_first());
        if a.drop_first() == b.drop_first() {
            assert(a =~= seq![a[0]] + a.drop_first());
            assert(b =~= seq![b[0]] + b.drop_first());
        }
    } else if a.len() == 0 && b.len() == 0 {
        assert(a =~= b);
    }
}

pub proof fn lemma_lex_trans(a: Seq<char>, b: Seq<char>, c: Seq<char>)
    requires
        lex_lt(a, b),
        lex_lt(b, c),
    ensures
        lex_lt(a, c),
    decreases a.len(),
{
    if a.len() > 0 && b.len() > 0 && c.len() > 0 && a[0] == b[0] && b[0] == c[0] {
        lemma_lex_trans(a.drop_first(), b.drop_first(), c.drop_first());
    }
}

/// Keys in order.
pub open spec fn sorted_by_key<T>(s: Seq<(Seq<char>, T)>) -> bool {
    forall|i: int, j: int| 0 <= i < j < s.len() ==> lex_le(s[i].0, s[j].0)
}

pub(crate) proof fn lemma_ins_pos_bounds<T>(s: Seq<(Seq<char>, T)>, k: Seq<char>, from: int)
    requires
        0 <= from <= s.len(),
    ensures
        from <= ins_pos(s, k, from) <= s.len(),
        forall|j: int| from <= j < ins_pos(s, k, from) ==> !lex_lt(k, s[j].0),
        ins_pos(s, k, from) < s.len() ==> lex_lt(k, s[ins_pos(s, k, from)].0),
    decreases s.len() - from,
{
    if from < s.len() && !lex_lt(k, s[from].0) {
        lemma_ins_pos_bounds(s, k, from + 1);
    }
}

/// The stable sort yields its elements in order of key.
pub proof fn law_sort_orders_by_key<T>(s: Seq<(Seq<char>, T)>)
    ensures
        sorted_by_key(isort(s)),
        isort(s).len() == s.len(),
    decreases s.len(),
{
    if s.len() > 0 {
        let r = isort(s.drop_last());
        law_sort_orders_by_key(s.drop_last());
        let x = s.last();
        let p = ins_pos(r, x.0, 0);
        lemma_ins_pos_bounds(r, x.0, 0);
        let t = r.insert(p, x);
        assert forall|i: int, j: int| 0 <= i < j < t.len() implies lex_le(t[i].0, t[j].0) by {
            if j < p {
                assert(t[i] == r[i] && t[j] == r[j]);
            } else if i > p {
                assert(t[i] == r[i - 1] && t[j] == r[j - 1]);
            } else if i == p {
                // x before a later element r[j - 1], which is at least r[p] > x.
                assert(t[j] == r[j - 1]);
                assert(lex_lt(x.0, r[p].0));
                if j - 1 > p {
                    assert(lex_le(r[p].0, r[j - 1].0));
                    lemma_lex_total(r[p].0, r[j - 1].0);
                    if lex_lt(r[p].0, r[j - 1].0) {
                        lemma_lex_trans(x.0, r[p].0, r[j - 1].0);
                    }
                }
                if lex_lt(r[j - 1].0, x.0) {
                    lemma_lex_trans(r[j - 1].0, x.0, r[j - 1].0);
                    lemma_lex_irrefl(r[j - 1].0);
                }
            } else if j == p {
                // r[i] comes before x and is not after it.
                assert(t[i] == r[i] && t[j] == x);
                assert(!lex_lt(x.0, r[i].0));
            } else {
                assert(t[i] == r[i] && t[j] == r[j - 1]);
            }
        }
    }
}

/// The stable sort keeps every element, as many times as it occurs.
pub proof fn law_sort_is_permutation<T>(s: Seq<(Seq<char>, T)>)
    ensures
        isort(s).to_multiset() == s.to_multiset(),
    decreases s.len(),
{
    if s.len() > 0 {
        let r = isort(s.drop_last());
        law_sort_is_permutation(s.drop_last());
        law_sort_orders_by_key(s.drop_last());
        let p = ins_pos(r, s.last().0, 0);
        lemma_ins_pos_bounds(r, s.last().0, 0);
        vstd::seq_lib::to_multiset_insert(r, p, s.last());
        vstd::seq_lib::to_multiset_build(s.drop_last(), s.last());
        assert(s.drop_last().push(s.last()) =~= s);
    } else {
        assert(isort(s) == s);
    }
}

/// The pairs with each payload `x` replaced by `f(x)`, keys kept.
pub open spec fn map_payload<T, U>(s: Seq<(Seq<char>, T)>, f: spec_fn(T) -> U) -> Seq<(Seq<char>, U)> {
    s.map_values(|p: (Seq<char>, T)| (p.0, f(p.1)))
}

proof fn lemma_ins_pos_map<T, U>(s: Seq<(Seq<char>, T)>, f: spec_fn(T) -> U, k: Seq<char>, from: int)
    requires
        0 <= from <= s.len(),
    ensures
        ins_pos(map_payload(s, f), k, from) == ins_pos(s, k, from),
    decreases s.len() - from,
{
    if from < s.len() {
        assert(map_payload(s, f)[from].0 == s[from].0);
        lemma_ins_pos_map(s, f, k, from + 1);
    }
}

/// Sorting only looks at the keys: changing the payloads before or after the
/// sort gives the same list.
pub proof fn lemma_isort_map<T, U>(s: Seq<(Seq<char>, T)>, f: spec_fn(T) -> U)
    ensures
        isort(map_payload(s, f)) == map_payload(isort(s), f),
    decreases s.len(),
{
    if s.len() > 0 {
        let r = isort(s.drop_last());
        assert(map_payload(s, f).drop_last() =~= map_payload(s.drop_last(), f));
        lemma_isort_map(s.drop_last(), f);
        law_sort_orders_by_key(s.drop_last());
        let x = s.last();
        lemma_ins_pos_map(r, f, x.0, 0);
        lemma_ins_pos_bounds(r, x.0, 0);
        let p = ins_pos(r, x.0, 0);
        assert(map_payload(s, f).last() == (x.0, f(x.1)));
        assert(map_payload(r.insert(p, x), f) =~= map_payload(r, f).insert(p, (x.0, f(x.1))));
    } else {
        assert(isort(map_payload(s, f)) =~= map_payload(isort(s), f));
    }
}

} // verus!
