//! Character-sequence primitives the parsers are built on.
//!
//! Text is handled as `Vec<char>` (its view is a `Seq<char>`), and every
//! operation here is specified exactly as the `str` method of the same name
//! behaves on that sequence of characters.
use vstd::prelude::*;

verus! {

/// Unicode `White_Space`, the property behind `char::is_whitespace`.
pub open spec fn is_ws(c: char) -> bool {
    ||| ('\u{9}' <= c && c <= '\u{d}')
    ||| c == ' '
    ||| c == '\u{85}'
    ||| c == '\u{a0}'
    ||| c == '\u{1680}'
    ||| ('\u{2000}' <= c && c <= '\u{200a}')
    ||| c == '\u{2028}'
    ||| c == '\u{2029}'
    ||| c == '\u{202f}'
    ||| c == '\u{205f}'
    ||| c == '\u{3000}'
}

/// Number of leading whitespace characters.
pub open spec fn lead_ws(s: Seq<char>) -> nat
    decreases s.len(),
{
    if s.len() > 0 && is_ws(s[0]) {
        1 + lead_ws(s.drop_first())
    } else {
        0
    }
}

/// Number of trailing whitespace characters.
pub open spec fn trail_ws(s: Seq<char>) -> nat
    decreases s.len(),
{
    if s.len() > 0 && is_ws(s.last()) {
        1 + trail_ws(s.drop_last())
    } else {
        0
    }
}

pub open spec fn trim_start(s: Seq<char>) -> Seq<char> {
    s.skip(lead_ws(s) as int)
}

pub open spec fn trim_end(s: Seq<char>) -> Seq<char> {
    s.take(s.len() - trail_ws(s))
}

/// `str::trim`.
pub open spec fn trim(s: Seq<char>) -> Seq<char> {
    trim_end(trim_start(s))
}

pub open spec fn is_prefix(p: Seq<char>, s: Seq<char>) -> bool {
    p.len() <= s.len() && s.take(p.len() as int) == p
}

pub open spec fn is_suffix(p: Seq<char>, s: Seq<char>) -> bool {
    p.len() <= s.len() && s.skip(s.len() - p.len()) == p
}

/// `p` occurs in `s` starting at index `i`.
pub open spec fn occurs_at(s: Seq<char>, p: Seq<char>, i: int) -> bool {
    0 <= i && i + p.len() <= s.len() && s.subrange(i, i + p.len()) == p
}

/// `str::contains` with a string pattern.
pub open spec fn contains(s: Seq<char>, p: Seq<char>) -> bool {
    exists|i: int| occurs_at(s, p, i)
}

/// Index of the first `c` in `s` at or after `from`, or `s.len()`.
pub open spec fn find_from(s: Seq<char>, c: char, from: int) -> int
    decreases s.len() - from,
{
    if from < 0 || from >= s.len() {
        s.len() as int
    } else if s[from] == c {
        from
    } else {
        find_from(s, c, from + 1)
    }
}

pub proof fn lemma_find_from_bounds(s: Seq<char>, c: char, from: int)
    requires
        0 <= from <= s.len(),
    ensures
        from <= find_from(s, c, from) <= s.len(),
        forall|j: int| from <= j < find_from(s, c, from) ==> s[j] != c,
        find_from(s, c, from) < s.len() ==> s[find_from(s, c, from)] == c,
    decreases s.len() - from,
{
    if from < s.len() && s[from] != c {
        lemma_find_from_bounds(s, c, from + 1);
    }
}

pub proof fn lemma_lead_ws_bounds(s: Seq<char>)
    ensures
        lead_ws(s) <= s.len(),
        lead_ws(s) < s.len() ==> !is_ws(s[lead_ws(s) as int]),
    decreases s.len(),
{
    if s.len() > 0 && is_ws(s[0]) {
        lemma_lead_ws_bounds(s.drop_first());
        if lead_ws(s) < s.len() {
            assert(s[lead_ws(s) as int] == s.drop_first()[lead_ws(s.drop_first()) as int]);
        }
    }
}

pub proof fn lemma_word_len_bounds(s: Seq<char>)
    ensures
        word_len(s) <= s.len(),
        s.len() > 0 && !is_ws(s[0]) ==> word_len(s) >= 1,
    decreases s.len(),
{
    if s.len() > 0 && !is_ws(s[0]) {
        lemma_word_len_bounds(s.drop_first());
    }
}

/// Whether `c` occurs in `s`.
pub open spec fn has_char(s: Seq<char>, c: char) -> bool {
    exists|i: int| 0 <= i < s.len() && s[i] == c
}

/// `str::split_once` with a character.
pub open spec fn split_once(s: Seq<char>, c: char) -> Option<(Seq<char>, Seq<char>)> {
    let i = find_from(s, c, 0);
    if i < s.len() {
        Some((s.take(i), s.skip(i + 1)))
    } else {
        None
    }
}

/// `str::split` with a character: the pieces between occurrences of `c`
/// (there is always at least one piece).
pub open spec fn split(s: Seq<char>, c: char) -> Seq<Seq<char>>
    decreases s.len(),
{
    let i = find_from(s, c, 0);
    if i < s.len() {
        proof {
            lemma_find_from_bounds(s, c, 0);
        }
        seq![s.take(i)] + split(s.skip(i + 1), c)
    } else {
        seq![s]
    }
}

/// Drops one `'\r'` at the end, as `str::lines` does after a `'\n'`.
pub open spec fn strip_cr(s: Seq<char>) -> Seq<char> {
    if s.len() > 0 && s.last() == '\r' {
        s.drop_last()
    } else {
        s
    }
}

/// `str::lines`: pieces ending in `'\n'` (one `"\r\n"` or `'\n'` removed),
/// and a last piece without a newline if the text does not end in one.
pub open spec fn lines(s: Seq<char>) -> Seq<Seq<char>>
    decreases s.len(),
{
    if s.len() == 0 {
        seq![]
    } else {
        let i = find_from(s, '\n', 0);
        if i < s.len() {
            proof {
                lemma_find_from_bounds(s, '\n', 0);
            }
            seq![strip_cr(s.take(i))] + lines(s.skip(i + 1))
        } else {
            seq![s]
        }
    }
}

/// `str::split_whitespace`: the maximal runs of non-whitespace characters.
pub open spec fn words(s: Seq<char>) -> Seq<Seq<char>>
    decreases s.len(),
{
    let t = trim_start(s);
    if t.len() == 0 {
        seq![]
    } else {
        let n = word_len(t);
        proof {
            lemma_lead_ws_bounds(s);
            lemma_word_len_bounds(t);
        }
        seq![t.take(n as int)] + words(t.skip(n as int))
    }
}

/// Length of the leading run of non-whitespace characters.
pub open spec fn word_len(s: Seq<char>) -> nat
    decreases s.len(),
{
    if s.len() > 0 && !is_ws(s[0]) {
        1 + word_len(s.drop_first())
    } else {
        0
    }
}

pub open spec fn is_ascii_upper(c: char) -> bool {
    'A' <= c && c <= 'Z'
}

pub open spec fn is_ascii_lower(c: char) -> bool {
    'a' <= c && c <= 'z'
}

pub open spec fn is_ascii_digit(c: char) -> bool {
    '0' <= c && c <= '9'
}

pub open spec fn is_ascii_alnum(c: char) -> bool {
    is_ascii_upper(c) || is_ascii_lower(c) || is_ascii_digit(c)
}

pub open spec fn is_hex_digit(c: char) -> bool {
    is_ascii_digit(c) || ('a' <= c && c <= 'f') || ('A' <= c && c <= 'F')
}

/// `char::to_ascii_lowercase`.
pub open spec fn lower_char(c: char) -> char {
    if is_ascii_upper(c) {
        ((c as u32) + 32) as char
    } else {
        c
    }
}

/// `char::to_ascii_uppercase`.
pub open spec fn upper_char(c: char) -> char {
    if is_ascii_lower(c) {
        ((c as u32) - 32) as char
    } else {
        c
    }
}

/// `str::to_ascii_lowercase`.
pub open spec fn ascii_lower(s: Seq<char>) -> Seq<char> {
    s.map_values(|c: char| lower_char(c))
}

/// `str::to_ascii_uppercase`.
pub open spec fn ascii_upper(s: Seq<char>) -> Seq<char> {
    s.map_values(|c: char| upper_char(c))
}

/// `str::eq_ignore_ascii_case`.
pub open spec fn eq_ignore_case(a: Seq<char>, b: Seq<char>) -> bool {
    ascii_lower(a) == ascii_lower(b)
}

/// Number of bytes of `c` in UTF-8.
pub open spec fn utf8_len_char(c: char) -> nat {
    if (c as u32) < 0x80 {
        1
    } else if (c as u32) < 0x800 {
        2
    } else if (c as u32) < 0x10000 {
        3
    } else {
        4
    }
}

/// `str::len`: the UTF-8 byte length.
pub open spec fn utf8_len(s: Seq<char>) -> nat
    decreases s.len(),
{
    if s.len() == 0 {
        0
    } else {
        utf8_len(s.drop_last()) + utf8_len_char(s.last())
    }
}


/// What `str::to_lowercase` returns: every character replaced by its
/// Unicode lowercase mapping (which may be several characters).
pub uninterp spec fn lowercase(s: Seq<char>) -> Seq<char>;

/// `str::to_lowercase`; the result is `lowercase(s)`.
#[verifier::external_body]
pub(crate) fn to_lowercase(s: &str) -> (r: String)
    ensures
        r@ == lowercase(s@),
{
    s.to_lowercase()
}

/// The characters of `s`, in order.
pub(crate) fn chars_of(s: &str) -> (r: Vec<char>)
    ensures
        r@ == s@,
{
    let mut out: Vec<char> = Vec::new();
    for c in it: s.chars()
        invariant
            out@ == it.seq().take(it.index() as int),
    {
        out.push(c);
    }
    out
}

/// A `String` holding exactly the characters of `v`.
#[verifier::external_body]
pub(crate) fn string_of(v: &Vec<char>) -> (r: String)
    ensures
        r@ == v@,
{
    v.iter().collect()
}

/// `char::is_whitespace`.
pub fn is_ws_char(c: char) -> (r: bool)
    ensures
        r == is_ws(c),
{
    ('\u{9}' <= c && c <= '\u{d}') || c == ' ' || c == '\u{85}' || c == '\u{a0}' || c
        == '\u{1680}' || ('\u{2000}' <= c && c <= '\u{200a}') || c == '\u{2028}' || c == '\u{2029}'
        || c == '\u{202f}' || c == '\u{205f}' || c == '\u{3000}'
}

/// The characters of `s` from index `a` up to `b`.
pub fn slice_of(s: &Vec<char>, a: usize, b: usize) -> (r: Vec<char>)
    requires
        a <= b <= s.len(),
    ensures
        r@ == s@.subrange(a as int, b as int),
{
    let mut r: Vec<char> = Vec::new();
    let mut i = a;
    while i < b
        invariant
            a <= i <= b <= s.len(),
            r@ == s@.subrange(a as int, i as int),
        decreases b - i,
    {
        r.push(s[i]);
        i = i + 1;
    }
    r
}

/// Appends the characters of `t` to `s`.
pub fn push_all(s: &mut Vec<char>, t: &Vec<char>)
    ensures
        final(s)@ == old(s)@ + t@,
{
    let mut i: usize = 0;
    while i < t.len()
        invariant
            i <= t.len(),
            s@ == old(s)@ + t@.take(i as int),
        decreases t.len() - i,
    {
        s.push(t[i]);
        i = i + 1;
        proof {
            assert(t@.take(i as int) == t@.take(i - 1 as int).push(t@[i - 1]));
        }
    }
    proof {
        assert(t@.take(t.len() as int) == t@);
    }
}

/// `a` followed by `b`.
pub fn concat(a: &Vec<char>, b: &Vec<char>) -> (r: Vec<char>)
    ensures
        r@ == a@ + b@,
{
    let mut r = slice_of(a, 0, a.len());
    proof {
        assert(a@.subrange(0, a.len() as int) == a@);
    }
    push_all(&mut r, b);
    r
}

/// A copy of `s`.
pub fn copy(s: &Vec<char>) -> (r: Vec<char>)
    ensures
        r@ == s@,
{
    let r = slice_of(s, 0, s.len());
    proof {
        assert(s@.subrange(0, s.len() as int) == s@);
    }
    r
}

/// Whether `a` and `b` hold the same characters.
pub fn eq(a: &Vec<char>, b: &Vec<char>) -> (r: bool)
    ensures
        r == (a@ == b@),
{
    if a.len() != b.len() {
        return false;
    }
    let mut i: usize = 0;
    while i < a.len()
        invariant
            a.len() == b.len(),
            i <= a.len(),
            forall|j: int| 0 <= j < i ==> a@[j] == b@[j],
        decreases a.len() - i,
    {
        if a[i] != b[i] {
            return false;
        }
        i = i + 1;
    }
    proof {
        assert(a@ =~= b@);
    }
    true
}

proof fn lemma_lead_ws(s: Seq<char>, k: int)
    requires
        0 <= k <= s.len(),
        forall|j: int| 0 <= j < k ==> is_ws(s[j]),
        k == s.len() || !is_ws(s[k]),
    ensures
        lead_ws(s) == k,
    decreases k,
{
    if k > 0 {
        let t = s.drop_first();
        assert forall|j: int| 0 <= j < k - 1 implies is_ws(t[j]) by {
            assert(t[j] == s[j + 1]);
        }
        if k - 1 < t.len() {
            assert(t[k - 1] == s[k]);
        }
        lemma_lead_ws(t, k - 1);
    }
}

proof fn lemma_trail_ws(s: Seq<char>, k: int)
    requires
        0 <= k <= s.len(),
        forall|j: int| s.len() - k <= j < s.len() ==> is_ws(s[j]),
        k == s.len() || !is_ws(s[s.len() - k - 1]),
    ensures
        trail_ws(s) == k,
    decreases k,
{
    if k > 0 {
        let t = s.drop_last();
        assert forall|j: int| t.len() - (k - 1) <= j < t.len() implies is_ws(t[j]) by {
            assert(t[j] == s[j]);
        }
        if k - 1 < t.len() {
            assert(t[t.len() - (k - 1) - 1] == s[s.len() - k - 1]);
        }
        lemma_trail_ws(t, k - 1);
    }
}

/// Where the trailing whitespace of `s` starts, given an index `b` past which
/// all is whitespace and before which is none.
pub proof fn lemma_trim_end_at(s: Seq<char>, b: int)
    requires
        0 <= b <= s.len(),
        forall|j: int| b <= j < s.len() ==> is_ws(s[j]),
        b == 0 || !is_ws(s[b - 1]),
    ensures
        trim_end(s) == s.take(b),
{
    lemma_trail_ws(s, s.len() - b);
}

/// `str::trim`.
pub fn trim_chars(s: &Vec<char>) -> (r: Vec<char>)
    ensures
        r@ == trim(s@),
{
    let mut a: usize = 0;
    while a < s.len() && is_ws_char(s[a])
        invariant
            a <= s.len(),
            forall|j: int| 0 <= j < a ==> is_ws(s@[j]),
        decreases s.len() - a,
    {
        a = a + 1;
    }
    proof {
        lemma_lead_ws(s@, a as int);
    }
    let ghost t = s@.skip(a as int);
    let mut b: usize = s.len();
    while b > a && is_ws_char(s[b - 1])
        invariant
            a <= b <= s.len(),
            forall|j: int| b <= j < s.len() ==> is_ws(s@[j]),
        decreases b,
    {
        b = b - 1;
    }
    proof {
        assert forall|j: int| t.len() - (s.len() - b) <= j < t.len() implies is_ws(t[j]) by {
            assert(t[j] == s@[j + a]);
        }
        if s.len() - b < t.len() {
            assert(t[t.len() - (s.len() - b) - 1] == s@[b - 1]);
        }
        lemma_trail_ws(t, s.len() - b);
        assert(trim(s@) =~= s@.subrange(a as int, b as int));
    }
    slice_of(s, a, b)
}

/// `str::trim_start`.
pub fn trim_start_chars(s: &Vec<char>) -> (r: Vec<char>)
    ensures
        r@ == trim_start(s@),
{
    let mut a: usize = 0;
    while a < s.len() && is_ws_char(s[a])
        invariant
            a <= s.len(),
            forall|j: int| 0 <= j < a ==> is_ws(s@[j]),
        decreases s.len() - a,
    {
        a = a + 1;
    }
    proof {
        lemma_lead_ws(s@, a as int);
    }
    slice_of(s, a, s.len())
}

/// `str::trim_end_matches` with a character: `s` without the run of `c`
/// at its end.
pub open spec fn trim_end_char(s: Seq<char>, c: char) -> Seq<char>
    decreases s.len(),
{
    if s.len() > 0 && s.last() == c {
        trim_end_char(s.drop_last(), c)
    } else {
        s
    }
}

/// `str::trim_end_matches` with a character.
pub fn trim_end_char_exec(s: &Vec<char>, c: char) -> (r: Vec<char>)
    ensures
        r@ == trim_end_char(s@, c),
{
    let mut b: usize = s.len();
    proof {
        assert(s@.take(s.len() as int) =~= s@);
    }
    while b > 0 && s[b - 1] == c
        invariant
            b <= s.len(),
            trim_end_char(s@, c) == trim_end_char(s@.take(b as int), c),
        decreases b,
    {
        proof {
            assert(s@.take(b as int).drop_last() =~= s@.take(b - 1));
        }
        b = b - 1;
    }
    proof {
        assert(s@.take(b as int) =~= s@.subrange(0, b as int));
    }
    slice_of(s, 0, b)
}

/// Whether `s` starts with `p`.
pub fn starts_with(s: &Vec<char>, p: &Vec<char>) -> (r: bool)
    ensures
        r == is_prefix(p@, s@),
{
    if p.len() > s.len() {
        return false;
    }
    let mut i: usize = 0;
    while i < p.len()
        invariant
            p.len() <= s.len(),
            i <= p.len(),
            forall|j: int| 0 <= j < i ==> s@[j] == p@[j],
        decreases p.len() - i,
    {
        if s[i] != p[i] {
            proof {
                assert(s@.take(p.len() as int)[i as int] != p@[i as int]);
            }
            return false;
        }
        i = i + 1;
    }
    proof {
        assert(s@.take(p.len() as int) =~= p@);
    }
    true
}

/// Whether `s` ends with `p`.
pub fn ends_with(s: &Vec<char>, p: &Vec<char>) -> (r: bool)
    ensures
        r == is_suffix(p@, s@),
{
    if p.len() > s.len() {
        return false;
    }
    let off = s.len() - p.len();
    let mut i: usize = 0;
    while i < p.len()
        invariant
            p.len() <= s.len(),
            off == s.len() - p.len(),
            i <= p.len(),
            forall|j: int| 0 <= j < i ==> s@[off + j] == p@[j],
        decreases p.len() - i,
    {
        if s[off + i] != p[i] {
            proof {
                assert(s@.skip(off as int)[i as int] != p@[i as int]);
            }
            return false;
        }
        i = i + 1;
    }
    proof {
        assert(s@.skip(off as int) =~= p@);
    }
    true
}

/// `str::strip_prefix`.
pub fn strip_prefix(s: &Vec<char>, p: &Vec<char>) -> (r: Option<Vec<char>>)
    ensures
        r is Some <==> is_prefix(p@, s@),
        r matches Some(t) ==> t@ == s@.skip(p@.len() as int),
{
    if starts_with(s, p) {
        let t = slice_of(s, p.len(), s.len());
        proof {
            assert(t@ =~= s@.skip(p@.len() as int));
        }
        Some(t)
    } else {
        None
    }
}

/// `str::strip_suffix`.
pub fn strip_suffix(s: &Vec<char>, p: &Vec<char>) -> (r: Option<Vec<char>>)
    ensures
        r is Some <==> is_suffix(p@, s@),
        r matches Some(t) ==> t@ == s@.take(s@.len() - p@.len()),
{
    if ends_with(s, p) {
        let t = slice_of(s, 0, s.len() - p.len());
        proof {
            assert(t@ =~= s@.take(s@.len() - p@.len()));
        }
        Some(t)
    } else {
        None
    }
}

/// Whether `p` occurs in `s` at index `i`.
pub fn occurs_at_exec(s: &Vec<char>, p: &Vec<char>, i: usize) -> (r: bool)
    ensures
        r == occurs_at(s@, p@, i as int),
{
    if i > s.len() || p.len() > s.len() - i {
        return false;
    }
    let mut k: usize = 0;
    while k < p.len()
        invariant
            i + p.len() <= s.len(),
            k <= p.len(),
            forall|j: int| 0 <= j < k ==> s@[i + j] == p@[j],
        decreases p.len() - k,
    {
        if s[i + k] != p[k] {
            proof {
                assert(s@.subrange(i as int, i + p.len())[k as int] != p@[k as int]);
            }
            return false;
        }
        k = k + 1;
    }
    proof {
        assert(s@.subrange(i as int, i + p.len()) =~= p@);
    }
    true
}

/// `str::find` with a string pattern, from index `from` on: the first index
/// at or after `from` at which `p` occurs.
pub open spec fn find_str(s: Seq<char>, p: Seq<char>, from: int) -> Option<int>
    decreases s.len() + 1 - from,
{
    if from < 0 || from + p.len() > s.len() {
        None
    } else if occurs_at(s, p, from) {
        Some(from)
    } else {
        find_str(s, p, from + 1)
    }
}

pub proof fn lemma_find_str(s: Seq<char>, p: Seq<char>, from: int)
    requires
        0 <= from,
    ensures
        find_str(s, p, from) matches Some(i) ==> from <= i && occurs_at(s, p, i),
    decreases s.len() + 1 - from,
{
    if from + p.len() <= s.len() && !occurs_at(s, p, from) {
        lemma_find_str(s, p, from + 1);
    }
}

/// The first index at which `p` occurs in `s`.
pub fn find_str_exec(s: &Vec<char>, p: &Vec<char>) -> (r: Option<usize>)
    ensures
        r matches Some(i) ==> find_str(s@, p@, 0) == Some(i as int) && i + p@.len() <= s@.len(),
        r is None ==> find_str(s@, p@, 0) is None,
{
    if p.len() > s.len() {
        return None;
    }
    let last = s.len() - p.len();
    let mut i: usize = 0;
    while i < last
        invariant
            p.len() <= s.len(),
            last == s.len() - p.len(),
            i <= last,
            find_str(s@, p@, 0) == find_str(s@, p@, i as int),
        decreases last - i,
    {
        if occurs_at_exec(s, p, i) {
            return Some(i);
        }
        i = i + 1;
    }
    if occurs_at_exec(s, p, last) {
        Some(last)
    } else {
        proof {
            assert(find_str(s@, p@, last + 1) is None);
        }
        None
    }
}

/// Length of the leading run of ASCII digits.
pub open spec fn digit_run(s: Seq<char>) -> nat
    decreases s.len(),
{
    if s.len() > 0 && is_ascii_digit(s[0]) {
        1 + digit_run(s.drop_first())
    } else {
        0
    }
}

/// The leading ASCII digits of `s`.
pub fn leading_digits(s: &Vec<char>) -> (r: Vec<char>)
    ensures
        r@ == s@.take(digit_run(s@) as int),
{
    let mut k: usize = 0;
    proof {
        assert(s@.skip(0) =~= s@);
    }
    while k < s.len() && '0' <= s[k] && s[k] <= '9'
        invariant
            k <= s.len(),
            digit_run(s@) == k + digit_run(s@.skip(k as int)),
        decreases s.len() - k,
    {
        proof {
            assert(s@.skip(k as int).drop_first() =~= s@.skip(k + 1));
        }
        k = k + 1;
    }
    proof {
        assert(s@.skip(0) =~= s@);
    }
    slice_of(s, 0, k)
}

/// `str::contains` with a string pattern.
pub fn contains_exec(s: &Vec<char>, p: &Vec<char>) -> (r: bool)
    ensures
        r == contains(s@, p@),
{
    if p.len() > s.len() {
        return false;
    }
    let mut i: usize = 0;
    while i <= s.len() - p.len()
        invariant
            p.len() <= s.len(),
            i <= s.len() - p.len() + 1,
            forall|j: int| 0 <= j < i ==> !occurs_at(s@, p@, j),
        decreases s.len() - p.len() + 1 - i,
    {
        if occurs_at_exec(s, p, i) {
            return true;
        }
        if i == s.len() - p.len() {
            return false;
        }
        i = i + 1;
    }
    false
}

/// Whether the character `c` occurs in `s`.
pub fn has_char_exec(s: &Vec<char>, c: char) -> (r: bool)
    ensures
        r == has_char(s@, c),
{
    let mut i: usize = 0;
    while i < s.len()
        invariant
            i <= s.len(),
            forall|j: int| 0 <= j < i ==> s@[j] != c,
        decreases s.len() - i,
    {
        if s[i] == c {
            return true;
        }
        i = i + 1;
    }
    false
}

proof fn lemma_find_from(s: Seq<char>, c: char, from: int, k: int)
    requires
        0 <= from <= k <= s.len(),
        forall|j: int| from <= j < k ==> s[j] != c,
        k == s.len() || s[k] == c,
    ensures
        find_from(s, c, from) == k,
    decreases k - from,
{
    if from < k {
        lemma_find_from(s, c, from + 1, k);
    }
}

/// Index of the first `c` at or after `from`, or the length of `s`.
pub fn find_char(s: &Vec<char>, c: char, from: usize) -> (r: usize)
    requires
        from <= s.len(),
    ensures
        r == find_from(s@, c, from as int),
        from <= r <= s.len(),
        forall|j: int| from <= j < r ==> s@[j] != c,
        r < s.len() ==> s@[r as int] == c,
{
    let mut i = from;
    while i < s.len() && s[i] != c
        invariant
            from <= i <= s.len(),
            forall|j: int| from <= j < i ==> s@[j] != c,
        decreases s.len() - i,
    {
        i = i + 1;
    }
    proof {
        lemma_find_from(s@, c, from as int, i as int);
    }
    i
}

/// `str::split_once` with a character.
pub fn split_once_exec(s: &Vec<char>, c: char) -> (r: Option<(Vec<char>, Vec<char>)>)
    ensures
        r is Some <==> split_once(s@, c) is Some,
        r matches Some((a, b)) ==> split_once(s@, c) == Some((a@, b@)),
{
    let i = find_char(s, c, 0);
    if i < s.len() {
        let a = slice_of(s, 0, i);
        let b = slice_of(s, i + 1, s.len());
        proof {
            assert(a@ =~= s@.take(i as int));
            assert(b@ =~= s@.skip(i + 1));
        }
        Some((a, b))
    } else {
        None
    }
}

/// The views of a list of character vectors.
pub open spec fn views(v: Seq<Vec<char>>) -> Seq<Seq<char>> {
    v.map_values(|x: Vec<char>| x@)
}

proof fn lemma_views_push(v: Seq<Vec<char>>, x: Vec<char>)
    ensures
        views(v.push(x)) == views(v).push(x@),
{
    assert(views(v.push(x)) =~= views(v).push(x@));
}

/// `str::split` with a character.
pub fn split_exec(s: &Vec<char>, c: char) -> (r: Vec<Vec<char>>)
    ensures
        views(r@) == split(s@, c),
{
    let mut out: Vec<Vec<char>> = Vec::new();
    let mut start: usize = 0;
    let mut done = false;
    proof {
        assert(s@.skip(0) =~= s@);
        assert(views(out@) + split(s@, c) =~= split(s@, c));
    }
    while !done
        invariant
            start <= s.len(),
            !done ==> views(out@) + split(s@.skip(start as int), c) == split(s@, c),
            done ==> views(out@) == split(s@, c),
        decreases s.len() - start + (if done { 0int } else { 1int }),
    {
        let i = find_char(s, c, start);
        let piece = slice_of(s, start, i);
        let ghost rest = s@.skip(start as int);
        proof {
            let k = i - start;
            assert forall|j: int| 0 <= j < k implies rest[j] != c by {
                assert(rest[j] == s@[start + j]);
            }
            if k < rest.len() {
                assert(rest[k] == s@[i as int]);
            }
            lemma_find_from(rest, c, 0, k);
            assert(piece@ =~= rest.take(k));
            lemma_views_push(out@, piece);
        }
        out.push(piece);
        if i < s.len() {
            proof {
                assert(rest.skip(i - start + 1) =~= s@.skip(i + 1));
                assert(views(out@) + split(s@.skip(i + 1), c) =~= views(out@).drop_last() + (seq![
                    piece@,
                ] + split(s@.skip(i + 1), c)));
            }
            start = i + 1;
        } else {
            proof {
                assert(views(out@) =~= views(out@).drop_last() + seq![piece@]);
            }
            done = true;
        }
    }
    out
}

proof fn lemma_lines_step(s: Seq<char>, start: int, i: int)
    requires
        0 <= start <= i <= s.len(),
        start < s.len(),
        forall|j: int| start <= j < i ==> s[j] != '\n',
        i == s.len() || s[i] == '\n',
    ensures
        i < s.len() ==> lines(s.skip(start)) == seq![strip_cr(s.subrange(start, i))] + lines(
            s.skip(i + 1),
        ),
        i == s.len() ==> lines(s.skip(start)) == seq![s.subrange(start, i)],
{
    let rest = s.skip(start);
    let k = i - start;
    assert forall|j: int| 0 <= j < k implies rest[j] != '\n' by {
        assert(rest[j] == s[start + j]);
    }
    if k < rest.len() {
        assert(rest[k] == s[i]);
    }
    lemma_find_from(rest, '\n', 0, k);
    assert(rest.take(k) =~= s.subrange(start, i));
    if i < s.len() {
        assert(rest.skip(k + 1) =~= s.skip(i + 1));
    }
    if i == s.len() {
        assert(rest =~= s.subrange(start, i));
    }
}

/// `str::lines`.
pub fn lines_exec(s: &Vec<char>) -> (r: Vec<Vec<char>>)
    ensures
        views(r@) == lines(s@),
{
    let mut out: Vec<Vec<char>> = Vec::new();
    let mut start: usize = 0;
    proof {
        assert(s@.skip(0) =~= s@);
        assert(views(out@) + lines(s@) =~= lines(s@));
    }
    while start < s.len()
        invariant
            start <= s.len(),
            views(out@) + lines(s@.skip(start as int)) == lines(s@),
        decreases s.len() - start,
    {
        let i = find_char(s, '\n', start);
        proof {
            lemma_lines_step(s@, start as int, i as int);
        }
        if i < s.len() {
            let mut piece = slice_of(s, start, i);
            if piece.len() > 0 && piece[piece.len() - 1] == '\r' {
                piece.pop();
                proof {
                    assert(piece@ =~= strip_cr(s@.subrange(start as int, i as int)));
                }
            }
            proof {
                lemma_views_push(out@, piece);
                assert(seq![piece@] + lines(s@.skip(i + 1)) == lines(s@.skip(start as int)));
                assert(views(out@.push(piece)) + lines(s@.skip(i + 1)) =~= views(out@) + (seq![
                    piece@,
                ] + lines(s@.skip(i + 1))));
            }
            out.push(piece);
            start = i + 1;
        } else {
            let piece = slice_of(s, start, i);
            proof {
                lemma_views_push(out@, piece);
                assert(s@.skip(s.len() as int) =~= Seq::<char>::empty());
                assert(views(out@.push(piece)) + lines(s@.skip(s.len() as int)) =~= views(out@) + seq![
                    piece@,
                ]);
            }
            out.push(piece);
            start = s.len();
        }
    }
    proof {
        assert(s@.skip(start as int) =~= Seq::<char>::empty());
        assert(views(out@) + lines(s@.skip(start as int)) =~= views(out@));
    }
    out
}

proof fn lemma_word_len(s: Seq<char>, k: int)
    requires
        0 <= k <= s.len(),
        forall|j: int| 0 <= j < k ==> !is_ws(s[j]),
        k == s.len() || is_ws(s[k]),
    ensures
        word_len(s) == k,
    decreases k,
{
    if k > 0 {
        let t = s.drop_first();
        assert forall|j: int| 0 <= j < k - 1 implies !is_ws(t[j]) by {
            assert(t[j] == s[j + 1]);
        }
        if k - 1 < t.len() {
            assert(t[k - 1] == s[k]);
        }
        lemma_word_len(t, k - 1);
    }
}

/// `str::split_whitespace`.
pub fn words_exec(s: &Vec<char>) -> (r: Vec<Vec<char>>)
    ensures
        views(r@) == words(s@),
{
    let mut out: Vec<Vec<char>> = Vec::new();
    let mut pos: usize = 0;
    proof {
        assert(s@.skip(0) =~= s@);
        assert(views(out@) + words(s@) =~= words(s@));
    }
    while pos < s.len()
        invariant
            pos <= s.len(),
            views(out@) + words(s@.skip(pos as int)) == words(s@),
        decreases s.len() - pos,
    {
        let ghost rest = s@.skip(pos as int);
        let mut a = pos;
        while a < s.len() && is_ws_char(s[a])
            invariant
                pos <= a <= s.len(),
                forall|j: int| pos <= j < a ==> is_ws(s@[j]),
            decreases s.len() - a,
        {
            a = a + 1;
        }
        proof {
            assert forall|j: int| 0 <= j < a - pos implies is_ws(rest[j]) by {
                assert(rest[j] == s@[pos + j]);
            }
            if a < s.len() {
                assert(rest[a - pos] == s@[a as int]);
            }
            lemma_lead_ws(rest, a - pos);
            assert(trim_start(rest) =~= s@.skip(a as int));
        }
        if a == s.len() {
            proof {
                assert(s@.skip(a as int).len() == 0);
            }
            pos = a;
        } else {
            let mut b = a;
            while b < s.len() && !is_ws_char(s[b])
                invariant
                    a <= b <= s.len(),
                    forall|j: int| a <= j < b ==> !is_ws(s@[j]),
                decreases s.len() - b,
            {
                b = b + 1;
            }
            let w = slice_of(s, a, b);
            proof {
                let t = s@.skip(a as int);
                assert forall|j: int| 0 <= j < b - a implies !is_ws(t[j]) by {
                    assert(t[j] == s@[a + j]);
                }
                if b < s.len() {
                    assert(t[b - a] == s@[b as int]);
                }
                lemma_word_len(t, b - a);
                assert(t.take(b - a) =~= w@);
                assert(t.skip(b - a) =~= s@.skip(b as int));
                lemma_views_push(out@, w);
                assert(views(out@.push(w)) + words(s@.skip(b as int)) =~= views(out@) + (seq![w@]
                    + words(s@.skip(b as int))));
            }
            out.push(w);
            pos = b;
        }
    }
    proof {
        assert(s@.skip(pos as int) =~= Seq::<char>::empty());
        assert(views(out@) + words(s@.skip(pos as int)) =~= views(out@));
    }
    out
}

/// `str::to_ascii_lowercase`.
pub fn ascii_lower_exec(s: &Vec<char>) -> (r: Vec<char>)
    ensures
        r@ == ascii_lower(s@),
{
    let mut r: Vec<char> = Vec::new();
    let mut i: usize = 0;
    while i < s.len()
        invariant
            i <= s.len(),
            r@ == ascii_lower(s@.take(i as int)),
        decreases s.len() - i,
    {
        let c = s[i];
        let d = if 'A' <= c && c <= 'Z' {
            ((c as u8) + 32) as char
        } else {
            c
        };
        proof {
            if is_ascii_upper(c) {
                assert((c as u32) < 128);
                assert(((c as u8) + 32) as char == ((c as u32) + 32) as char);
            }
        }
        r.push(d);
        proof {
            assert(ascii_lower(s@.take(i + 1)) =~= ascii_lower(s@.take(i as int)).push(d));
        }
        i = i + 1;
    }
    proof {
        assert(s@.take(s.len() as int) =~= s@);
    }
    r
}

/// `str::to_ascii_uppercase`.
pub fn ascii_upper_exec(s: &Vec<char>) -> (r: Vec<char>)
    ensures
        r@ == ascii_upper(s@),
{
    let mut r: Vec<char> = Vec::new();
    let mut i: usize = 0;
    while i < s.len()
        invariant
            i <= s.len(),
            r@ == ascii_upper(s@.take(i as int)),
        decreases s.len() - i,
    {
        let c = s[i];
        let d = if 'a' <= c && c <= 'z' {
            ((c as u8) - 32) as char
        } else {
            c
        };
        proof {
            if is_ascii_lower(c) {
                assert((c as u32) < 128);
                assert(((c as u8) - 32) as char == ((c as u32) - 32) as char);
            }
        }
        r.push(d);
        proof {
            assert(ascii_upper(s@.take(i + 1)) =~= ascii_upper(s@.take(i as int)).push(d));
        }
        i = i + 1;
    }
    proof {
        assert(s@.take(s.len() as int) =~= s@);
    }
    r
}

/// `str::eq_ignore_ascii_case`.
pub fn eq_ignore_case_exec(a: &Vec<char>, b: &Vec<char>) -> (r: bool)
    ensures
        r == eq_ignore_case(a@, b@),
{
    let la = ascii_lower_exec(a);
    let lb = ascii_lower_exec(b);
    eq(&la, &lb)
}

/// The UTF-8 byte length of `s` (`str::len`).
pub fn utf8_len_exec(s: &Vec<char>) -> (r: u128)
    ensures
        r == utf8_len(s@),
{
    let mut n: u128 = 0;
    let mut i: usize = 0;
    while i < s.len()
        invariant
            i <= s.len(),
            n == utf8_len(s@.take(i as int)),
            n <= 4 * i,
        decreases s.len() - i,
    {
        let c = s[i] as u32;
        let k: u128 = if c < 0x80 {
            1
        } else if c < 0x800 {
            2
        } else if c < 0x10000 {
            3
        } else {
            4
        };
        proof {
            assert(s@.take(i + 1).drop_last() =~= s@.take(i as int));
            assert(s@.take(i + 1).last() == s@[i as int]);
        }
        n = n + k;
        i = i + 1;
    }
    proof {
        assert(s@.take(s.len() as int) =~= s@);
    }
    n
}

} // verus!
