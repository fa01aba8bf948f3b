//! Integer parsing and decimal formatting, with the semantics of the
//! integer `FromStr` / `from_str_radix` implementations and of `{}`.
use vstd::prelude::*;

verus! {

/// Value of `c` as a digit in base `radix` (10 or 16), or -1.
pub open spec fn digit_val(c: char, radix: nat) -> int {
    let v: int = if '0' <= c && c <= '9' {
        (c as u32) - ('0' as u32)
    } else if 'a' <= c && c <= 'z' {
        (c as u32) - ('a' as u32) + 10
    } else if 'A' <= c && c <= 'Z' {
        (c as u32) - ('A' as u32) + 10
    } else {
        -1
    };
    if 0 <= v < radix {
        v
    } else {
        -1
    }
}

pub open spec fn all_digits(s: Seq<char>, radix: nat) -> bool {
    forall|i: int| 0 <= i < s.len() ==> digit_val(#[trigger] s[i], radix) >= 0
}

/// The number written by the digits `s` in base `radix`.
pub open spec fn digits_value(s: Seq<char>, radix: nat) -> nat
    decreases s.len(),
{
    if s.len() == 0 {
        0
    } else {
        digits_value(s.drop_last(), radix) * radix + digit_val(s.last(), radix) as nat
    }
}

/// Unsigned `from_str_radix`: an optional `+`, then one or more digits,
/// with a value of at most `max`.
pub open spec fn parse_uint(s: Seq<char>, radix: nat, max: nat) -> Option<nat> {
    let body = if s.len() > 0 && s[0] == '+' {
        s.drop_first()
    } else {
        s
    };
    if body.len() == 0 || !all_digits(body, radix) || digits_value(body, radix) > max {
        None
    } else {
        Some(digits_value(body, radix))
    }
}

/// Signed `FromStr` (base 10): an optional `+` or `-`, then one or more
/// digits, with a value between `min` and `max`.
pub open spec fn parse_int(s: Seq<char>, min: int, max: int) -> Option<int> {
    let neg = s.len() > 0 && s[0] == '-';
    let body = if s.len() > 0 && (s[0] == '+' || s[0] == '-') {
        s.drop_first()
    } else {
        s
    };
    let v: int = if neg {
        -(digits_value(body, 10) as int)
    } else {
        digits_value(body, 10) as int
    };
    if body.len() == 0 || !all_digits(body, 10) || v < min || v > max {
        None
    } else {
        Some(v)
    }
}

pub open spec fn digit_char(d: nat) -> char {
    if d == 0 {
        '0'
    } else if d == 1 {
        '1'
    } else if d == 2 {
        '2'
    } else if d == 3 {
        '3'
    } else if d == 4 {
        '4'
    } else if d == 5 {
        '5'
    } else if d == 6 {
        '6'
    } else if d == 7 {
        '7'
    } else if d == 8 {
        '8'
    } else {
        '9'
    }
}

/// The decimal digits of `n`, as `{}` writes them.
pub open spec fn dec(n: nat) -> Seq<char>
    decreases n,
{
    if n < 10 {
        seq![digit_char(n)]
    } else {
        dec(n / 10).push(digit_char(n % 10))
    }
}

/// A signed integer as `{}` writes it.
pub open spec fn dec_int(v: int) -> Seq<char> {
    if v < 0 {
        seq!['-'] + dec((-v) as nat)
    } else {
        dec(v as nat)
    }
}

proof fn lemma_digit_char(d: nat)
    requires
        d < 10,
    ensures
        digit_val(digit_char(d), 10) == d,
        (digit_char(d) == '0') == (d == 0),
{
}

/// `{}` writes a number as digits that read back as the same number, with
/// no leading zero (`0` alone for zero).
pub proof fn law_dec_reads_back(n: nat)
    ensures
        dec(n).len() >= 1,
        all_digits(dec(n), 10),
        digits_value(dec(n), 10) == n,
        dec(n)[0] == '0' ==> n == 0 && dec(n).len() == 1,
    decreases n,
{
    if n < 10 {
        lemma_digit_char(n);
        assert(dec(n) == seq![digit_char(n)]);
        assert(dec(n).drop_last() =~= Seq::<char>::empty());
        assert(digits_value(dec(n).drop_last(), 10) == 0);
        assert(digits_value(dec(n), 10) == digits_value(dec(n).drop_last(), 10) * 10 + digit_val(
            dec(n).last(),
            10,
        ) as nat);
    } else {
        law_dec_reads_back(n / 10);
        lemma_digit_char(n % 10);
        let p = dec(n / 10);
        assert(dec(n) == p.push(digit_char(n % 10)));
        assert(dec(n).drop_last() =~= p);
        assert(dec(n)[0] == p[0]);
        assert(digits_value(dec(n), 10) == digits_value(p, 10) * 10 + digit_val(digit_char(n % 10), 10) as nat);
        assert forall|i: int| 0 <= i < dec(n).len() implies digit_val(#[trigger] dec(n)[i], 10) >= 0 by {
            if i < p.len() {
                assert(dec(n)[i] == p[i]);
            }
        }
    }
}

fn digit_of(c: char, radix: u32) -> (r: Option<u32>)
    requires
        radix == 10 || radix == 16,
    ensures
        r is Some <==> digit_val(c, radix as nat) >= 0,
        r matches Some(d) ==> d == digit_val(c, radix as nat) && d < radix,
{
    let v: u32 = if '0' <= c && c <= '9' {
        (c as u32) - ('0' as u32)
    } else if 'a' <= c && c <= 'z' {
        (c as u32) - ('a' as u32) + 10
    } else if 'A' <= c && c <= 'Z' {
        (c as u32) - ('A' as u32) + 10
    } else {
        return None;
    };
    if v < radix {
        Some(v)
    } else {
        None
    }
}

proof fn lemma_value_monotone(s: Seq<char>, radix: nat, i: int, j: int)
    requires
        radix >= 1,
        0 <= i <= j <= s.len(),
        all_digits(s, radix),
    ensures
        digits_value(s.take(i), radix) <= digits_value(s.take(j), radix),
    decreases j - i,
{
    if i < j {
        lemma_value_monotone(s, radix, i, j - 1);
        assert(s.take(j).drop_last() =~= s.take(j - 1));
        let d = digits_value(s.take(j - 1), radix);
        assert(d * radix >= d) by (nonlinear_arith)
            requires
                radix >= 1,
        ;
    }
}

/// Parses the digits `s[from..]`: `Some(value)` when they are one or more
/// digits of value at most `max`.
fn parse_digits(s: &Vec<char>, from: usize, radix: u32, max: u64) -> (r: Option<u64>)
    requires
        radix == 10 || radix == 16,
        from <= s.len(),
    ensures
        ({
            let body = s@.skip(from as int);
            r == (if body.len() == 0 || !all_digits(body, radix as nat) || digits_value(
                body,
                radix as nat,
            ) > max {
                None::<u64>
            } else {
                Some(digits_value(body, radix as nat) as u64)
            })
        }),
{
    let ghost body = s@.skip(from as int);
    if from == s.len() {
        return None;
    }
    let mut acc: u128 = 0;
    let mut i = from;
    while i < s.len()
        invariant
            from <= i <= s.len(),
            radix == 10 || radix == 16,
            body == s@.skip(from as int),
            acc == digits_value(body.take(i - from), radix as nat),
            acc <= max,
            all_digits(body.take(i - from), radix as nat),
        decreases s.len() - i,
    {
        let d = match digit_of(s[i], radix) {
            Some(d) => d,
            None => {
                proof {
                    assert(body[i - from] == s@[i as int]);
                }
                return None;
            },
        };
        proof {
            assert(body.take(i - from + 1).drop_last() =~= body.take(i - from));
            assert(body.take(i - from + 1).last() == s@[i as int]);
            assert(acc * (radix as u128) <= (max as u128) * 16) by (nonlinear_arith)
                requires
                    acc <= max,
                    radix <= 16,
            ;
            assert forall|j: int| 0 <= j < i - from + 1 implies digit_val(
                #[trigger] body.take(i - from + 1)[j],
                radix as nat,
            ) >= 0 by {
                if j < i - from {
                    assert(body.take(i - from + 1)[j] == body.take(i - from)[j]);
                }
            }
        }
        acc = acc * (radix as u128) + (d as u128);
        i = i + 1;
        if acc > max as u128 {
            proof {
                assert(body.take(i - from) =~= s@.subrange(from as int, i as int));
                if all_digits(body, radix as nat) {
                    lemma_value_monotone(body, radix as nat, i - from, body.len() as int);
                    assert(body.take(body.len() as int) =~= body);
                }
            }
            return None;
        }
    }
    proof {
        assert(body.take(s.len() - from) =~= body);
    }
    Some(acc as u64)
}

/// Unsigned `from_str_radix(s, radix)` for a type whose maximum is `max`.
pub fn parse_uint_exec(s: &Vec<char>, radix: u32, max: u64) -> (r: Option<u64>)
    requires
        radix == 10 || radix == 16,
    ensures
        r is Some <==> parse_uint(s@, radix as nat, max as nat) is Some,
        r matches Some(v) ==> parse_uint(s@, radix as nat, max as nat) == Some(v as nat),
{
    let from: usize = if s.len() > 0 && s[0] == '+' {
        1
    } else {
        0
    };
    proof {
        if from == 1 {
            assert(s@.skip(1) =~= s@.drop_first());
        } else {
            assert(s@.skip(0) =~= s@);
        }
    }
    parse_digits(s, from, radix, max)
}

/// `u64::from_str`.
pub fn parse_u64(s: &Vec<char>) -> (r: Option<u64>)
    ensures
        r is Some <==> parse_uint(s@, 10, u64::MAX as nat) is Some,
        r matches Some(v) ==> parse_uint(s@, 10, u64::MAX as nat) == Some(v as nat),
{
    parse_uint_exec(s, 10, u64::MAX)
}

/// `u32::from_str`.
pub fn parse_u32(s: &Vec<char>) -> (r: Option<u32>)
    ensures
        r is Some <==> parse_uint(s@, 10, u32::MAX as nat) is Some,
        r matches Some(v) ==> parse_uint(s@, 10, u32::MAX as nat) == Some(v as nat),
{
    match parse_uint_exec(s, 10, u32::MAX as u64) {
        Some(v) => Some(v as u32),
        None => None,
    }
}

/// `u8::from_str`.
pub fn parse_u8(s: &Vec<char>) -> (r: Option<u8>)
    ensures
        r is Some <==> parse_uint(s@, 10, u8::MAX as nat) is Some,
        r matches Some(v) ==> parse_uint(s@, 10, u8::MAX as nat) == Some(v as nat),
{
    match parse_uint_exec(s, 10, u8::MAX as u64) {
        Some(v) => Some(v as u8),
        None => None,
    }
}

/// `u8::from_str_radix(s, 16)`.
pub fn parse_u8_hex(s: &Vec<char>) -> (r: Option<u8>)
    ensures
        r is Some <==> parse_uint(s@, 16, u8::MAX as nat) is Some,
        r matches Some(v) ==> parse_uint(s@, 16, u8::MAX as nat) == Some(v as nat),
{
    match parse_uint_exec(s, 16, u8::MAX as u64) {
        Some(v) => Some(v as u8),
        None => None,
    }
}

/// Signed `FromStr` for a type whose range is `min..=max`.
pub fn parse_int_exec(s: &Vec<char>, min: i64, max: i64) -> (r: Option<i64>)
    requires
        min <= 0 <= max,
    ensures
        r is Some <==> parse_int(s@, min as int, max as int) is Some,
        r matches Some(v) ==> parse_int(s@, min as int, max as int) == Some(v as int),
{
    let neg = s.len() > 0 && s[0] == '-';
    let from: usize = if s.len() > 0 && (s[0] == '+' || s[0] == '-') {
        1
    } else {
        0
    };
    proof {
        if from == 1 {
            assert(s@.skip(1) =~= s@.drop_first());
        } else {
            assert(s@.skip(0) =~= s@);
        }
    }
    let bound: u64 = if neg {
        (0i128 - min as i128) as u64
    } else {
        max as u64
    };
    match parse_digits(s, from, 10, bound) {
        Some(v) => {
            if neg {
                Some((0i128 - v as i128) as i64)
            } else {
                Some(v as i64)
            }
        },
        None => None,
    }
}

/// `i32::from_str`.
pub fn parse_i32(s: &Vec<char>) -> (r: Option<i32>)
    ensures
        r is Some <==> parse_int(s@, i32::MIN as int, i32::MAX as int) is Some,
        r matches Some(v) ==> parse_int(s@, i32::MIN as int, i32::MAX as int) == Some(v as int),
{
    match parse_int_exec(s, i32::MIN as i64, i32::MAX as i64) {
        Some(v) => Some(v as i32),
        None => None,
    }
}

/// `i16::from_str`.
pub fn parse_i16(s: &Vec<char>) -> (r: Option<i16>)
    ensures
        r is Some <==> parse_int(s@, i16::MIN as int, i16::MAX as int) is Some,
        r matches Some(v) ==> parse_int(s@, i16::MIN as int, i16::MAX as int) == Some(v as int),
{
    match parse_int_exec(s, i16::MIN as i64, i16::MAX as i64) {
        Some(v) => Some(v as i16),
        None => None,
    }
}

/// The decimal digit `d`.
pub fn fmt_digit(d: u64) -> (c: char)
    requires
        d < 10,
    ensures
        c == digit_char(d as nat),
{
    if d == 0 {
        '0'
    } else if d == 1 {
        '1'
    } else if d == 2 {
        '2'
    } else if d == 3 {
        '3'
    } else if d == 4 {
        '4'
    } else if d == 5 {
        '5'
    } else if d == 6 {
        '6'
    } else if d == 7 {
        '7'
    } else if d == 8 {
        '8'
    } else {
        '9'
    }
}

/// `n` in decimal.
pub fn fmt_u64(n: u64) -> (r: Vec<char>)
    ensures
        r@ == dec(n as nat),
    decreases n,
{
    if n < 10 {
        let mut r: Vec<char> = Vec::new();
        r.push(fmt_digit(n));
        proof {
            assert(r@ =~= seq![digit_char(n as nat)]);
        }
        r
    } else {
        let mut r = fmt_u64(n / 10);
        r.push(fmt_digit(n % 10));
        r
    }
}

/// `v` in decimal, with a leading `-` when negative.
pub fn fmt_i64(v: i64) -> (r: Vec<char>)
    ensures
        r@ == dec_int(v as int),
{
    if v < 0 {
        let mag = (0i128 - v as i128) as u64;
        let d = fmt_u64(mag);
        let mut r: Vec<char> = Vec::new();
        r.push('-');
        let r2 = crate::text::concat(&r, &d);
        proof {
            assert(r@ =~= seq!['-']);
        }
        r2
    } else {
        fmt_u64(v as u64)
    }
}

} // verus!
