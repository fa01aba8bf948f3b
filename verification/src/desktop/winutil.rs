//! Windows helpers: running a PowerShell command elevated through UAC, with
//! the command passed base64-encoded so that no quoting can break it.
use vstd::prelude::*;
use crate::text::{chars_of, string_of, push_all};
use crate::num::{dec_int, fmt_i64};
use crate::desktop::command::{RunOutcome, unit_result};

verus! {

/// The character of the standard base64 alphabet for the 6-bit value `v`.
pub open spec fn b64_digit(v: int) -> char {
    if v < 26 {
        (('A' as int) + v) as char
    } else if v < 52 {
        (('a' as int) + v - 26) as char
    } else if v < 62 {
        (('0' as int) + v - 52) as char
    } else if v == 62 {
        '+'
    } else {
        '/'
    }
}

/// The four characters of a group of `n` (1 to 3) bytes, padded with `=`.
pub open spec fn b64_group(b0: int, b1: int, b2: int, n: int) -> Seq<char> {
    seq![
        b64_digit(b0 / 4),
        b64_digit((b0 % 4) * 16 + b1 / 16),
        if n > 1 {
            b64_digit((b1 % 16) * 4 + b2 / 64)
        } else {
            '='
        },
        if n > 2 {
            b64_digit(b2 % 64)
        } else {
            '='
        },
    ]
}

/// Standard base64 (RFC 4648) with padding.
pub open spec fn base64_of(d: Seq<u8>) -> Seq<char>
    decreases d.len(),
{
    if d.len() == 0 {
        seq![]
    } else if d.len() >= 3 {
        b64_group(d[0] as int, d[1] as int, d[2] as int, 3) + base64_of(d.skip(3))
    } else {
        b64_group(
            d[0] as int,
            if d.len() > 1 {
                d[1] as int
            } else {
                0
            },
            0,
            d.len() as int,
        )
    }
}

fn b64_char(v: u8) -> (c: char)
    requires
        v < 64,
    ensures
        c == b64_digit(v as int),
{
    if v < 26 {
        (65u8 + v) as char
    } else if v < 52 {
        (97u8 + v - 26) as char
    } else if v < 62 {
        (48u8 + v - 52) as char
    } else if v == 62 {
        '+'
    } else {
        '/'
    }
}

/// See [`base64_of`].
pub fn base64(data: &[u8]) -> (r: String)
    ensures
        r@ == base64_of(data@),
{
    let mut out: Vec<char> = Vec::new();
    let mut i: usize = 0;
    proof {
        assert(data@.skip(0) =~= data@);
    }
    while i < data.len()
        invariant
            i <= data.len(),
            base64_of(data@) == out@ + base64_of(data@.skip(i as int)),
        decreases data.len() - i,
    {
        let rest_len = data.len() - i;
        let b0 = data[i];
        let b1: u8 = if rest_len > 1 {
            data[i + 1]
        } else {
            0
        };
        let b2: u8 = if rest_len > 2 {
            data[i + 2]
        } else {
            0
        };
        let ghost rest = data@.skip(i as int);
        proof {
            assert(rest[0] == b0);
            if rest_len > 1 {
                assert(rest[1] == b1);
            }
            if rest_len > 2 {
                assert(rest[2] == b2);
            }
        }
        let ghost before = out@;
        out.push(b64_char(b0 / 4));
        out.push(b64_char((b0 % 4) * 16 + b1 / 16));
        out.push(if rest_len > 1 {
            b64_char((b1 % 16) * 4 + b2 / 64)
        } else {
            '='
        });
        out.push(if rest_len > 2 {
            b64_char(b2 % 64)
        } else {
            '='
        });
        if rest_len >= 3 {
            proof {
                assert(rest.skip(3) =~= data@.skip(i + 3));
                assert(out@ =~= before + b64_group(b0 as int, b1 as int, b2 as int, 3));
            }
            i = i + 3;
        } else {
            proof {
                assert(out@ =~= before + b64_group(b0 as int, b1 as int, 0, rest_len as int));
                assert(data@.skip(data.len() as int) =~= Seq::<u8>::empty());
            }
            i = data.len();
        }
    }
    proof {
        assert(data@.skip(data.len() as int) =~= Seq::<u8>::empty());
        assert(out@ =~= out@ + Seq::<char>::empty());
    }
    string_of(&out)
}

/// The UTF-16LE bytes of one character: one code unit, or a surrogate pair
/// for characters beyond U+FFFF, each unit low byte first.
pub open spec fn char_utf16le(c: char) -> Seq<u8> {
    let v = (c as u32) as int;
    if v < 0x10000 {
        seq![(v % 256) as u8, (v / 256) as u8]
    } else {
        let w = v - 0x10000;
        let hi = 0xD800 + w / 1024;
        let lo = 0xDC00 + w % 1024;
        seq![(hi % 256) as u8, (hi / 256) as u8, (lo % 256) as u8, (lo / 256) as u8]
    }
}

/// The UTF-16LE encoding of a text.
pub open spec fn utf16le(s: Seq<char>) -> Seq<u8>
    decreases s.len(),
{
    if s.len() == 0 {
        seq![]
    } else {
        utf16le(s.drop_last()) + char_utf16le(s.last())
    }
}

/// The UTF-16LE bytes of `s`.
pub fn utf16le_bytes(s: &str) -> (r: Vec<u8>)
    ensures
        r@ == utf16le(s@),
{
    let cs = chars_of(s);
    let mut out: Vec<u8> = Vec::new();
    let mut i: usize = 0;
    proof {
        assert(cs@.take(0) =~= Seq::<char>::empty());
    }
    while i < cs.len()
        invariant
            i <= cs.len(),
            cs@ == s@,
            out@ == utf16le(cs@.take(i as int)),
        decreases cs.len() - i,
    {
        let c = cs[i];
        let v = c as u32;
        let ghost before = out@;
        if v < 0x10000 {
            out.push((v % 256) as u8);
            out.push((v / 256) as u8);
        } else {
            let w = v - 0x10000;
            let hi = 0xD800 + w / 1024;
            let lo = 0xDC00 + w % 1024;
            out.push((hi % 256) as u8);
            out.push((hi / 256) as u8);
            out.push((lo % 256) as u8);
            out.push((lo / 256) as u8);
        }
        proof {
            assert(cs@.take(i + 1).drop_last() =~= cs@.take(i as int));
            assert(cs@.take(i + 1).last() == c);
            assert(out@ =~= before + char_utf16le(c));
        }
        i = i + 1;
    }
    proof {
        assert(cs@.take(cs.len() as int) =~= cs@);
    }
    out
}

/// A PowerShell command as `-EncodedCommand` takes it: base64 of its
/// UTF-16LE bytes.
pub fn encode_command(ps: &str) -> (r: String)
    ensures
        r@ == base64_of(utf16le(ps@)),
{
    let bytes = utf16le_bytes(ps);
    base64(bytes.as_slice())
}

/// The PowerShell script that runs the encoded command elevated and exits
/// with its exit code (1223 where the UAC prompt was declined).
pub open spec fn launcher_script(encoded: Seq<char>) -> Seq<char> {
    "try { $p = Start-Process powershell -Verb RunAs -Wait -PassThru -WindowStyle Hidden -ArgumentList '-NoProfile','-NonInteractive','-EncodedCommand','"@
        + encoded + "'; exit $p.ExitCode } catch { exit 1223 }"@
}

/// The script that runs `action` elevated; run it with `powershell
/// -NoProfile -NonInteractive -Command`.
pub fn run_elevated(action: &str) -> (r: String)
    ensures
        r@ == launcher_script(base64_of(utf16le(action@))),
{
    let encoded = encode_command(action);
    let mut c = chars_of(
        "try { $p = Start-Process powershell -Verb RunAs -Wait -PassThru -WindowStyle Hidden -ArgumentList '-NoProfile','-NonInteractive','-EncodedCommand','",
    );
    push_all(&mut c, &chars_of(encoded.as_str()));
    push_all(&mut c, &chars_of("'; exit $p.ExitCode } catch { exit 1223 }"));
    string_of(&c)
}

/// How the elevated run ended, as the user sees it: by its exit code alone.
pub open spec fn elevated_outcome(o: RunOutcome) -> Result<(), Seq<char>> {
    match o {
        RunOutcome::NotStarted(e) => Err("failed to launch elevated PowerShell: "@ + e@),
        RunOutcome::Finished { success, code } => match code {
            Some(0) => Ok(()),
            Some(1223) => Err(
                "Elevation cancelled — approve the Administrator (UAC) prompt to continue"@,
            ),
            Some(c) => Err("Action failed with administrator rights (exit code "@ + dec_int(c as int)
                + ")"@),
            None => Err("Elevated action terminated unexpectedly"@),
        },
    }
}

/// See [`elevated_outcome`].
pub fn elevated_result(o: &RunOutcome) -> (r: Result<(), String>)
    ensures
        unit_result(r) == elevated_outcome(*o),
{
    match o {
        RunOutcome::NotStarted(e) => {
            let mut c = chars_of("failed to launch elevated PowerShell: ");
            push_all(&mut c, &chars_of(e.as_str()));
            Err(string_of(&c))
        },
        RunOutcome::Finished { success, code } => match code {
            Some(0) => Ok(()),
            Some(1223) => Err(
                String::from_str(
                    "Elevation cancelled — approve the Administrator (UAC) prompt to continue",
                ),
            ),
            Some(c) => {
                let mut v = chars_of("Action failed with administrator rights (exit code ");
                push_all(&mut v, &fmt_i64(*c as i64));
                push_all(&mut v, &chars_of(")"));
                Err(string_of(&v))
            },
            None => Err(String::from_str("Elevated action terminated unexpectedly")),
        },
    }
}

} // verus!
