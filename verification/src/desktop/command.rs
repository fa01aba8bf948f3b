//! What a finished external command means to its caller.
//!
//! The application runs tools (`pactl`, `wpctl`, `bluetoothctl`, `modprobe`,
//! ...) and hands back how the run ended; the functions here turn that into
//! the result and message the user sees.
use vstd::prelude::*;
use crate::text::{chars_of, string_of, push_all};
use crate::num::{dec_int, fmt_i64};

verus! {

/// How running an external command ended.
#[derive(Clone, Debug)]
pub enum RunOutcome {
    /// It could not be started; the text of the error.
    NotStarted(String),
    /// It ran: whether it exited successfully, and its exit code if it had one.
    Finished { success: bool, code: Option<i32> },
}

/// The arguments joined with single spaces, as `[&str]::join(" ")` does.
pub open spec fn joined(args: Seq<Seq<char>>) -> Seq<char>
    decreases args.len(),
{
    if args.len() == 0 {
        seq![]
    } else if args.len() == 1 {
        args[0]
    } else {
        joined(args.drop_last()) + " "@ + args.last()
    }
}

pub open spec fn strings_view(v: Seq<String>) -> Seq<Seq<char>> {
    v.map_values(|s: String| s@)
}

/// `args.join(" ")`.
pub fn join_args(args: &Vec<String>) -> (r: String)
    ensures
        r@ == joined(strings_view(args@)),
{
    let mut out: Vec<char> = Vec::new();
    let sp = chars_of(" ");
    let mut i: usize = 0;
    while i < args.len()
        invariant
            i <= args.len(),
            sp@ == " "@,
            out@ == joined(strings_view(args@).take(i as int)),
        decreases args.len() - i,
    {
        proof {
            assert(strings_view(args@).take(i + 1).drop_last() =~= strings_view(args@).take(
                i as int,
            ));
            assert(strings_view(args@).take(i + 1).last() == args@[i as int]@);
        }
        if i > 0 {
            push_all(&mut out, &sp);
        } else {
            proof {
                assert(strings_view(args@).take(1)[0] == args@[0]@);
            }
        }
        push_all(&mut out, &chars_of(args[i].as_str()));
        i = i + 1;
    }
    proof {
        assert(strings_view(args@).take(args.len() as int) =~= strings_view(args@));
    }
    string_of(&out)
}

/// The view of a result whose error is a text.
pub open spec fn unit_result(r: Result<(), String>) -> Result<(), Seq<char>> {
    match r {
        Ok(()) => Ok(()),
        Err(e) => Err(e@),
    }
}

/// The result of running `tool` with `args`: `"<tool> not found: <error>"`
/// where it could not start, `"<tool> <args> failed"` where it exited with
/// failure (followed by `" (exit <code>)"`, the code -1 where there was none,
/// when `with_code`), and success otherwise.
pub open spec fn run_result(tool: Seq<char>, args: Seq<Seq<char>>, o: RunOutcome, with_code: bool) -> Result<
    (),
    Seq<char>,
> {
    match o {
        RunOutcome::NotStarted(e) => Err(tool + " not found: "@ + e@),
        RunOutcome::Finished { success, code } => if success {
            Ok(())
        } else {
            let base = tool + " "@ + joined(args) + " failed"@;
            if with_code {
                Err(
                    base + " (exit "@ + dec_int(
                        match code {
                            Some(c) => c as int,
                            None => -1,
                        },
                    ) + ")"@,
                )
            } else {
                Err(base)
            }
        },
    }
}

/// See [`run_result`].
pub fn command_result(tool: &str, args: &Vec<String>, o: &RunOutcome, with_code: bool) -> (r: Result<
    (),
    String,
>)
    ensures
        unit_result(r) == run_result(tool@, strings_view(args@), *o, with_code),
{
    match o {
        RunOutcome::NotStarted(e) => {
            let mut c = chars_of(tool);
            push_all(&mut c, &chars_of(" not found: "));
            push_all(&mut c, &chars_of(e.as_str()));
            Err(string_of(&c))
        },
        RunOutcome::Finished { success, code } => {
            if *success {
                return Ok(());
            }
            let mut c = chars_of(tool);
            push_all(&mut c, &chars_of(" "));
            let j = join_args(args);
            push_all(&mut c, &chars_of(j.as_str()));
            push_all(&mut c, &chars_of(" failed"));
            if with_code {
                let n: i64 = match code {
                    Some(v) => *v as i64,
                    None => -1,
                };
                push_all(&mut c, &chars_of(" (exit "));
                push_all(&mut c, &fmt_i64(n));
                push_all(&mut c, &chars_of(")"));
            }
            Err(string_of(&c))
        },
    }
}

/// A list of arguments from literals and texts.
pub fn args2(a: &str, b: &str) -> (r: Vec<String>)
    ensures
        strings_view(r@) == seq![a@, b@],
{
    let mut v: Vec<String> = Vec::new();
    v.push(String::from_str(a));
    v.push(String::from_str(b));
    proof {
        assert(strings_view(v@) =~= seq![a@, b@]);
    }
    v
}

pub fn args3(a: &str, b: &str, c: &str) -> (r: Vec<String>)
    ensures
        strings_view(r@) == seq![a@, b@, c@],
{
    let mut v: Vec<String> = Vec::new();
    v.push(String::from_str(a));
    v.push(String::from_str(b));
    v.push(String::from_str(c));
    proof {
        assert(strings_view(v@) =~= seq![a@, b@, c@]);
    }
    v
}

} // verus!
