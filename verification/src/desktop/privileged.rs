//! Root-only operations: through the `dmgr-polkit-helper` run by `pkexec`, or
//! directly when the application already runs as root.
//!
//! Finding programs and running them is the caller's part; the functions here
//! decide the route and turn how a run ended into the message the user sees.
use vstd::prelude::*;
use crate::text::{chars_of, string_of, push_all};
use crate::num::{dec_int, fmt_i64};
use crate::desktop::command::{RunOutcome, joined, strings_view, join_args, unit_result};

verus! {

/// Whether root operations can be done at all: already root, or the helper
/// and `pkexec` are both there.
pub fn can_elevate(is_root: bool, helper_found: bool, has_pkexec: bool) -> (r: bool)
    ensures
        r == (is_root || (helper_found && has_pkexec)),
{
    is_root || (helper_found && has_pkexec)
}

/// How a root operation is carried out.
#[derive(Clone, Debug)]
pub enum Route {
    /// Already root: do it in this process (the helper's command) or run the
    /// program directly (`pkexec` runs).
    Direct,
    /// Run this program (an absolute path) under `pkexec`.
    Pkexec(String),
}

pub open spec fn helper_missing_message() -> Seq<char> {
    "Privileged helper 'dmgr-polkit-helper' not found. Install dmgr (or `cargo build` it), then retry. Alternatively, launch dmgr as root."@
}

pub open spec fn no_pkexec_message() -> Seq<char> {
    "'pkexec' (polkit) not found, so this action can't request root from the GUI. Install polkit, or run dmgr from a terminal as root."@
}

/// The route of a helper command: direct as root; else the helper (`helper`,
/// where it was found) under `pkexec`, if `pkexec` is there.
pub fn helper_route(is_root: bool, helper: Option<String>, has_pkexec: bool) -> (r: Result<Route, String>)
    ensures
        is_root ==> r matches Ok(Route::Direct),
        !is_root && helper is None ==> (r matches Err(e) && e@ == helper_missing_message()),
        !is_root && helper is Some && !has_pkexec ==> (r matches Err(e) && e@ == no_pkexec_message()),
        !is_root && has_pkexec ==> match helper {
            Some(h) => (r matches Ok(Route::Pkexec(p)) && p@ == h@),
            None => true,
        },
{
    if is_root {
        return Ok(Route::Direct);
    }
    let h = match helper {
        Some(h) => h,
        None => {
            return Err(
                String::from_str(
                    "Privileged helper 'dmgr-polkit-helper' not found. Install dmgr (or `cargo build` it), then retry. Alternatively, launch dmgr as root.",
                ),
            );
        },
    };
    if !has_pkexec {
        return Err(
            String::from_str(
                "'pkexec' (polkit) not found, so this action can't request root from the GUI. Install polkit, or run dmgr from a terminal as root.",
            ),
        );
    }
    Ok(Route::Pkexec(h))
}

/// How a `pkexec` run of the helper ended, as the user sees it: 126 is a
/// dismissed dialog, 127 a refusal by polkit.
pub open spec fn helper_outcome(o: RunOutcome) -> Result<(), Seq<char>> {
    match o {
        RunOutcome::NotStarted(e) => Err("pkexec failed to launch: "@ + e@),
        RunOutcome::Finished { success, code } => if success {
            Ok(())
        } else {
            match code {
                Some(126) => Err("Authorization dialog dismissed"@),
                Some(127) => Err("Not authorized (polkit denied the action)"@),
                Some(c) => Err("Privileged operation failed (exit "@ + dec_int(c as int) + ")"@),
                None => Err("Privileged operation terminated by signal"@),
            }
        },
    }
}

fn text2(a: &str, b: &Vec<char>) -> (r: String)
    ensures
        r@ == a@ + b@,
{
    let mut v = chars_of(a);
    push_all(&mut v, b);
    string_of(&v)
}

fn text3(a: &str, b: &Vec<char>, c: &str) -> (r: String)
    ensures
        r@ == a@ + b@ + c@,
{
    let mut v = chars_of(a);
    push_all(&mut v, b);
    push_all(&mut v, &chars_of(c));
    string_of(&v)
}

/// See [`helper_outcome`].
pub fn helper_result(o: &RunOutcome) -> (r: Result<(), String>)
    ensures
        unit_result(r) == helper_outcome(*o),
{
    match o {
        RunOutcome::NotStarted(e) => Err(text2("pkexec failed to launch: ", &chars_of(e.as_str()))),
        RunOutcome::Finished { success, code } => {
            if *success {
                return Ok(());
            }
            match code {
                Some(126) => Err(String::from_str("Authorization dialog dismissed")),
                Some(127) => Err(String::from_str("Not authorized (polkit denied the action)")),
                Some(c) => Err(text3("Privileged operation failed (exit ", &fmt_i64(*c as i64), ")")),
                None => Err(String::from_str("Privileged operation terminated by signal")),
            }
        },
    }
}

/// The route of running `prog` as root: it must have been found on the
/// `PATH` (`full` is its absolute path); as root it runs directly, else under
/// `pkexec` if that is there.
pub fn pkexec_route(prog: &str, full: Option<String>, is_root: bool, has_pkexec: bool) -> (r: Result<
    Route,
    String,
>)
    ensures
        full is None ==> (r matches Err(e) && e@ == "'"@ + prog@ + "' not found"@),
        full is Some && is_root ==> r matches Ok(Route::Direct),
        full is Some && !is_root && !has_pkexec ==> (r matches Err(e) && e@
            == "'pkexec' (polkit) not found — run dmgr as root for this action"@),
        !is_root && has_pkexec ==> match full {
            Some(f) => (r matches Ok(Route::Pkexec(p)) && p@ == f@),
            None => true,
        },
{
    let f = match full {
        Some(f) => f,
        None => {
            return Err(text3("'", &chars_of(prog), "' not found"));
        },
    };
    if is_root {
        return Ok(Route::Direct);
    }
    if !has_pkexec {
        return Err(String::from_str("'pkexec' (polkit) not found — run dmgr as root for this action"));
    }
    Ok(Route::Pkexec(f))
}

/// How running `prog` with `args` ended when run directly as root.
pub open spec fn direct_outcome(prog: Seq<char>, args: Seq<Seq<char>>, o: RunOutcome) -> Result<
    (),
    Seq<char>,
> {
    match o {
        RunOutcome::NotStarted(e) => Err(prog + " failed: "@ + e@),
        RunOutcome::Finished { success, code } => if success {
            Ok(())
        } else {
            Err(prog + " "@ + joined(args) + " failed"@)
        },
    }
}

/// See [`direct_outcome`].
pub fn direct_result(prog: &str, args: &Vec<String>, o: &RunOutcome) -> (r: Result<(), String>)
    ensures
        unit_result(r) == direct_outcome(prog@, strings_view(args@), *o),
{
    match o {
        RunOutcome::NotStarted(e) => Err(text3(prog, &chars_of(" failed: "), e.as_str())),
        RunOutcome::Finished { success, code } => {
            if *success {
                Ok(())
            } else {
                let mut v = chars_of(prog);
                push_all(&mut v, &chars_of(" "));
                push_all(&mut v, &chars_of(join_args(args).as_str()));
                push_all(&mut v, &chars_of(" failed"));
                Err(string_of(&v))
            }
        },
    }
}

/// How running `prog` under `pkexec` ended.
pub open spec fn pkexec_outcome(prog: Seq<char>, o: RunOutcome) -> Result<(), Seq<char>> {
    match o {
        RunOutcome::NotStarted(e) => Err("pkexec failed to launch: "@ + e@),
        RunOutcome::Finished { success, code } => if success {
            Ok(())
        } else {
            match code {
                Some(126) => Err("Authorization dialog dismissed"@),
                Some(127) => Err("Not authorized (polkit denied the action)"@),
                Some(c) => Err(prog + " failed (exit "@ + dec_int(c as int) + ")"@),
                None => Err(prog + " terminated by signal"@),
            }
        },
    }
}

/// See [`pkexec_outcome`].
pub fn pkexec_result(prog: &str, o: &RunOutcome) -> (r: Result<(), String>)
    ensures
        unit_result(r) == pkexec_outcome(prog@, *o),
{
    match o {
        RunOutcome::NotStarted(e) => Err(text2("pkexec failed to launch: ", &chars_of(e.as_str()))),
        RunOutcome::Finished { success, code } => {
            if *success {
                return Ok(());
            }
            match code {
                Some(126) => Err(String::from_str("Authorization dialog dismissed")),
                Some(127) => Err(String::from_str("Not authorized (polkit denied the action)")),
                Some(c) => {
                    let mut v = chars_of(prog);
                    push_all(&mut v, &chars_of(" failed (exit "));
                    push_all(&mut v, &fmt_i64(*c as i64));
                    push_all(&mut v, &chars_of(")"));
                    Err(string_of(&v))
                },
                None => Err(text2(prog, &chars_of(" terminated by signal"))),
            }
        },
    }
}

/// A helper command that the application can do itself when it is root.
#[derive(Clone, Debug)]
pub enum DirectCommand {
    Bind { path: String, driver: String },
    Unbind { path: String },
    SetProperty { path: String, property: String, value: String },
}

/// What `{:?}` writes for a list of texts (`["bind", "/sys/..."]`).
pub uninterp spec fn debug_texts(args: Seq<Seq<char>>) -> Seq<char>;

/// `format!("{:?}", args)`; the result is `debug_texts` of the arguments.
#[verifier::external_body]
fn debug_list(args: &Vec<String>) -> (r: String)
    ensures
        r@ == debug_texts(strings_view(args@)),
{
    format!("{:?}", args)
}

/// The command that the helper arguments `args` name: `bind <path>
/// <driver>`, `unbind <path>` or `set <path> <property> <value>`.
pub fn direct_command(args: &Vec<String>) -> (r: Result<DirectCommand, String>)
    ensures
        ({
            let a = strings_view(args@);
            if a.len() == 3 && a[0] == "bind"@ {
                r matches Ok(DirectCommand::Bind { path, driver }) && path@ == a[1] && driver@ == a[2]
            } else if a.len() == 2 && a[0] == "unbind"@ {
                r matches Ok(DirectCommand::Unbind { path }) && path@ == a[1]
            } else if a.len() == 4 && a[0] == "set"@ {
                r matches Ok(DirectCommand::SetProperty { path, property, value }) && path@ == a[1]
                    && property@ == a[2] && value@ == a[3]
            } else {
                r matches Err(e) && e@ == "Unknown privileged command: "@ + debug_texts(a)
            }
        }),
{
    let ghost a = strings_view(args@);
    proof {
        assert(forall|i: int| 0 <= i < args@.len() ==> a[i] == args@[i]@);
    }
    if args.len() == 3 && args[0] == String::from_str("bind") {
        return Ok(DirectCommand::Bind { path: args[1].clone(), driver: args[2].clone() });
    }
    if args.len() == 2 && args[0] == String::from_str("unbind") {
        return Ok(DirectCommand::Unbind { path: args[1].clone() });
    }
    if args.len() == 4 && args[0] == String::from_str("set") {
        return Ok(
            DirectCommand::SetProperty {
                path: args[1].clone(),
                property: args[2].clone(),
                value: args[3].clone(),
            },
        );
    }
    let mut v = chars_of("Unknown privileged command: ");
    push_all(&mut v, &chars_of(debug_list(args).as_str()));
    Err(string_of(&v))
}

} // verus!
