//! The command line of `dmgr-polkit-helper`, the program that `pkexec` runs
//! as root to bind, unbind or write an attribute: which operation the
//! arguments ask for, what is printed when they ask for none, and the line
//! that reports how the operation went.
use vstd::prelude::*;
use crate::text::{chars_of, string_of, concat};
use crate::device::is_lit;
use crate::error::{DmgrError, error_message};

verus! {

/// An operation of the helper.
#[derive(Debug)]
pub enum HelperCommand {
    /// `bind <device_path> <driver>`
    Bind { path: String, driver: String },
    /// `unbind <device_path>`
    Unbind { path: String },
    /// `set <device_path> <property> <value>`
    SetProperty { path: String, property: String, value: String },
}

/// Why the arguments name no operation.
#[derive(Debug)]
pub enum HelperArgsError {
    /// No command at all.
    Missing,
    /// `bind` without exactly a path and a driver.
    BindArity,
    /// `unbind` without exactly a path.
    UnbindArity,
    /// `set` without exactly a path, a property and a value.
    SetArity,
    /// A command the helper does not know.
    Unknown(String),
}

pub open spec fn usage_text() -> Seq<char> {
    "dmgr-polkit-helper - Privileged device manager operations\n\nUsage:\n  dmgr-polkit-helper bind <device_path> <driver>\n  dmgr-polkit-helper unbind <device_path>\n  dmgr-polkit-helper set <device_path> <property> <value>"@
}

pub open spec fn bind_usage() -> Seq<char> {
    "Usage: dmgr-polkit-helper bind <device_path> <driver>"@
}

pub open spec fn unbind_usage() -> Seq<char> {
    "Usage: dmgr-polkit-helper unbind <device_path>"@
}

pub open spec fn set_usage() -> Seq<char> {
    "Usage: dmgr-polkit-helper set <device_path> <property> <value>"@
}

/// What the helper prints (to standard error) for `e`.
pub open spec fn args_error_text(e: HelperArgsError) -> Seq<char> {
    match e {
        HelperArgsError::Missing => usage_text(),
        HelperArgsError::BindArity => bind_usage(),
        HelperArgsError::UnbindArity => unbind_usage(),
        HelperArgsError::SetArity => set_usage(),
        HelperArgsError::Unknown(c) => "Unknown command: "@ + c@ + "\n"@ + usage_text(),
    }
}

impl HelperArgsError {
    /// The text printed for this error, before the helper exits with 1.
    pub fn message(&self) -> (r: String)
        ensures
            r@ == args_error_text(*self),
    {
        match self {
            HelperArgsError::Missing => usage(),
            HelperArgsError::BindArity => String::from_str(
                "Usage: dmgr-polkit-helper bind <device_path> <driver>",
            ),
            HelperArgsError::UnbindArity => String::from_str("Usage: dmgr-polkit-helper unbind <device_path>"),
            HelperArgsError::SetArity => String::from_str(
                "Usage: dmgr-polkit-helper set <device_path> <property> <value>",
            ),
            HelperArgsError::Unknown(c) => {
                let head = concat(&chars_of("Unknown command: "), &chars_of(c.as_str()));
                let line = concat(&head, &chars_of("\n"));
                let u = usage();
                string_of(&concat(&line, &chars_of(u.as_str())))
            },
        }
    }
}

/// The usage text.
pub fn usage() -> (r: String)
    ensures
        r@ == usage_text(),
{
    String::from_str(
        "dmgr-polkit-helper - Privileged device manager operations\n\nUsage:\n  dmgr-polkit-helper bind <device_path> <driver>\n  dmgr-polkit-helper unbind <device_path>\n  dmgr-polkit-helper set <device_path> <property> <value>",
    )
}

/// The operation that the arguments (the program's name first) ask for.
pub fn parse_args(args: &Vec<String>) -> (r: Result<HelperCommand, HelperArgsError>)
    ensures
        args.len() < 2 ==> r matches Err(HelperArgsError::Missing),
        args.len() >= 2 && args[1]@ == "bind"@ ==> if args.len() == 4 {
            r matches Ok(HelperCommand::Bind { path, driver }) && path@ == args[2]@ && driver@ == args[3]@
        } else {
            r matches Err(HelperArgsError::BindArity)
        },
        args.len() >= 2 && args[1]@ == "unbind"@ ==> if args.len() == 3 {
            r matches Ok(HelperCommand::Unbind { path }) && path@ == args[2]@
        } else {
            r matches Err(HelperArgsError::UnbindArity)
        },
        args.len() >= 2 && args[1]@ == "set"@ ==> if args.len() == 5 {
            r matches Ok(HelperCommand::SetProperty { path, property, value }) && path@ == args[2]@
                && property@ == args[3]@ && value@ == args[4]@
        } else {
            r matches Err(HelperArgsError::SetArity)
        },
        args.len() >= 2 && args[1]@ != "bind"@ && args[1]@ != "unbind"@ && args[1]@ != "set"@ ==> (r matches Err(
            HelperArgsError::Unknown(c),
        ) && c@ == args[1]@),
{
    proof {
        reveal_strlit("bind");
        reveal_strlit("unbind");
        reveal_strlit("set");
        assert("bind"@.len() == 4 && "unbind"@.len() == 6 && "set"@.len() == 3);
    }
    if args.len() < 2 {
        return Err(HelperArgsError::Missing);
    }
    let cmd = chars_of(args[1].as_str());
    if is_lit(&cmd, "bind") {
        if args.len() != 4 {
            return Err(HelperArgsError::BindArity);
        }
        Ok(HelperCommand::Bind { path: args[2].clone(), driver: args[3].clone() })
    } else if is_lit(&cmd, "unbind") {
        if args.len() != 3 {
            return Err(HelperArgsError::UnbindArity);
        }
        Ok(HelperCommand::Unbind { path: args[2].clone() })
    } else if is_lit(&cmd, "set") {
        if args.len() != 5 {
            return Err(HelperArgsError::SetArity);
        }
        Ok(HelperCommand::SetProperty { path: args[2].clone(), property: args[3].clone(), value: args[4].clone() })
    } else {
        Err(HelperArgsError::Unknown(args[1].clone()))
    }
}

/// The line that reports how the operation went, and whether it went well
/// (the helper then prints `OK` to standard output and exits with 0; else
/// it prints `Error: ` and the error to standard error and exits with 1).
pub fn outcome_line(result: &Result<(), DmgrError>) -> (r: (String, bool))
    ensures
        match result {
            Ok(()) => r.1 && r.0@ == "OK"@,
            Err(e) => !r.1 && r.0@ == "Error: "@ + error_message(*e),
        },
{
    match result {
        Ok(()) => (String::from_str("OK"), true),
        Err(e) => {
            let m = e.message();
            (string_of(&concat(&chars_of("Error: "), &chars_of(m.as_str()))), false)
        },
    }
}

} // verus!
