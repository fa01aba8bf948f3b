//! The work the window hands to its background thread, and what comes back.
use vstd::prelude::*;
use crate::text::{chars_of, string_of, push_all};
use crate::device::Device;
use crate::error::{DmgrError, error_message};
use crate::gui::audio::AudioDevice;
use crate::desktop::command::{RunOutcome, unit_result};
use crate::num::{dec_int, fmt_i64};

verus! {

/// A request from the window to the background thread.
#[derive(Clone, Debug)]
pub enum WorkerMsg {
    Refresh,
    GetDrivers { dev_id: String, path: String },
    BindDriver { dev_id: String, path: String, driver: String },
    UnbindDriver { dev_id: String, path: String },
    SetProperty { dev_id: String, path: String, attr: String, value: String },
    RefreshAudio,
    SetDefaultSink(String),
    SetDefaultSource(String),
}

/// What the background thread reports back.
#[derive(Debug)]
pub enum BgResult {
    Scanned(Vec<Device>),
    DriversLoaded { dev_id: String, drivers: Vec<String> },
    OpResult { success: bool, message: String, dev_id: Option<String> },
    UdevTriggered,
    AudioDevices { sinks: Vec<AudioDevice>, sources: Vec<AudioDevice> },
    AudioResult { success: bool, message: String },
}

fn text2(a: &str, b: &str) -> (r: String)
    ensures
        r@ == a@ + b@,
{
    let mut c = chars_of(a);
    push_all(&mut c, &chars_of(b));
    string_of(&c)
}

/// What the background thread does after running a request and before it
/// reports it.
#[derive(Clone, Copy, Debug, PartialEq, Eq, Structural)]
pub enum FollowUp {
    /// Scan the devices again and send the new list.
    Rescan,
    /// Send the new list of sound devices.
    ListAudio,
}

/// The step after running `msg`: a device operation that succeeded is
/// followed by a rescan; switching the default sound device, whatever came
/// of it, by a new list of sound devices; other requests by nothing.
pub open spec fn follow_up_of(msg: WorkerMsg, succeeded: bool) -> Option<FollowUp> {
    match msg {
        WorkerMsg::BindDriver { .. } => if succeeded {
            Some(FollowUp::Rescan)
        } else {
            None
        },
        WorkerMsg::UnbindDriver { .. } => if succeeded {
            Some(FollowUp::Rescan)
        } else {
            None
        },
        WorkerMsg::SetProperty { .. } => if succeeded {
            Some(FollowUp::Rescan)
        } else {
            None
        },
        WorkerMsg::SetDefaultSink(_) => Some(FollowUp::ListAudio),
        WorkerMsg::SetDefaultSource(_) => Some(FollowUp::ListAudio),
        _ => None,
    }
}

/// See [`follow_up_of`].
pub fn follow_up(msg: &WorkerMsg, succeeded: bool) -> (r: Option<FollowUp>)
    ensures
        r == follow_up_of(*msg, succeeded),
{
    match msg {
        WorkerMsg::BindDriver { .. } | WorkerMsg::UnbindDriver { .. } | WorkerMsg::SetProperty { .. } => {
            if succeeded {
                Some(FollowUp::Rescan)
            } else {
                None
            }
        },
        WorkerMsg::SetDefaultSink(_) | WorkerMsg::SetDefaultSource(_) => Some(FollowUp::ListAudio),
        _ => None,
    }
}

/// The report of a failed scan.
pub fn scan_failed(e: &DmgrError) -> (r: BgResult)
    ensures
        r matches BgResult::OpResult { success, message, dev_id } && !success && dev_id is None
            && message@ == "Scan failed: "@ + error_message(*e),
{
    BgResult::OpResult { success: false, message: text2("Scan failed: ", e.message().as_str()), dev_id: None }
}

/// How a privileged device operation goes on after trying it directly.
#[derive(Debug)]
pub enum Escalation {
    /// Done: the result to report.
    Done(Result<(), String>),
    /// Permission was denied: run the privileged helper through `pkexec`.
    Pkexec,
}

/// After trying an operation directly: success is reported, a permission
/// error asks for the helper, any other error is reported by its message.
pub fn escalate(direct: &Result<(), DmgrError>) -> (r: Escalation)
    ensures
        match direct {
            Ok(()) => r matches Escalation::Done(Ok(())),
            Err(DmgrError::PermissionDenied(_)) => r matches Escalation::Pkexec,
            Err(e) => r matches Escalation::Done(Err(m)) && m@ == error_message(*e),
        },
{
    match direct {
        Ok(()) => Escalation::Done(Ok(())),
        Err(DmgrError::PermissionDenied(_)) => Escalation::Pkexec,
        Err(e) => Escalation::Done(Err(e.message())),
    }
}

/// How a `pkexec dmgr-polkit-helper` run ended, as the user sees it.
pub open spec fn helper_run_outcome(o: RunOutcome) -> Result<(), Seq<char>> {
    match o {
        RunOutcome::NotStarted(e) => Err("Could not run pkexec: "@ + e@),
        RunOutcome::Finished { success, code } => if success {
            Ok(())
        } else {
            Err(
                "pkexec dmgr-polkit-helper failed (exit "@ + dec_int(
                    match code {
                        Some(c) => c as int,
                        None => -1,
                    },
                ) + "). Install dmgr-polkit-helper to /usr/bin for privilege escalation."@,
            )
        },
    }
}

/// See [`helper_run_outcome`].
pub fn pkexec_result(o: &RunOutcome) -> (r: Result<(), String>)
    ensures
        unit_result(r) == helper_run_outcome(*o),
{
    match o {
        RunOutcome::NotStarted(e) => Err(text2("Could not run pkexec: ", e.as_str())),
        RunOutcome::Finished { success, code } => {
            if *success {
                return Ok(());
            }
            let c: i64 = match code {
                Some(v) => *v as i64,
                None => -1,
            };
            let mut m = chars_of("pkexec dmgr-polkit-helper failed (exit ");
            push_all(&mut m, &fmt_i64(c));
            push_all(&mut m, &chars_of("). Install dmgr-polkit-helper to /usr/bin for privilege escalation."));
            Err(string_of(&m))
        },
    }
}

/// The report of a device operation on `dev_id`: the success message, or
/// the error.
fn op_report(result: Result<(), String>, ok_message: String, dev_id: String) -> (r: BgResult)
    ensures
        match result {
            Ok(()) => r matches BgResult::OpResult { success, message, dev_id: Some(d) } && success
                && message@ == ok_message@ && d@ == dev_id@,
            Err(e) => r matches BgResult::OpResult { success, message, dev_id: Some(d) } && !success
                && message@ == e@ && d@ == dev_id@,
        },
{
    match result {
        Ok(()) => BgResult::OpResult { success: true, message: ok_message, dev_id: Some(dev_id) },
        Err(e) => BgResult::OpResult { success: false, message: e, dev_id: Some(dev_id) },
    }
}

/// The report of binding `driver`.
pub fn bind_report(result: Result<(), String>, driver: &str, dev_id: String) -> (r: BgResult)
    ensures
        match result {
            Ok(()) => r matches BgResult::OpResult { success, message, dev_id: Some(d) } && success
                && message@ == "Driver '"@ + driver@ + "' bound successfully"@ && d@ == dev_id@,
            Err(e) => r matches BgResult::OpResult { success, message, dev_id: Some(d) } && !success
                && message@ == e@ && d@ == dev_id@,
        },
{
    let mut m = chars_of("Driver '");
    push_all(&mut m, &chars_of(driver));
    push_all(&mut m, &chars_of("' bound successfully"));
    op_report(result, string_of(&m), dev_id)
}

/// The report of unbinding.
pub fn unbind_report(result: Result<(), String>, dev_id: String) -> (r: BgResult)
    ensures
        match result {
            Ok(()) => r matches BgResult::OpResult { success, message, dev_id: Some(d) } && success
                && message@ == "Driver unbound successfully"@ && d@ == dev_id@,
            Err(e) => r matches BgResult::OpResult { success, message, dev_id: Some(d) } && !success
                && message@ == e@ && d@ == dev_id@,
        },
{
    op_report(result, String::from_str("Driver unbound successfully"), dev_id)
}

/// The report of setting `attr` to `value`.
pub fn set_property_report(result: Result<(), String>, attr: &str, value: &str, dev_id: String) -> (r: BgResult)
    ensures
        match result {
            Ok(()) => r matches BgResult::OpResult { success, message, dev_id: Some(d) } && success
                && message@ == "Property '"@ + attr@ + "' set to '"@ + value@ + "'"@ && d@ == dev_id@,
            Err(e) => r matches BgResult::OpResult { success, message, dev_id: Some(d) } && !success
                && message@ == e@ && d@ == dev_id@,
        },
{
    let mut m = chars_of("Property '");
    push_all(&mut m, &chars_of(attr));
    push_all(&mut m, &chars_of("' set to '"));
    push_all(&mut m, &chars_of(value));
    push_all(&mut m, &chars_of("'"));
    op_report(result, string_of(&m), dev_id)
}

/// The report of switching the default output (`input` false) or input to
/// `name`.
pub fn switch_report(result: Result<(), String>, name: &str, input: bool) -> (r: BgResult)
    ensures
        match result {
            Ok(()) => r matches BgResult::AudioResult { success, message } && success && message@
                == (if input {
                "Input switched to: "@
            } else {
                "Output switched to: "@
            }) + name@,
            Err(e) => r matches BgResult::AudioResult { success, message } && !success && message@
                == e@,
        },
{
    match result {
        Ok(()) => BgResult::AudioResult {
            success: true,
            message: text2(if input {
                "Input switched to: "
            } else {
                "Output switched to: "
            }, name),
        },
        Err(e) => BgResult::AudioResult { success: false, message: e },
    }
}

} // verus!
