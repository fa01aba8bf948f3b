//! Sound devices and default switching through `pactl` alone, as the first
//! version of the desktop application did it.
use vstd::prelude::*;
use crate::desktop::audio::{AudioDevice, AudioDeviceV, devices_view};
use crate::desktop::audio::pactl::{
    parse, pactl_devices, default_of, default_exec, str_view, inputs_only, keep_inputs, percent_arg,
    percent_arg_exec, flag_arg,
};
use crate::desktop::command::{RunOutcome, run_result, command_result, unit_result, strings_view, args2, args3};

verus! {

/// The sinks, from what `pactl get-default-sink` and `pactl list sinks`
/// printed (`None` where a run failed).
pub fn list_sinks(default_out: Option<&str>, list_out: Option<&str>) -> (r: Vec<AudioDevice>)
    ensures
        devices_view(r@) == match list_out {
            Some(t) => pactl_devices(t@, "Sink"@, default_of(str_view(default_out))),
            None => Seq::<AudioDeviceV>::empty(),
        },
{
    let d = default_exec(default_out);
    match list_out {
        Some(t) => parse(t, "Sink", d.as_str()),
        None => Vec::new(),
    }
}

/// The sources that are real inputs (not monitors of sinks), from what
/// `pactl get-default-source` and `pactl list sources` printed.
pub fn list_sources(default_out: Option<&str>, list_out: Option<&str>) -> (r: Vec<AudioDevice>)
    ensures
        devices_view(r@) == match list_out {
            Some(t) => inputs_only(pactl_devices(t@, "Source"@, default_of(str_view(default_out)))),
            None => Seq::<AudioDeviceV>::empty(),
        },
{
    let d = default_exec(default_out);
    match list_out {
        Some(t) => keep_inputs(&parse(t, "Source", d.as_str())),
        None => Vec::new(),
    }
}

/// The `pactl` arguments that make `name` the default sink.
pub fn set_default_sink(name: &str) -> (r: Vec<String>)
    ensures
        strings_view(r@) == seq!["set-default-sink"@, name@],
{
    args2("set-default-sink", name)
}

/// The `pactl` arguments that make `name` the default source.
pub fn set_default_source(name: &str) -> (r: Vec<String>)
    ensures
        strings_view(r@) == seq!["set-default-source"@, name@],
{
    args2("set-default-source", name)
}

/// The `pactl` arguments that set the volume of sink `name`, capped at 150%.
pub fn set_sink_volume(name: &str, percent: u32) -> (r: Vec<String>)
    ensures
        strings_view(r@) == seq!["set-sink-volume"@, name@, percent_arg(percent)],
{
    args3("set-sink-volume", name, percent_arg_exec(percent).as_str())
}

/// The `pactl` arguments that mute or unmute sink `name`.
pub fn set_sink_mute(name: &str, muted: bool) -> (r: Vec<String>)
    ensures
        strings_view(r@) == seq!["set-sink-mute"@, name@, if muted {
            "1"@
        } else {
            "0"@
        }],
{
    args3("set-sink-mute", name, flag_arg(muted))
}

/// What a run of `pactl` with `args` means: success, `pactl not found: ...`
/// or `pactl <args> failed (exit <code>)`.
pub fn pactl_result(args: &Vec<String>, o: &RunOutcome) -> (r: Result<(), String>)
    ensures
        unit_result(r) == run_result("pactl"@, strings_view(args@), *o, true),
{
    command_result("pactl", args, o, true)
}

} // verus!
