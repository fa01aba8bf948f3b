//! The decisions behind the commands the desktop front end invokes.
use vstd::prelude::*;
use crate::text::{chars_of, string_of, is_ascii_alnum, push_all};
use crate::desktop::audio::{BackendKind, backend_label, backend_name};
use crate::desktop::command::strings_view;
use crate::desktop::kernel::{valid_module_name, validate};

verus! {

/// What this machine offers, for the front end.
#[derive(Clone, Debug)]
pub struct Capabilities {
    pub audio: bool,
    pub audio_backend: String,
    pub bluetooth: bool,
    pub root: bool,
}

/// The capabilities, from the audio backend found, whether Bluetooth is
/// available and whether the application runs privileged.
pub fn capabilities(audio: Option<BackendKind>, bluetooth: bool, root: bool) -> (r: Capabilities)
    ensures
        r.audio == audio is Some,
        r.audio_backend@ == match audio {
            Some(k) => backend_label(k),
            None => "none"@,
        },
        r.bluetooth == bluetooth,
        r.root == root,
{
    Capabilities {
        audio: audio.is_some(),
        audio_backend: String::from_str(backend_name(audio)),
        bluetooth,
        root,
    }
}

/// The audio backend to switch devices with, or the error that there is
/// none.
pub fn audio_or_err(audio: Option<BackendKind>) -> (r: Result<BackendKind, String>)
    ensures
        match audio {
            Some(k) => r == Ok::<BackendKind, String>(k),
            None => r matches Err(e) && e@ == "no audio backend (pactl/wpctl/alsa) available"@,
        },
{
    match audio {
        Some(k) => Ok(k),
        None => Err(String::from_str("no audio backend (pactl/wpctl/alsa) available")),
    }
}

/// The length of a Bluetooth scan the front end asked for: 10 seconds when
/// it named none.
pub fn bt_scan_seconds(secs: Option<u64>) -> (r: u64)
    ensures
        r == match secs {
            Some(s) => s,
            None => 10,
        },
{
    match secs {
        Some(s) => s,
        None => 10,
    }
}

/// The shell command, run as root with `sh -c`, that reloads the kernel
/// module `driver`: `modprobe -r <driver> && modprobe <driver>`. The name
/// must be a valid module name; Windows has no such thing.
pub fn reload_driver(driver: &str, windows: bool) -> (r: Result<Vec<String>, String>)
    ensures
        !valid_module_name(driver@) ==> (r matches Err(e) && e@ == "invalid module name"@),
        valid_module_name(driver@) && windows ==> (r matches Err(e) && e@
            == "Reloading drivers isn't supported on Windows — use Device Manager."@),
        valid_module_name(driver@) && !windows ==> (r matches Ok(a) && strings_view(a@) == seq![
            "-c"@,
            "modprobe -r "@ + driver@ + " && modprobe "@ + driver@,
        ]),
{
    validate(driver)?;
    if windows {
        return Err(String::from_str("Reloading drivers isn't supported on Windows — use Device Manager."));
    }
    let mut c = chars_of("modprobe -r ");
    push_all(&mut c, &chars_of(driver));
    push_all(&mut c, &chars_of(" && modprobe "));
    push_all(&mut c, &chars_of(driver));
    Ok(crate::desktop::command::args2("-c", string_of(&c).as_str()))
}

/// Opening the Device Manager: the `cmd` arguments on Windows, an error
/// elsewhere.
pub fn open_device_manager(windows: bool) -> (r: Result<Vec<String>, String>)
    ensures
        windows ==> (r matches Ok(a) && strings_view(a@) == seq!["/c"@, "start"@, ""@, "devmgmt.msc"@]),
        !windows ==> (r matches Err(e) && e@ == "Device Manager is Windows-only"@),
{
    if !windows {
        return Err(String::from_str("Device Manager is Windows-only"));
    }
    let mut a = crate::desktop::command::args3("/c", "start", "");
    let ghost before = a@;
    let s = String::from_str("devmgmt.msc");
    a.push(s);
    proof {
        assert(strings_view(a@) =~= strings_view(before).push(s@));
    }
    Ok(a)
}

/// Opening the Bluetooth settings: the `cmd` arguments on Windows, an
/// error elsewhere.
pub fn open_bluetooth_settings(windows: bool) -> (r: Result<Vec<String>, String>)
    ensures
        windows ==> (r matches Ok(a) && strings_view(a@) == seq!["/c"@, "start"@, ""@, "ms-settings:bluetooth"@]),
        !windows ==> (r matches Err(e) && e@ == "Windows-only"@),
{
    if !windows {
        return Err(String::from_str("Windows-only"));
    }
    let mut a = crate::desktop::command::args3("/c", "start", "");
    let ghost before = a@;
    let s = String::from_str("ms-settings:bluetooth");
    a.push(s);
    proof {
        assert(strings_view(a@) =~= strings_view(before).push(s@));
    }
    Ok(a)
}

} // verus!
