//! Audio enumeration and switching over the sound stack that is present:
//! `pactl` (PipeWire-pulse or PulseAudio), else `wpctl` (WirePlumber), else
//! ALSA (read-only).
//!
//! Running the tools is the caller's part; the backends here take what they
//! printed and say what to run.
use vstd::prelude::*;
use crate::gui::audio::{AudioKind, kind_of};

pub mod pactl;
pub mod wpctl;
pub mod alsa;

verus! {

/// A sound device as the desktop application lists it.
#[derive(Clone, Debug)]
pub struct AudioDevice {
    pub index: u32,
    /// The backend's key for the device (pactl sink name, wpctl node id, ALSA
    /// `hw:card,device`).
    pub name: String,
    pub description: String,
    /// `RUNNING`, `SUSPENDED` or `IDLE`.
    pub state: String,
    pub muted: bool,
    /// Volume in percent.
    pub volume: Option<u32>,
    pub is_default: bool,
    /// `Builtin`, `Usb`, `Hdmi`, `Bluetooth` or `Virtual`.
    pub kind: String,
}

pub struct AudioDeviceV {
    pub index: u32,
    pub name: Seq<char>,
    pub description: Seq<char>,
    pub state: Seq<char>,
    pub muted: bool,
    pub volume: Option<u32>,
    pub is_default: bool,
    pub kind: Seq<char>,
}

impl View for AudioDevice {
    type V = AudioDeviceV;

    open spec fn view(&self) -> AudioDeviceV {
        AudioDeviceV {
            index: self.index,
            name: self.name@,
            description: self.description@,
            state: self.state@,
            muted: self.muted,
            volume: self.volume,
            is_default: self.is_default,
            kind: self.kind@,
        }
    }
}

pub open spec fn devices_view(v: Seq<AudioDevice>) -> Seq<AudioDeviceV> {
    v.map_values(|d: AudioDevice| d@)
}

/// The name of a kind, as the desktop application reports it.
pub open spec fn kind_label(k: AudioKind) -> Seq<char> {
    match k {
        AudioKind::Bluetooth => "Bluetooth"@,
        AudioKind::Hdmi => "Hdmi"@,
        AudioKind::Usb => "Usb"@,
        AudioKind::Virtual => "Virtual"@,
        AudioKind::Builtin => "Builtin"@,
    }
}

/// The kind of the device named `name`: `Bluetooth`, `Hdmi`, `Usb`,
/// `Virtual` or `Builtin`.
pub fn detect_kind(name: &str) -> (r: &'static str)
    ensures
        r@ == kind_label(kind_of(name@)),
{
    match crate::gui::audio::detect_kind(name) {
        AudioKind::Bluetooth => "Bluetooth",
        AudioKind::Hdmi => "Hdmi",
        AudioKind::Usb => "Usb",
        AudioKind::Virtual => "Virtual",
        AudioKind::Builtin => "Builtin",
    }
}

/// A copy of `d`.
pub fn copy_device(d: &AudioDevice) -> (r: AudioDevice)
    ensures
        r@ == d@,
{
    AudioDevice {
        index: d.index,
        name: d.name.clone(),
        description: d.description.clone(),
        state: d.state.clone(),
        muted: d.muted,
        volume: d.volume,
        is_default: d.is_default,
        kind: d.kind.clone(),
    }
}

/// One backend's worth of audio control.
pub trait AudioBackend {
    /// The backend's name, for diagnostics and the UI.
    fn name(&self) -> &'static str;
}

/// The sound stacks the application can drive.
#[derive(Clone, Copy, Debug, PartialEq, Eq, Structural)]
pub enum BackendKind {
    Pactl,
    Wpctl,
    Alsa,
    Wasapi,
}

/// The backend to use, from which tools answer `--version` (on Linux) or
/// whether this is Windows, where Core Audio is always there.
pub open spec fn chosen_backend(windows: bool, has_pactl: bool, has_wpctl: bool, has_aplay: bool) -> Option<
    BackendKind,
> {
    if windows {
        Some(BackendKind::Wasapi)
    } else if has_pactl {
        Some(BackendKind::Pactl)
    } else if has_wpctl {
        Some(BackendKind::Wpctl)
    } else if has_aplay {
        Some(BackendKind::Alsa)
    } else {
        None
    }
}

/// The backend to use: on Windows Core Audio; elsewhere `pactl`, else `wpctl`,
/// else ALSA, whichever is first found.
pub fn detect(windows: bool, has_pactl: bool, has_wpctl: bool, has_aplay: bool) -> (r: Option<
    BackendKind,
>)
    ensures
        r == chosen_backend(windows, has_pactl, has_wpctl, has_aplay),
{
    if windows {
        Some(BackendKind::Wasapi)
    } else if has_pactl {
        Some(BackendKind::Pactl)
    } else if has_wpctl {
        Some(BackendKind::Wpctl)
    } else if has_aplay {
        Some(BackendKind::Alsa)
    } else {
        None
    }
}

/// The choice after a call of [`BackendCache::pick`] on a cache holding
/// `chosen`, and the backend that call gives.
pub open spec fn pick_step(
    chosen: Option<Option<BackendKind>>,
    windows: bool,
    has_pactl: bool,
    has_wpctl: bool,
    has_aplay: bool,
) -> (Option<Option<BackendKind>>, Option<BackendKind>) {
    match chosen {
        Some(c) => (chosen, c),
        None => {
            let c = chosen_backend(windows, has_pactl, has_wpctl, has_aplay);
            (Some(c), c)
        },
    }
}

/// The backend choice of a process: empty until the tools are first
/// probed, then kept.
pub struct BackendCache {
    pub chosen: Option<Option<BackendKind>>,
}

impl BackendCache {
    /// A cache with nothing chosen yet.
    pub fn new() -> (r: BackendCache)
        ensures
            r.chosen is None,
    {
        BackendCache { chosen: None }
    }

    /// Whether the tools still have to be probed.
    pub fn needs_probe(&self) -> (r: bool)
        ensures
            r == self.chosen is None,
    {
        self.chosen.is_none()
    }

    /// The backend to use: the one chosen before; at the first call, the
    /// one the probes show (see [`detect`]), which is kept from then on.
    pub fn pick(&mut self, windows: bool, has_pactl: bool, has_wpctl: bool, has_aplay: bool) -> (r:
        Option<BackendKind>)
        ensures
            (final(self).chosen, r) == pick_step(old(self).chosen, windows, has_pactl, has_wpctl, has_aplay),
    {
        match self.chosen {
            Some(c) => c,
            None => {
                let c = detect(windows, has_pactl, has_wpctl, has_aplay);
                self.chosen = Some(c);
                c
            },
        }
    }
}

/// The backend is chosen once: the first choice follows the probes as
/// [`detect`] does, and every later choice gives the same backend again,
/// whatever the probes show then.
pub proof fn law_backend_chosen_once(
    chosen: Option<Option<BackendKind>>,
    w1: bool,
    p1: bool,
    wp1: bool,
    a1: bool,
    w2: bool,
    p2: bool,
    wp2: bool,
    a2: bool,
)
    ensures
        chosen is None ==> pick_step(chosen, w1, p1, wp1, a1).1 == chosen_backend(w1, p1, wp1, a1),
        pick_step(pick_step(chosen, w1, p1, wp1, a1).0, w2, p2, wp2, a2).1 == pick_step(
            chosen,
            w1,
            p1,
            wp1,
            a1,
        ).1,
        pick_step(pick_step(chosen, w1, p1, wp1, a1).0, w2, p2, wp2, a2).0 == pick_step(
            chosen,
            w1,
            p1,
            wp1,
            a1,
        ).0,
{
}

/// Whether some backend was found.
pub fn is_available(choice: Option<BackendKind>) -> (r: bool)
    ensures
        r == choice is Some,
{
    choice.is_some()
}

pub open spec fn backend_label(k: BackendKind) -> Seq<char> {
    match k {
        BackendKind::Pactl => "pactl"@,
        BackendKind::Wpctl => "wpctl"@,
        BackendKind::Alsa => "alsa"@,
        BackendKind::Wasapi => "wasapi"@,
    }
}

/// The name of the backend in use, or `none`.
pub fn backend_name(choice: Option<BackendKind>) -> (r: &'static str)
    ensures
        r@ == match choice {
            Some(k) => backend_label(k),
            None => "none"@,
        },
{
    match choice {
        Some(BackendKind::Pactl) => pactl::Pactl.name(),
        Some(BackendKind::Wpctl) => wpctl::Wpctl.name(),
        Some(BackendKind::Alsa) => alsa::Alsa.name(),
        Some(BackendKind::Wasapi) => Wasapi.name(),
        None => "none",
    }
}

/// The Windows Core Audio backend.
pub struct Wasapi;

impl AudioBackend for Wasapi {
    fn name(&self) -> (r: &'static str)
        ensures
            r@ == "wasapi"@,
    {
        "wasapi"
    }
}

} // verus!
