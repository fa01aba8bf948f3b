//! The host: distribution, session type and GPU, which decide install hints
//! and a rendering workaround.
use vstd::prelude::*;
use crate::text::{
    chars_of, string_of, trim, is_prefix, lines, views, trim_chars, lines_exec, strip_prefix, eq,
};
use crate::desktop::system::{after_key, trim_start_char};
use crate::desktop::command::strings_view;

verus! {

/// What the application reports of the host.
#[derive(Clone, Debug)]
pub struct Platform {
    pub os: String,
    pub distro_id: String,
    pub distro_name: String,
    /// `wayland`, `x11` or `unknown`.
    pub session: String,
    pub gpu_nvidia: bool,
    pub audio_backend: String,
    pub can_elevate: bool,
    pub package_hint: String,
}

/// How to install a package on the distribution `id` (the `ID` of
/// `/etc/os-release`).
pub open spec fn hint_for(id: Seq<char>) -> Seq<char> {
    if id == "arch"@ || id == "endeavouros"@ || id == "manjaro"@ || id == "cachyos"@ || id
        == "garuda"@ {
        "sudo pacman -S <pkg>  (AUR: paru/yay)"@
    } else if id == "debian"@ || id == "ubuntu"@ || id == "pop"@ || id == "linuxmint"@ || id
        == "elementary"@ || id == "zorin"@ {
        "sudo apt install <pkg>"@
    } else if id == "fedora"@ || id == "rhel"@ || id == "centos"@ || id == "rocky"@ || id
        == "almalinux"@ || id == "nobara"@ {
        "sudo dnf install <pkg>"@
    } else if id == "opensuse"@ || id == "opensuse-tumbleweed"@ || id == "opensuse-leap"@ {
        "sudo zypper install <pkg>"@
    } else if id == "void"@ {
        "sudo xbps-install -S <pkg>"@
    } else if id == "alpine"@ {
        "sudo apk add <pkg>"@
    } else if id == "gentoo"@ {
        "sudo emerge <pkg>"@
    } else if id == "nixos"@ {
        "add <pkg> to your configuration.nix"@
    } else {
        "install <pkg> with your distro's package manager"@
    }
}

fn is(id: &Vec<char>, w: &str) -> (r: bool)
    ensures
        r == (id@ == w@),
{
    eq(id, &chars_of(w))
}

/// See [`hint_for`].
pub fn package_hint(distro_id: &str) -> (r: String)
    ensures
        r@ == hint_for(distro_id@),
{
    let id = chars_of(distro_id);
    let h = if is(&id, "arch") || is(&id, "endeavouros") || is(&id, "manjaro") || is(&id, "cachyos")
        || is(&id, "garuda") {
        "sudo pacman -S <pkg>  (AUR: paru/yay)"
    } else if is(&id, "debian") || is(&id, "ubuntu") || is(&id, "pop") || is(&id, "linuxmint") || is(
        &id,
        "elementary",
    ) || is(&id, "zorin") {
        "sudo apt install <pkg>"
    } else if is(&id, "fedora") || is(&id, "rhel") || is(&id, "centos") || is(&id, "rocky") || is(
        &id,
        "almalinux",
    ) || is(&id, "nobara") {
        "sudo dnf install <pkg>"
    } else if is(&id, "opensuse") || is(&id, "opensuse-tumbleweed") || is(&id, "opensuse-leap") {
        "sudo zypper install <pkg>"
    } else if is(&id, "void") {
        "sudo xbps-install -S <pkg>"
    } else if is(&id, "alpine") {
        "sudo apk add <pkg>"
    } else if is(&id, "gentoo") {
        "sudo emerge <pkg>"
    } else if is(&id, "nixos") {
        "add <pkg> to your configuration.nix"
    } else {
        "install <pkg> with your distro's package manager"
    };
    String::from_str(h)
}

/// `s` without the runs of `c` at both ends.
pub open spec fn trim_char(s: Seq<char>, c: char) -> Seq<char> {
    crate::text::trim_end_char(trim_start_char(s, c), c)
}

/// The value of the key `key` (`ID=`, `PRETTY_NAME=`) in `/etc/os-release`:
/// the rest of the first line that starts with it, trimmed and unquoted.
pub open spec fn os_release_value(text: Seq<char>, key: Seq<char>) -> Option<Seq<char>> {
    match after_key(lines(text), key) {
        Some(v) => Some(trim_char(trim(v), '"')),
        None => None,
    }
}

fn os_release_value_exec(ls: &Vec<Vec<char>>, key: &str) -> (r: Option<String>)
    ensures
        match r {
            Some(v) => after_key(views(ls@), key@) matches Some(x) && v@ == trim_char(trim(x), '"'),
            None => after_key(views(ls@), key@) is None,
        },
{
    let k = chars_of(key);
    let ghost lv = views(ls@);
    let mut i: usize = 0;
    proof {
        assert(lv.skip(0) =~= lv);
    }
    while i < ls.len()
        invariant
            i <= ls.len(),
            lv == views(ls@),
            k@ == key@,
            after_key(lv, key@) == after_key(lv.skip(i as int), key@),
        decreases ls.len() - i,
    {
        proof {
            assert(lv.skip(i as int)[0] == ls@[i as int]@);
            assert(lv.skip(i as int).drop_first() =~= lv.skip(i + 1));
        }
        match strip_prefix(&ls[i], &k) {
            Some(v) => {
                let t = trim_chars(&v);
                let a = trim_start_char_exec(&t, '"');
                let b = crate::text::trim_end_char_exec(&a, '"');
                return Some(string_of(&b));
            },
            None => {},
        }
        i = i + 1;
    }
    proof {
        assert(lv.skip(ls.len() as int) =~= Seq::<Seq<char>>::empty());
    }
    None
}

fn trim_start_char_exec(s: &Vec<char>, c: char) -> (r: Vec<char>)
    ensures
        r@ == trim_start_char(s@, c),
{
    let mut a: usize = 0;
    proof {
        assert(s@.skip(0) =~= s@);
    }
    while a < s.len() && s[a] == c
        invariant
            a <= s.len(),
            trim_start_char(s@, c) == trim_start_char(s@.skip(a as int), c),
        decreases s.len() - a,
    {
        proof {
            assert(s@.skip(a as int).drop_first() =~= s@.skip(a + 1));
        }
        a = a + 1;
    }
    let r = crate::text::slice_of(s, a, s.len());
    proof {
        assert(r@ =~= s@.skip(a as int));
    }
    r
}

/// `(ID, PRETTY_NAME)` from the text of `/etc/os-release`, `linux` and
/// `Linux` where missing.
pub fn os_release(text: &str) -> (r: (String, String))
    ensures
        r.0@ == match os_release_value(text@, "ID="@) {
            Some(v) => v,
            None => "linux"@,
        },
        r.1@ == match os_release_value(text@, "PRETTY_NAME="@) {
            Some(v) => v,
            None => "Linux"@,
        },
{
    let ls = lines_exec(&chars_of(text));
    let id = match os_release_value_exec(&ls, "ID=") {
        Some(v) => v,
        None => String::from_str("linux"),
    };
    let name = match os_release_value_exec(&ls, "PRETTY_NAME=") {
        Some(v) => v,
        None => String::from_str("Linux"),
    };
    (id, name)
}

/// The session type: `wayland` when `WAYLAND_DISPLAY` is set or
/// `XDG_SESSION_TYPE` says so, else `x11` when `DISPLAY` is set or
/// `XDG_SESSION_TYPE` says so, else `unknown`.
pub open spec fn session_of(wayland_display: bool, display: bool, xdg: Seq<char>) -> Seq<char> {
    if wayland_display || xdg == "wayland"@ {
        "wayland"@
    } else if display || xdg == "x11"@ {
        "x11"@
    } else {
        "unknown"@
    }
}

/// See [`session_of`]; `xdg` is `XDG_SESSION_TYPE` where it is set.
pub fn session_type(wayland_display: bool, display: bool, xdg: Option<&str>) -> (r: String)
    ensures
        r@ == session_of(
            wayland_display,
            display,
            match xdg {
                Some(s) => s@,
                None => Seq::<char>::empty(),
            },
        ),
{
    let x = match xdg {
        Some(s) => chars_of(s),
        None => Vec::new(),
    };
    if wayland_display || eq(&x, &chars_of("wayland")) {
        String::from_str("wayland")
    } else if display || eq(&x, &chars_of("x11")) {
        String::from_str("x11")
    } else {
        String::from_str("unknown")
    }
}

/// Whether an Nvidia GPU is there: the `nvidia` module or driver directory
/// exists, or a device node's name starts with `nvidia`.
pub fn has_nvidia(module_dir: bool, proc_driver_dir: bool, dev_names: &Vec<String>) -> (r: bool)
    ensures
        r == (module_dir || proc_driver_dir || exists|i: int|
            0 <= i < dev_names@.len() && is_prefix("nvidia"@, #[trigger] dev_names@[i]@)),
{
    if module_dir || proc_driver_dir {
        return true;
    }
    let p = chars_of("nvidia");
    let mut i: usize = 0;
    while i < dev_names.len()
        invariant
            i <= dev_names.len(),
            p@ == "nvidia"@,
            forall|j: int| 0 <= j < i ==> !is_prefix("nvidia"@, #[trigger] dev_names@[j]@),
        decreases dev_names.len() - i,
    {
        if crate::text::starts_with(&chars_of(dev_names[i].as_str()), &p) {
            return true;
        }
        i = i + 1;
    }
    false
}

/// The host description, from what was read of it.
pub fn detect(
    os: &str,
    os_release_text: &str,
    session: String,
    gpu_nvidia: bool,
    audio_backend: &str,
    can_elevate: bool,
) -> (r: Platform)
    ensures
        r.os@ == os@,
        r.session@ == session@,
        r.gpu_nvidia == gpu_nvidia,
        r.audio_backend@ == audio_backend@,
        r.can_elevate == can_elevate,
        r.package_hint@ == hint_for(r.distro_id@),
        r.distro_id@ == match os_release_value(os_release_text@, "ID="@) {
            Some(v) => v,
            None => "linux"@,
        },
        r.distro_name@ == match os_release_value(os_release_text@, "PRETTY_NAME="@) {
            Some(v) => v,
            None => "Linux"@,
        },
{
    let (id, name) = os_release(os_release_text);
    let hint = package_hint(id.as_str());
    Platform {
        os: String::from_str(os),
        distro_id: id,
        distro_name: name,
        session,
        gpu_nvidia,
        audio_backend: String::from_str(audio_backend),
        can_elevate,
        package_hint: hint,
    }
}

/// Whether to switch off WebKit's DMABUF renderer (which shows a blank
/// window with Nvidia on Wayland): only on Linux, when the variable is not
/// set already, on Wayland with an Nvidia GPU.
pub fn needs_webkit_workaround(linux: bool, already_set: bool, session: &str, nvidia: bool) -> (r: bool)
    ensures
        r == (linux && !already_set && session@ == "wayland"@ && nvidia),
{
    linux && !already_set && eq(&chars_of(session), &chars_of("wayland")) && nvidia
}

} // verus!
