//! The device backend of each operating system: what the device panel's
//! write operations do there, and how Windows and macOS device lists become
//! devices.
use vstd::prelude::*;
use crate::text::{
    chars_of, string_of, trim, ascii_upper, ascii_lower, upper_char, eq_ignore_case, trim_chars,
    ascii_upper_exec, ascii_lower_exec, eq_ignore_case_exec, eq, push_all, slice_of,
};
use crate::device::{Bus, BusV, Device, DeviceV, DeviceStatus, new_device, opt_view, devices_view};
use crate::desktop::command::strings_view;
use crate::desktop::details::{ps_escape, escape};
use crate::num::{dec, fmt_u64};

verus! {

/// What a write operation asks the application to run.
#[derive(Clone, Debug)]
pub enum WriteAction {
    /// The privileged helper with these arguments.
    Helper(Vec<String>),
    /// This PowerShell command, elevated through UAC.
    Elevated(String),
}

/// The write operations of a device backend.
pub trait DeviceBackend {
    /// Sets a sysfs attribute (or its equivalent) of the device at `path`.
    fn set_property(&self, path: &str, property: &str, value: &str) -> Result<WriteAction, String>;

    /// Binds the device at `path` to `driver`.
    fn bind(&self, path: &str, driver: &str) -> Result<WriteAction, String>;

    /// Unbinds the device at `path` from its driver.
    fn unbind(&self, path: &str) -> Result<WriteAction, String>;

    /// Enables or disables the device at `path`.
    fn set_enabled(&self, path: &str, enabled: bool) -> Result<WriteAction, String>;
}

/// The Linux backend: writes go through the privileged helper.
pub struct LinuxBackend;

pub open spec fn helper_args_are(r: Result<WriteAction, String>, args: Seq<Seq<char>>) -> bool {
    r matches Ok(WriteAction::Helper(a)) && strings_view(a@) == args
}

pub open spec fn error_is(r: Result<WriteAction, String>, m: Seq<char>) -> bool {
    r matches Err(e) && e@ == m
}

fn helper(args: Vec<String>) -> (r: Result<WriteAction, String>)
    ensures
        helper_args_are(r, strings_view(args@)),
{
    Ok(WriteAction::Helper(args))
}

fn strs3(a: &str, b: &str, c: &str) -> (r: Vec<String>)
    ensures
        strings_view(r@) == seq![a@, b@, c@],
{
    crate::desktop::command::args3(a, b, c)
}

fn strs4(a: &str, b: &str, c: &str, d: &str) -> (r: Vec<String>)
    ensures
        strings_view(r@) == seq![a@, b@, c@, d@],
{
    let mut v = crate::desktop::command::args3(a, b, c);
    let ghost before = v@;
    let s = String::from_str(d);
    v.push(s);
    proof {
        assert(strings_view(v@) =~= strings_view(before).push(d@));
    }
    v
}

impl DeviceBackend for LinuxBackend {
    fn set_property(&self, path: &str, property: &str, value: &str) -> (r: Result<WriteAction, String>)
        ensures
            helper_args_are(r, seq!["set"@, path@, property@, value@]),
    {
        helper(strs4("set", path, property, value))
    }

    fn bind(&self, path: &str, driver: &str) -> (r: Result<WriteAction, String>)
        ensures
            helper_args_are(r, seq!["bind"@, path@, driver@]),
    {
        helper(strs3("bind", path, driver))
    }

    fn unbind(&self, path: &str) -> (r: Result<WriteAction, String>)
        ensures
            helper_args_are(r, seq!["unbind"@, path@]),
    {
        helper(crate::desktop::command::args2("unbind", path))
    }

    /// Through the kernel's `authorized` flag.
    fn set_enabled(&self, path: &str, enabled: bool) -> (r: Result<WriteAction, String>)
        ensures
            helper_args_are(r, seq!["set"@, path@, "authorized"@, if enabled {
                "1"@
            } else {
                "0"@
            }]),
    {
        helper(strs4("set", path, "authorized", if enabled {
            "1"
        } else {
            "0"
        }))
    }
}

/// The Windows backend: devices are switched with `Enable-PnpDevice` /
/// `Disable-PnpDevice`, run elevated; the other writes do not exist there.
pub struct WindowsBackend;

/// The elevated command that enables or disables the device `path`.
pub open spec fn enable_command(path: Seq<char>, enabled: bool) -> Seq<char> {
    (if enabled {
        "Enable-PnpDevice"@
    } else {
        "Disable-PnpDevice"@
    }) + " -InstanceId '"@ + ps_escape(path) + "' -Confirm:$false"@
}

impl DeviceBackend for WindowsBackend {
    fn set_property(&self, path: &str, property: &str, value: &str) -> (r: Result<WriteAction, String>)
        ensures
            error_is(r, "Editing device properties is not supported on Windows"@),
    {
        Err(String::from_str("Editing device properties is not supported on Windows"))
    }

    fn bind(&self, path: &str, driver: &str) -> (r: Result<WriteAction, String>)
        ensures
            error_is(r, "Driver bind is not supported on Windows (use Enable/Disable)"@),
    {
        Err(String::from_str("Driver bind is not supported on Windows (use Enable/Disable)"))
    }

    fn unbind(&self, path: &str) -> (r: Result<WriteAction, String>)
        ensures
            error_is(r, "Driver unbind is not supported on Windows (use Enable/Disable)"@),
    {
        Err(String::from_str("Driver unbind is not supported on Windows (use Enable/Disable)"))
    }

    fn set_enabled(&self, path: &str, enabled: bool) -> (r: Result<WriteAction, String>)
        ensures
            r matches Ok(WriteAction::Elevated(c)) && c@ == enable_command(path@, enabled),
    {
        let mut c = chars_of(if enabled {
            "Enable-PnpDevice"
        } else {
            "Disable-PnpDevice"
        });
        push_all(&mut c, &chars_of(" -InstanceId '"));
        push_all(&mut c, &chars_of(escape(path).as_str()));
        push_all(&mut c, &chars_of("' -Confirm:$false"));
        Ok(WriteAction::Elevated(string_of(&c)))
    }
}

/// The macOS backend: read-only.
pub struct MacosBackend;

impl DeviceBackend for MacosBackend {
    fn set_property(&self, path: &str, property: &str, value: &str) -> (r: Result<WriteAction, String>)
        ensures
            error_is(r, "Editing device properties is not supported on macOS"@),
    {
        Err(String::from_str("Editing device properties is not supported on macOS"))
    }

    fn bind(&self, path: &str, driver: &str) -> (r: Result<WriteAction, String>)
        ensures
            error_is(r, "Driver bind is not supported on macOS"@),
    {
        Err(String::from_str("Driver bind is not supported on macOS"))
    }

    fn unbind(&self, path: &str) -> (r: Result<WriteAction, String>)
        ensures
            error_is(r, "Driver unbind is not supported on macOS"@),
    {
        Err(String::from_str("Driver unbind is not supported on macOS"))
    }

    fn set_enabled(&self, path: &str, enabled: bool) -> (r: Result<WriteAction, String>)
        ensures
            error_is(r, "Enable/disable is not supported on macOS"@),
    {
        Err(String::from_str("Enable/disable is not supported on macOS"))
    }
}

/// The backend of an operating system without device management.
pub struct Unsupported;

impl DeviceBackend for Unsupported {
    fn set_property(&self, path: &str, property: &str, value: &str) -> (r: Result<WriteAction, String>)
        ensures
            error_is(r, "unsupported OS"@),
    {
        Err(String::from_str("unsupported OS"))
    }

    fn bind(&self, path: &str, driver: &str) -> (r: Result<WriteAction, String>)
        ensures
            error_is(r, "unsupported OS"@),
    {
        Err(String::from_str("unsupported OS"))
    }

    fn unbind(&self, path: &str) -> (r: Result<WriteAction, String>)
        ensures
            error_is(r, "unsupported OS"@),
    {
        Err(String::from_str("unsupported OS"))
    }

    fn set_enabled(&self, path: &str, enabled: bool) -> (r: Result<WriteAction, String>)
        ensures
            error_is(r, "unsupported OS"@),
    {
        Err(String::from_str("unsupported OS"))
    }
}

/// The message of a device scan where device management does not exist.
pub open spec fn unsupported_scan_message() -> Seq<char> {
    "device management is not implemented for this OS yet"@
}

impl Unsupported {
    /// There is no device list to scan.
    pub fn scan(&self) -> (r: Result<Vec<Device>, String>)
        ensures
            r matches Err(e) && e@ == unsupported_scan_message(),
    {
        Err(String::from_str("device management is not implemented for this OS yet"))
    }

    /// No drivers are known.
    pub fn available_drivers(&self, path: &str) -> (r: Result<Vec<String>, String>)
        ensures
            r matches Ok(v) && v@.len() == 0,
    {
        Ok(Vec::new())
    }

    /// No attribute can be read.
    pub fn get_property(&self, path: &str, property: &str) -> (r: Result<Option<String>, String>)
        ensures
            r matches Ok(None),
    {
        Ok(None)
    }
}

/// Which backend serves the device panel.
#[derive(Clone, Copy, Debug, PartialEq, Eq, Structural)]
pub enum BackendChoice {
    Linux,
    Unsupported,
}

/// The backend for the platform: Linux has one; every other system gets
/// the unsupported one.
pub fn current_backend(linux: bool) -> (r: BackendChoice)
    ensures
        r == if linux {
            BackendChoice::Linux
        } else {
            BackendChoice::Unsupported
        },
{
    if linux {
        BackendChoice::Linux
    } else {
        BackendChoice::Unsupported
    }
}

// ── Windows device lists ─────────────────────────────────────────────────────

/// `s` in ASCII lowercase with its first character in ASCII uppercase.
pub open spec fn capitalized(s: Seq<char>) -> Seq<char> {
    let lower = ascii_lower(s);
    if lower.len() == 0 {
        lower
    } else {
        seq![upper_char(lower[0])] + lower.drop_first()
    }
}

/// See [`capitalized`].
pub fn capitalize(s: &str) -> (r: String)
    ensures
        r@ == capitalized(s@),
{
    let lower = ascii_lower_exec(&chars_of(s));
    if lower.len() == 0 {
        return string_of(&lower);
    }
    let mut c: Vec<char> = Vec::new();
    let f = lower[0];
    c.push(if 'a' <= f && f <= 'z' {
        ((f as u8) - 32) as char
    } else {
        f
    });
    let rest = slice_of(&lower, 1, lower.len());
    push_all(&mut c, &rest);
    proof {
        assert(rest@ =~= lower@.drop_first());
        assert(c@ =~= seq![upper_char(lower@[0])] + lower@.drop_first());
    }
    string_of(&c)
}

/// The bus a Windows device class stands for (compared in ASCII
/// uppercase); an unknown class is kept, capitalized, and no class is
/// `Other`.
pub open spec fn bus_of_class(class: Seq<char>) -> BusV {
    let u = ascii_upper(class);
    if u == "USB"@ {
        BusV::Usb
    } else if u == "DISPLAY"@ || u == "MONITOR"@ {
        BusV::Drm
    } else if u == "NET"@ {
        BusV::Net
    } else if u == "MEDIA"@ || u == "AUDIOENDPOINT"@ || u == "SOUND"@ {
        BusV::Audio
    } else if u == "HIDCLASS"@ || u == "HID"@ {
        BusV::Hid
    } else if u == "KEYBOARD"@ || u == "MOUSE"@ {
        BusV::Input
    } else if u == "DISKDRIVE"@ || u == "VOLUME"@ || u == "CDROM"@ {
        BusV::Block
    } else if u == "PORTS"@ {
        BusV::Tty
    } else if u.len() == 0 {
        BusV::Unknown("Other"@)
    } else {
        BusV::Unknown(capitalized(u))
    }
}

fn is(u: &Vec<char>, w: &str) -> (r: bool)
    ensures
        r == (u@ == w@),
{
    eq(u, &chars_of(w))
}

/// See [`bus_of_class`].
pub fn class_to_bus(class: &str) -> (r: Bus)
    ensures
        r@ == bus_of_class(class@),
{
    let u = ascii_upper_exec(&chars_of(class));
    if is(&u, "USB") {
        Bus::Usb
    } else if is(&u, "DISPLAY") || is(&u, "MONITOR") {
        Bus::Drm
    } else if is(&u, "NET") {
        Bus::Net
    } else if is(&u, "MEDIA") || is(&u, "AUDIOENDPOINT") || is(&u, "SOUND") {
        Bus::Audio
    } else if is(&u, "HIDCLASS") || is(&u, "HID") {
        Bus::Hid
    } else if is(&u, "KEYBOARD") || is(&u, "MOUSE") {
        Bus::Input
    } else if is(&u, "DISKDRIVE") || is(&u, "VOLUME") || is(&u, "CDROM") {
        Bus::Block
    } else if is(&u, "PORTS") {
        Bus::Tty
    } else if u.len() == 0 {
        Bus::Unknown(String::from_str("Other"))
    } else {
        Bus::Unknown(capitalize(string_of(&u).as_str()))
    }
}

/// The status of a Windows device: absent devices are offline; else by
/// the status text (ASCII case ignored).
pub open spec fn status_of(status: Seq<char>, present: bool) -> DeviceStatus {
    if !present {
        DeviceStatus::Offline
    } else if ascii_upper(status) == "OK"@ {
        DeviceStatus::Online
    } else if ascii_upper(status) == "ERROR"@ {
        DeviceStatus::Error
    } else if ascii_upper(status) == "DEGRADED"@ {
        DeviceStatus::Suspended
    } else {
        DeviceStatus::Unknown
    }
}

/// See [`status_of`].
pub fn status_map(status: &str, present: bool) -> (r: DeviceStatus)
    ensures
        r == status_of(status@, present),
{
    if !present {
        return DeviceStatus::Offline;
    }
    let u = ascii_upper_exec(&chars_of(status));
    if is(&u, "OK") {
        DeviceStatus::Online
    } else if is(&u, "ERROR") {
        DeviceStatus::Error
    } else if is(&u, "DEGRADED") {
        DeviceStatus::Suspended
    } else {
        DeviceStatus::Unknown
    }
}

/// The status for a configuration manager problem code: 0 works, 22 is
/// disabled, anything else is an error.
pub fn problem_to_status(problem: u32) -> (r: DeviceStatus)
    ensures
        r == if problem == 0 {
            DeviceStatus::Online
        } else if problem == 22 {
            DeviceStatus::Offline
        } else {
            DeviceStatus::Error
        },
{
    if problem == 0 {
        DeviceStatus::Online
    } else if problem == 22 {
        DeviceStatus::Offline
    } else {
        DeviceStatus::Error
    }
}

/// An entry of `Get-PnpDevice`, each field where it was given as text (or,
/// for `Present`, as a boolean).
#[derive(Clone, Debug)]
pub struct PnpDevice {
    pub instance_id: Option<String>,
    pub friendly_name: Option<String>,
    pub class: Option<String>,
    pub status: Option<String>,
    pub present: Option<bool>,
    pub service: Option<String>,
    pub manufacturer: Option<String>,
}

pub open spec fn text_or_empty(o: Option<String>) -> Seq<char> {
    match o {
        Some(s) => s@,
        None => seq![],
    }
}

/// The device of a `Get-PnpDevice` entry: none without an instance id; its
/// id and path are the instance id, its name the friendly name (else the
/// instance id), its bus from its class; enabled when its status is `OK`.
pub open spec fn pnp_device(it: PnpDevice) -> Option<DeviceV> {
    match it.instance_id {
        None => None,
        Some(inst) => if inst@.len() == 0 {
            None
        } else {
            let class = text_or_empty(it.class);
            let status = text_or_empty(it.status);
            let present = match it.present {
                Some(p) => p,
                None => true,
            };
            let name = match it.friendly_name {
                Some(n) => n@,
                None => inst@,
            };
            let d = new_device(inst@, name, bus_of_class(class), class, inst@);
            Some(
                DeviceV {
                    driver: opt_view(it.service),
                    vendor: opt_view(it.manufacturer),
                    status: status_of(status, present),
                    authorized: eq_ignore_case(status, "OK"@),
                    ..d
                },
            )
        },
    }
}

/// See [`pnp_device`].
pub fn device_of_pnp(it: PnpDevice) -> (r: Option<Device>)
    ensures
        match r {
            Some(d) => pnp_device(it) == Some(d@),
            None => pnp_device(it) is None,
        },
{
    let ghost orig = it;
    let inst = match it.instance_id {
        Some(s) => s,
        None => {
            return None;
        },
    };
    if inst.as_str().is_empty() {
        return None;
    }
    let class = match it.class {
        Some(c) => c,
        None => String::new(),
    };
    let status = match it.status {
        Some(s) => s,
        None => String::new(),
    };
    let present = match it.present {
        Some(p) => p,
        None => true,
    };
    let name = match it.friendly_name {
        Some(n) => n,
        None => inst.clone(),
    };
    let bus = class_to_bus(class.as_str());
    let st = status_map(status.as_str(), present);
    let ok = eq_ignore_case_exec(&chars_of(status.as_str()), &chars_of("OK"));
    let mut d = Device::new(inst.clone(), name, bus, class, inst);
    d.driver = it.service;
    d.vendor = it.manufacturer;
    d.status = st;
    d.authorized = ok;
    Some(d)
}

/// The devices of the entries that have an instance id, in order.
pub open spec fn pnp_devices(items: Seq<PnpDevice>) -> Seq<DeviceV>
    decreases items.len(),
{
    if items.len() == 0 {
        seq![]
    } else {
        let r = pnp_devices(items.drop_last());
        match pnp_device(items.last()) {
            Some(d) => r.push(d),
            None => r,
        }
    }
}

/// The devices of the `Get-PnpDevice` entries, in order.
pub fn scan_powershell(items: Vec<PnpDevice>) -> (r: Vec<Device>)
    ensures
        devices_view(r@) == pnp_devices(items@),
{
    let ghost orig = items@;
    let mut items = items;
    let mut out: Vec<Device> = Vec::new();
    let ghost mut k: int = 0;
    proof {
        assert(orig.take(0) =~= Seq::<PnpDevice>::empty());
        assert(devices_view(out@) =~= Seq::<DeviceV>::empty());
    }
    while items.len() > 0
        invariant
            0 <= k <= orig.len(),
            items@ == orig.skip(k),
            devices_view(out@) == pnp_devices(orig.take(k)),
        decreases items.len(),
    {
        let it = items.remove(0);
        proof {
            assert(it == orig[k]);
            assert(orig.skip(k).drop_first() =~= orig.skip(k + 1));
            assert(orig.take(k + 1).drop_last() =~= orig.take(k));
            assert(orig.take(k + 1).last() == orig[k]);
        }
        let ghost before = out@;
        match device_of_pnp(it) {
            Some(d) => {
                let ghost dv = d@;
                out.push(d);
                proof {
                    assert(devices_view(out@) =~= devices_view(before).push(dv));
                }
            },
            None => {},
        }
        proof {
            k = k + 1;
        }
    }
    proof {
        assert(orig.take(k) =~= orig);
    }
    out
}

/// The script that reads one property of a device.
pub open spec fn property_script(path: Seq<char>, property: Seq<char>) -> Seq<char> {
    "(Get-PnpDeviceProperty -InstanceId '"@ + ps_escape(path) + "' -KeyName '"@ + ps_escape(property)
        + "').Data"@
}

/// See [`property_script`].
pub fn get_property_script(path: &str, property: &str) -> (r: String)
    ensures
        r@ == property_script(path@, property@),
{
    let mut c = chars_of("(Get-PnpDeviceProperty -InstanceId '");
    push_all(&mut c, &chars_of(escape(path).as_str()));
    push_all(&mut c, &chars_of("' -KeyName '"));
    push_all(&mut c, &chars_of(escape(property).as_str()));
    push_all(&mut c, &chars_of("').Data"));
    string_of(&c)
}

/// How a PowerShell run ended: it could not start (with the error's text),
/// or it finished, with what it printed on each stream.
#[derive(Clone, Debug)]
pub enum PsOutcome {
    NotStarted(String),
    Finished { success: bool, stdout: String, stderr: String },
}

/// The property value from the run of the script: the output trimmed, none
/// when blank; a failed run's error output is the error.
pub fn property_result(o: PsOutcome) -> (r: Result<Option<String>, String>)
    ensures
        match o {
            PsOutcome::NotStarted(e) => r matches Err(m) && m@ == "powershell failed: "@ + e@,
            PsOutcome::Finished { success, stdout, stderr } => if success {
                r matches Ok(v) && opt_view(v) == if trim(stdout@).len() > 0 {
                    Some(trim(stdout@))
                } else {
                    None::<Seq<char>>
                }
            } else {
                r matches Err(m) && m@ == trim(stderr@)
            },
        },
{
    match o {
        PsOutcome::NotStarted(e) => {
            let mut c = chars_of("powershell failed: ");
            push_all(&mut c, &chars_of(e.as_str()));
            Err(string_of(&c))
        },
        PsOutcome::Finished { success, stdout, stderr } => {
            if success {
                let t = trim_chars(&chars_of(stdout.as_str()));
                if t.len() > 0 {
                    Ok(Some(string_of(&t)))
                } else {
                    Ok(None)
                }
            } else {
                Err(string_of(&trim_chars(&chars_of(stderr.as_str()))))
            }
        },
    }
}

/// A device as the native Windows enumeration reports it.
#[derive(Clone, Debug)]
pub struct NativeDevice {
    pub instance_id: String,
    pub class: String,
    pub friendly_name: Option<String>,
    pub description: Option<String>,
    pub problem: u32,
    pub service: Option<String>,
    pub manufacturer: Option<String>,
}

/// The device of a natively enumerated entry: named by its friendly name,
/// else its description, else its instance id; disabled (problem 22)
/// devices are not authorized.
pub open spec fn native_device(n: NativeDevice) -> DeviceV {
    let d = new_device(
        n.instance_id@,
        match n.friendly_name {
            Some(f) => f@,
            None => match n.description {
                Some(x) => x@,
                None => n.instance_id@,
            },
        },
        bus_of_class(n.class@),
        n.class@,
        n.instance_id@,
    );
    DeviceV {
        driver: opt_view(n.service),
        vendor: opt_view(n.manufacturer),
        status: if n.problem == 0 {
            DeviceStatus::Online
        } else if n.problem == 22 {
            DeviceStatus::Offline
        } else {
            DeviceStatus::Error
        },
        authorized: n.problem != 22,
        ..d
    }
}

/// See [`native_device`]; none for an entry without an instance id.
pub fn device_of_native(n: NativeDevice) -> (r: Option<Device>)
    ensures
        n.instance_id@.len() == 0 ==> r is None,
        n.instance_id@.len() > 0 ==> (r matches Some(d) && d@ == native_device(n)),
{
    if n.instance_id.as_str().is_empty() {
        return None;
    }
    let name = match n.friendly_name {
        Some(f) => f,
        None => match n.description {
            Some(x) => x,
            None => n.instance_id.clone(),
        },
    };
    let bus = class_to_bus(n.class.as_str());
    let mut d = Device::new(n.instance_id.clone(), name, bus, n.class, n.instance_id);
    d.driver = n.service;
    d.vendor = n.manufacturer;
    d.status = problem_to_status(n.problem);
    d.authorized = n.problem != 22;
    Some(d)
}

/// The scan result: the native enumeration when it found devices, else
/// the PowerShell listing.
pub fn choose_scan(native: Result<Vec<Device>, String>, powershell: Result<Vec<Device>, String>) -> (r: Result<Vec<Device>, String>)
    ensures
        match native {
            Ok(d) => if d@.len() > 0 {
                r matches Ok(x) && x@ == d@
            } else {
                r == powershell
            },
            Err(_) => r == powershell,
        },
{
    match native {
        Ok(d) => {
            if d.len() > 0 {
                Ok(d)
            } else {
                powershell
            }
        },
        Err(_) => powershell,
    }
}

// ── macOS device lists ───────────────────────────────────────────────────────

/// A named node of the `system_profiler -json` tree, in the order the
/// tree is walked (a node before its `_items`).
#[derive(Clone, Debug)]
pub struct ProfilerNode {
    pub name: String,
    pub manufacturer: Option<String>,
    pub vendor_id: Option<String>,
    pub device_model: Option<String>,
    pub product_id: Option<String>,
}

/// The device of the `idx`-th named node of data type `prefix`: id and
/// path `<prefix>-<idx>`, vendor its manufacturer (else vendor id), model
/// its device model (else its name), online.
pub open spec fn profiler_device(node: ProfilerNode, bus: BusV, prefix: Seq<char>, idx: nat) -> DeviceV {
    let id = prefix + "-"@ + dec(idx);
    DeviceV {
        vendor: match node.manufacturer {
            Some(m) => Some(m@),
            None => opt_view(node.vendor_id),
        },
        model: match node.device_model {
            Some(m) => Some(m@),
            None => Some(node.name@),
        },
        vendor_id: opt_view(node.vendor_id),
        model_id: opt_view(node.product_id),
        status: DeviceStatus::Online,
        ..new_device(id, node.name@, bus, prefix, id)
    }
}

/// The devices of the named nodes of one `system_profiler` data type,
/// numbered in walk order.
pub fn profiler_devices(nodes: Vec<ProfilerNode>, bus: &Bus, prefix: &str) -> (r: Vec<Device>)
    ensures
        r@.len() == nodes@.len(),
        forall|i: int| 0 <= i < r@.len() ==> #[trigger] r@[i]@ == profiler_device(nodes@[i], bus@, prefix@, i as nat),
{
    let ghost orig = nodes@;
    proof {
        assert(orig.len() == nodes.len());
    }
    let mut nodes = nodes;
    let mut out: Vec<Device> = Vec::new();
    let mut idx: usize = 0;
    while nodes.len() > 0
        invariant
            idx <= orig.len(),
            orig.len() <= usize::MAX,
            nodes@ == orig.skip(idx as int),
            out@.len() == idx,
            forall|i: int| 0 <= i < idx ==> #[trigger] out@[i]@ == profiler_device(orig[i], bus@, prefix@, i as nat),
        decreases nodes.len(),
    {
        let node = nodes.remove(0);
        proof {
            assert(node == orig[idx as int]);
            assert(orig.skip(idx as int).drop_first() =~= orig.skip(idx + 1));
        }
        let ghost nv = node;
        let mut id = chars_of(prefix);
        push_all(&mut id, &chars_of("-"));
        push_all(&mut id, &fmt_u64(idx as u64));
        let vendor = match node.manufacturer {
            Some(m) => Some(m),
            None => node.vendor_id.clone(),
        };
        let model = match node.device_model {
            Some(m) => Some(m),
            None => Some(node.name.clone()),
        };
        let mut d = Device::new(string_of(&id), node.name, bus.copy(), String::from_str(prefix), string_of(&id));
        d.vendor = vendor;
        d.model = model;
        d.vendor_id = node.vendor_id;
        d.model_id = node.product_id;
        d.status = DeviceStatus::Online;
        out.push(d);
        idx = idx + 1;
    }
    out
}

} // verus!
