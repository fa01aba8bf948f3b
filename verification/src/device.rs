//! The device model: bus, status, interfaces and the device record.
use vstd::prelude::*;
use crate::text::{chars_of, string_of, contains, contains_exec, eq};

verus! {

/// The kind of bus (or class) a device was found on.
#[derive(Debug, Clone, PartialEq, Eq, Hash)]
pub enum Bus {
    Usb,
    Pci,
    Audio,
    Input,
    Block,
    Drm,
    Net,
    Hid,
    Tty,
    Power,
    IoMMU,
    Unknown(String),
}

/// `Bus` with its text as a sequence of characters.
pub enum BusV {
    Usb,
    Pci,
    Audio,
    Input,
    Block,
    Drm,
    Net,
    Hid,
    Tty,
    Power,
    IoMMU,
    Unknown(Seq<char>),
}

impl View for Bus {
    type V = BusV;

    open spec fn view(&self) -> BusV {
        match self {
            Bus::Usb => BusV::Usb,
            Bus::Pci => BusV::Pci,
            Bus::Audio => BusV::Audio,
            Bus::Input => BusV::Input,
            Bus::Block => BusV::Block,
            Bus::Drm => BusV::Drm,
            Bus::Net => BusV::Net,
            Bus::Hid => BusV::Hid,
            Bus::Tty => BusV::Tty,
            Bus::Power => BusV::Power,
            Bus::IoMMU => BusV::IoMMU,
            Bus::Unknown(s) => BusV::Unknown(s@),
        }
    }
}

/// The bus named by a kernel subsystem.
pub open spec fn bus_of_subsystem(s: Seq<char>) -> BusV {
    if s == "usb"@ || s == "usb_device"@ {
        BusV::Usb
    } else if s == "pci"@ {
        BusV::Pci
    } else if s == "sound"@ || s == "audio"@ {
        BusV::Audio
    } else if s == "input"@ {
        BusV::Input
    } else if s == "block"@ {
        BusV::Block
    } else if s == "drm"@ {
        BusV::Drm
    } else if s == "net"@ {
        BusV::Net
    } else if s == "hid"@ {
        BusV::Hid
    } else if s == "tty"@ {
        BusV::Tty
    } else if s == "power_supply"@ {
        BusV::Power
    } else if s == "iommu"@ {
        BusV::IoMMU
    } else {
        BusV::Unknown(s)
    }
}

/// The label a bus is shown with.
pub open spec fn bus_label(b: BusV) -> Seq<char> {
    match b {
        BusV::Usb => "USB"@,
        BusV::Pci => "PCIe"@,
        BusV::Audio => "Audio"@,
        BusV::Input => "Input"@,
        BusV::Block => "Block"@,
        BusV::Drm => "GPU/DRM"@,
        BusV::Net => "Network"@,
        BusV::Hid => "HID"@,
        BusV::Tty => "TTY"@,
        BusV::Power => "Power"@,
        BusV::IoMMU => "IOMMU"@,
        BusV::Unknown(s) => s,
    }
}

/// Whether `s` holds exactly the characters of the literal `lit`.
pub fn is_lit(s: &Vec<char>, lit: &str) -> (r: bool)
    ensures
        r == (s@ == lit@),
{
    let l = chars_of(lit);
    eq(s, &l)
}

impl Bus {
    /// The bus named by a kernel subsystem (`"usb"`, `"pci"`, ...); any other
    /// name is kept as `Unknown`.
    pub fn from_subsystem(s: &str) -> (r: Bus)
        ensures
            r@ == bus_of_subsystem(s@),
    {
        let c = chars_of(s);
        if is_lit(&c, "usb") || is_lit(&c, "usb_device") {
            Bus::Usb
        } else if is_lit(&c, "pci") {
            Bus::Pci
        } else if is_lit(&c, "sound") || is_lit(&c, "audio") {
            Bus::Audio
        } else if is_lit(&c, "input") {
            Bus::Input
        } else if is_lit(&c, "block") {
            Bus::Block
        } else if is_lit(&c, "drm") {
            Bus::Drm
        } else if is_lit(&c, "net") {
            Bus::Net
        } else if is_lit(&c, "hid") {
            Bus::Hid
        } else if is_lit(&c, "tty") {
            Bus::Tty
        } else if is_lit(&c, "power_supply") {
            Bus::Power
        } else if is_lit(&c, "iommu") {
            Bus::IoMMU
        } else {
            Bus::Unknown(string_of(&c))
        }
    }

    /// The label the bus is shown with (`"USB"`, `"PCIe"`, `"GPU/DRM"`, ...).
    pub fn label(&self) -> (r: String)
        ensures
            r@ == bus_label(self@),
    {
        let lit: &str = match self {
            Bus::Usb => "USB",
            Bus::Pci => "PCIe",
            Bus::Audio => "Audio",
            Bus::Input => "Input",
            Bus::Block => "Block",
            Bus::Drm => "GPU/DRM",
            Bus::Net => "Network",
            Bus::Hid => "HID",
            Bus::Tty => "TTY",
            Bus::Power => "Power",
            Bus::IoMMU => "IOMMU",
            Bus::Unknown(s) => {
                return s.clone();
            },
        };
        string_of(&chars_of(lit))
    }

    /// A copy of the bus.
    pub fn copy(&self) -> (r: Bus)
        ensures
            r@ == self@,
    {
        match self {
            Bus::Usb => Bus::Usb,
            Bus::Pci => Bus::Pci,
            Bus::Audio => Bus::Audio,
            Bus::Input => Bus::Input,
            Bus::Block => Bus::Block,
            Bus::Drm => Bus::Drm,
            Bus::Net => Bus::Net,
            Bus::Hid => Bus::Hid,
            Bus::Tty => Bus::Tty,
            Bus::Power => Bus::Power,
            Bus::IoMMU => Bus::IoMMU,
            Bus::Unknown(s) => Bus::Unknown(s.clone()),
        }
    }
}

/// Runtime state of a device.
#[derive(Debug, Clone, Copy, PartialEq, Eq, Structural)]
pub enum DeviceStatus {
    Online,
    Offline,
    Suspended,
    Unbound,
    Error,
    Unknown,
}

/// The status a kernel status word stands for: `active`/`online`/`on` is
/// online, `suspended`/`suspend` suspended, `offline`/`off` offline, a word
/// holding `error` or `fail` an error, and any other word online.
pub open spec fn status_of_word(s: Seq<char>) -> DeviceStatus {
    if s == "active"@ || s == "online"@ || s == "on"@ {
        DeviceStatus::Online
    } else if s == "suspended"@ || s == "suspend"@ {
        DeviceStatus::Suspended
    } else if s == "offline"@ || s == "off"@ {
        DeviceStatus::Offline
    } else if contains(s, "error"@) || contains(s, "fail"@) {
        DeviceStatus::Error
    } else {
        DeviceStatus::Online
    }
}

pub open spec fn status_label(s: DeviceStatus) -> Seq<char> {
    match s {
        DeviceStatus::Online => "Online"@,
        DeviceStatus::Offline => "Offline"@,
        DeviceStatus::Suspended => "Suspended"@,
        DeviceStatus::Unbound => "Unbound"@,
        DeviceStatus::Error => "Error"@,
        DeviceStatus::Unknown => "Unknown"@,
    }
}

pub open spec fn status_emoji(s: DeviceStatus) -> Seq<char> {
    match s {
        DeviceStatus::Online => "🟢"@,
        DeviceStatus::Offline => "🔴"@,
        DeviceStatus::Suspended => "🟡"@,
        DeviceStatus::Unbound => "⚪"@,
        DeviceStatus::Error => "🟠"@,
        DeviceStatus::Unknown => "⚫"@,
    }
}

impl DeviceStatus {
    /// The status a kernel status word (such as `power/runtime_status`)
    /// stands for.
    pub fn from_str(s: &str) -> (r: DeviceStatus)
        ensures
            r == status_of_word(s@),
    {
        let c = chars_of(s);
        if is_lit(&c, "active") || is_lit(&c, "online") || is_lit(&c, "on") {
            DeviceStatus::Online
        } else if is_lit(&c, "suspended") || is_lit(&c, "suspend") {
            DeviceStatus::Suspended
        } else if is_lit(&c, "offline") || is_lit(&c, "off") {
            DeviceStatus::Offline
        } else if contains_exec(&c, &chars_of("error")) || contains_exec(&c, &chars_of("fail")) {
            DeviceStatus::Error
        } else {
            DeviceStatus::Online
        }
    }

    /// The status name (`"Online"`, `"Offline"`, ...).
    pub fn label(&self) -> (r: &'static str)
        ensures
            r@ == status_label(*self),
    {
        match self {
            DeviceStatus::Online => "Online",
            DeviceStatus::Offline => "Offline",
            DeviceStatus::Suspended => "Suspended",
            DeviceStatus::Unbound => "Unbound",
            DeviceStatus::Error => "Error",
            DeviceStatus::Unknown => "Unknown",
        }
    }

    /// A coloured dot for the status.
    pub fn emoji(&self) -> (r: &'static str)
        ensures
            r@ == status_emoji(*self),
    {
        match self {
            DeviceStatus::Online => "🟢",
            DeviceStatus::Offline => "🔴",
            DeviceStatus::Suspended => "🟡",
            DeviceStatus::Unbound => "⚪",
            DeviceStatus::Error => "🟠",
            DeviceStatus::Unknown => "⚫",
        }
    }
}

/// A function (interface) a device exposes.
#[derive(Debug, Clone)]
pub struct Interface {
    pub name: String,
    pub class: String,
    pub protocol: Option<String>,
}

pub open spec fn opt_view(o: Option<String>) -> Option<Seq<char>> {
    match o {
        Some(s) => Some(s@),
        None => None,
    }
}

pub open spec fn strs_view(v: Seq<String>) -> Seq<Seq<char>> {
    v.map_values(|s: String| s@)
}

pub open spec fn pairs_view(v: Seq<(String, String)>) -> Seq<(Seq<char>, Seq<char>)> {
    v.map_values(|p: (String, String)| (p.0@, p.1@))
}

pub struct InterfaceV {
    pub name: Seq<char>,
    pub class: Seq<char>,
    pub protocol: Option<Seq<char>>,
}

impl View for Interface {
    type V = InterfaceV;

    open spec fn view(&self) -> InterfaceV {
        InterfaceV { name: self.name@, class: self.class@, protocol: opt_view(self.protocol) }
    }
}

/// A device as the manager shows it. `properties` maps sysfs attribute
/// names to their values; no name occurs twice in it.
#[derive(Debug, Clone)]
pub struct Device {
    pub id: String,
    pub name: String,
    pub bus: Bus,
    pub bus_id: Option<String>,
    pub vendor: Option<String>,
    pub vendor_id: Option<String>,
    pub model: Option<String>,
    pub model_id: Option<String>,
    pub driver: Option<String>,
    pub status: DeviceStatus,
    pub subsystem: String,
    pub path: String,
    pub parent: Option<String>,
    pub children: Vec<String>,
    pub interfaces: Vec<Interface>,
    pub properties: Vec<(String, String)>,
    pub editable_properties: Vec<String>,
    pub removable: bool,
    pub authorized: bool,
}

pub struct DeviceV {
    pub id: Seq<char>,
    pub name: Seq<char>,
    pub bus: BusV,
    pub bus_id: Option<Seq<char>>,
    pub vendor: Option<Seq<char>>,
    pub vendor_id: Option<Seq<char>>,
    pub model: Option<Seq<char>>,
    pub model_id: Option<Seq<char>>,
    pub driver: Option<Seq<char>>,
    pub status: DeviceStatus,
    pub subsystem: Seq<char>,
    pub path: Seq<char>,
    pub parent: Option<Seq<char>>,
    pub children: Seq<Seq<char>>,
    pub interfaces: Seq<InterfaceV>,
    pub properties: Seq<(Seq<char>, Seq<char>)>,
    pub editable_properties: Seq<Seq<char>>,
    pub removable: bool,
    pub authorized: bool,
}

impl View for Device {
    type V = DeviceV;

    open spec fn view(&self) -> DeviceV {
        DeviceV {
            id: self.id@,
            name: self.name@,
            bus: self.bus@,
            bus_id: opt_view(self.bus_id),
            vendor: opt_view(self.vendor),
            vendor_id: opt_view(self.vendor_id),
            model: opt_view(self.model),
            model_id: opt_view(self.model_id),
            driver: opt_view(self.driver),
            status: self.status,
            subsystem: self.subsystem@,
            path: self.path@,
            parent: opt_view(self.parent),
            children: strs_view(self.children@),
            interfaces: self.interfaces@.map_values(|i: Interface| i@),
            properties: pairs_view(self.properties@),
            editable_properties: strs_view(self.editable_properties@),
            removable: self.removable,
            authorized: self.authorized,
        }
    }
}

pub open spec fn devices_view(v: Seq<Device>) -> Seq<DeviceV> {
    v.map_values(|d: Device| d@)
}

/// A fresh device: nothing known beyond its identity, status `Unknown`,
/// not removable, authorized.
pub open spec fn new_device(
    id: Seq<char>,
    name: Seq<char>,
    bus: BusV,
    subsystem: Seq<char>,
    path: Seq<char>,
) -> DeviceV {
    DeviceV {
        id,
        name,
        bus,
        bus_id: None,
        vendor: None,
        vendor_id: None,
        model: None,
        model_id: None,
        driver: None,
        status: DeviceStatus::Unknown,
        subsystem,
        path,
        parent: None,
        children: Seq::empty(),
        interfaces: Seq::empty(),
        properties: Seq::empty(),
        editable_properties: Seq::empty(),
        removable: false,
        authorized: true,
    }
}

impl Device {
    /// A device with the given identity and nothing else known yet.
    pub fn new(id: String, name: String, bus: Bus, subsystem: String, path: String) -> (r: Device)
        ensures
            r@ == new_device(id@, name@, bus@, subsystem@, path@),
    {
        let r = Device {
            id,
            name,
            bus,
            bus_id: None,
            vendor: None,
            vendor_id: None,
            model: None,
            model_id: None,
            driver: None,
            status: DeviceStatus::Unknown,
            subsystem,
            path,
            parent: None,
            children: Vec::new(),
            interfaces: Vec::new(),
            properties: Vec::new(),
            editable_properties: Vec::new(),
            removable: false,
            authorized: true,
        };
        proof {
            assert(r@.children =~= Seq::<Seq<char>>::empty());
            assert(r@.interfaces =~= Seq::<InterfaceV>::empty());
            assert(r@.properties =~= Seq::<(Seq<char>, Seq<char>)>::empty());
            assert(r@.editable_properties =~= Seq::<Seq<char>>::empty());
        }
        r
    }
}

/// A copy of an optional text.
pub fn copy_opt(o: &Option<String>) -> (r: Option<String>)
    ensures
        opt_view(r) == opt_view(*o),
{
    match o {
        Some(s) => Some(s.clone()),
        None => None,
    }
}

/// A copy of a list of texts.
pub fn copy_strs(v: &Vec<String>) -> (r: Vec<String>)
    ensures
        strs_view(r@) == strs_view(v@),
{
    let mut out: Vec<String> = Vec::new();
    let mut i: usize = 0;
    while i < v.len()
        invariant
            i <= v.len(),
            strs_view(out@) == strs_view(v@).take(i as int),
        decreases v.len() - i,
    {
        let ghost prev = out@;
        let s = v[i].clone();
        out.push(s);
        proof {
            assert(strs_view(out@) =~= strs_view(prev).push(s@));
            assert(strs_view(v@).take(i + 1) =~= strs_view(v@).take(i as int).push(v@[i as int]@));
        }
        i = i + 1;
    }
    proof {
        assert(strs_view(v@).take(v.len() as int) =~= strs_view(v@));
    }
    out
}

/// A copy of a list of pairs of texts.
pub fn copy_pairs(v: &Vec<(String, String)>) -> (r: Vec<(String, String)>)
    ensures
        pairs_view(r@) == pairs_view(v@),
{
    let mut out: Vec<(String, String)> = Vec::new();
    let mut i: usize = 0;
    while i < v.len()
        invariant
            i <= v.len(),
            pairs_view(out@) == pairs_view(v@).take(i as int),
        decreases v.len() - i,
    {
        let ghost prev = out@;
        let p = (v[i].0.clone(), v[i].1.clone());
        out.push(p);
        proof {
            assert(pairs_view(out@) =~= pairs_view(prev).push((p.0@, p.1@)));
            assert(pairs_view(v@).take(i + 1) =~= pairs_view(v@).take(i as int).push((v@[i as int].0@, v@[i as int].1@)));
        }
        i = i + 1;
    }
    proof {
        assert(pairs_view(v@).take(v.len() as int) =~= pairs_view(v@));
    }
    out
}

pub open spec fn interfaces_view(v: Seq<Interface>) -> Seq<InterfaceV> {
    v.map_values(|i: Interface| i@)
}

impl Interface {
    /// A copy of the interface.
    pub fn copy(&self) -> (r: Interface)
        ensures
            r@ == self@,
    {
        Interface { name: self.name.clone(), class: self.class.clone(), protocol: copy_opt(&self.protocol) }
    }
}

/// A copy of a list of interfaces.
pub fn copy_interfaces(v: &Vec<Interface>) -> (r: Vec<Interface>)
    ensures
        interfaces_view(r@) == interfaces_view(v@),
{
    let mut out: Vec<Interface> = Vec::new();
    let mut i: usize = 0;
    while i < v.len()
        invariant
            i <= v.len(),
            interfaces_view(out@) == interfaces_view(v@).take(i as int),
        decreases v.len() - i,
    {
        let ghost prev = out@;
        let x = v[i].copy();
        out.push(x);
        proof {
            assert(interfaces_view(out@) =~= interfaces_view(prev).push(x@));
            assert(interfaces_view(v@).take(i + 1) =~= interfaces_view(v@).take(i as int).push(v@[i as int]@));
        }
        i = i + 1;
    }
    proof {
        assert(interfaces_view(v@).take(v.len() as int) =~= interfaces_view(v@));
    }
    out
}

impl Device {
    /// A copy of the device.
    pub fn copy(&self) -> (r: Device)
        ensures
            r@ == self@,
    {
        let r = Device {
            id: self.id.clone(),
            name: self.name.clone(),
            bus: self.bus.copy(),
            bus_id: copy_opt(&self.bus_id),
            vendor: copy_opt(&self.vendor),
            vendor_id: copy_opt(&self.vendor_id),
            model: copy_opt(&self.model),
            model_id: copy_opt(&self.model_id),
            driver: copy_opt(&self.driver),
            status: self.status,
            subsystem: self.subsystem.clone(),
            path: self.path.clone(),
            parent: copy_opt(&self.parent),
            children: copy_strs(&self.children),
            interfaces: copy_interfaces(&self.interfaces),
            properties: copy_pairs(&self.properties),
            editable_properties: copy_strs(&self.editable_properties),
            removable: self.removable,
            authorized: self.authorized,
        };
        proof {
            assert(r@.interfaces == interfaces_view(r.interfaces@));
        }
        r
    }
}

} // verus!
