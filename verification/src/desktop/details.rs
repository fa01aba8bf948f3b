//! Advanced per-device details: chosen sysfs attributes per bus on Linux
//! (PCIe link, IRQ, USB speed and power, runtime power management), and
//! Plug and Play properties on Windows.
use vstd::prelude::*;
use crate::text::{chars_of, string_of, trim, split_once, lines, views, trim_chars, split_once_exec, lines_exec, eq, push_all};
use crate::num::{dec, fmt_u64};
use crate::sysfs::{SysfsNode, NodeV, read_attr, attr};
use crate::device::opt_view;

verus! {

/// One line of the details panel.
#[derive(Clone, Debug)]
pub struct DetailItem {
    pub label: String,
    pub value: String,
}

pub open spec fn details_view(v: Seq<DetailItem>) -> Seq<(Seq<char>, Seq<char>)> {
    v.map_values(|d: DetailItem| (d.label@, d.value@))
}

/// `acc` followed by the attribute `rel` under the label `label`, when the
/// attribute reads as something.
pub open spec fn with_attr(
    acc: Seq<(Seq<char>, Seq<char>)>,
    n: NodeV,
    label: Seq<char>,
    rel: Seq<char>,
) -> Seq<(Seq<char>, Seq<char>)> {
    match read_attr(n, rel) {
        Some(v) => acc.push((label, v)),
        None => acc,
    }
}

fn push_attr(out: &mut Vec<DetailItem>, n: &SysfsNode, label: &str, rel: &str)
    ensures
        details_view(final(out)@) == with_attr(details_view(old(out)@), n@, label@, rel@),
{
    match attr(n, rel) {
        Some(value) => {
            let ghost before = out@;
            let item = DetailItem { label: String::from_str(label), value };
            out.push(item);
            proof {
                assert(details_view(out@) =~= details_view(before).push((label@, item.value@)));
            }
        },
        None => {},
    }
}

/// The PCI attributes, in display order.
pub open spec fn pci_items(n: NodeV, a: Seq<(Seq<char>, Seq<char>)>) -> Seq<(Seq<char>, Seq<char>)> {
    let a = with_attr(a, n, "Current link speed"@, "current_link_speed"@);
    let a = with_attr(a, n, "Max link speed"@, "max_link_speed"@);
    let a = with_attr(a, n, "Current link width"@, "current_link_width"@);
    let a = with_attr(a, n, "Max link width"@, "max_link_width"@);
    let a = with_attr(a, n, "IRQ"@, "irq"@);
    let a = with_attr(a, n, "NUMA node"@, "numa_node"@);
    let a = with_attr(a, n, "Class"@, "class"@);
    let a = with_attr(a, n, "Revision"@, "revision"@);
    let a = with_attr(a, n, "Enabled"@, "enable"@);
    with_attr(a, n, "D3cold allowed"@, "d3cold_allowed"@)
}

/// The USB attributes, in display order.
pub open spec fn usb_items(n: NodeV, a: Seq<(Seq<char>, Seq<char>)>) -> Seq<(Seq<char>, Seq<char>)> {
    let a = with_attr(a, n, "USB version"@, "version"@);
    let a = with_attr(a, n, "Speed (Mbps)"@, "speed"@);
    let a = with_attr(a, n, "Max power"@, "bMaxPower"@);
    let a = with_attr(a, n, "Device class"@, "bDeviceClass"@);
    let a = with_attr(a, n, "Configurations"@, "bNumConfigurations"@);
    let a = with_attr(a, n, "Interfaces"@, "bNumInterfaces"@);
    let a = with_attr(a, n, "Ports (hub)"@, "maxchild"@);
    let a = with_attr(a, n, "Bus number"@, "busnum"@);
    let a = with_attr(a, n, "Device number"@, "devnum"@);
    let a = with_attr(a, n, "Serial"@, "serial"@);
    with_attr(a, n, "Autosuspend (ms)"@, "power/autosuspend_delay_ms"@)
}

/// The network attributes, in display order.
pub open spec fn net_items(n: NodeV, a: Seq<(Seq<char>, Seq<char>)>) -> Seq<(Seq<char>, Seq<char>)> {
    let a = with_attr(a, n, "MAC address"@, "address"@);
    let a = with_attr(a, n, "Speed (Mbps)"@, "speed"@);
    let a = with_attr(a, n, "Operstate"@, "operstate"@);
    let a = with_attr(a, n, "MTU"@, "mtu"@);
    let a = with_attr(a, n, "Carrier"@, "carrier"@);
    with_attr(a, n, "Duplex"@, "duplex"@)
}

/// The block device attributes, in display order.
pub open spec fn block_items(n: NodeV, a: Seq<(Seq<char>, Seq<char>)>) -> Seq<(Seq<char>, Seq<char>)> {
    let a = with_attr(a, n, "Size (sectors)"@, "size"@);
    let a = with_attr(a, n, "Read-only"@, "ro"@);
    let a = with_attr(a, n, "Removable"@, "removable"@);
    let a = with_attr(a, n, "Rotational"@, "queue/rotational"@);
    let a = with_attr(a, n, "Scheduler"@, "queue/scheduler"@);
    with_attr(a, n, "Model"@, "device/model"@)
}

/// The display connector attributes, in display order.
pub open spec fn drm_items(n: NodeV, a: Seq<(Seq<char>, Seq<char>)>) -> Seq<(Seq<char>, Seq<char>)> {
    let a = with_attr(a, n, "Enabled"@, "enabled"@);
    let a = with_attr(a, n, "Status"@, "status"@);
    with_attr(a, n, "DPMS"@, "dpms"@)
}

/// The power management attributes shown for every device.
pub open spec fn common_items(n: NodeV, a: Seq<(Seq<char>, Seq<char>)>) -> Seq<(Seq<char>, Seq<char>)> {
    let a = with_attr(a, n, "Runtime PM control"@, "power/control"@);
    let a = with_attr(a, n, "Runtime status"@, "power/runtime_status"@);
    let a = with_attr(a, n, "Wakeup"@, "power/wakeup"@);
    with_attr(a, n, "Modalias"@, "modalias"@)
}

/// The details of a device, from its sysfs node, its bus as the
/// application names it (`Pci`, `Usb`, `Net`, `Block`, `Drm`, ...) and the
/// number of entries in its `msi_irqs` directory (0 where unreadable).
pub open spec fn sysfs_details(n: NodeV, bus: Seq<char>, msi_irqs: nat) -> Seq<(Seq<char>, Seq<char>)> {
    let e = Seq::<(Seq<char>, Seq<char>)>::empty();
    let a = if bus == "Pci"@ {
        let p = pci_items(n, e);
        if msi_irqs > 0 {
            p.push(("MSI IRQs"@, dec(msi_irqs)))
        } else {
            p
        }
    } else if bus == "Usb"@ {
        usb_items(n, e)
    } else if bus == "Net"@ {
        net_items(n, e)
    } else if bus == "Block"@ {
        block_items(n, e)
    } else if bus == "Drm"@ {
        drm_items(n, e)
    } else {
        e
    };
    common_items(n, a)
}

/// See [`sysfs_details`].
pub fn advanced_sysfs(n: &SysfsNode, bus: &str, msi_irqs: u64) -> (r: Vec<DetailItem>)
    ensures
        details_view(r@) == sysfs_details(n@, bus@, msi_irqs as nat),
{
    let mut out: Vec<DetailItem> = Vec::new();
    proof {
        assert(details_view(out@) =~= Seq::<(Seq<char>, Seq<char>)>::empty());
    }
    let b = chars_of(bus);
    if eq(&b, &chars_of("Pci")) {
        push_attr(&mut out, n, "Current link speed", "current_link_speed");
        push_attr(&mut out, n, "Max link speed", "max_link_speed");
        push_attr(&mut out, n, "Current link width", "current_link_width");
        push_attr(&mut out, n, "Max link width", "max_link_width");
        push_attr(&mut out, n, "IRQ", "irq");
        push_attr(&mut out, n, "NUMA node", "numa_node");
        push_attr(&mut out, n, "Class", "class");
        push_attr(&mut out, n, "Revision", "revision");
        push_attr(&mut out, n, "Enabled", "enable");
        push_attr(&mut out, n, "D3cold allowed", "d3cold_allowed");
        if msi_irqs > 0 {
            let ghost before = out@;
            let item = DetailItem {
                label: String::from_str("MSI IRQs"),
                value: string_of(&fmt_u64(msi_irqs)),
            };
            out.push(item);
            proof {
                assert(details_view(out@) =~= details_view(before).push(
                    ("MSI IRQs"@, dec(msi_irqs as nat)),
                ));
            }
        }
    } else if eq(&b, &chars_of("Usb")) {
        push_attr(&mut out, n, "USB version", "version");
        push_attr(&mut out, n, "Speed (Mbps)", "speed");
        push_attr(&mut out, n, "Max power", "bMaxPower");
        push_attr(&mut out, n, "Device class", "bDeviceClass");
        push_attr(&mut out, n, "Configurations", "bNumConfigurations");
        push_attr(&mut out, n, "Interfaces", "bNumInterfaces");
        push_attr(&mut out, n, "Ports (hub)", "maxchild");
        push_attr(&mut out, n, "Bus number", "busnum");
        push_attr(&mut out, n, "Device number", "devnum");
        push_attr(&mut out, n, "Serial", "serial");
        push_attr(&mut out, n, "Autosuspend (ms)", "power/autosuspend_delay_ms");
    } else if eq(&b, &chars_of("Net")) {
        push_attr(&mut out, n, "MAC address", "address");
        push_attr(&mut out, n, "Speed (Mbps)", "speed");
        push_attr(&mut out, n, "Operstate", "operstate");
        push_attr(&mut out, n, "MTU", "mtu");
        push_attr(&mut out, n, "Carrier", "carrier");
        push_attr(&mut out, n, "Duplex", "duplex");
    } else if eq(&b, &chars_of("Block")) {
        push_attr(&mut out, n, "Size (sectors)", "size");
        push_attr(&mut out, n, "Read-only", "ro");
        push_attr(&mut out, n, "Removable", "removable");
        push_attr(&mut out, n, "Rotational", "queue/rotational");
        push_attr(&mut out, n, "Scheduler", "queue/scheduler");
        push_attr(&mut out, n, "Model", "device/model");
    } else if eq(&b, &chars_of("Drm")) {
        push_attr(&mut out, n, "Enabled", "enabled");
        push_attr(&mut out, n, "Status", "status");
        push_attr(&mut out, n, "DPMS", "dpms");
    }
    push_attr(&mut out, n, "Runtime PM control", "power/control");
    push_attr(&mut out, n, "Runtime status", "power/runtime_status");
    push_attr(&mut out, n, "Wakeup", "power/wakeup");
    push_attr(&mut out, n, "Modalias", "modalias");
    out
}

/// The details of a device: on Windows those of its Plug and Play entry
/// (`windows_details`, read for it), elsewhere those of its sysfs node.
pub fn advanced(n: &SysfsNode, bus: &str, msi_irqs: u64, windows_details: Option<Vec<DetailItem>>) -> (r: Vec<DetailItem>)
    ensures
        match windows_details {
            Some(w) => r@ == w@,
            None => details_view(r@) == sysfs_details(n@, bus@, msi_irqs as nat),
        },
{
    match windows_details {
        Some(w) => w,
        None => advanced_sysfs(n, bus, msi_irqs),
    }
}

/// `s` with every `'` doubled, for a single-quoted PowerShell string.
pub open spec fn ps_escape(s: Seq<char>) -> Seq<char>
    decreases s.len(),
{
    if s.len() == 0 {
        seq![]
    } else {
        ps_escape(s.drop_last()) + if s.last() == '\'' {
            seq!['\'', '\'']
        } else {
            seq![s.last()]
        }
    }
}

/// See [`ps_escape`].
pub fn escape(s: &str) -> (r: String)
    ensures
        r@ == ps_escape(s@),
{
    let cs = chars_of(s);
    let mut out: Vec<char> = Vec::new();
    let mut i: usize = 0;
    proof {
        assert(cs@.take(0) =~= Seq::<char>::empty());
    }
    while i < cs.len()
        invariant
            i <= cs.len(),
            cs@ == s@,
            out@ == ps_escape(cs@.take(i as int)),
        decreases cs.len() - i,
    {
        let ghost before = out@;
        proof {
            assert(cs@.take(i + 1).drop_last() =~= cs@.take(i as int));
            assert(cs@.take(i + 1).last() == cs@[i as int]);
        }
        if cs[i] == '\'' {
            out.push('\'');
            out.push('\'');
            proof {
                assert(out@ =~= before + seq!['\'', '\'']);
            }
        } else {
            out.push(cs[i]);
            proof {
                assert(out@ =~= before + seq![cs@[i as int]]);
            }
        }
        i = i + 1;
    }
    proof {
        assert(cs@.take(cs.len() as int) =~= cs@);
    }
    string_of(&out)
}

/// One property query of the Windows details script.
pub open spec fn property_line(label: Seq<char>, key: Seq<char>) -> Seq<char> {
    "try { $d = (Get-PnpDeviceProperty -InstanceId $id -KeyName '"@ + key
        + "' -ErrorAction Stop).Data; if ($d) { \""@ + label + "`t$($d -join ', ')\" } } catch {}\n"@
}

fn push_property_line(c: &mut Vec<char>, label: &str, key: &str)
    ensures
        final(c)@ == old(c)@ + property_line(label@, key@),
{
    push_all(c, &chars_of("try { $d = (Get-PnpDeviceProperty -InstanceId $id -KeyName '"));
    push_all(c, &chars_of(key));
    push_all(c, &chars_of("' -ErrorAction Stop).Data; if ($d) { \""));
    push_all(c, &chars_of(label));
    push_all(c, &chars_of("`t$($d -join ', ')\" } } catch {}\n"));
    proof {
        assert(final(c)@ =~= old(c)@ + property_line(label@, key@));
    }
}

/// The PowerShell script that prints `label<TAB>value` for each of the
/// device properties shown, in display order.
pub open spec fn details_script(instance_id: Seq<char>) -> Seq<char> {
    "$id = '"@ + ps_escape(instance_id) + "'\n"@ + property_line("Manufacturer"@, "DEVPKEY_Device_Manufacturer"@)
        + property_line("Class"@, "DEVPKEY_Device_Class"@) + property_line("Driver provider"@, "DEVPKEY_Device_DriverProvider"@)
        + property_line("Driver version"@, "DEVPKEY_Device_DriverVersion"@) + property_line("Driver date"@, "DEVPKEY_Device_DriverDate"@)
        + property_line("Driver package (INF)"@, "DEVPKEY_Device_DriverInfPath"@) + property_line("Service"@, "DEVPKEY_Device_Service"@)
        + property_line("Location"@, "DEVPKEY_Device_LocationInfo"@) + property_line("Hardware IDs"@, "DEVPKEY_Device_HardwareIds"@)
}

/// See [`details_script`].
pub fn windows_script(instance_id: &str) -> (r: String)
    ensures
        r@ == details_script(instance_id@),
{
    let mut c = chars_of("$id = '");
    push_all(&mut c, &chars_of(escape(instance_id).as_str()));
    push_all(&mut c, &chars_of("'\n"));
    push_property_line(&mut c, "Manufacturer", "DEVPKEY_Device_Manufacturer");
    push_property_line(&mut c, "Class", "DEVPKEY_Device_Class");
    push_property_line(&mut c, "Driver provider", "DEVPKEY_Device_DriverProvider");
    push_property_line(&mut c, "Driver version", "DEVPKEY_Device_DriverVersion");
    push_property_line(&mut c, "Driver date", "DEVPKEY_Device_DriverDate");
    push_property_line(&mut c, "Driver package (INF)", "DEVPKEY_Device_DriverInfPath");
    push_property_line(&mut c, "Service", "DEVPKEY_Device_Service");
    push_property_line(&mut c, "Location", "DEVPKEY_Device_LocationInfo");
    push_property_line(&mut c, "Hardware IDs", "DEVPKEY_Device_HardwareIds");
    string_of(&c)
}

/// The item on a line the script printed: label and value around the first
/// tab, both trimmed; none where there is no tab or the value is blank.
pub open spec fn detail_line(line: Seq<char>) -> Option<(Seq<char>, Seq<char>)> {
    match split_once(line, '\t') {
        Some((l, v)) => if trim(v).len() > 0 {
            Some((trim(l), trim(v)))
        } else {
            None
        },
        None => None,
    }
}

pub open spec fn detail_lines(ls: Seq<Seq<char>>) -> Seq<(Seq<char>, Seq<char>)>
    decreases ls.len(),
{
    if ls.len() == 0 {
        seq![]
    } else {
        match detail_line(ls.last()) {
            Some(d) => detail_lines(ls.drop_last()).push(d),
            None => detail_lines(ls.drop_last()),
        }
    }
}

/// The items, from what the details script printed (`None` where it failed).
pub fn parse_windows_details(out: Option<&str>) -> (r: Vec<DetailItem>)
    ensures
        details_view(r@) == match out {
            Some(t) => detail_lines(lines(t@)),
            None => Seq::<(Seq<char>, Seq<char>)>::empty(),
        },
{
    let mut items: Vec<DetailItem> = Vec::new();
    proof {
        assert(details_view(items@) =~= Seq::<(Seq<char>, Seq<char>)>::empty());
    }
    let t = match out {
        Some(t) => t,
        None => {
            return items;
        },
    };
    let ls = lines_exec(&chars_of(t));
    let ghost lv = views(ls@);
    let mut i: usize = 0;
    proof {
        assert(lv.take(0) =~= Seq::<Seq<char>>::empty());
    }
    while i < ls.len()
        invariant
            i <= ls.len(),
            lv == views(ls@),
            details_view(items@) == detail_lines(lv.take(i as int)),
        decreases ls.len() - i,
    {
        let ghost prev = items@;
        proof {
            assert(lv.take(i + 1).drop_last() =~= lv.take(i as int));
            assert(lv.take(i + 1).last() == ls@[i as int]@);
        }
        match split_once_exec(&ls[i], '\t') {
            Some((l, v)) => {
                let value = trim_chars(&v);
                if value.len() > 0 {
                    let item = DetailItem {
                        label: string_of(&trim_chars(&l)),
                        value: string_of(&value),
                    };
                    items.push(item);
                    proof {
                        assert(details_view(items@) =~= details_view(prev).push(
                            (item.label@, item.value@),
                        ));
                    }
                }
            },
            None => {},
        }
        i = i + 1;
    }
    proof {
        assert(lv.take(ls.len() as int) =~= lv);
    }
    items
}

} // verus!
