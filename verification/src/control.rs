//! Driver binding and unbinding: the paths written to and the errors
//! reported.
use vstd::prelude::*;
use crate::text::{chars_of, string_of, push_all};
use crate::device::opt_view;
use crate::error::DmgrError;
use crate::paths::{path_file_name, file_name_of};
use crate::properties::{subsystem_guess, subsystem_of, str_opt_view};

verus! {


fn text2(a: &str, b: &str) -> (r: String)
    ensures
        r@ == a@ + b@,
{
    let mut v = chars_of(a);
    push_all(&mut v, &chars_of(b));
    string_of(&v)
}

fn text4(a: &str, b: &str, c: &str, d: &str) -> (r: String)
    ensures
        r@ == a@ + b@ + c@ + d@,
{
    let mut v = chars_of(a);
    push_all(&mut v, &chars_of(b));
    push_all(&mut v, &chars_of(c));
    push_all(&mut v, &chars_of(d));
    string_of(&v)
}

fn text5(a: &str, b: &str, c: &str, d: &str, e: &str) -> (r: String)
    ensures
        r@ == a@ + b@ + c@ + d@ + e@,
{
    let mut v = chars_of(a);
    push_all(&mut v, &chars_of(b));
    push_all(&mut v, &chars_of(c));
    push_all(&mut v, &chars_of(d));
    push_all(&mut v, &chars_of(e));
    string_of(&v)
}

/// The subsystem a driver is bound in: as `subsystem_of`, and a
/// `BindFailed` error when neither the link nor the path shows one.
pub fn guess_subsystem(link_target: Option<&str>, path: &str) -> (r: Result<String, DmgrError>)
    ensures
        match subsystem_guess(str_opt_view(link_target), path@) {
            Some(s) => r matches Ok(x) && x@ == s,
            None => r matches Err(DmgrError::BindFailed(m)) && m@
                == "Cannot determine subsystem for "@ + path@,
        },
{
    match subsystem_of(link_target, path) {
        Some(s) => Ok(s),
        None => Err(DmgrError::BindFailed(text2("Cannot determine subsystem for ", path))),
    }
}

/// The `bind` file of a driver.
pub fn driver_bind_path(subsystem: &str, driver: &str) -> (r: String)
    ensures
        r@ == "/sys/bus/"@ + subsystem@ + "/drivers/"@ + driver@ + "/bind"@,
{
    text5("/sys/bus/", subsystem, "/drivers/", driver, "/bind")
}

/// The error for a driver that has no `bind` file in the subsystem.
pub fn driver_not_found(driver: &str, subsystem: &str) -> (r: DmgrError)
    ensures
        r matches DmgrError::DriverNotFound(m) && m@ == "Driver '"@ + driver@
            + "' not found for subsystem '"@ + subsystem@ + "'"@,
{
    DmgrError::DriverNotFound(text5("Driver '", driver, "' not found for subsystem '", subsystem, "'"))
}

/// The name written to a `bind`/`unbind` file: the final component of the
/// device path; `None` when the path has none.
pub fn device_name(path: &str) -> (r: Option<String>)
    ensures
        opt_view(r) == path_file_name(path@),
{
    file_name_of(path)
}

/// The error for a device path with no final component.
pub fn invalid_device_path(path: &str, binding: bool) -> (r: DmgrError)
    ensures
        binding ==> (r matches DmgrError::BindFailed(m) && m@ == "Invalid device path: "@ + path@),
        !binding ==> (r matches DmgrError::UnbindFailed(m) && m@ == "Invalid device path: "@ + path@),
{
    if binding {
        DmgrError::BindFailed(text2("Invalid device path: ", path))
    } else {
        DmgrError::UnbindFailed(text2("Invalid device path: ", path))
    }
}

/// The error for a failed write to a driver's `bind` file: a permission
/// error asks for root through the helper; any other names the I/O error.
pub fn bind_write_error(permission_denied: bool, io_message: &str, path: &str, driver: &str) -> (r:
    DmgrError)
    ensures
        permission_denied ==> (r matches DmgrError::PermissionDenied(m) && m@ == "Root required to bind driver. Run with pkexec dmgr-polkit-helper bind "@ + path@ + " "@ + driver@),
        !permission_denied ==> (r matches DmgrError::BindFailed(m) && m@ == "Bind write failed: "@ + io_message@),
{
    if permission_denied {
        DmgrError::PermissionDenied(
            text4("Root required to bind driver. Run with pkexec dmgr-polkit-helper bind ", path, " ", driver),
        )
    } else {
        DmgrError::BindFailed(text2("Bind write failed: ", io_message))
    }
}

/// The error for a device without a bound driver.
pub fn no_driver_bound() -> (r: DmgrError)
    ensures
        r matches DmgrError::UnbindFailed(m) && m@ == "Device has no driver bound"@,
{
    DmgrError::UnbindFailed(String::from_str("Device has no driver bound"))
}

/// The name of the bound driver, from the target of the device's `driver`
/// link; an `UnbindFailed` error when it cannot be told.
pub fn bound_driver_name(link_target: Option<&str>) -> (r: Result<String, DmgrError>)
    ensures
        match link_target {
            Some(t) => match path_file_name(t@) {
                Some(n) => r matches Ok(x) && x@ == n,
                None => r matches Err(DmgrError::UnbindFailed(m)) && m@
                    == "Cannot determine driver name"@,
            },
            None => r matches Err(DmgrError::UnbindFailed(m)) && m@
                == "Cannot determine driver name"@,
        },
{
    match link_target {
        Some(t) => match file_name_of(t) {
            Some(n) => {
                return Ok(n);
            },
            None => {},
        },
        None => {},
    }
    Err(DmgrError::UnbindFailed(String::from_str("Cannot determine driver name")))
}

/// The error for a failed write to a driver's `unbind` file.
pub fn unbind_write_error(permission_denied: bool, io_message: &str, path: &str) -> (r: DmgrError)
    ensures
        permission_denied ==> (r matches DmgrError::PermissionDenied(m) && m@ == "Root required to unbind driver. Run with pkexec dmgr-polkit-helper unbind "@ + path@),
        !permission_denied ==> (r matches DmgrError::UnbindFailed(m) && m@ == "Unbind write failed: "@ + io_message@),
{
    if permission_denied {
        DmgrError::PermissionDenied(
            text2("Root required to unbind driver. Run with pkexec dmgr-polkit-helper unbind ", path),
        )
    } else {
        DmgrError::UnbindFailed(text2("Unbind write failed: ", io_message))
    }
}

/// The error for a failed write to a sysfs attribute: a permission error
/// names the file, any other is an I/O error.
pub fn attribute_write_error(permission_denied: bool, io_message: &str, file: &str) -> (r:
    DmgrError)
    ensures
        permission_denied ==> (r matches DmgrError::PermissionDenied(m) && m@ == "Cannot write to "@ + file@ + ": "@ + io_message@),
        !permission_denied ==> (r matches DmgrError::Io(m) && m@ == io_message@),
{
    if permission_denied {
        DmgrError::PermissionDenied(text4("Cannot write to ", file, ": ", io_message))
    } else {
        DmgrError::Io(String::from_str(io_message))
    }
}

} // verus!
