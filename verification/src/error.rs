//! Errors of the device operations.
use vstd::prelude::*;
use crate::text::{chars_of, string_of, push_all};

verus! {

/// What can go wrong in a device operation. `Io` carries the message of the
/// underlying I/O error.
#[derive(Debug)]
pub enum DmgrError {
    Io(String),
    SysfsParse { path: String, reason: String },
    DeviceNotFound(String),
    PermissionDenied(String),
    DriverNotFound(String),
    BindFailed(String),
    UnbindFailed(String),
    PropertyNotEditable(String),
    DBus(String),
    Udev(String),
    Generic(String),
}

/// The text an error is shown with.
pub open spec fn error_message(e: DmgrError) -> Seq<char> {
    match e {
        DmgrError::Io(m) => "IO error: "@ + m@,
        DmgrError::SysfsParse { path, reason } => "Sysfs parse error at "@ + path@ + ": "@
            + reason@,
        DmgrError::DeviceNotFound(m) => "Device not found: "@ + m@,
        DmgrError::PermissionDenied(m) => "Permission denied: "@ + m@,
        DmgrError::DriverNotFound(m) => "Driver not found: "@ + m@,
        DmgrError::BindFailed(m) => "Bind operation failed: "@ + m@,
        DmgrError::UnbindFailed(m) => "Unbind operation failed: "@ + m@,
        DmgrError::PropertyNotEditable(m) => "Property not editable: "@ + m@,
        DmgrError::DBus(m) => "DBus error: "@ + m@,
        DmgrError::Udev(m) => "Udev error: "@ + m@,
        DmgrError::Generic(m) => m@,
    }
}

fn prefixed(prefix: &str, m: &String) -> (r: String)
    ensures
        r@ == prefix@ + m@,
{
    let mut c = chars_of(prefix);
    push_all(&mut c, &chars_of(m.as_str()));
    string_of(&c)
}

impl DmgrError {
    /// The text the error is shown with (`"Bind operation failed: ..."`).
    pub fn message(&self) -> (r: String)
        ensures
            r@ == error_message(*self),
    {
        match self {
            DmgrError::Io(m) => prefixed("IO error: ", m),
            DmgrError::SysfsParse { path, reason } => {
                let mut c = chars_of("Sysfs parse error at ");
                push_all(&mut c, &chars_of(path.as_str()));
                push_all(&mut c, &chars_of(": "));
                push_all(&mut c, &chars_of(reason.as_str()));
                string_of(&c)
            },
            DmgrError::DeviceNotFound(m) => prefixed("Device not found: ", m),
            DmgrError::PermissionDenied(m) => prefixed("Permission denied: ", m),
            DmgrError::DriverNotFound(m) => prefixed("Driver not found: ", m),
            DmgrError::BindFailed(m) => prefixed("Bind operation failed: ", m),
            DmgrError::UnbindFailed(m) => prefixed("Unbind operation failed: ", m),
            DmgrError::PropertyNotEditable(m) => prefixed("Property not editable: ", m),
            DmgrError::DBus(m) => prefixed("DBus error: ", m),
            DmgrError::Udev(m) => prefixed("Udev error: ", m),
            DmgrError::Generic(m) => m.clone(),
        }
    }
}

} // verus!
