//! Hotplug events.
use vstd::prelude::*;

verus! {

/// A change the hotplug monitor reports, with the device path it concerns.
#[derive(Debug, Clone)]
pub enum UdevEvent {
    DeviceAdded(String),
    DeviceRemoved(String),
    DeviceChanged(String),
    ScanComplete,
}

/// The kind of a kernel uevent as the monitor receives it.
#[derive(Debug, Clone, Copy, PartialEq, Eq, Structural)]
pub enum UdevAction {
    Add,
    Remove,
    Change,
    Bind,
    Unbind,
    Other,
}

/// The event reported for a kernel uevent: additions and removals as
/// such, changes and (un)binding as changes, and nothing for other kinds.
pub fn event_for(action: UdevAction, devpath: String) -> (r: Option<UdevEvent>)
    ensures
        action == UdevAction::Add ==> (r matches Some(UdevEvent::DeviceAdded(p)) && p@ == devpath@),
        action == UdevAction::Remove ==> (r matches Some(UdevEvent::DeviceRemoved(p)) && p@
            == devpath@),
        (action == UdevAction::Change || action == UdevAction::Bind || action
            == UdevAction::Unbind) ==> (r matches Some(UdevEvent::DeviceChanged(p)) && p@
            == devpath@),
        action == UdevAction::Other ==> r is None,
{
    match action {
        UdevAction::Add => Some(UdevEvent::DeviceAdded(devpath)),
        UdevAction::Remove => Some(UdevEvent::DeviceRemoved(devpath)),
        UdevAction::Change | UdevAction::Bind | UdevAction::Unbind => Some(
            UdevEvent::DeviceChanged(devpath),
        ),
        UdevAction::Other => None,
    }
}

/// Whether a uevent kind means the device list changed: additions,
/// removals, changes and (un)binding.
pub open spec fn is_change(a: UdevAction) -> bool {
    a != UdevAction::Other
}

/// Whether a burst of uevents calls for one rescan: some event in it is a
/// change.
pub fn burst_changed(actions: &Vec<UdevAction>) -> (r: bool)
    ensures
        r == exists|i: int| 0 <= i < actions@.len() && is_change(#[trigger] actions@[i]),
{
    let mut i: usize = 0;
    while i < actions.len()
        invariant
            i <= actions.len(),
            forall|j: int| 0 <= j < i ==> !is_change(#[trigger] actions@[j]),
        decreases actions.len() - i,
    {
        if actions[i] != UdevAction::Other {
            return true;
        }
        i = i + 1;
    }
    false
}

/// The event a manual refresh of the monitor sends: a finished scan, or an
/// error when the monitor was not started.
pub fn refresh(started: bool) -> (r: Result<UdevEvent, crate::error::DmgrError>)
    ensures
        started ==> r matches Ok(UdevEvent::ScanComplete),
        !started ==> (r matches Err(crate::error::DmgrError::Udev(m)) && m@ == "Monitor not started"@),
{
    if started {
        Ok(UdevEvent::ScanComplete)
    } else {
        Err(crate::error::DmgrError::Udev(String::from_str("Monitor not started")))
    }
}

} // verus!
