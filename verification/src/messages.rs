//! The changes that the watchers report: devices plugged in or out, sessions
//! opened or closed.
use vstd::prelude::*;

verus! {

/// A device that appeared or disappeared, named by its sysfs path (raw bytes).
#[derive(Debug, PartialEq)]
pub enum DeviceChange {
    Added { syspath: Vec<u8> },
    Removed { syspath: Vec<u8> },
}

/// A login session that appeared or disappeared, named by its id.
#[derive(Debug, PartialEq)]
pub enum SessionChange {
    Added { session_id: String },
    Removed { session_id: String },
}

/// The kind of a udev event, as the udev monitor reports it.
#[derive(PartialEq, Eq, Structural, Debug, Clone, Copy)]
pub enum DeviceEventKind {
    Add,
    Change,
    Remove,
    Bind,
    Unbind,
    Unknown,
}

/// The change to report for a udev event on the device at `syspath`: an
/// addition for `Add`, a removal for `Remove`, and nothing for any other kind.
pub fn device_change_for_event(kind: DeviceEventKind, syspath: Vec<u8>) -> (change: Option<DeviceChange>)
    ensures
        kind == DeviceEventKind::Add ==> change == Some(DeviceChange::Added { syspath }),
        kind == DeviceEventKind::Remove ==> change == Some(DeviceChange::Removed { syspath }),
        kind != DeviceEventKind::Add && kind != DeviceEventKind::Remove ==> change is None,
{
    match kind {
        DeviceEventKind::Add => Some(DeviceChange::Added { syspath }),
        DeviceEventKind::Remove => Some(DeviceChange::Removed { syspath }),
        _ => None,
    }
}

/// The change to report when logind announces a new session `session_id`.
pub fn session_added(session_id: &str) -> (change: SessionChange)
    ensures
        change matches SessionChange::Added { session_id: id } && id@ == session_id@,
{
    SessionChange::Added { session_id: session_id.to_owned() }
}

} // verus!
