use input_focus::messages::{device_change_for_event, session_added, DeviceChange, DeviceEventKind, SessionChange};
use input_focus::poll::{poll_action, PollAction, IDLE_SLEEP_MILLIS};

#[test]
fn add_event_reports_added_device() {
    assert_eq!(
        device_change_for_event(DeviceEventKind::Add, b"/sys/devices/input7".to_vec()),
        Some(DeviceChange::Added { syspath: b"/sys/devices/input7".to_vec() })
    );
}

#[test]
fn remove_event_reports_removed_device() {
    assert_eq!(
        device_change_for_event(DeviceEventKind::Remove, b"/sys/x".to_vec()),
        Some(DeviceChange::Removed { syspath: b"/sys/x".to_vec() })
    );
}

#[test]
fn other_events_report_nothing() {
    for kind in [DeviceEventKind::Change, DeviceEventKind::Bind, DeviceEventKind::Unbind, DeviceEventKind::Unknown] {
        assert_eq!(device_change_for_event(kind, b"/sys/x".to_vec()), None);
    }
}

#[test]
fn new_session_reports_added_session() {
    assert_eq!(session_added("13"), SessionChange::Added { session_id: "13".to_string() });
    assert_eq!(session_added(""), SessionChange::Added { session_id: String::new() });
}

#[test]
fn failed_wait_reports_error() {
    assert_eq!(poll_action(-1, false), PollAction::ReportError);
    assert_eq!(poll_action(-4, true), PollAction::ReportError);
}

#[test]
fn received_event_is_handled() {
    assert_eq!(poll_action(1, true), PollAction::HandleEvent);
    assert_eq!(poll_action(0, true), PollAction::HandleEvent);
}

#[test]
fn no_event_sleeps_ten_millis() {
    assert_eq!(poll_action(1, false), PollAction::Sleep { millis: 10 });
    assert_eq!(IDLE_SLEEP_MILLIS, 10);
}
