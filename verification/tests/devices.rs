use input_focus::devices::{
    device_has_any_tag, device_has_tag, device_is_keyboard, input_subsystem, keyboard_filter_for_seat,
    keyboards_from_scans, seat_as_tag, DeviceData, DeviceInfo, DeviceProperty, InputType,
};

fn prop(name: &str, value: &str) -> DeviceProperty {
    DeviceProperty { name: name.to_string(), value: value.to_string() }
}

fn device(path: &str, name: &str, props: Vec<DeviceProperty>) -> DeviceInfo {
    DeviceInfo { syspath: path.as_bytes().to_vec(), sysname: name.as_bytes().to_vec(), properties: props }
}

#[test]
fn seat0_is_tagged_seat() {
    assert_eq!(seat_as_tag("seat0"), "seat");
}

#[test]
fn other_seats_are_their_own_tag() {
    assert_eq!(seat_as_tag("seat1"), "seat1");
    assert_eq!(seat_as_tag(""), "");
    assert_eq!(seat_as_tag("seat"), "seat");
    assert_eq!(seat_as_tag("seat00"), "seat00");
}

#[test]
fn seat_tag_twice_is_seat_tag_once() {
    for s in ["seat0", "seat1", "seat", "x"] {
        assert_eq!(seat_as_tag(seat_as_tag(s)), seat_as_tag(s));
    }
}

#[test]
fn keyboard_property_one_is_keyboard() {
    let d = device("/sys/k", "event3", vec![prop("ID_INPUT", "1"), prop("ID_INPUT_KEYBOARD", "1")]);
    assert!(device_is_keyboard(&d));
}

#[test]
fn keyboard_property_other_values_are_not_keyboard() {
    assert!(!device_is_keyboard(&device("/sys/k", "e", vec![prop("ID_INPUT_KEYBOARD", "0")])));
    assert!(!device_is_keyboard(&device("/sys/k", "e", vec![prop("ID_INPUT_KEYBOARD", "11")])));
    assert!(!device_is_keyboard(&device("/sys/k", "e", vec![prop("ID_INPUT_KEYBOARD", "")])));
}

#[test]
fn missing_keyboard_property_is_not_keyboard() {
    assert!(!device_is_keyboard(&device("/sys/m", "mouse0", vec![prop("ID_INPUT_MOUSE", "1")])));
    assert!(!device_is_keyboard(&device("/sys/m", "mouse0", vec![])));
}

#[test]
fn first_property_of_a_name_counts() {
    let d = device("/sys/k", "e", vec![prop("ID_INPUT_KEYBOARD", "0"), prop("ID_INPUT_KEYBOARD", "1")]);
    assert_eq!(d.property_value("ID_INPUT_KEYBOARD"), Some("0".to_string()));
    assert!(!device_is_keyboard(&d));
}

#[test]
fn property_value_finds_and_misses() {
    let d = device("/sys/k", "e", vec![prop("A", "x"), prop("B", "y")]);
    assert_eq!(d.property_value("B"), Some("y".to_string()));
    assert_eq!(d.property_value("C"), None);
}

#[test]
fn tags_are_matched_between_colons() {
    let d = device("/sys/k", "e", vec![prop("TAGS", ":seat:uaccess:power-switch:")]);
    assert!(device_has_tag(&d, "seat"));
    assert!(device_has_tag(&d, "uaccess"));
    assert!(device_has_tag(&d, "power-switch"));
    assert!(!device_has_tag(&d, "sea"));
    assert!(!device_has_tag(&d, "eat"));
    assert!(!device_has_tag(&d, "seat1"));
    assert!(!device_has_tag(&d, ""));
}

#[test]
fn no_tags_property_means_no_tag() {
    let d = device("/sys/k", "e", vec![prop("ID_INPUT_KEYBOARD", "1")]);
    assert!(!device_has_tag(&d, "seat"));
}

#[test]
fn empty_tag_matches_double_colon() {
    let d = device("/sys/k", "e", vec![prop("TAGS", "::")]);
    assert!(device_has_tag(&d, ""));
}

#[test]
fn any_tag_needs_one_match() {
    let mk = || device("/sys/k", "e", vec![prop("TAGS", ":seat1:uaccess:")]);
    assert!(device_has_any_tag(mk(), vec!["seat0", "seat1"]));
    assert!(!device_has_any_tag(mk(), vec!["seat0", "seat"]));
    assert!(!device_has_any_tag(mk(), vec![]));
    assert!(device_has_any_tag(mk(), vec!["uaccess"]));
}

#[test]
fn keyboard_filter_for_first_seat() {
    let f = keyboard_filter_for_seat("seat0");
    assert_eq!(f.subsystem, "input");
    assert_eq!(f.property, "ID_INPUT_KEYBOARD");
    assert_eq!(f.property_value, "1");
    assert_eq!(f.tag, "seat");
}

#[test]
fn keyboard_filter_for_other_seat() {
    let f = keyboard_filter_for_seat("seat2");
    assert_eq!(f.tag, "seat2");
    assert_eq!(f.subsystem, "input");
}

#[test]
fn keyboards_are_listed_seat_after_seat() {
    let scans = vec![
        vec![device("/sys/a", "event1", vec![]), device("/sys/b", "event2", vec![])],
        vec![],
        vec![device("/sys/c", "event7", vec![prop("TAGS", ":seat1:")])],
    ];
    let list = keyboards_from_scans(&scans);
    assert_eq!(
        list,
        vec![
            DeviceData { path: b"/sys/a".to_vec(), name: b"event1".to_vec(), input_type: InputType::Keyboard },
            DeviceData { path: b"/sys/b".to_vec(), name: b"event2".to_vec(), input_type: InputType::Keyboard },
            DeviceData { path: b"/sys/c".to_vec(), name: b"event7".to_vec(), input_type: InputType::Keyboard },
        ]
    );
}

#[test]
fn no_scans_no_keyboards() {
    assert!(keyboards_from_scans(&vec![]).is_empty());
    assert!(keyboards_from_scans(&vec![vec![], vec![]]).is_empty());
}

#[test]
fn non_utf8_paths_are_kept_as_bytes() {
    let d = DeviceInfo { syspath: vec![b'/', 0xff, b'x'], sysname: vec![0xfe], properties: vec![] };
    let list = keyboards_from_scans(&vec![vec![d]]);
    assert_eq!(list[0].path, vec![b'/', 0xff, b'x']);
    assert_eq!(list[0].name, vec![0xfe]);
}

#[test]
fn input_devices_live_in_the_input_subsystem() {
    assert_eq!(input_subsystem(), "input");
}
