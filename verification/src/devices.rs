//! Input devices: what is read of a udev device, the keyboard and tag tests on it,
//! the udev query that lists the keyboards of a seat, and the list it produces.
use vstd::prelude::*;

use crate::text::{
    first_value, lemma_first_value_at, lemma_first_value_meaning, lemma_first_value_step, occurs_in,
    str_contains, str_eq, value_or_empty,
};

verus! {

/// The kind of input device.
#[derive(PartialEq, Eq, Structural, Debug, Clone, Copy)]
pub enum InputType {
    Keyboard,
    Mouse,
}

/// An input device attached to a seat: its sysfs path, its kernel name (both as
/// the raw bytes the kernel gives) and its kind.
#[derive(PartialEq, Debug)]
pub struct DeviceData {
    pub path: Vec<u8>,
    pub name: Vec<u8>,
    pub input_type: InputType,
}

/// One udev property of a device: its name and its value.
#[derive(PartialEq, Debug)]
pub struct DeviceProperty {
    pub name: String,
    pub value: String,
}

/// What is read of a udev device: its sysfs path and its kernel name (as raw
/// bytes), and its properties in the order udev lists them.
#[derive(PartialEq, Debug)]
pub struct DeviceInfo {
    pub syspath: Vec<u8>,
    pub sysname: Vec<u8>,
    pub properties: Vec<DeviceProperty>,
}

/// The properties as name/value pairs of characters.
pub open spec fn property_pairs(props: Seq<DeviceProperty>) -> Seq<(Seq<char>, Seq<char>)> {
    props.map_values(|p: DeviceProperty| (p.name@, p.value@))
}

/// The tag as udev stores it in a device's `TAGS` property: between colons.
pub open spec fn wrapped_tag(tag: Seq<char>) -> Seq<char> {
    seq![':'] + tag + seq![':']
}

/// The tag that udev gives the devices of a seat: `seat` for the seat `seat0`,
/// the seat's own name for any other.
pub open spec fn seat_tag(seat: Seq<char>) -> Seq<char> {
    if seat == "seat0"@ {
        "seat"@
    } else {
        seat
    }
}

impl DeviceInfo {
    /// The value of the property `name`, if the device has one.
    pub open spec fn property_spec(&self, name: Seq<char>) -> Option<Seq<char>> {
        first_value(property_pairs(self.properties@), name)
    }

    /// The device says it is a keyboard: its `ID_INPUT_KEYBOARD` property is `1`.
    pub open spec fn is_keyboard(&self) -> bool {
        value_or_empty(self.property_spec("ID_INPUT_KEYBOARD"@)) == "1"@
    }

    /// The device carries `tag`: its `TAGS` property holds `:tag:`.
    pub open spec fn has_tag(&self, tag: Seq<char>) -> bool {
        occurs_in(value_or_empty(self.property_spec("TAGS"@)), wrapped_tag(tag))
    }

    /// The value of the property `name`, as udev's `property_value` gives it.
    pub fn property_value(&self, name: &str) -> (res: Option<String>)
        ensures
            match res {
                Some(v) => self.property_spec(name@) == Some(v@),
                None => self.property_spec(name@) is None,
            },
    {
        let ghost pairs = property_pairs(self.properties@);
        let mut i: usize = 0;
        assert(pairs.skip(0) =~= pairs);
        while i < self.properties.len()
            invariant
                pairs == property_pairs(self.properties@),
                i <= self.properties@.len(),
                first_value(pairs, name@) == first_value(pairs.skip(i as int), name@),
            decreases self.properties@.len() - i,
        {
            proof {
                lemma_first_value_step(pairs, name@, i as int);
            }
            if str_eq(self.properties[i].name.as_str(), name) {
                return Some(self.properties[i].value.clone());
            }
            i = i + 1;
        }
        assert(pairs.skip(i as int).len() == 0);
        None
    }
}

/// Whether the device is a keyboard: its `ID_INPUT_KEYBOARD` property is `1`.
pub fn device_is_keyboard(device: &DeviceInfo) -> (res: bool)
    ensures
        res == device.is_keyboard(),
{
    let value: String = match device.property_value("ID_INPUT_KEYBOARD") {
        Some(v) => v,
        None => String::new(),
    };
    str_eq(value.as_str(), "1")
}

/// Whether the device carries the udev tag `tag`: its `TAGS` property holds `:tag:`.
pub fn device_has_tag(device: &DeviceInfo, tag: &str) -> (res: bool)
    ensures
        res == device.has_tag(tag@),
{
    let wrapped: String = ":".to_owned().concat(tag).concat(":");
    proof {
        reveal_strlit(":");
        assert(wrapped@ =~= wrapped_tag(tag@));
    }
    let tags: String = match device.property_value("TAGS") {
        Some(v) => v,
        None => String::new(),
    };
    str_contains(tags.as_str(), wrapped.as_str())
}

/// Whether the device carries at least one of `tags` (their order and any
/// repeats do not change the answer).
pub fn device_has_any_tag(device: DeviceInfo, tags: Vec<&str>) -> (res: bool)
    ensures
        res == exists|i: int| 0 <= i < tags@.len() && device.has_tag(#[trigger] tags@[i]@),
{
    let mut i: usize = 0;
    while i < tags.len()
        invariant
            i <= tags@.len(),
            forall|k: int| 0 <= k < i ==> !device.has_tag(#[trigger] tags@[k]@),
        decreases tags@.len() - i,
    {
        if device_has_tag(&device, tags[i]) {
            return true;
        }
        i = i + 1;
    }
    false
}

/// The udev tag of a seat's devices: `seat` for `seat0`, the seat's name otherwise.
pub fn seat_as_tag(seat: &str) -> (tag: &str)
    ensures
        tag@ == seat_tag(seat@),
{
    if str_eq(seat, "seat0") {
        "seat"
    } else {
        seat
    }
}

/// Mapping a seat to its tag a second time changes nothing.
pub proof fn lemma_seat_tag_idempotent(seat: Seq<char>)
    ensures
        seat_tag(seat_tag(seat)) == seat_tag(seat),
{
    reveal_strlit("seat");
    reveal_strlit("seat0");
    if seat == "seat0"@ {
        assert("seat"@.len() != "seat0"@.len());
    }
}

/// The udev subsystem of input devices, which the device monitors and the
/// keyboard enumeration watch.
pub fn input_subsystem() -> (subsystem: &'static str)
    ensures
        subsystem@ == "input"@,
{
    "input"
}

/// `j` is the first property of the device named `name`.
pub open spec fn first_named(props: Seq<DeviceProperty>, name: Seq<char>, j: int) -> bool {
    &&& 0 <= j < props.len()
    &&& props[j].name@ == name
    &&& forall|m: int| 0 <= m < j ==> props[m].name@ != name
}

/// What a property read gives, in terms of the device's property list alone:
/// nothing exactly when no property has the name, and otherwise the value of
/// the first property with that name.
pub proof fn lemma_property_meaning(d: DeviceInfo, name: Seq<char>)
    ensures
        d.property_spec(name) is None <==> (forall|k: int| 0 <= k < d.properties@.len() ==> d.properties@[k].name@ != name),
        forall|j: int| first_named(d.properties@, name, j) ==> d.property_spec(name) == Some(d.properties@[j].value@),
{
    let props = d.properties@;
    let pairs = property_pairs(props);
    assert forall|k: int| 0 <= k < props.len() implies pairs[k] == (props[k].name@, props[k].value@) by {}
    lemma_first_value_meaning(pairs, name);
    if forall|k: int| 0 <= k < props.len() ==> props[k].name@ != name {
        assert forall|k: int| 0 <= k < pairs.len() implies pairs[k].0 != name by {
            assert(pairs[k].0 == props[k].name@);
        }
    } else {
        let k = choose|k: int| 0 <= k < props.len() && props[k].name@ == name;
        assert(pairs[k].0 == name);
    }
    assert forall|j: int| first_named(props, name, j) implies d.property_spec(name) == Some(props[j].value@) by {
        assert(pairs[j].0 == name);
        assert forall|m: int| 0 <= m < j implies pairs[m].0 != name by {
            assert(pairs[m].0 == props[m].name@);
        }
        lemma_first_value_at(pairs, name, j);
    }
}

/// A device is a keyboard exactly when its first `ID_INPUT_KEYBOARD` property
/// has the value `1`; no other property counts, and a device without that
/// property is never a keyboard.
pub proof fn lemma_keyboard_meaning(d: DeviceInfo)
    ensures
        d.is_keyboard() <==> exists|j: int|
            first_named(d.properties@, "ID_INPUT_KEYBOARD"@, j) && (#[trigger] d.properties@[j]).value@ == "1"@,
        (forall|k: int| 0 <= k < d.properties@.len() ==> d.properties@[k].name@ != "ID_INPUT_KEYBOARD"@) ==> !d.is_keyboard(),
{
    let props = d.properties@;
    let key = "ID_INPUT_KEYBOARD"@;
    reveal_strlit("1");
    lemma_property_meaning(d, key);
    if d.property_spec(key) is None {
        assert(value_or_empty(d.property_spec(key)).len() == 0);
        if exists|j: int| first_named(props, key, j) && (#[trigger] props[j]).value@ == "1"@ {
            let j = choose|j: int| first_named(props, key, j) && (#[trigger] props[j]).value@ == "1"@;
            assert(props[j].name@ == key);
        }
    } else {
        let k = choose|k: int| 0 <= k < props.len() && props[k].name@ == key;
        let pairs = property_pairs(props);
        assert(pairs[k].0 == key);
        let j = crate::text::lemma_first_match(pairs, key, k);
        assert forall|m: int| 0 <= m < j implies props[m].name@ != key by {
            assert(pairs[m].0 == props[m].name@);
        }
        assert(first_named(props, key, j));
        if exists|j2: int| first_named(props, key, j2) && (#[trigger] props[j2]).value@ == "1"@ {
            let j2 = choose|j2: int| first_named(props, key, j2) && (#[trigger] props[j2]).value@ == "1"@;
            assert(j2 == j) by {
                if j2 < j {
                    assert(props[j2].name@ == key);
                } else if j < j2 {
                    assert(props[j].name@ == key);
                }
            }
        }
    }
}

/// A device carries `tag` exactly when its first `TAGS` property holds `:tag:`
/// somewhere in its whole value; a device without `TAGS` carries no tag.
pub proof fn lemma_tag_meaning(d: DeviceInfo, tag: Seq<char>)
    ensures
        d.has_tag(tag) <==> exists|j: int, i: int|
            first_named(d.properties@, "TAGS"@, j) && 0 <= i && i + tag.len() + 2 <= d.properties@[j].value@.len()
                && #[trigger] d.properties@[j].value@.subrange(i, i + tag.len() + 2) == seq![':'] + tag + seq![':'],
        (forall|k: int| 0 <= k < d.properties@.len() ==> d.properties@[k].name@ != "TAGS"@) ==> !d.has_tag(tag),
{
    let props = d.properties@;
    let key = "TAGS"@;
    let w = seq![':'] + tag + seq![':'];
    assert(w.len() == tag.len() + 2);
    lemma_property_meaning(d, key);
    if d.property_spec(key) is None {
        assert(value_or_empty(d.property_spec(key)).len() == 0);
        assert forall|i: int| !crate::text::occurs_at(Seq::<char>::empty(), w, i) by {}
        if exists|j: int, i: int|
            first_named(props, key, j) && 0 <= i && i + tag.len() + 2 <= props[j].value@.len()
                && #[trigger] props[j].value@.subrange(i, i + tag.len() + 2) == w {
            let (j, i) = choose|j: int, i: int|
                first_named(props, key, j) && 0 <= i && i + tag.len() + 2 <= props[j].value@.len()
                    && #[trigger] props[j].value@.subrange(i, i + tag.len() + 2) == w;
            assert(props[j].name@ == key);
        }
    } else {
        let k = choose|k: int| 0 <= k < props.len() && props[k].name@ == key;
        let pairs = property_pairs(props);
        assert(pairs[k].0 == key);
        let j = crate::text::lemma_first_match(pairs, key, k);
        assert forall|m: int| 0 <= m < j implies props[m].name@ != key by {
            assert(pairs[m].0 == props[m].name@);
        }
        assert(first_named(props, key, j));
        let v = props[j].value@;
        assert(value_or_empty(d.property_spec(key)) == v);
        if d.has_tag(tag) {
            let i = choose|i: int| crate::text::occurs_at(v, wrapped_tag(tag), i);
            assert(wrapped_tag(tag) == w);
            assert(first_named(props, key, j) && 0 <= i && i + tag.len() + 2 <= props[j].value@.len()
                && props[j].value@.subrange(i, i + tag.len() + 2) == w);
        }
        if exists|j2: int, i: int|
            first_named(props, key, j2) && 0 <= i && i + tag.len() + 2 <= props[j2].value@.len()
                && #[trigger] props[j2].value@.subrange(i, i + tag.len() + 2) == w {
            let (j2, i) = choose|j2: int, i: int|
                first_named(props, key, j2) && 0 <= i && i + tag.len() + 2 <= props[j2].value@.len()
                    && #[trigger] props[j2].value@.subrange(i, i + tag.len() + 2) == w;
            assert(j2 == j) by {
                if j2 < j {
                    assert(props[j2].name@ == key);
                } else if j < j2 {
                    assert(props[j].name@ == key);
                }
            }
            assert(crate::text::occurs_at(v, wrapped_tag(tag), i));
        }
    }
}

/// A `TAGS` value ending in `:tag:`, however long, carries the tag.
pub proof fn lemma_tag_at_end(d: DeviceInfo, tag: Seq<char>, j: int, front: Seq<char>)
    requires
        first_named(d.properties@, "TAGS"@, j),
        d.properties@[j].value@ == front + seq![':'] + tag + seq![':'],
    ensures
        d.has_tag(tag),
{
    lemma_tag_meaning(d, tag);
    let v = d.properties@[j].value@;
    let i = front.len() as int;
    assert(v.subrange(i, i + tag.len() + 2) =~= seq![':'] + tag + seq![':']);
}

/// Only `seat0` is renamed: its tag is `seat`, and every other seat is its own tag.
pub proof fn lemma_seat_tag_meaning(seat: Seq<char>)
    ensures
        seat_tag("seat0"@) == "seat"@,
        seat != "seat0"@ ==> seat_tag(seat) == seat,
{
}

/// The matches that a udev device enumeration is given: a subsystem, a property
/// with its value, and a tag.
#[derive(PartialEq, Debug)]
pub struct DeviceFilter {
    pub subsystem: String,
    pub property: String,
    pub property_value: String,
    pub tag: String,
}

/// The enumeration that lists the keyboards of `seat`: subsystem `input`,
/// property `ID_INPUT_KEYBOARD` equal to `1`, and the seat's tag.
pub fn keyboard_filter_for_seat(seat: &str) -> (filter: DeviceFilter)
    ensures
        filter.subsystem@ == "input"@,
        filter.property@ == "ID_INPUT_KEYBOARD"@,
        filter.property_value@ == "1"@,
        filter.tag@ == seat_tag(seat@),
{
    DeviceFilter {
        subsystem: input_subsystem().to_owned(),
        property: "ID_INPUT_KEYBOARD".to_owned(),
        property_value: "1".to_owned(),
        tag: seat_as_tag(seat).to_owned(),
    }
}

/// The path and name of each device of one scan.
pub open spec fn scan_entries(devices: Seq<DeviceInfo>) -> Seq<(Seq<u8>, Seq<u8>)> {
    devices.map_values(|d: DeviceInfo| (d.syspath@, d.sysname@))
}

/// The path and name of each device of all scans, one scan after another.
pub open spec fn all_scan_entries(scans: Seq<Vec<DeviceInfo>>) -> Seq<(Seq<u8>, Seq<u8>)> {
    scans.map_values(|s: Vec<DeviceInfo>| scan_entries(s@)).flatten()
}

/// The path and name of each listed device.
pub open spec fn listed_entries(list: Seq<DeviceData>) -> Seq<(Seq<u8>, Seq<u8>)> {
    list.map_values(|d: DeviceData| (d.path@, d.name@))
}

/// One scan lists each of its devices, in order, by path and name.
pub proof fn lemma_scan_entries_meaning(devices: Seq<DeviceInfo>)
    ensures
        scan_entries(devices).len() == devices.len(),
        forall|k: int|
            0 <= k < devices.len() ==> #[trigger] scan_entries(devices)[k] == (devices[k].syspath@, devices[k].sysname@),
{
}

/// No scans list no devices; one more scan appends its devices, in order, after
/// those of the scans before it.
pub proof fn lemma_all_scan_entries_meaning(scans: Seq<Vec<DeviceInfo>>, last: Vec<DeviceInfo>)
    ensures
        all_scan_entries(Seq::empty()) == Seq::<(Seq<u8>, Seq<u8>)>::empty(),
        all_scan_entries(scans.push(last)) == all_scan_entries(scans) + scan_entries(last@),
{
    let f = |s: Vec<DeviceInfo>| scan_entries(s@);
    assert(Seq::<Vec<DeviceInfo>>::empty().map_values(f) =~= Seq::<Seq<(Seq<u8>, Seq<u8>)>>::empty());
    assert(scans.push(last).map_values(f) =~= scans.map_values(f).push(scan_entries(last@)));
    scans.map_values(f).lemma_flatten_push(scan_entries(last@));
}

/// The listed devices, in order, by path and name.
pub proof fn lemma_listed_entries_meaning(list: Seq<DeviceData>)
    ensures
        listed_entries(list).len() == list.len(),
        forall|k: int| 0 <= k < list.len() ==> #[trigger] listed_entries(list)[k] == (list[k].path@, list[k].name@),
{
}

/// The keyboards found by scanning each seat in turn (one scan per seat, in
/// the seats' order): every device found, in the order found, as a keyboard.
pub fn keyboards_from_scans(scans: &Vec<Vec<DeviceInfo>>) -> (list: Vec<DeviceData>)
    ensures
        listed_entries(list@) == all_scan_entries(scans@),
        forall|i: int| 0 <= i < list@.len() ==> (#[trigger] list@[i]).input_type == InputType::Keyboard,
{
    let mut list: Vec<DeviceData> = Vec::new();
    let mut i: usize = 0;
    assert(scans@.take(0).map_values(|s: Vec<DeviceInfo>| scan_entries(s@)) =~= Seq::<Seq<(Seq<u8>, Seq<u8>)>>::empty());
    assert(listed_entries(list@) =~= Seq::<(Seq<u8>, Seq<u8>)>::empty());
    while i < scans.len()
        invariant
            i <= scans@.len(),
            listed_entries(list@) == all_scan_entries(scans@.take(i as int)),
            forall|k: int| 0 <= k < list@.len() ==> (#[trigger] list@[k]).input_type == InputType::Keyboard,
        decreases scans@.len() - i,
    {
        let scan: &Vec<DeviceInfo> = &scans[i];
        let ghost before = listed_entries(list@);
        let mut j: usize = 0;
        assert(scan_entries(scan@).take(0) =~= Seq::<(Seq<u8>, Seq<u8>)>::empty());
        assert(listed_entries(list@) =~= before + scan_entries(scan@).take(0));
        while j < scan.len()
            invariant
                j <= scan@.len(),
                listed_entries(list@) == before + scan_entries(scan@).take(j as int),
                forall|k: int| 0 <= k < list@.len() ==> (#[trigger] list@[k]).input_type == InputType::Keyboard,
            decreases scan@.len() - j,
        {
            let d: &DeviceInfo = &scan[j];
            let entry = DeviceData {
                path: d.syspath.clone(),
                name: d.sysname.clone(),
                input_type: InputType::Keyboard,
            };
            let ghost prev = list@;
            list.push(entry);
            assert(listed_entries(list@) =~= listed_entries(prev).push((d.syspath@, d.sysname@)));
            assert(scan_entries(scan@).take(j + 1) =~= scan_entries(scan@).take(j as int).push(
                (d.syspath@, d.sysname@),
            ));
            assert(listed_entries(list@) =~= before + scan_entries(scan@).take(j + 1));
            j = j + 1;
        }
        assert(scan_entries(scan@).take(j as int) =~= scan_entries(scan@));
        let ghost done = scans@.take(i as int).map_values(|s: Vec<DeviceInfo>| scan_entries(s@));
        assert(scans@.take(i + 1).map_values(|s: Vec<DeviceInfo>| scan_entries(s@)) =~= done.push(
            scan_entries(scan@),
        ));
        proof {
            done.lemma_flatten_push(scan_entries(scan@));
        }
        i = i + 1;
    }
    assert(scans@.take(i as int) =~= scans@);
    list
}

} // verus!
