//! Device discovery: what is known of an input device, and what it seems to be.

use vstd::prelude::*;

use crate::text::{has_part, to_lowercase};

verus! {

/// `std::path::PathBuf`, carried through unread.
#[verifier::external_type_specification]
#[verifier::external_body]
pub struct ExPathBuf(std::path::PathBuf);

/// `<PathBuf as Clone>::clone`: the copy is the same path.
pub assume_specification[ <std::path::PathBuf as Clone>::clone ](path: &std::path::PathBuf) -> (copy:
    std::path::PathBuf)
    ensures
        copy == *path,
;

/// Coarse device classes used only for discovery and UI hints.
///
/// Recognition never depends on these values. A user may explicitly select any
/// readable evdev node regardless of its inferred class.
#[derive(Debug, Clone, Copy, PartialEq, Eq, Structural)]
pub enum DeviceClass {
    Touchpad,
    Touchscreen,
    RelativePointer,
    AbsolutePointer,
    Other,
}

#[derive(Debug, Clone, Copy, PartialEq, Eq, Structural)]
pub struct DeviceCapabilities {
    pub keys: bool,
    pub relative_axes: bool,
    pub absolute_axes: bool,
    pub multitouch_positions: bool,
    pub pointer_property: bool,
    pub direct_property: bool,
    pub buttonpad_property: bool,
    pub semi_mt_property: bool,
}

impl Default for DeviceCapabilities {
    fn default() -> (capabilities: DeviceCapabilities)
        ensures
            capabilities == (DeviceCapabilities {
                keys: false,
                relative_axes: false,
                absolute_axes: false,
                multitouch_positions: false,
                pointer_property: false,
                direct_property: false,
                buttonpad_property: false,
                semi_mt_property: false,
            }),
    {
        DeviceCapabilities {
            keys: false,
            relative_axes: false,
            absolute_axes: false,
            multitouch_positions: false,
            pointer_property: false,
            direct_property: false,
            buttonpad_property: false,
            semi_mt_property: false,
        }
    }
}

#[derive(Debug, PartialEq, Eq)]
pub struct DeviceInfo {
    pub path: std::path::PathBuf,
    pub name: String,
    pub physical_path: Option<String>,
    pub unique_name: Option<String>,
    pub class: DeviceClass,
    pub capabilities: DeviceCapabilities,
}

impl Clone for DeviceInfo {
    fn clone(&self) -> (info: DeviceInfo)
        ensures
            info == *self,
    {
        DeviceInfo {
            path: self.path.clone(),
            name: self.name.clone(),
            physical_path: self.physical_path.clone(),
            unique_name: self.unique_name.clone(),
            class: self.class,
            capabilities: self.capabilities,
        }
    }
}

impl DeviceInfo {
    pub fn is_touchpad_candidate(&self) -> (result: bool)
        ensures
            result == (self.class is Touchpad),
    {
        matches!(self.class, DeviceClass::Touchpad)
    }
}

/// Two axes, and whether a device has each.
#[derive(Debug, Clone, Copy, PartialEq, Eq, Structural)]
pub struct AxisPair {
    pub x: bool,
    pub y: bool,
}

/// What a device node reports of itself.
#[derive(Debug, Clone)]
pub struct DeviceFacts {
    pub name: Option<String>,
    pub physical_path: Option<String>,
    pub unique_name: Option<String>,
    pub keys: bool,
    /// The relative axes x and y, where the device has relative axes at all.
    pub relative_axes: Option<AxisPair>,
    /// The multitouch positions x and y, where the device has absolute axes at
    /// all.
    pub absolute_axes: Option<AxisPair>,
    pub pointer_property: bool,
    pub direct_property: bool,
    pub buttonpad_property: bool,
    pub semi_mt_property: bool,
}

/// Whether a device has both axes of a pair.
pub open spec fn both(axes: Option<AxisPair>) -> bool {
    axes matches Some(pair) && pair.x && pair.y
}

/// What a device with a given name seems to be: its name decides first, then
/// its properties and axes.
pub open spec fn class_of(
    name: Seq<char>,
    capabilities: DeviceCapabilities,
    has_relative_xy: bool,
) -> DeviceClass {
    if crate::text::contains_part(name, "touchpad"@) || crate::text::contains_part(
        name,
        "trackpad"@,
    ) {
        DeviceClass::Touchpad
    } else if crate::text::contains_part(name, "touchscreen"@) || crate::text::contains_part(
        name,
        "touch screen"@,
    ) {
        DeviceClass::Touchscreen
    } else if capabilities.multitouch_positions && capabilities.pointer_property
        && !capabilities.direct_property {
        DeviceClass::Touchpad
    } else if capabilities.multitouch_positions && capabilities.direct_property {
        DeviceClass::Touchscreen
    } else if has_relative_xy {
        DeviceClass::RelativePointer
    } else if capabilities.absolute_axes {
        DeviceClass::AbsolutePointer
    } else {
        DeviceClass::Other
    }
}

/// Classifies a device; the name is in lower case.
pub fn classify_device(
    normalized_name: &str,
    capabilities: &DeviceCapabilities,
    has_relative_xy: bool,
) -> (class: DeviceClass)
    ensures
        class == class_of(normalized_name@, *capabilities, has_relative_xy),
{
    if has_part(normalized_name, "touchpad") || has_part(normalized_name, "trackpad") {
        return DeviceClass::Touchpad;
    }
    if has_part(normalized_name, "touchscreen") || has_part(normalized_name, "touch screen") {
        return DeviceClass::Touchscreen;
    }
    if capabilities.multitouch_positions && capabilities.pointer_property
        && !capabilities.direct_property {
        return DeviceClass::Touchpad;
    }
    if capabilities.multitouch_positions && capabilities.direct_property {
        return DeviceClass::Touchscreen;
    }
    if has_relative_xy {
        return DeviceClass::RelativePointer;
    }
    if capabilities.absolute_axes {
        return DeviceClass::AbsolutePointer;
    }
    DeviceClass::Other
}

/// The name of a device, also where it has none.
pub open spec fn shown_name(facts: DeviceFacts) -> Seq<char> {
    match facts.name {
        Some(name) => name@,
        None => "Unnamed input device"@,
    }
}

/// What a device can do.
pub open spec fn capabilities_of(facts: DeviceFacts) -> DeviceCapabilities {
    DeviceCapabilities {
        keys: facts.keys,
        relative_axes: facts.relative_axes is Some,
        absolute_axes: facts.absolute_axes is Some,
        multitouch_positions: both(facts.absolute_axes),
        pointer_property: facts.pointer_property,
        direct_property: facts.direct_property,
        buttonpad_property: facts.buttonpad_property,
        semi_mt_property: facts.semi_mt_property,
    }
}

fn has_both(axes: &Option<AxisPair>) -> (result: bool)
    ensures
        result == both(*axes),
{
    match axes {
        Some(pair) => pair.x && pair.y,
        None => false,
    }
}

/// Describes a device from what its node reports.
pub fn describe_device(path: std::path::PathBuf, facts: DeviceFacts) -> (info: DeviceInfo)
    ensures
        info.path == path,
        info.name@ == shown_name(facts),
        info.physical_path == facts.physical_path,
        info.unique_name == facts.unique_name,
        info.capabilities == capabilities_of(facts),
        info.class == class_of(
            crate::text::lowercase(shown_name(facts)),
            capabilities_of(facts),
            both(facts.relative_axes),
        ),
{
    let has_relative_xy: bool = has_both(&facts.relative_axes);
    let capabilities = DeviceCapabilities {
        keys: facts.keys,
        relative_axes: facts.relative_axes.is_some(),
        absolute_axes: facts.absolute_axes.is_some(),
        multitouch_positions: has_both(&facts.absolute_axes),
        pointer_property: facts.pointer_property,
        direct_property: facts.direct_property,
        buttonpad_property: facts.buttonpad_property,
        semi_mt_property: facts.semi_mt_property,
    };
    let name = match facts.name {
        Some(name) => name,
        None => "Unnamed input device".to_owned(),
    };
    let normalized_name = to_lowercase(name.as_str());
    let class = classify_device(normalized_name.as_str(), &capabilities, has_relative_xy);
    DeviceInfo {
        path,
        name,
        physical_path: facts.physical_path,
        unique_name: facts.unique_name,
        class,
        capabilities,
    }
}

/// What a backend can do.
#[derive(Debug, Clone, Copy, PartialEq, Eq, Structural)]
pub struct BackendCapabilities {
    pub exclusive_grab: bool,
    pub multitouch_frames: bool,
    pub synthetic_keyboard: bool,
    pub synthetic_pointer: bool,
    pub synthetic_touchpad: bool,
}

/// No capability at all.
pub open spec fn no_capabilities() -> BackendCapabilities {
    BackendCapabilities {
        exclusive_grab: false,
        multitouch_frames: false,
        synthetic_keyboard: false,
        synthetic_pointer: false,
        synthetic_touchpad: false,
    }
}

impl Default for BackendCapabilities {
    fn default() -> (capabilities: BackendCapabilities)
        ensures
            capabilities == no_capabilities(),
    {
        BackendCapabilities {
            exclusive_grab: false,
            multitouch_frames: false,
            synthetic_keyboard: false,
            synthetic_pointer: false,
            synthetic_touchpad: false,
        }
    }
}

/// A backend that emits input.
pub trait OutputBackend: Send + Sync {
    fn name(&self) -> &'static str;

    fn capabilities(&self) -> BackendCapabilities;
}

/// A backend that never publishes an event.
#[derive(Debug, Clone, Copy, PartialEq, Eq, Structural)]
pub struct NullInputBackend;

impl NullInputBackend {
    pub fn name(&self) -> (name: &'static str)
        ensures
            name@ == "null"@,
    {
        "null"
    }

    pub fn capabilities(&self) -> (capabilities: BackendCapabilities)
        ensures
            capabilities == no_capabilities(),
    {
        BackendCapabilities::default()
    }
}

/// Whether a name has a part in it, with something before and after it, or nothing.
pub open spec fn has_word(name: Seq<char>, word: Seq<char>) -> bool {
    exists|before: Seq<char>, after: Seq<char>| name == #[trigger] (before + word + after)
}

proof fn lemma_words(name: Seq<char>, word: Seq<char>)
    ensures
        has_word(name, word) <==> crate::text::contains_part(name, word),
{
    if crate::text::contains_part(name, word) {
        let at = choose|at: int| crate::text::stands_at(name, word, at);
        let before = name.take(at);
        let after = name.skip(at + word.len());
        assert(name =~= before + word + after) by {
            assert(name.subrange(at, at + word.len()) == word);
            assert forall|i: int| 0 <= i < word.len() implies name[at + i] == word[i] by {
                assert(name.subrange(at, at + word.len())[i] == word[i]);
            }
        }
    }
    if has_word(name, word) {
        let (before, after) = choose|before: Seq<char>, after: Seq<char>|
            name == #[trigger] (before + word + after);
        assert(name.subrange(before.len() as int, (before.len() + word.len()) as int) =~= word);
        assert(crate::text::stands_at(name, word, before.len() as int));
    }
}

/// A device is classified by its name in lower case, where that speaks of a touchpad or
/// a touchscreen; else by its multitouch positions and properties; else by its axes.
pub proof fn law_devices_are_classified(facts: DeviceFacts)
    ensures
        ({
            let name = crate::text::lowercase(shown_name(facts));
            let class = class_of(name, capabilities_of(facts), both(facts.relative_axes));
            let pad = has_word(name, "touchpad"@) || has_word(name, "trackpad"@);
            let screen = has_word(name, "touchscreen"@) || has_word(name, "touch screen"@);
            let silent = !pad && !screen;
            let positions = facts.absolute_axes matches Some(axes) && axes.x && axes.y;
            let moves = facts.relative_axes matches Some(axes) && axes.x && axes.y;
            &&& pad ==> class is Touchpad
            &&& screen && !pad ==> class is Touchscreen
            &&& silent && positions && facts.direct_property ==> class is Touchscreen
            &&& silent && positions && !facts.direct_property && facts.pointer_property
                ==> class is Touchpad
            &&& silent && !(positions && (facts.direct_property || facts.pointer_property)) ==> {
                &&& moves ==> class is RelativePointer
                &&& !moves && facts.absolute_axes is Some ==> class is AbsolutePointer
                &&& !moves && facts.absolute_axes is None ==> class is Other
            }
        }),
{
    let name = crate::text::lowercase(shown_name(facts));
    lemma_words(name, "touchpad"@);
    lemma_words(name, "trackpad"@);
    lemma_words(name, "touchscreen"@);
    lemma_words(name, "touch screen"@);
}

/// What a device is said to be able to do is what its node reports.
pub proof fn law_capabilities_are_those_reported(facts: DeviceFacts)
    ensures
        ({
            let capabilities = capabilities_of(facts);
            &&& capabilities.keys == facts.keys
            &&& capabilities.relative_axes == (facts.relative_axes is Some)
            &&& capabilities.absolute_axes == (facts.absolute_axes is Some)
            &&& capabilities.multitouch_positions == (facts.absolute_axes matches Some(axes)
                && axes.x && axes.y)
            &&& capabilities.pointer_property == facts.pointer_property
            &&& capabilities.direct_property == facts.direct_property
            &&& capabilities.buttonpad_property == facts.buttonpad_property
            &&& capabilities.semi_mt_property == facts.semi_mt_property
        }),
        facts.name matches Some(name) ==> shown_name(facts) == name@,
{
}

} // verus!
