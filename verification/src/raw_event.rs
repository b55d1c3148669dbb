//! Raw kernel input events.

use vstd::prelude::*;

verus! {

/// The name of an event type.
pub open spec fn kernel_name(event_type: u16) -> Seq<char> {
    match event_type {
        0x00 => "SYNCHRONIZATION"@,
        0x01 => "KEY"@,
        0x02 => "RELATIVE"@,
        0x03 => "ABSOLUTE"@,
        0x04 => "MISC"@,
        0x05 => "SWITCH"@,
        0x11 => "LED"@,
        0x12 => "SOUND"@,
        0x14 => "REPEAT"@,
        0x15 => "FORCEFEEDBACK"@,
        0x16 => "POWER"@,
        0x17 => "FORCEFEEDBACKSTATUS"@,
        0x0101 => "UINPUT"@,
        _ => "unknown key: "@ + crate::number_text::decimal(event_type as nat),
    }
}

/// The name that the `Debug` of `evdev::EventType` gives to an event type: that
/// of its constant, or `unknown key: ` and the number where it has none.
#[verifier::external_body]
pub(crate) fn event_type_name(event_type: u16) -> (name: String)
    ensures
        name@ == kernel_name(event_type),
{
    format!("{:?}", evdev::EventType(event_type))
}

/// A raw kernel input event captured without grabbing or modifying the device.
#[derive(Debug, Clone, PartialEq, Eq)]
pub struct RawInputEvent {
    pub timestamp_micros: Option<u128>,
    pub event_type: String,
    pub code: u16,
    pub value: i32,
    pub summary: String,
}

impl RawInputEvent {
    /// A raw event as the kernel reports it, with its type by name.
    pub fn new(
        timestamp_micros: Option<u128>,
        event_type: u16,
        code: u16,
        value: i32,
        summary: String,
    ) -> (event: RawInputEvent)
        ensures
            event.timestamp_micros == timestamp_micros,
            event.event_type@ == kernel_name(event_type),
            event.code == code,
            event.value == value,
            event.summary == summary,
    {
        RawInputEvent {
            timestamp_micros,
            event_type: event_type_name(event_type),
            code,
            value,
            summary,
        }
    }
}

/// The event types that touch handling cares for are told apart by their names.
pub proof fn law_type_names_denote_their_kinds()
    ensures
        crate::codes::kind_of(kernel_name(0)) is Synchronization,
        crate::codes::kind_of(kernel_name(crate::codes::EV_KEY)) is Key,
        crate::codes::kind_of(kernel_name(crate::codes::EV_ABS)) is Absolute,
        crate::codes::kind_of(kernel_name(crate::codes::EV_REL)) is Other,
{
    reveal_strlit("SYNCHRONIZATION");
    reveal_strlit("KEY");
    reveal_strlit("ABSOLUTE");
    reveal_strlit("RELATIVE");
    assert("SYNCHRONIZATION"@.len() == 15 && "KEY"@.len() == 3 && "ABSOLUTE"@.len() == 8
        && "RELATIVE"@.len() == 8);
    assert("ABSOLUTE"@[0] != "RELATIVE"@[0]);
}

} // verus!
