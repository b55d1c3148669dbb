//! Linux input event types and codes, and the names under which raw events
//! carry their type.

use vstd::prelude::*;

use crate::text::same_text;

verus! {

pub const EV_KEY: u16 = 1;
pub const EV_REL: u16 = 2;
pub const EV_ABS: u16 = 3;

pub const SYN_REPORT: u16 = 0;

pub const REL_X: u16 = 0;
pub const REL_Y: u16 = 1;

pub const ABS_X: u16 = 0;
pub const ABS_Y: u16 = 1;
pub const ABS_MT_SLOT: u16 = 47;
pub const ABS_MT_POSITION_X: u16 = 53;
pub const ABS_MT_POSITION_Y: u16 = 54;
pub const ABS_MT_TOOL_TYPE: u16 = 55;
pub const ABS_MT_TRACKING_ID: u16 = 57;

pub const BTN_LEFT: u16 = 272;
pub const BTN_RIGHT: u16 = 273;
pub const BTN_MIDDLE: u16 = 274;
pub const BTN_TOOL_FINGER: u16 = 325;
pub const BTN_TOOL_QUINTTAP: u16 = 328;
pub const BTN_TOUCH: u16 = 330;
pub const BTN_TOOL_DOUBLETAP: u16 = 333;
pub const BTN_TOOL_TRIPLETAP: u16 = 334;
pub const BTN_TOOL_QUADTAP: u16 = 335;

/// What a raw event's type name stands for, as far as touch handling cares.
#[derive(Debug, Clone, Copy, PartialEq, Eq, Structural)]
pub enum EventKind {
    Synchronization,
    Key,
    Absolute,
    Other,
}

/// The kind that a type name denotes.
pub open spec fn kind_of(name: Seq<char>) -> EventKind {
    if name == "ABSOLUTE"@ {
        EventKind::Absolute
    } else if name == "KEY"@ {
        EventKind::Key
    } else if name == "SYNCHRONIZATION"@ {
        EventKind::Synchronization
    } else {
        EventKind::Other
    }
}

/// Reads a type name.
pub fn event_kind(name: &str) -> (kind: EventKind)
    ensures
        kind == kind_of(name@),
{
    if same_text(name, "ABSOLUTE") {
        EventKind::Absolute
    } else if same_text(name, "KEY") {
        EventKind::Key
    } else if same_text(name, "SYNCHRONIZATION") {
        EventKind::Synchronization
    } else {
        EventKind::Other
    }
}

/// The finger count that a tool key reports, for the five tool keys.
pub open spec fn tool_fingers_of(code: u16) -> Option<usize> {
    if code == BTN_TOOL_FINGER {
        Some(1)
    } else if code == BTN_TOOL_DOUBLETAP {
        Some(2)
    } else if code == BTN_TOOL_TRIPLETAP {
        Some(3)
    } else if code == BTN_TOOL_QUADTAP {
        Some(4)
    } else if code == BTN_TOOL_QUINTTAP {
        Some(5)
    } else {
        None
    }
}

/// Reads the finger count that a tool key reports.
pub fn tool_fingers(code: u16) -> (fingers: Option<usize>)
    ensures
        fingers == tool_fingers_of(code),
{
    if code == BTN_TOOL_FINGER {
        Some(1)
    } else if code == BTN_TOOL_DOUBLETAP {
        Some(2)
    } else if code == BTN_TOOL_TRIPLETAP {
        Some(3)
    } else if code == BTN_TOOL_QUADTAP {
        Some(4)
    } else if code == BTN_TOOL_QUINTTAP {
        Some(5)
    } else {
        None
    }
}

/// The tool key that reports a finger count, for one to five fingers.
pub open spec fn tool_key_of(fingers: nat) -> Option<u16> {
    if fingers == 1 {
        Some(BTN_TOOL_FINGER)
    } else if fingers == 2 {
        Some(BTN_TOOL_DOUBLETAP)
    } else if fingers == 3 {
        Some(BTN_TOOL_TRIPLETAP)
    } else if fingers == 4 {
        Some(BTN_TOOL_QUADTAP)
    } else if fingers == 5 {
        Some(BTN_TOOL_QUINTTAP)
    } else {
        None
    }
}

/// The tool key that reports a finger count.
pub fn tool_key(fingers: usize) -> (code: Option<u16>)
    ensures
        code == tool_key_of(fingers as nat),
{
    match fingers {
        1 => Some(BTN_TOOL_FINGER),
        2 => Some(BTN_TOOL_DOUBLETAP),
        3 => Some(BTN_TOOL_TRIPLETAP),
        4 => Some(BTN_TOOL_QUADTAP),
        5 => Some(BTN_TOOL_QUINTTAP),
        _ => None,
    }
}

/// Reading a tool key gives back the finger count that selected it, and the
/// other way round.
pub proof fn law_tool_keys_round_trip(fingers: usize, code: u16)
    ensures
        tool_key_of(fingers as nat) == Some(code) <==> tool_fingers_of(code) == Some(fingers),
{
}

/// The largest finger count whose tool key is down, zero when none is.
pub open spec fn highest_tool(down: Seq<bool>) -> usize {
    if down[5] {
        5
    } else if down[4] {
        4
    } else if down[3] {
        3
    } else if down[2] {
        2
    } else if down[1] {
        1
    } else {
        0
    }
}

/// Finds the largest finger count whose tool key is down.
pub fn highest_tool_down(down: &[bool; 6]) -> (fingers: usize)
    ensures
        fingers == highest_tool(down@),
{
    let mut index: usize = 5;
    while index > 0
        invariant
            index <= 5,
            forall|i: int| index < i <= 5 ==> !down@[i],
        decreases index,
    {
        if down[index] {
            return index;
        }
        index = index - 1;
    }
    0
}

/// The codes are those of the Linux input subsystem, and each tool key reports its own
/// finger count.
pub proof fn law_codes_are_those_of_linux()
    ensures
        EV_KEY == 0x01 && EV_REL == 0x02 && EV_ABS == 0x03 && SYN_REPORT == 0,
        REL_X == 0x00 && REL_Y == 0x01 && ABS_X == 0x00 && ABS_Y == 0x01,
        ABS_MT_SLOT == 0x2f && ABS_MT_POSITION_X == 0x35 && ABS_MT_POSITION_Y == 0x36,
        ABS_MT_TOOL_TYPE == 0x37 && ABS_MT_TRACKING_ID == 0x39,
        BTN_LEFT == 0x110 && BTN_RIGHT == 0x111 && BTN_MIDDLE == 0x112 && BTN_TOUCH == 0x14a,
        tool_fingers_of(0x145) == Some(1usize) && tool_fingers_of(0x14d) == Some(2usize),
        tool_fingers_of(0x14e) == Some(3usize) && tool_fingers_of(0x14f) == Some(4usize),
        tool_fingers_of(0x148) == Some(5usize),
{
}

/// The greatest finger count whose tool key is down is the one that counts.
pub proof fn law_the_greatest_count_is_reported(down: Seq<bool>, fingers: int)
    requires
        down.len() == 6,
        1 <= fingers <= 5,
    ensures
        down[fingers] ==> highest_tool(down) >= fingers,
        highest_tool(down) > 0 ==> highest_tool(down) <= 5 && down[highest_tool(down) as int],
{
}

} // verus!
