//! What a stream of raw touchpad events has said so far: which slot is selected,
//! what was last said of a slot, and which keys are down.
//!
//! Everything here is read off the events themselves, so it says what a state
//! that follows the events has to hold.

use vstd::prelude::*;

use crate::codes::{
    ABS_MT_SLOT, ABS_MT_TRACKING_ID, BTN_TOOL_DOUBLETAP, BTN_TOOL_FINGER, BTN_TOOL_QUADTAP,
    BTN_TOOL_QUINTTAP, BTN_TOOL_TRIPLETAP, SYN_REPORT,
};
use crate::raw_event::RawInputEvent;

verus! {

/// Whether an event gives the value of an absolute axis.
pub open spec fn is_axis(event: RawInputEvent, code: u16) -> bool {
    event.event_type@ == "ABSOLUTE"@ && event.code == code
}

/// Whether an event gives the value of a key.
pub open spec fn is_key(event: RawInputEvent, code: u16) -> bool {
    event.event_type@ == "KEY"@ && event.code == code
}

/// Whether an event closes a group of events.
pub open spec fn is_sync(event: RawInputEvent) -> bool {
    event.event_type@ == "SYNCHRONIZATION"@ && event.code == SYN_REPORT
}

/// The slot that the last valid selection named; the first one before any.
pub open spec fn selected_slot(events: Seq<RawInputEvent>) -> u16
    decreases events.len(),
{
    if events.len() == 0 {
        0
    } else if is_axis(events.last(), ABS_MT_SLOT) && events.last().value >= 0 {
        events.last().value as u16
    } else {
        selected_slot(events.drop_last())
    }
}

/// The last value of an axis that came while a slot was selected.
pub open spec fn last_in_slot(events: Seq<RawInputEvent>, slot: u16, code: u16) -> Option<i32>
    decreases events.len(),
{
    if events.len() == 0 {
        None
    } else if is_axis(events.last(), code) && selected_slot(events.drop_last()) == slot {
        Some(events.last().value)
    } else {
        last_in_slot(events.drop_last(), slot, code)
    }
}

/// The last value of an axis that came while a slot was selected, since that
/// slot's last tracking ID.
pub open spec fn since_tracking(events: Seq<RawInputEvent>, slot: u16, code: u16) -> Option<i32>
    decreases events.len(),
{
    if events.len() == 0 {
        None
    } else if selected_slot(events.drop_last()) == slot && is_axis(
        events.last(),
        ABS_MT_TRACKING_ID,
    ) {
        None
    } else if selected_slot(events.drop_last()) == slot && is_axis(events.last(), code) {
        Some(events.last().value)
    } else {
        since_tracking(events.drop_last(), slot, code)
    }
}

/// The tracking ID of the contact in a slot: the last one that came for it,
/// unless that one was negative.
pub open spec fn contact_in_slot(events: Seq<RawInputEvent>, slot: u16) -> Option<i32> {
    match last_in_slot(events, slot, ABS_MT_TRACKING_ID) {
        Some(id) => if id >= 0 {
            Some(id)
        } else {
            None
        },
        None => None,
    }
}

/// The last value of an axis.
pub open spec fn last_axis(events: Seq<RawInputEvent>, code: u16) -> Option<i32>
    decreases events.len(),
{
    if events.len() == 0 {
        None
    } else if is_axis(events.last(), code) {
        Some(events.last().value)
    } else {
        last_axis(events.drop_last(), code)
    }
}

/// Whether the last value of a key is not zero.
pub open spec fn key_is_down(events: Seq<RawInputEvent>, code: u16) -> bool
    decreases events.len(),
{
    if events.len() == 0 {
        false
    } else if is_key(events.last(), code) {
        events.last().value != 0
    } else {
        key_is_down(events.drop_last(), code)
    }
}

/// The last time that an event carried.
pub open spec fn last_time(events: Seq<RawInputEvent>) -> Option<u128>
    decreases events.len(),
{
    if events.len() == 0 {
        None
    } else if events.last().timestamp_micros is Some {
        events.last().timestamp_micros
    } else {
        last_time(events.drop_last())
    }
}

/// Whether a finger count is what the device reports: its tool key is down, and
/// that of no greater count is; none where no tool key is down.
pub open spec fn reports_fingers(events: Seq<RawInputEvent>, count: int) -> bool {
    let single = key_is_down(events, BTN_TOOL_FINGER);
    let double = key_is_down(events, BTN_TOOL_DOUBLETAP);
    let triple = key_is_down(events, BTN_TOOL_TRIPLETAP);
    let quad = key_is_down(events, BTN_TOOL_QUADTAP);
    let quint = key_is_down(events, BTN_TOOL_QUINTTAP);
    &&& 0 <= count <= 5
    &&& count == 1 ==> single
    &&& count == 2 ==> double
    &&& count == 3 ==> triple
    &&& count == 4 ==> quad
    &&& count == 5 ==> quint
    &&& single ==> count >= 1
    &&& double ==> count >= 2
    &&& triple ==> count >= 3
    &&& quad ==> count >= 4
    &&& quint ==> count >= 5
}

/// The three names of types that touch handling reads differ.
pub(crate) proof fn lemma_names_differ()
    ensures
        "ABSOLUTE"@ != "KEY"@,
        "ABSOLUTE"@ != "SYNCHRONIZATION"@,
        "KEY"@ != "SYNCHRONIZATION"@,
{
    reveal_strlit("ABSOLUTE");
    reveal_strlit("KEY");
    reveal_strlit("SYNCHRONIZATION");
    assert("ABSOLUTE"@.len() == 8);
    assert("KEY"@.len() == 3);
    assert("SYNCHRONIZATION"@.len() == 15);
}

/// What was said of a slot lasts until the same is said of it again: the event at
/// a place counts where it was the last of its axis while its slot was selected.
pub proof fn law_the_last_value_counts(
    events: Seq<RawInputEvent>,
    at: int,
    slot: u16,
    code: u16,
)
    requires
        0 <= at < events.len(),
        is_axis(events[at], code),
        selected_slot(events.take(at)) == slot,
        forall|later: int|
            at < later < events.len() ==> !(is_axis(#[trigger] events[later], code)
                && selected_slot(events.take(later)) == slot),
    ensures
        last_in_slot(events, slot, code) == Some(events[at].value),
    decreases events.len(),
{
    let earlier = events.drop_last();
    let last = events.len() - 1;
    assert(earlier =~= events.take(last));
    if at < last {
        assert(!(is_axis(events[last], code) && selected_slot(events.take(last)) == slot));
        assert(earlier.take(at) =~= events.take(at));
        assert forall|later: int| at < later < earlier.len() implies !(is_axis(
            #[trigger] earlier[later],
            code,
        ) && selected_slot(earlier.take(later)) == slot) by {
            assert(earlier[later] == events[later]);
            assert(earlier.take(later) =~= events.take(later));
        }
        law_the_last_value_counts(earlier, at, slot, code);
    }
}

/// The event at a place counts of the contact in its slot where it was the last of
/// its axis while its slot was selected, and no tracking ID came for the slot
/// since.
pub proof fn law_the_last_value_of_a_contact_counts(
    events: Seq<RawInputEvent>,
    at: int,
    slot: u16,
    code: u16,
)
    requires
        0 <= at < events.len(),
        code != ABS_MT_TRACKING_ID,
        is_axis(events[at], code),
        selected_slot(events.take(at)) == slot,
        forall|later: int|
            at < later < events.len() ==> !((is_axis(#[trigger] events[later], code) || is_axis(
                events[later],
                ABS_MT_TRACKING_ID,
            )) && selected_slot(events.take(later)) == slot),
    ensures
        since_tracking(events, slot, code) == Some(events[at].value),
    decreases events.len(),
{
    let earlier = events.drop_last();
    let last = events.len() - 1;
    assert(earlier =~= events.take(last));
    if at < last {
        assert(!((is_axis(events[last], code) || is_axis(events[last], ABS_MT_TRACKING_ID))
            && selected_slot(events.take(last)) == slot));
        assert(earlier.take(at) =~= events.take(at));
        assert forall|later: int| at < later < earlier.len() implies !((is_axis(
            #[trigger] earlier[later],
            code,
        ) || is_axis(earlier[later], ABS_MT_TRACKING_ID)) && selected_slot(earlier.take(later))
            == slot) by {
            assert(earlier[later] == events[later]);
            assert(earlier.take(later) =~= events.take(later));
        }
        law_the_last_value_of_a_contact_counts(earlier, at, slot, code);
    }
}

} // verus!
