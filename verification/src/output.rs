//! Events for a virtual touchpad, and the check that every frame of them is a
//! legal multitouch frame.

use std::collections::BTreeMap;
use vstd::prelude::*;

use crate::codes::{
    ABS_MT_POSITION_X, ABS_MT_POSITION_Y, ABS_MT_SLOT, ABS_MT_TOOL_TYPE, ABS_MT_TRACKING_ID,
    EV_ABS, EV_KEY,
};
use crate::number_text::{decimal_text, signed_text};
use crate::slots::sorted_slots;
use crate::text::append;

verus! {

/// One event to emit on a virtual device.
#[derive(Debug, Clone, Copy, PartialEq, Eq, Structural)]
pub struct VirtualEvent {
    pub event_type: u16,
    pub code: u16,
    pub value: i32,
}

/// A key event.
pub open spec fn key(code: u16, value: i32) -> VirtualEvent {
    VirtualEvent { event_type: EV_KEY, code, value }
}

/// An absolute-axis event.
pub open spec fn absolute(code: u16, value: i32) -> VirtualEvent {
    VirtualEvent { event_type: EV_ABS, code, value }
}

pub fn key_event(code: u16, value: i32) -> (event: VirtualEvent)
    ensures
        event == key(code, value),
{
    VirtualEvent { event_type: EV_KEY, code, value }
}

pub fn absolute_event(code: u16, value: i32) -> (event: VirtualEvent)
    ensures
        event == absolute(code, value),
{
    VirtualEvent { event_type: EV_ABS, code, value }
}

/// Why a virtual touchpad frame is refused.
#[derive(Debug, Clone, Copy, PartialEq, Eq, Structural)]
pub enum OutputError {
    /// A slot selector is negative.
    NegativeSlot,
    /// A tracking event comes before any slot selector of its frame.
    TrackingWithoutSlot,
    /// A slot is released that holds no contact.
    ReleasedInactive { slot: u16 },
    /// Another slot holds the tracking ID already.
    DuplicateTrackingId { tracking_id: i32 },
    /// The slot still holds a contact.
    StillActive { slot: u16, tracking_id: i32, previous: i32 },
    /// A contact update comes before any slot selector of its frame.
    UpdateWithoutSlot,
}

impl OutputError {
    pub open spec fn text(self) -> Seq<char> {
        match self {
            OutputError::NegativeSlot => "virtual touchpad selected a negative slot"@,
            OutputError::TrackingWithoutSlot =>
                "virtual tracking event did not explicitly select a slot in this frame"@,
            OutputError::ReleasedInactive { slot } => "virtual slot "@
                + crate::number_text::decimal(slot as nat)
                + " was released while already inactive"@,
            OutputError::DuplicateTrackingId { tracking_id } => "virtual tracking ID "@
                + crate::number_text::signed_decimal(tracking_id as int)
                + " was already active in another slot"@,
            OutputError::StillActive { slot, tracking_id, previous } => "virtual slot "@
                + crate::number_text::decimal(slot as nat) + " received tracking ID "@
                + crate::number_text::signed_decimal(tracking_id as int) + " while tracking ID "@
                + crate::number_text::signed_decimal(previous as int) + " was still active"@,
            OutputError::UpdateWithoutSlot =>
                "virtual contact update did not explicitly select a slot in this frame"@,
        }
    }

    pub fn message(&self) -> (text: String)
        ensures
            text@ == self.text(),
    {
        match self {
            OutputError::NegativeSlot => "virtual touchpad selected a negative slot".to_owned(),
            OutputError::TrackingWithoutSlot =>
                "virtual tracking event did not explicitly select a slot in this frame".to_owned(),
            OutputError::ReleasedInactive { slot } => {
                let mut text = "virtual slot ".to_owned();
                append(&mut text, decimal_text(*slot as u64).as_str());
                append(&mut text, " was released while already inactive");
                text
            },
            OutputError::DuplicateTrackingId { tracking_id } => {
                let mut text = "virtual tracking ID ".to_owned();
                append(&mut text, signed_text(*tracking_id).as_str());
                append(&mut text, " was already active in another slot");
                text
            },
            OutputError::StillActive { slot, tracking_id, previous } => {
                let mut text = "virtual slot ".to_owned();
                append(&mut text, decimal_text(*slot as u64).as_str());
                append(&mut text, " received tracking ID ");
                append(&mut text, signed_text(*tracking_id).as_str());
                append(&mut text, " while tracking ID ");
                append(&mut text, signed_text(*previous).as_str());
                append(&mut text, " was still active");
                text
            },
            OutputError::UpdateWithoutSlot =>
                "virtual contact update did not explicitly select a slot in this frame".to_owned(),
        }
    }
}

/// Whether a slot other than `current` holds the tracking ID.
pub open spec fn held_elsewhere(active: Map<u16, i32>, current: u16, tracking_id: i32) -> bool {
    exists|slot: u16|
        slot != current && #[trigger] active.contains_key(slot) && active[slot] == tracking_id
}

/// How far into a frame the check has come.
#[verifier::ext_equal]
pub struct Progress {
    pub current_slot: u16,
    pub active: Map<u16, i32>,
    pub slot_selected: bool,
}

impl Progress {
    /// One event taken in, or the reason to refuse it.
    pub open spec fn step(self, event: VirtualEvent) -> Result<Progress, OutputError> {
        if event.event_type != EV_ABS {
            Ok(self)
        } else if event.code == ABS_MT_SLOT {
            if event.value >= 0 {
                Ok(Progress { current_slot: event.value as u16, slot_selected: true, ..self })
            } else {
                Err(OutputError::NegativeSlot)
            }
        } else if event.code == ABS_MT_TRACKING_ID {
            if !self.slot_selected {
                Err(OutputError::TrackingWithoutSlot)
            } else if event.value < 0 {
                if self.active.contains_key(self.current_slot) {
                    Ok(Progress { active: self.active.remove(self.current_slot), ..self })
                } else {
                    Err(OutputError::ReleasedInactive { slot: self.current_slot })
                }
            } else if held_elsewhere(self.active, self.current_slot, event.value) {
                Err(OutputError::DuplicateTrackingId { tracking_id: event.value })
            } else if self.active.contains_key(self.current_slot) {
                Err(
                    OutputError::StillActive {
                        slot: self.current_slot,
                        tracking_id: event.value,
                        previous: self.active[self.current_slot],
                    },
                )
            } else {
                Ok(Progress { active: self.active.insert(self.current_slot, event.value), ..self })
            }
        } else if (event.code == ABS_MT_POSITION_X || event.code == ABS_MT_POSITION_Y || event.code
            == ABS_MT_TOOL_TYPE) && !self.slot_selected {
            Err(OutputError::UpdateWithoutSlot)
        } else {
            Ok(self)
        }
    }

    /// A run of events taken in from the left, up to the first that is refused.
    pub open spec fn run(self, events: Seq<VirtualEvent>) -> Result<Progress, OutputError>
        decreases events.len(),
    {
        if events.len() == 0 {
            Ok(self)
        } else {
            match self.run(events.drop_last()) {
                Ok(progress) => progress.step(events.last()),
                Err(error) => Err(error),
            }
        }
    }
}

/// What an [`OutputValidator`] remembers from one frame to the next.
#[verifier::ext_equal]
pub struct ValidatorView {
    pub current_slot: u16,
    pub active: Map<u16, i32>,
}

impl ValidatorView {
    /// Before any frame.
    pub open spec fn initial() -> ValidatorView {
        ValidatorView { current_slot: 0, active: Map::empty() }
    }

    /// The check as a new frame starts: no slot is selected yet.
    pub open spec fn frame_start(self) -> Progress {
        Progress { current_slot: self.current_slot, active: self.active, slot_selected: false }
    }

    /// The memory after a whole frame, or the reason to refuse the frame.
    pub open spec fn check(self, events: Seq<VirtualEvent>) -> Result<ValidatorView, OutputError> {
        match self.frame_start().run(events) {
            Ok(progress) => Ok(
                ValidatorView { current_slot: progress.current_slot, active: progress.active },
            ),
            Err(error) => Err(error),
        }
    }
}

/// Checks frames before they are emitted. Every tracking or contact event has
/// to follow a slot selector of its own frame, no slot is released twice or
/// reused without release, and no two slots share a tracking ID.
#[derive(Debug)]
pub struct OutputValidator {
    pub current_slot: u16,
    pub active_tracking_ids: BTreeMap<u16, i32>,
}

impl View for OutputValidator {
    type V = ValidatorView;

    open spec fn view(&self) -> ValidatorView {
        ValidatorView { current_slot: self.current_slot, active: self.active_tracking_ids@ }
    }
}

/// Whether a slot other than `current` holds the tracking ID.
fn id_held_elsewhere(active: &BTreeMap<u16, i32>, current: u16, tracking_id: i32) -> (held: bool)
    ensures
        held == held_elsewhere(active@, current, tracking_id),
{
    let slots = sorted_slots(active);
    let mut index: usize = 0;
    while index < slots.len()
        invariant
            index <= slots@.len(),
            forall|slot: u16| #[trigger] active@.contains_key(slot) <==> slots@.contains(slot),
            forall|i: int|
                0 <= i < index ==> slots@[i] == current || active@[#[trigger] slots@[i]]
                    != tracking_id,
        decreases slots@.len() - index,
    {
        let slot: u16 = slots[index];
        assert(slots@.contains(slot));
        if slot != current {
            if let Some(held) = active.get(&slot) {
                if *held == tracking_id {
                    assert(active@.contains_key(slot));
                    return true;
                }
            }
        }
        index = index + 1;
    }
    assert forall|slot: u16|
        slot != current && #[trigger] active@.contains_key(slot) implies active@[slot]
        != tracking_id by {
        assert(slots@.contains(slot));
        let i = choose|i: int| 0 <= i < slots@.len() && slots@[i] == slot;
        assert(slots@[i] == slot);
    }
    false
}

impl OutputValidator {
    pub fn new() -> (validator: OutputValidator)
        ensures
            validator@ == ValidatorView::initial(),
    {
        OutputValidator { current_slot: 0, active_tracking_ids: BTreeMap::new() }
    }

    /// Takes in one frame. A refused frame changes nothing.
    pub fn validate(&mut self, events: &[VirtualEvent]) -> (result: Result<(), OutputError>)
        ensures
            match old(self)@.check(events@) {
                Ok(next) => result is Ok && final(self)@ == next,
                Err(error) => result == Err::<(), OutputError>(error) && final(self)@ == old(
                    self,
                )@,
            },
    {
        let mut current_slot: u16 = self.current_slot;
        let mut active = self.active_tracking_ids.clone();
        let mut slot_selected: bool = false;
        let ghost start = self@.frame_start();
        let ghost before = *self;
        let mut index: usize = 0;
        assert(events@.take(0) =~= Seq::empty());
        assert(start.run(events@.take(0)) =~= Ok::<Progress, OutputError>(
            Progress { current_slot, active: active@, slot_selected },
        ));
        while index < events.len()
            invariant
                index <= events@.len(),
                *self == before,
                start == before@.frame_start(),
                start.run(events@.take(index as int)) == Ok::<Progress, OutputError>(
                    Progress { current_slot, active: active@, slot_selected },
                ),
            decreases events@.len() - index,
        {
            let event: VirtualEvent = events[index];
            let ghost here = Progress { current_slot, active: active@, slot_selected };
            proof {
                let taken = events@.take(index + 1);
                assert(taken.drop_last() =~= events@.take(index as int));
                assert(taken.last() == event);
                assert(start.run(taken) == here.step(event));
                if here.step(event) is Err {
                    lemma_refused_prefix(start, events@, index + 1);
                }
            }
            if event.event_type == EV_ABS {
                if event.code == ABS_MT_SLOT {
                    if event.value < 0 {
                        return Err(OutputError::NegativeSlot);
                    }
                    current_slot = #[verifier::truncate] (event.value as u16);
                    slot_selected = true;
                } else if event.code == ABS_MT_TRACKING_ID {
                    if !slot_selected {
                        return Err(OutputError::TrackingWithoutSlot);
                    }
                    if event.value < 0 {
                        if active.remove(&current_slot).is_none() {
                            return Err(OutputError::ReleasedInactive { slot: current_slot });
                        }
                    } else {
                        if id_held_elsewhere(&active, current_slot, event.value) {
                            return Err(
                                OutputError::DuplicateTrackingId { tracking_id: event.value },
                            );
                        }
                        if let Some(previous) = active.insert(current_slot, event.value) {
                            return Err(
                                OutputError::StillActive {
                                    slot: current_slot,
                                    tracking_id: event.value,
                                    previous,
                                },
                            );
                        }
                    }
                } else if (event.code == ABS_MT_POSITION_X || event.code == ABS_MT_POSITION_Y
                    || event.code == ABS_MT_TOOL_TYPE) && !slot_selected {
                    return Err(OutputError::UpdateWithoutSlot);
                }
            }
            index = index + 1;
        }
        assert(events@.take(index as int) =~= events@);
        self.current_slot = current_slot;
        self.active_tracking_ids = active;
        Ok(())
    }
}

/// A frame whose beginning is refused is refused for the same reason.
proof fn lemma_refused_prefix(start: Progress, events: Seq<VirtualEvent>, length: int)
    requires
        0 <= length <= events.len(),
        start.run(events.take(length)) is Err,
    ensures
        start.run(events) == start.run(events.take(length)),
    decreases events.len(),
{
    if length == events.len() {
        assert(events.take(length) =~= events);
    } else {
        assert(events.drop_last().take(length) =~= events.take(length));
        lemma_refused_prefix(start, events.drop_last(), length);
    }
}

/// Events taken in one after the other, in two stretches.
pub proof fn lemma_run_splits(start: Progress, first: Seq<VirtualEvent>, second: Seq<VirtualEvent>)
    requires
        start.run(first) is Ok,
    ensures
        start.run(first + second) == start.run(first)->Ok_0.run(second),
    decreases second.len(),
{
    if second.len() == 0 {
        assert(first + second =~= first);
    } else {
        assert((first + second).drop_last() =~= first + second.drop_last());
        lemma_run_splits(start, first, second.drop_last());
    }
}

} // verus!
