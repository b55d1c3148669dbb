//! Hardware-neutral touch frames from Linux multitouch protocol-B events.
//!
//! The tracker only understands contact state. It does not recognize swipes,
//! drags, taps or actions.

use std::collections::BTreeMap;
use vstd::prelude::*;

use crate::codes::{
    event_kind, highest_tool_down, tool_fingers, EventKind, ABS_MT_POSITION_X, ABS_MT_POSITION_Y,
    ABS_MT_SLOT, ABS_MT_TRACKING_ID, SYN_REPORT,
};
use crate::history::{
    contact_in_slot, is_axis, is_key, is_sync, key_is_down, lemma_names_differ, reports_fingers,
    selected_slot, since_tracking,
};
use crate::raw_event::RawInputEvent;
use crate::slots::sorted_slots;

verus! {

#[derive(Debug, Clone, Copy, PartialEq, Eq, Structural)]
pub enum TouchFramePhase {
    Begin,
    Update,
    End,
}

/// The mean of some contacts' coordinates, or the difference of two means over
/// the same contacts, as an exact fraction: `x` is `x_total / contacts`, `y` is
/// `y_total / contacts`.
#[derive(Debug, Clone, Copy, PartialEq, Eq, Structural)]
pub struct TouchPoint {
    pub x_total: i64,
    pub y_total: i64,
    pub contacts: u32,
}

/// A displacement and the time that it took; the velocity per second is the
/// displacement times 1,000,000 over the microseconds.
#[derive(Debug, Clone, Copy, PartialEq, Eq, Structural)]
pub struct TouchVelocity {
    pub displacement: TouchPoint,
    pub interval_micros: u128,
}

#[derive(Debug, Clone, Copy, PartialEq, Eq, Structural)]
pub struct TouchContact {
    pub slot: u16,
    pub tracking_id: i32,
    pub x: Option<i32>,
    pub y: Option<i32>,
}

/// A normalized frame of touch contacts.
#[derive(Debug, Clone, PartialEq, Eq)]
pub struct TouchFrame {
    pub sequence: u64,
    pub timestamp_micros: Option<u128>,
    pub phase: TouchFramePhase,
    /// Effective finger count: the greater of tracked and device-reported fingers.
    pub fingers: u8,
    /// Active protocol-B contacts with tracking IDs, whether or not X/Y are known yet.
    pub tracked_contacts: usize,
    pub reported_fingers: Option<u8>,
    /// True when every effective finger has an active contact with complete X/Y.
    pub tracking_complete: bool,
    pub contacts: Vec<TouchContact>,
    pub centroid: Option<TouchPoint>,
    pub delta: Option<TouchPoint>,
    pub velocity_per_second: Option<TouchVelocity>,
    pub frame_interval_micros: Option<u128>,
}

/// What a [`TouchFrame`] holds.
#[verifier::ext_equal]
pub struct FrameView {
    pub sequence: u64,
    pub timestamp_micros: Option<u128>,
    pub phase: TouchFramePhase,
    pub fingers: u8,
    pub tracked_contacts: usize,
    pub reported_fingers: Option<u8>,
    pub tracking_complete: bool,
    pub contacts: Seq<TouchContact>,
    pub centroid: Option<TouchPoint>,
    pub delta: Option<TouchPoint>,
    pub velocity_per_second: Option<TouchVelocity>,
    pub frame_interval_micros: Option<u128>,
}

impl View for TouchFrame {
    type V = FrameView;

    open spec fn view(&self) -> FrameView {
        FrameView {
            sequence: self.sequence,
            timestamp_micros: self.timestamp_micros,
            phase: self.phase,
            fingers: self.fingers,
            tracked_contacts: self.tracked_contacts,
            reported_fingers: self.reported_fingers,
            tracking_complete: self.tracking_complete,
            contacts: self.contacts@,
            centroid: self.centroid,
            delta: self.delta,
            velocity_per_second: self.velocity_per_second,
            frame_interval_micros: self.frame_interval_micros,
        }
    }
}

/// What is known of one slot. A slot is an active contact once it has a
/// tracking ID.
#[derive(Debug, Clone, Copy, PartialEq, Eq, Structural)]
pub struct SlotState {
    pub tracking_id: Option<i32>,
    pub x: Option<i32>,
    pub y: Option<i32>,
}

/// A slot of which nothing is known.
pub open spec fn unknown_slot() -> SlotState {
    SlotState { tracking_id: None, x: None, y: None }
}

/// The active contacts in the slots below a bound, in slot order.
pub open spec fn contacts_below(slots: Map<u16, SlotState>, bound: int) -> Seq<TouchContact>
    decreases bound,
{
    if bound <= 0 {
        Seq::empty()
    } else {
        let slot = (bound - 1) as u16;
        let earlier = contacts_below(slots, bound - 1);
        if slots.contains_key(slot) && slots[slot].tracking_id is Some {
            earlier.push(
                TouchContact {
                    slot,
                    tracking_id: slots[slot].tracking_id->0,
                    x: slots[slot].x,
                    y: slots[slot].y,
                },
            )
        } else {
            earlier
        }
    }
}

/// The active contacts, in slot order.
pub open spec fn active(slots: Map<u16, SlotState>) -> Seq<TouchContact> {
    contacts_below(slots, 0x10000)
}

pub open spec fn located(contact: TouchContact) -> bool {
    contact.x is Some && contact.y is Some
}

/// The contacts with complete coordinates, by slot and tracking ID.
pub open spec fn located_ids(contacts: Seq<TouchContact>) -> Seq<(u16, i32)>
    decreases contacts.len(),
{
    if contacts.len() == 0 {
        Seq::empty()
    } else if located(contacts.last()) {
        located_ids(contacts.drop_last()).push((contacts.last().slot, contacts.last().tracking_id))
    } else {
        located_ids(contacts.drop_last())
    }
}

/// The sum of the x coordinates of the contacts with complete coordinates.
pub open spec fn x_sum(contacts: Seq<TouchContact>) -> int
    decreases contacts.len(),
{
    if contacts.len() == 0 {
        0
    } else {
        x_sum(contacts.drop_last()) + if located(contacts.last()) {
            contacts.last().x->0 as int
        } else {
            0
        }
    }
}

/// The sum of the y coordinates of the contacts with complete coordinates.
pub open spec fn y_sum(contacts: Seq<TouchContact>) -> int
    decreases contacts.len(),
{
    if contacts.len() == 0 {
        0
    } else {
        y_sum(contacts.drop_last()) + if located(contacts.last()) {
            contacts.last().y->0 as int
        } else {
            0
        }
    }
}

/// The mean position of the contacts with complete coordinates, where there are
/// any.
pub open spec fn mean(contacts: Seq<TouchContact>) -> Option<TouchPoint> {
    if located_ids(contacts).len() == 0 {
        None
    } else {
        Some(
            TouchPoint {
                x_total: x_sum(contacts) as i64,
                y_total: y_sum(contacts) as i64,
                contacts: located_ids(contacts).len() as u32,
            },
        )
    }
}

/// How far one mean is from another over the same contacts.
pub open spec fn displacement(
    previous: Option<TouchPoint>,
    current: Option<TouchPoint>,
) -> Option<TouchPoint> {
    match (previous, current) {
        (Some(from), Some(to)) => Some(
            TouchPoint {
                x_total: (to.x_total - from.x_total) as i64,
                y_total: (to.y_total - from.y_total) as i64,
                contacts: to.contacts,
            },
        ),
        _ => None,
    }
}

/// The time from one timestamp to another that is not before it.
pub open spec fn elapsed(previous: Option<u128>, current: Option<u128>) -> Option<u128> {
    match (previous, current) {
        (Some(from), Some(to)) => if from <= to {
            Some((to - from) as u128)
        } else {
            None
        },
        _ => None,
    }
}

/// What a [`TouchFrameTracker`] holds.
#[verifier::ext_equal]
pub struct TrackerView {
    pub current_slot: u16,
    pub slots: Map<u16, SlotState>,
    pub tool_keys: Seq<bool>,
    pub previous_fingers: u8,
    pub previous_motion_contacts: Seq<(u16, i32)>,
    pub previous_centroid: Option<TouchPoint>,
    pub previous_timestamp_micros: Option<u128>,
    pub sequence: u64,
    pub dirty: bool,
}

impl TrackerView {
    /// Before any event.
    pub open spec fn initial() -> TrackerView {
        TrackerView {
            current_slot: 0,
            slots: Map::empty(),
            tool_keys: seq![false, false, false, false, false, false],
            previous_fingers: 0,
            previous_motion_contacts: Seq::empty(),
            previous_centroid: None,
            previous_timestamp_micros: None,
            sequence: 0,
            dirty: false,
        }
    }

    /// What is known of the current slot.
    pub open spec fn current(self) -> SlotState {
        if self.slots.contains_key(self.current_slot) {
            self.slots[self.current_slot]
        } else {
            unknown_slot()
        }
    }

    pub open spec fn with_current(self, state: SlotState) -> TrackerView {
        TrackerView { slots: self.slots.insert(self.current_slot, state), dirty: true, ..self }
    }

    /// An absolute-axis event.
    pub open spec fn absolute(self, code: u16, value: i32) -> TrackerView {
        if code == ABS_MT_SLOT {
            if value >= 0 {
                TrackerView { current_slot: value as u16, ..self }
            } else {
                self
            }
        } else if code == ABS_MT_TRACKING_ID {
            if value < 0 {
                TrackerView { slots: self.slots.remove(self.current_slot), dirty: true, ..self }
            } else {
                self.with_current(SlotState { tracking_id: Some(value), x: None, y: None })
            }
        } else if code == ABS_MT_POSITION_X {
            self.with_current(SlotState { x: Some(value), ..self.current() })
        } else if code == ABS_MT_POSITION_Y {
            self.with_current(SlotState { y: Some(value), ..self.current() })
        } else {
            self
        }
    }

    /// A key event.
    pub open spec fn key(self, code: u16, value: i32) -> TrackerView {
        match crate::codes::tool_fingers_of(code) {
            Some(fingers) => TrackerView {
                tool_keys: self.tool_keys.update(fingers as int, value != 0),
                dirty: true,
                ..self
            },
            None => self,
        }
    }

    /// The finger count that the device reports, where it reports any.
    pub open spec fn reported(self) -> Option<u8> {
        let highest = crate::codes::highest_tool(self.tool_keys);
        if highest > 0 {
            Some(highest as u8)
        } else {
            None
        }
    }

    /// The effective finger count, as far as a frame can hold it.
    pub open spec fn fingers(self) -> u8 {
        let tracked_count = active(self.slots).len();
        let reported_count = crate::codes::highest_tool(self.tool_keys) as nat;
        let greater = if reported_count >= tracked_count {
            reported_count
        } else {
            tracked_count
        };
        if greater >= 255 {
            255
        } else {
            greater as u8
        }
    }

    /// Whether the fingers and the coordinate-bearing contacts are those of the
    /// previous frame, so that the two means can be compared.
    pub open spec fn same_motion_basis(self) -> bool {
        &&& self.fingers() > 0
        &&& self.fingers() == self.previous_fingers
        &&& located_ids(active(self.slots)) == self.previous_motion_contacts
    }

    pub open spec fn phase(self) -> TouchFramePhase {
        if self.previous_fingers == 0 && self.fingers() > 0 {
            TouchFramePhase::Begin
        } else if self.previous_fingers > 0 && self.fingers() == 0 {
            TouchFramePhase::End
        } else {
            TouchFramePhase::Update
        }
    }

    /// The number of the next frame.
    pub open spec fn next_sequence(self) -> u64 {
        if self.sequence == u64::MAX {
            0
        } else {
            (self.sequence + 1) as u64
        }
    }

    /// The frame that a report at the given time closes.
    pub open spec fn frame(self, timestamp_micros: Option<u128>) -> FrameView {
        let contacts = active(self.slots);
        let motion = located_ids(contacts);
        let interval = if self.same_motion_basis() {
            elapsed(self.previous_timestamp_micros, timestamp_micros)
        } else {
            None
        };
        let delta = if self.same_motion_basis() {
            displacement(self.previous_centroid, mean(contacts))
        } else {
            None
        };
        FrameView {
            sequence: self.next_sequence(),
            timestamp_micros,
            phase: self.phase(),
            fingers: self.fingers(),
            tracked_contacts: contacts.len() as usize,
            reported_fingers: self.reported(),
            tracking_complete: motion.len() == contacts.len() && contacts.len() == self.fingers(),
            contacts,
            centroid: mean(contacts),
            delta,
            velocity_per_second: match (delta, interval) {
                (Some(displacement), Some(interval_micros)) => if interval_micros > 0 {
                    Some(TouchVelocity { displacement, interval_micros })
                } else {
                    None
                },
                _ => None,
            },
            frame_interval_micros: interval,
        }
    }

    /// The state after the frame has been given out.
    pub open spec fn framed(self, timestamp_micros: Option<u128>) -> TrackerView {
        TrackerView {
            previous_fingers: self.fingers(),
            previous_motion_contacts: located_ids(active(self.slots)),
            previous_timestamp_micros: timestamp_micros,
            previous_centroid: if self.fingers() == 0 {
                None
            } else {
                mean(active(self.slots))
            },
            sequence: self.next_sequence(),
            dirty: false,
            ..self
        }
    }

    /// Whether an event is a report that closes a frame with news in it.
    pub open spec fn closes_frame(self, event: RawInputEvent) -> bool {
        &&& crate::codes::kind_of(event.event_type@) is Synchronization
        &&& event.code == SYN_REPORT
        &&& self.dirty
    }

    /// The state after one raw event.
    pub open spec fn pushed(self, event: RawInputEvent) -> TrackerView {
        match crate::codes::kind_of(event.event_type@) {
            EventKind::Absolute => self.absolute(event.code, event.value),
            EventKind::Key => self.key(event.code, event.value),
            _ => if self.closes_frame(event) {
                self.framed(event.timestamp_micros)
            } else {
                self
            },
        }
    }

    /// What every reachable state satisfies.
    pub open spec fn wf(self) -> bool {
        &&& self.slots.dom().finite()
        &&& self.tool_keys.len() == 6
        &&& self.previous_centroid matches Some(point) ==> in_bounds(point) && point.contacts
            == self.previous_motion_contacts.len()
    }
}

/// A mean over at most as many contacts as there are slots.
pub open spec fn in_bounds(point: TouchPoint) -> bool {
    &&& -0x8000_0000_0000 <= point.x_total <= 0x8000_0000_0000
    &&& -0x8000_0000_0000 <= point.y_total <= 0x8000_0000_0000
    &&& 0 < point.contacts <= 0x10000
}

proof fn lemma_contacts_below(slots: Map<u16, SlotState>, low: int, high: int)
    requires
        0 <= low <= high <= 0x10000,
        forall|slot: u16| low <= slot < high ==> !#[trigger] slots.contains_key(slot),
    ensures
        contacts_below(slots, low) == contacts_below(slots, high),
    decreases high,
{
    if low < high {
        lemma_contacts_below(slots, low, high - 1);
        assert(!slots.contains_key((high - 1) as u16));
    }
}

proof fn lemma_contact_count(slots: Map<u16, SlotState>, bound: int)
    requires
        0 <= bound,
    ensures
        contacts_below(slots, bound).len() <= bound,
    decreases bound,
{
    if bound > 0 {
        lemma_contact_count(slots, bound - 1);
    }
}

/// The mean position of the contacts with complete coordinates.
fn centroid(contacts: &Vec<TouchContact>) -> (point: Option<TouchPoint>)
    requires
        contacts@.len() <= 0x10000,
    ensures
        point == mean(contacts@),
        point matches Some(point) ==> in_bounds(point) && point.contacts == located_ids(
            contacts@,
        ).len(),
{
    let mut x_total: i64 = 0;
    let mut y_total: i64 = 0;
    let mut count: u32 = 0;
    let mut index: usize = 0;
    while index < contacts.len()
        invariant
            index <= contacts@.len() <= 0x10000,
            x_total == x_sum(contacts@.take(index as int)),
            y_total == y_sum(contacts@.take(index as int)),
            count == located_ids(contacts@.take(index as int)).len(),
            -0x8000_0000 * index <= x_total <= 0x8000_0000 * index,
            -0x8000_0000 * index <= y_total <= 0x8000_0000 * index,
            count <= index,
        decreases contacts@.len() - index,
    {
        let contact = contacts[index];
        assert(contacts@.take(index + 1).drop_last() =~= contacts@.take(index as int));
        if let (Some(x), Some(y)) = (contact.x, contact.y) {
            x_total = x_total + x as i64;
            y_total = y_total + y as i64;
            count = count + 1;
        }
        index = index + 1;
    }
    assert(contacts@.take(index as int) =~= contacts@);
    if count == 0 {
        None
    } else {
        Some(TouchPoint { x_total, y_total, contacts: count })
    }
}

/// The contacts with complete coordinates, by slot and tracking ID.
pub fn coordinate_contact_ids(contacts: &Vec<TouchContact>) -> (ids: Vec<(u16, i32)>)
    ensures
        ids@ == located_ids(contacts@),
{
    let mut ids: Vec<(u16, i32)> = Vec::new();
    let mut index: usize = 0;
    while index < contacts.len()
        invariant
            index <= contacts@.len(),
            ids@ == located_ids(contacts@.take(index as int)),
        decreases contacts@.len() - index,
    {
        let contact = contacts[index];
        assert(contacts@.take(index + 1).drop_last() =~= contacts@.take(index as int));
        if contact.x.is_some() && contact.y.is_some() {
            ids.push((contact.slot, contact.tracking_id));
        }
        index = index + 1;
    }
    assert(contacts@.take(index as int) =~= contacts@);
    ids
}

/// Whether two lists name the same contacts.
pub fn same_contacts(left: &Vec<(u16, i32)>, right: &Vec<(u16, i32)>) -> (same: bool)
    ensures
        same == (left@ == right@),
{
    if left.len() != right.len() {
        return false;
    }
    let mut index: usize = 0;
    while index < left.len()
        invariant
            index <= left@.len(),
            left@.len() == right@.len(),
            forall|i: int| 0 <= i < index ==> left@[i] == right@[i],
        decreases left@.len() - index,
    {
        if left[index].0 != right[index].0 || left[index].1 != right[index].1 {
            assert(left@[index as int] != right@[index as int]);
            return false;
        }
        index = index + 1;
    }
    assert(left@ =~= right@);
    true
}

/// How far one mean is from another over the same contacts.
fn point_delta(previous: Option<TouchPoint>, current: Option<TouchPoint>) -> (delta: Option<
    TouchPoint,
>)
    requires
        previous matches Some(point) ==> in_bounds(point),
        current matches Some(point) ==> in_bounds(point),
    ensures
        delta == displacement(previous, current),
{
    match (previous, current) {
        (Some(from), Some(to)) => Some(
            TouchPoint {
                x_total: to.x_total - from.x_total,
                y_total: to.y_total - from.y_total,
                contacts: to.contacts,
            },
        ),
        _ => None,
    }
}

/// The time from one timestamp to another that is not before it.
pub fn elapsed_micros(previous: Option<u128>, current: Option<u128>) -> (interval: Option<u128>)
    ensures
        interval == elapsed(previous, current),
{
    match (previous, current) {
        (Some(from), Some(to)) => if from <= to {
            Some(to - from)
        } else {
            None
        },
        _ => None,
    }
}

/// Converts Linux multitouch protocol-B events into hardware-neutral frames.
#[derive(Debug)]
pub struct TouchFrameTracker {
    current_slot: u16,
    slots: BTreeMap<u16, SlotState>,
    tool_keys: [bool; 6],
    previous_fingers: u8,
    previous_motion_contacts: Vec<(u16, i32)>,
    previous_centroid: Option<TouchPoint>,
    previous_timestamp_micros: Option<u128>,
    sequence: u64,
    dirty: bool,
}

impl View for TouchFrameTracker {
    type V = TrackerView;

    closed spec fn view(&self) -> TrackerView {
        TrackerView {
            current_slot: self.current_slot,
            slots: self.slots@,
            tool_keys: self.tool_keys@,
            previous_fingers: self.previous_fingers,
            previous_motion_contacts: self.previous_motion_contacts@,
            previous_centroid: self.previous_centroid,
            previous_timestamp_micros: self.previous_timestamp_micros,
            sequence: self.sequence,
            dirty: self.dirty,
        }
    }
}

impl TouchFrameTracker {
    pub fn new() -> (tracker: TouchFrameTracker)
        ensures
            tracker@ == TrackerView::initial(),
            tracker@.wf(),
    {
        TouchFrameTracker {
            current_slot: 0,
            slots: BTreeMap::new(),
            tool_keys: [false, false, false, false, false, false],
            previous_fingers: 0,
            previous_motion_contacts: Vec::new(),
            previous_centroid: None,
            previous_timestamp_micros: None,
            sequence: 0,
            dirty: false,
        }
    }

    /// Feeds one raw event. A normalized frame is returned at report
    /// boundaries whenever active contact state changed.
    pub fn push(&mut self, event: &RawInputEvent) -> (frame: Option<TouchFrame>)
        requires
            old(self)@.wf(),
        ensures
            final(self)@ == old(self)@.pushed(*event),
            final(self)@.wf(),
            frame is Some <==> old(self)@.closes_frame(*event),
            frame matches Some(frame) ==> frame@ == old(self)@.frame(event.timestamp_micros),
    {
        match event_kind(event.event_type.as_str()) {
            EventKind::Absolute => self.handle_absolute(event.code, event.value),
            EventKind::Key => self.handle_key(event.code, event.value),
            EventKind::Synchronization => {
                if event.code == SYN_REPORT {
                    return self.finish_frame(event.timestamp_micros);
                }
            },
            EventKind::Other => {},
        }
        None
    }

    /// The active contacts, in slot order.
    pub fn active_contacts(&self) -> (contacts: Vec<TouchContact>)
        ensures
            contacts@ == active(self@.slots),
            contacts@.len() <= 0x10000,
    {
        let order = sorted_slots(&self.slots);
        let mut contacts: Vec<TouchContact> = Vec::new();
        let mut index: usize = 0;
        let ghost mut bound: int = 0;
        while index < order.len()
            invariant
                index <= order@.len(),
                0 <= bound <= 0x10000,
                forall|i: int, j: int| 0 <= i < j < order@.len() ==> order@[i] < order@[j],
                forall|slot: u16| #[trigger]
                    self.slots@.contains_key(slot) <==> order@.contains(slot),
                forall|i: int| 0 <= i < index ==> order@[i] < bound,
                forall|i: int| index <= i < order@.len() ==> order@[i] >= bound,
                contacts@ == contacts_below(self.slots@, bound),
            decreases order@.len() - index,
        {
            let slot: u16 = order[index];
            proof {
                assert forall|other: u16| bound <= other < slot implies !#[trigger]
                    self.slots@.contains_key(other) by {
                    if order@.contains(other) {
                        let i = choose|i: int| 0 <= i < order@.len() && order@[i] == other;
                        assert(i < index || i >= index);
                    }
                }
                lemma_contacts_below(self.slots@, bound, slot as int);
                assert(order@.contains(slot));
                assert(self.slots@.contains_key(slot));
                assert(((slot + 1) - 1) as u16 == slot);
            }
            if let Some(state) = self.slots.get(&slot) {
                if let Some(tracking_id) = state.tracking_id {
                    contacts.push(TouchContact { slot, tracking_id, x: state.x, y: state.y });
                }
            }
            proof {
                bound = slot + 1;
            }
            index = index + 1;
        }
        proof {
            assert forall|other: u16| bound <= other < 0x10000 implies !#[trigger]
                self.slots@.contains_key(other) by {
                if order@.contains(other) {
                    let i = choose|i: int| 0 <= i < order@.len() && order@[i] == other;
                }
            }
            lemma_contacts_below(self.slots@, bound, 0x10000);
            lemma_contact_count(self.slots@, 0x10000);
        }
        contacts
    }

    fn current(&self) -> (state: SlotState)
        ensures
            state == self@.current(),
    {
        match self.slots.get(&self.current_slot) {
            Some(state) => *state,
            None => SlotState { tracking_id: None, x: None, y: None },
        }
    }

    fn handle_absolute(&mut self, code: u16, value: i32)
        requires
            old(self)@.wf(),
        ensures
            final(self)@ == old(self)@.absolute(code, value),
            final(self)@.wf(),
    {
        let slot: u16 = self.current_slot;
        if code == ABS_MT_SLOT {
            if value >= 0 {
                self.current_slot = #[verifier::truncate] (value as u16);
            }
        } else if code == ABS_MT_TRACKING_ID {
            if value < 0 {
                self.slots.remove(&slot);
            } else {
                self.slots.insert(slot, SlotState { tracking_id: Some(value), x: None, y: None });
            }
            self.dirty = true;
        } else if code == ABS_MT_POSITION_X {
            let mut state = self.current();
            state.x = Some(value);
            self.slots.insert(slot, state);
            self.dirty = true;
        } else if code == ABS_MT_POSITION_Y {
            let mut state = self.current();
            state.y = Some(value);
            self.slots.insert(slot, state);
            self.dirty = true;
        }
    }

    fn handle_key(&mut self, code: u16, value: i32)
        requires
            old(self)@.wf(),
        ensures
            final(self)@ == old(self)@.key(code, value),
            final(self)@.wf(),
    {
        if let Some(fingers) = tool_fingers(code) {
            self.tool_keys[fingers] = value != 0;
            self.dirty = true;
        }
    }

    fn reported_fingers(&self) -> (fingers: Option<u8>)
        ensures
            fingers == self@.reported(),
    {
        let highest: usize = highest_tool_down(&self.tool_keys);
        if highest > 0 {
            Some(highest as u8)
        } else {
            None
        }
    }

    fn effective_fingers(&self, tracked_contacts: usize) -> (fingers: u8)
        requires
            tracked_contacts == active(self@.slots).len(),
        ensures
            fingers == self@.fingers(),
    {
        let reported: usize = highest_tool_down(&self.tool_keys);
        let greater: usize = if reported >= tracked_contacts {
            reported
        } else {
            tracked_contacts
        };
        if greater >= 255 {
            255
        } else {
            greater as u8
        }
    }

    fn phase(&self, fingers: u8) -> (phase: TouchFramePhase)
        requires
            fingers == self@.fingers(),
        ensures
            phase == self@.phase(),
    {
        if self.previous_fingers == 0 && fingers > 0 {
            TouchFramePhase::Begin
        } else if self.previous_fingers > 0 && fingers == 0 {
            TouchFramePhase::End
        } else {
            TouchFramePhase::Update
        }
    }

    /// Closes a frame at a given time, where there is news.
    pub fn finish_frame(&mut self, timestamp_micros: Option<u128>) -> (frame: Option<TouchFrame>)
        requires
            old(self)@.wf(),
        ensures
            frame is Some <==> old(self)@.dirty,
            frame matches Some(frame) ==> frame@ == old(self)@.frame(timestamp_micros),
            final(self)@ == if old(self)@.dirty {
                old(self)@.framed(timestamp_micros)
            } else {
                old(self)@
            },
            final(self)@.wf(),
    {
        if !self.dirty {
            return None;
        }
        let contacts = self.active_contacts();
        let tracked_contacts: usize = contacts.len();
        let fingers: u8 = self.effective_fingers(tracked_contacts);
        let motion_contacts = coordinate_contact_ids(&contacts);
        let tracking_complete: bool = motion_contacts.len() == tracked_contacts && tracked_contacts
            == fingers as usize;
        let phase = self.phase(fingers);
        let centroid = centroid(&contacts);
        let same_motion_basis: bool = fingers > 0 && fingers == self.previous_fingers
            && same_contacts(&motion_contacts, &self.previous_motion_contacts);
        let frame_interval_micros: Option<u128> = if same_motion_basis {
            elapsed_micros(self.previous_timestamp_micros, timestamp_micros)
        } else {
            None
        };
        let delta: Option<TouchPoint> = if same_motion_basis {
            point_delta(self.previous_centroid, centroid)
        } else {
            None
        };
        let velocity_per_second: Option<TouchVelocity> = match (delta, frame_interval_micros) {
            (Some(displacement), Some(interval_micros)) => if interval_micros > 0 {
                Some(TouchVelocity { displacement, interval_micros })
            } else {
                None
            },
            _ => None,
        };
        let reported_fingers = self.reported_fingers();
        self.sequence = self.sequence.wrapping_add(1);
        let frame = TouchFrame {
            sequence: self.sequence,
            timestamp_micros,
            phase,
            fingers,
            tracked_contacts,
            reported_fingers,
            tracking_complete,
            contacts,
            centroid,
            delta,
            velocity_per_second,
            frame_interval_micros,
        };
        self.previous_fingers = fingers;
        self.previous_motion_contacts = motion_contacts;
        self.previous_timestamp_micros = timestamp_micros;
        self.previous_centroid = if fingers == 0 {
            None
        } else {
            centroid
        };
        self.dirty = false;
        Some(frame)
    }
}

proof fn lemma_contact_slots(slots: Map<u16, SlotState>, bound: int)
    requires
        0 <= bound <= 0x10000,
    ensures
        forall|i: int|
            0 <= i < contacts_below(slots, bound).len() ==> (#[trigger] contacts_below(
                slots,
                bound,
            )[i]).slot < bound,
        forall|i: int, j: int|
            0 <= i < j < contacts_below(slots, bound).len() ==> (#[trigger] contacts_below(
                slots,
                bound,
            )[i]).slot < (#[trigger] contacts_below(slots, bound)[j]).slot,
    decreases bound,
{
    if bound > 0 {
        lemma_contact_slots(slots, bound - 1);
    }
}

proof fn lemma_contact_listed(slots: Map<u16, SlotState>, slot: u16, bound: int) -> (i: int)
    requires
        slot < bound <= 0x10000,
        slots.contains_key(slot),
        slots[slot].tracking_id is Some,
    ensures
        0 <= i < contacts_below(slots, bound).len(),
        contacts_below(slots, bound)[i] == (TouchContact {
            slot,
            tracking_id: slots[slot].tracking_id->0,
            x: slots[slot].x,
            y: slots[slot].y,
        }),
    decreases bound,
{
    if slot == bound - 1 {
        contacts_below(slots, bound).len() - 1
    } else {
        lemma_contact_listed(slots, slot, bound - 1)
    }
}

proof fn lemma_listed_contact(slots: Map<u16, SlotState>, i: int, bound: int)
    requires
        0 <= bound <= 0x10000,
        0 <= i < contacts_below(slots, bound).len(),
    ensures
        ({
            let contact = contacts_below(slots, bound)[i];
            &&& slots.contains_key(contact.slot)
            &&& slots[contact.slot] == (SlotState {
                tracking_id: Some(contact.tracking_id),
                x: contact.x,
                y: contact.y,
            })
        }),
    decreases bound,
{
    if bound > 0 {
        let earlier = contacts_below(slots, bound - 1);
        if i < earlier.len() {
            lemma_listed_contact(slots, i, bound - 1);
        }
    }
}

/// A frame lists each slot with a tracking ID exactly once, in slot order, as
/// the slot stands, and lists nothing else.
pub proof fn law_contacts_are_sorted_and_complete(tracker: TrackerView, timestamp: Option<u128>)
    ensures
        forall|i: int, j: int|
            0 <= i < j < tracker.frame(timestamp).contacts.len() ==> (
            #[trigger] tracker.frame(timestamp).contacts[i]).slot < (#[trigger] tracker.frame(
                timestamp,
            ).contacts[j]).slot,
        forall|slot: u16|
            tracker.slots.contains_key(slot) && tracker.slots[slot].tracking_id is Some
                ==> tracker.frame(timestamp).contacts.contains(
                TouchContact {
                    slot,
                    tracking_id: (#[trigger] tracker.slots[slot]).tracking_id->0,
                    x: tracker.slots[slot].x,
                    y: tracker.slots[slot].y,
                },
            ),
        forall|i: int|
            0 <= i < tracker.frame(timestamp).contacts.len() ==> {
                let contact = #[trigger] tracker.frame(timestamp).contacts[i];
                &&& tracker.slots.contains_key(contact.slot)
                &&& tracker.slots[contact.slot].tracking_id == Some(contact.tracking_id)
                &&& tracker.slots[contact.slot].x == contact.x
                &&& tracker.slots[contact.slot].y == contact.y
            },
{
    let slots = tracker.slots;
    lemma_contact_slots(slots, 0x10000);
    assert forall|slot: u16|
        slots.contains_key(slot) && slots[slot].tracking_id is Some implies active(slots).contains(
        TouchContact {
            slot,
            tracking_id: (#[trigger] slots[slot]).tracking_id->0,
            x: slots[slot].x,
            y: slots[slot].y,
        },
    ) by {
        let i = lemma_contact_listed(slots, slot, 0x10000);
        assert(active(slots)[i].slot == slot);
    }
    assert forall|i: int| 0 <= i < active(slots).len() implies {
        let contact = #[trigger] active(slots)[i];
        &&& slots.contains_key(contact.slot)
        &&& slots[contact.slot].tracking_id == Some(contact.tracking_id)
        &&& slots[contact.slot].x == contact.x
        &&& slots[contact.slot].y == contact.y
    } by {
        lemma_listed_contact(slots, i, 0x10000);
    }
}

/// The effective count is the greater of the active contacts and the
/// device-reported count, up to what a frame can hold.
pub proof fn law_effective_count_is_the_greater(tracker: TrackerView, timestamp: Option<u128>)
    requires
        tracker.wf(),
        active(tracker.slots).len() <= 255,
    ensures
        ({
            let frame = tracker.frame(timestamp);
            let reported = match frame.reported_fingers {
                Some(count) => count as nat,
                None => 0,
            };
            &&& frame.fingers >= frame.contacts.len()
            &&& frame.fingers >= reported
            &&& frame.fingers == frame.contacts.len() || frame.fingers == reported
            &&& frame.tracked_contacts == frame.contacts.len()
        }),
{
}

proof fn lemma_all_located(contacts: Seq<TouchContact>)
    ensures
        located_ids(contacts).len() <= contacts.len(),
        located_ids(contacts).len() == contacts.len() <==> forall|i: int|
            0 <= i < contacts.len() ==> located(#[trigger] contacts[i]),
    decreases contacts.len(),
{
    if contacts.len() > 0 {
        let rest = contacts.drop_last();
        lemma_all_located(rest);
        assert(forall|i: int| 0 <= i < rest.len() ==> rest[i] == contacts[i]);
        if located_ids(contacts).len() == contacts.len() {
            assert(located(contacts.last()));
            assert forall|i: int| 0 <= i < contacts.len() implies located(#[trigger] contacts[i]) by {
                if i < rest.len() {
                    assert(located(rest[i]));
                }
            }
        }
        if forall|i: int| 0 <= i < contacts.len() ==> located(#[trigger] contacts[i]) {
            assert(located(contacts[contacts.len() - 1]));
            assert forall|i: int| 0 <= i < rest.len() implies located(#[trigger] rest[i]) by {
                assert(located(contacts[i]));
            }
        }
    }
}

/// Tracking is complete exactly when every effective finger has an active
/// contact with complete coordinates.
pub proof fn law_complete_tracking(tracker: TrackerView, timestamp: Option<u128>)
    ensures
        ({
            let frame = tracker.frame(timestamp);
            frame.tracking_complete <==> frame.contacts.len() == frame.fingers && forall|i: int|
                0 <= i < frame.contacts.len() ==> located(#[trigger] frame.contacts[i])
        }),
{
    lemma_all_located(active(tracker.slots));
}

/// A change of the finger count, or of the coordinate-bearing contacts, leaves
/// a frame without displacement, velocity and interval.
pub proof fn law_transitions_reset_motion(tracker: TrackerView, timestamp: Option<u128>)
    requires
        tracker.fingers() != tracker.previous_fingers || located_ids(active(tracker.slots))
            != tracker.previous_motion_contacts,
    ensures
        tracker.frame(timestamp).delta is None,
        tracker.frame(timestamp).velocity_per_second is None,
        tracker.frame(timestamp).frame_interval_micros is None,
{
}

/// A displacement is taken between two means over the same number of contacts.
pub proof fn law_displacement_keeps_the_contacts(tracker: TrackerView, timestamp: Option<u128>)
    requires
        tracker.wf(),
        tracker.frame(timestamp).delta is Some,
    ensures
        tracker.previous_centroid is Some,
        tracker.frame(timestamp).centroid is Some,
        tracker.frame(timestamp).delta->0.contacts == tracker.frame(timestamp).centroid->0.contacts,
        tracker.frame(timestamp).delta->0.contacts == tracker.previous_centroid->0.contacts,
{
    lemma_contact_count(tracker.slots, 0x10000);
    lemma_all_located(active(tracker.slots));
}

/// Sessions are delimited: a frame begins one exactly when the frame before it
/// had no fingers and it has some, and ends one exactly the other way round.
pub proof fn law_phases_delimit_sessions(
    tracker: TrackerView,
    earlier: Option<u128>,
    later: Option<u128>,
    next: TrackerView,
)
    requires
        next.previous_fingers == tracker.framed(earlier).previous_fingers,
    ensures
        next.frame(later).phase is Begin <==> tracker.frame(earlier).fingers == 0 && next.frame(
            later,
        ).fingers > 0,
        next.frame(later).phase is End <==> tracker.frame(earlier).fingers > 0 && next.frame(
            later,
        ).fingers == 0,
{
}

/// After a frame, a further report without news gives none and changes nothing.
pub proof fn law_reports_without_news_are_silent(
    tracker: TrackerView,
    first: RawInputEvent,
    second: RawInputEvent,
)
    requires
        tracker.closes_frame(first),
        crate::codes::kind_of(second.event_type@) is Synchronization,
    ensures
        !tracker.pushed(first).closes_frame(second),
        tracker.pushed(first).pushed(second) == tracker.pushed(first),
{
}

/// The state after a stream of raw events.
pub open spec fn tracker_after(events: Seq<RawInputEvent>) -> TrackerView
    decreases events.len(),
{
    if events.len() == 0 {
        TrackerView::initial()
    } else {
        tracker_after(events.drop_last()).pushed(events.last())
    }
}

/// The frames that a stream of raw events gives.
pub open spec fn frames_of(events: Seq<RawInputEvent>) -> Seq<FrameView>
    decreases events.len(),
{
    if events.len() == 0 {
        Seq::empty()
    } else {
        let earlier = frames_of(events.drop_last());
        let tracker = tracker_after(events.drop_last());
        if tracker.closes_frame(events.last()) {
            earlier.push(tracker.frame(events.last().timestamp_micros))
        } else {
            earlier
        }
    }
}

/// The fingers of the last of some frames; none where there is none.
pub open spec fn last_fingers(frames: Seq<FrameView>) -> u8 {
    if frames.len() == 0 {
        0
    } else {
        frames.last().fingers
    }
}

/// The coordinate-bearing contacts of the last of some frames.
pub open spec fn last_contacts(frames: Seq<FrameView>) -> Seq<(u16, i32)> {
    if frames.len() == 0 {
        Seq::empty()
    } else {
        located_ids(frames.last().contacts)
    }
}

/// Whether a tracker remembers the last of some frames.
pub open spec fn remembers(tracker: TrackerView, frames: Seq<FrameView>) -> bool {
    &&& tracker.previous_fingers == last_fingers(frames)
    &&& tracker.previous_motion_contacts == last_contacts(frames)
    &&& frames.len() > 0 ==> tracker.previous_timestamp_micros == frames.last().timestamp_micros
    &&& tracker.previous_centroid == if last_fingers(frames) == 0 {
        None
    } else {
        frames.last().centroid
    }
}

proof fn lemma_tracker_remembers(events: Seq<RawInputEvent>)
    ensures
        remembers(tracker_after(events), frames_of(events)),
    decreases events.len(),
{
    if events.len() > 0 {
        lemma_tracker_remembers(events.drop_last());
    }
}

proof fn lemma_sums_are_bounded(contacts: Seq<TouchContact>)
    ensures
        -0x8000_0000 * contacts.len() <= x_sum(contacts) <= 0x8000_0000 * contacts.len(),
        -0x8000_0000 * contacts.len() <= y_sum(contacts) <= 0x8000_0000 * contacts.len(),
        located_ids(contacts).len() <= contacts.len(),
    decreases contacts.len(),
{
    if contacts.len() > 0 {
        lemma_sums_are_bounded(contacts.drop_last());
    }
}

/// The contacts of a frame are those of the slots at the time.
proof fn lemma_frame_contacts(events: Seq<RawInputEvent>)
    requires
        frames_of(events).len() > 0,
    ensures
        frames_of(events).last().contacts.len() <= 0x10000,
        frames_of(events).last().centroid == mean(frames_of(events).last().contacts),
    decreases events.len(),
{
    let tracker = tracker_after(events.drop_last());
    if tracker.closes_frame(events.last()) {
        lemma_contact_count(tracker.slots, 0x10000);
    } else {
        lemma_frame_contacts(events.drop_last());
    }
}

/// A frame of a stream has a displacement exactly when it has fingers, as many
/// as the frame before it, and the same coordinate-bearing contacts, of which
/// there are some; it then leads from the one mean to the other. It has a
/// velocity exactly when, besides, both frames have a time and time passed. A
/// change leaves a frame without an interval.
pub proof fn law_motion_follows_the_frames(events: Seq<RawInputEvent>, event: RawInputEvent)
    requires
        tracker_after(events).closes_frame(event),
    ensures
        ({
            let earlier = frames_of(events);
            let frame = tracker_after(events).frame(event.timestamp_micros);
            let ids = located_ids(frame.contacts);
            &&& frame.delta is Some <==> frame.fingers > 0 && frame.fingers == last_fingers(earlier)
                && ids == last_contacts(earlier) && ids.len() > 0
            &&& frame.delta matches Some(delta) ==> {
                let from = earlier.last().centroid;
                let to = frame.centroid;
                &&& from is Some && to is Some
                &&& delta.x_total == to->0.x_total - from->0.x_total
                &&& delta.y_total == to->0.y_total - from->0.y_total
                &&& delta.contacts == to->0.contacts == from->0.contacts
            }
            &&& frame.velocity_per_second is Some <==> frame.delta is Some
                && earlier.last().timestamp_micros is Some && frame.timestamp_micros is Some
                && frame.timestamp_micros->0 > earlier.last().timestamp_micros->0
            &&& frame.velocity_per_second matches Some(velocity) ==> Some(velocity.displacement)
                == frame.delta && velocity.interval_micros == frame.timestamp_micros->0
                - earlier.last().timestamp_micros->0
            &&& frame.fingers != last_fingers(earlier) || ids != last_contacts(earlier)
                ==> frame.frame_interval_micros is None
        }),
{
    let tracker = tracker_after(events);
    let earlier = frames_of(events);
    let frame = tracker.frame(event.timestamp_micros);
    lemma_tracker_remembers(events);
    lemma_contact_count(tracker.slots, 0x10000);
    lemma_sums_are_bounded(frame.contacts);
    if earlier.len() > 0 {
        lemma_frame_contacts(events);
        lemma_sums_are_bounded(earlier.last().contacts);
    }
}

/// A frame of a stream begins a session exactly when the frame before it had no
/// fingers and it has some, ends one exactly the other way round, and goes on
/// otherwise. The frame before the first has no fingers.
pub proof fn law_phases_follow_the_fingers(events: Seq<RawInputEvent>, n: int)
    requires
        0 <= n < frames_of(events).len(),
    ensures
        ({
            let frames = frames_of(events);
            let before = last_fingers(frames.take(n));
            &&& frames[n].phase is Begin <==> before == 0 && frames[n].fingers > 0
            &&& frames[n].phase is End <==> before > 0 && frames[n].fingers == 0
        }),
    decreases events.len(),
{
    let frames = frames_of(events);
    let earlier = frames_of(events.drop_last());
    if n < earlier.len() {
        law_phases_follow_the_fingers(events.drop_last(), n);
        assert(frames.take(n) =~= earlier.take(n));
    } else {
        lemma_tracker_remembers(events.drop_last());
        assert(frames.take(n) =~= earlier);
    }
}

/// The first frame from `from` on, up to `to`, that ends a session.
proof fn lemma_an_end_comes(events: Seq<RawInputEvent>, from: int, to: int) -> (at: int)
    requires
        0 <= from < to < frames_of(events).len(),
        frames_of(events)[from].fingers > 0,
        frames_of(events)[to].fingers == 0,
    ensures
        from < at <= to,
        frames_of(events)[at].phase is End,
    decreases to - from,
{
    let frames = frames_of(events);
    law_phases_follow_the_fingers(events, from + 1);
    assert(frames.take(from + 1).last() == frames[from]);
    if frames[from + 1].fingers == 0 {
        from + 1
    } else {
        lemma_an_end_comes(events, from + 1, to)
    }
}

/// A frame with fingers after one without: a session begins in between.
proof fn lemma_a_begin_comes(events: Seq<RawInputEvent>, from: int, to: int) -> (at: int)
    requires
        0 <= from < to < frames_of(events).len(),
        frames_of(events)[from].fingers == 0,
        frames_of(events)[to].fingers > 0,
    ensures
        from < at <= to,
        frames_of(events)[at].phase is Begin,
    decreases to - from,
{
    let frames = frames_of(events);
    law_phases_follow_the_fingers(events, from + 1);
    assert(frames.take(from + 1).last() == frames[from]);
    if frames[from + 1].fingers > 0 {
        from + 1
    } else {
        lemma_a_begin_comes(events, from + 1, to)
    }
}

/// Between two frames that begin a session, with no such frame between them,
/// there is exactly one that ends one.
pub proof fn law_sessions_end_once(events: Seq<RawInputEvent>, first: int, second: int) -> (end:
    int)
    requires
        0 <= first < second < frames_of(events).len(),
        frames_of(events)[first].phase is Begin,
        frames_of(events)[second].phase is Begin,
        forall|n: int| first < n < second ==> !((#[trigger] frames_of(events)[n]).phase is Begin),
    ensures
        first < end < second,
        forall|n: int|
            first < n < second ==> ((#[trigger] frames_of(events)[n]).phase is End <==> n == end),
{
    let frames = frames_of(events);
    law_phases_follow_the_fingers(events, first);
    law_phases_follow_the_fingers(events, second);
    assert(frames.take(second).last() == frames[second - 1]);
    let end = lemma_an_end_comes(events, first, second - 1);
    assert forall|n: int| first < n < second && n != end implies !((
    #[trigger] frames[n]).phase is End) by {
        if frames[n].phase is End {
            let low = if n < end {
                n
            } else {
                end
            };
            let high = if n < end {
                end
            } else {
                n
            };
            law_phases_follow_the_fingers(events, low);
            law_phases_follow_the_fingers(events, high);
            assert(frames.take(high).last() == frames[high - 1]);
            if low < high - 1 {
                let begun = lemma_a_begin_comes(events, low, high - 1);
                assert(frames[begun].phase is Begin);
            }
        }
    }
    end
}

/// Whether an event is news of the contacts: a tracking ID, a position, or a tool
/// key.
pub open spec fn is_news(event: RawInputEvent) -> bool {
    match crate::codes::kind_of(event.event_type@) {
        EventKind::Absolute => event.code == ABS_MT_TRACKING_ID || event.code == ABS_MT_POSITION_X
            || event.code == ABS_MT_POSITION_Y,
        EventKind::Key => crate::codes::tool_fingers_of(event.code) is Some,
        _ => false,
    }
}

/// Whether an event is a report.
pub open spec fn is_report(event: RawInputEvent) -> bool {
    crate::codes::kind_of(event.event_type@) is Synchronization && event.code == SYN_REPORT
}

/// Whether the event at a place is news that no report has followed.
pub open spec fn is_pending(events: Seq<RawInputEvent>, place: int) -> bool {
    &&& 0 <= place < events.len()
    &&& is_news(events[place])
    &&& forall|later: int| place < later < events.len() ==> !(#[trigger] is_report(events[later]))
}

/// Whether there is news since the last report.
pub open spec fn has_news(events: Seq<RawInputEvent>) -> bool {
    exists|place: int| is_pending(events, place)
}

proof fn lemma_dirty_means_news(events: Seq<RawInputEvent>)
    ensures
        tracker_after(events).dirty <==> has_news(events),
    decreases events.len(),
{
    if events.len() == 0 {
        assert forall|place: int| !is_pending(events, place) by {}
    } else {
        let earlier = events.drop_last();
        let last = events.len() - 1;
        lemma_dirty_means_news(earlier);
        if is_report(events.last()) {
            assert forall|place: int| !is_pending(events, place) by {
                if is_pending(events, place) {
                    assert(place == last || is_report(events[last]));
                }
            }
        } else if is_news(events.last()) {
            assert(is_pending(events, last));
        } else {
            if has_news(earlier) {
                let place = choose|place: int| is_pending(earlier, place);
                assert forall|later: int| place < later < events.len() implies !(
                #[trigger] is_report(events[later])) by {
                    if later < last {
                        assert(!is_report(earlier[later]));
                    }
                }
                assert(is_pending(events, place));
            }
            if has_news(events) {
                let place = choose|place: int| is_pending(events, place);
                assert forall|later: int| place < later < earlier.len() implies !(
                #[trigger] is_report(earlier[later])) by {
                    assert(!is_report(events[later]));
                }
                assert(is_pending(earlier, place));
            }
        }
    }
}

/// An event gives a frame exactly when it is a report and there is news since the
/// report before it.
pub proof fn law_reports_with_news_give_frames(events: Seq<RawInputEvent>, event: RawInputEvent)
    ensures
        tracker_after(events).closes_frame(event) <==> is_report(event) && has_news(events),
        frames_of(events.push(event)).len() == frames_of(events).len() + if is_report(event)
            && has_news(events) {
            1int
        } else {
            0int
        },
{
    lemma_dirty_means_news(events);
    assert(events.push(event).drop_last() =~= events);
}

proof fn lemma_sequence_counts(events: Seq<RawInputEvent>)
    ensures
        tracker_after(events).sequence == frames_of(events).len() % 0x1_0000_0000_0000_0000,
    decreases events.len(),
{
    if events.len() > 0 {
        lemma_sequence_counts(events.drop_last());
    }
}

/// The frames of a stream are numbered from one on, one after the other, and
/// start over at zero where the counter is used up.
pub proof fn law_frames_are_numbered(events: Seq<RawInputEvent>, n: int)
    requires
        0 <= n < frames_of(events).len(),
    ensures
        frames_of(events)[n].sequence == (n + 1) % 0x1_0000_0000_0000_0000,
        n < u64::MAX ==> frames_of(events)[n].sequence == n + 1,
    decreases events.len(),
{
    let earlier = frames_of(events.drop_last());
    if n < earlier.len() {
        law_frames_are_numbered(events.drop_last(), n);
    } else {
        lemma_sequence_counts(events.drop_last());
    }
}

/// What is known of a slot.
pub open spec fn known_of(slots: Map<u16, SlotState>, slot: u16) -> SlotState {
    if slots.contains_key(slot) {
        slots[slot]
    } else {
        unknown_slot()
    }
}

/// After a stream of raw events a slot has an active contact exactly when the last
/// tracking ID that came while the slot was selected is not negative. What is known
/// of the slot is that ID, and the last X and the last Y that came while the slot was
/// selected since its last tracking ID.
pub proof fn law_slots_follow_the_events(events: Seq<RawInputEvent>, slot: u16)
    ensures
        ({
            let known = known_of(tracker_after(events).slots, slot);
            &&& known.tracking_id == contact_in_slot(events, slot)
            &&& known.x == since_tracking(events, slot, ABS_MT_POSITION_X)
            &&& known.y == since_tracking(events, slot, ABS_MT_POSITION_Y)
        }),
        tracker_after(events).current_slot == selected_slot(events),
    decreases events.len(),
{
    if events.len() > 0 {
        law_slots_follow_the_events(events.drop_last(), slot);
        lemma_names_differ();
    }
}

/// An event changes what is known of the selected slot only, and only an event of
/// an absolute axis changes any.
pub proof fn law_events_concern_one_slot(
    tracker: TrackerView,
    event: RawInputEvent,
    slot: u16,
)
    ensures
        slot != tracker.current_slot ==> known_of(tracker.pushed(event).slots, slot) == known_of(
            tracker.slots,
            slot,
        ),
        event.event_type@ != "ABSOLUTE"@ ==> tracker.pushed(event).slots == tracker.slots,
{
}

proof fn lemma_tool_keys_follow_the_events(events: Seq<RawInputEvent>)
    ensures
        ({
            let keys = tracker_after(events).tool_keys;
            &&& keys.len() == 6
            &&& keys[1] == key_is_down(events, crate::codes::BTN_TOOL_FINGER)
            &&& keys[2] == key_is_down(events, crate::codes::BTN_TOOL_DOUBLETAP)
            &&& keys[3] == key_is_down(events, crate::codes::BTN_TOOL_TRIPLETAP)
            &&& keys[4] == key_is_down(events, crate::codes::BTN_TOOL_QUADTAP)
            &&& keys[5] == key_is_down(events, crate::codes::BTN_TOOL_QUINTTAP)
        }),
    decreases events.len(),
{
    if events.len() > 0 {
        lemma_tool_keys_follow_the_events(events.drop_last());
        lemma_names_differ();
    }
}

/// The frame that a report gives after a stream of raw events lists exactly the
/// slots whose last tracking ID is not negative, each with that ID and with the last
/// X and Y that came for it since. It carries the time of the report, and reports the
/// greatest finger count whose tool key is down. Its fingers are the greater of the
/// reported ones and the listed contacts, up to what a frame can hold.
pub proof fn law_frames_follow_the_events(
    events: Seq<RawInputEvent>,
    report: RawInputEvent,
    slot: u16,
)
    requires
        is_sync(report),
        has_news(events),
    ensures
        frames_of(events.push(report)).len() == frames_of(events).len() + 1,
        ({
            let frame = frames_of(events.push(report)).last();
            let reported = match frame.reported_fingers {
                Some(count) => count as int,
                None => 0,
            };
            let greater = if reported >= frame.contacts.len() {
                reported
            } else {
                frame.contacts.len() as int
            };
            &&& frame.timestamp_micros == report.timestamp_micros
            &&& (exists|i: int|
                0 <= i < frame.contacts.len() && (#[trigger] frame.contacts[i]).slot == slot)
                <==> contact_in_slot(events, slot) is Some
            &&& forall|i: int|
                0 <= i < frame.contacts.len() && (#[trigger] frame.contacts[i]).slot == slot ==> {
                    &&& Some(frame.contacts[i].tracking_id) == contact_in_slot(events, slot)
                    &&& frame.contacts[i].x == since_tracking(events, slot, ABS_MT_POSITION_X)
                    &&& frame.contacts[i].y == since_tracking(events, slot, ABS_MT_POSITION_Y)
                }
            &&& frame.reported_fingers != Some(0u8)
            &&& reports_fingers(events, reported)
            &&& frame.tracked_contacts == frame.contacts.len()
            &&& frame.fingers == if greater > 255 {
                255
            } else {
                greater
            }
        }),
{
    let tracker = tracker_after(events);
    let all = events.push(report);
    assert(all.drop_last() =~= events);
    lemma_names_differ();
    law_reports_with_news_give_frames(events, report);
    law_slots_follow_the_events(events, slot);
    lemma_tool_keys_follow_the_events(events);
    lemma_contact_count(tracker.slots, 0x10000);
    let frame = frames_of(all).last();
    assert(frame == tracker.frame(report.timestamp_micros));
    assert forall|i: int|
        0 <= i < frame.contacts.len() && (#[trigger] frame.contacts[i]).slot == slot implies {
        &&& Some(frame.contacts[i].tracking_id) == contact_in_slot(events, slot)
        &&& frame.contacts[i].x == since_tracking(events, slot, ABS_MT_POSITION_X)
        &&& frame.contacts[i].y == since_tracking(events, slot, ABS_MT_POSITION_Y)
    } by {
        lemma_listed_contact(tracker.slots, i, 0x10000);
    }
    if contact_in_slot(events, slot) is Some {
        let i = lemma_contact_listed(tracker.slots, slot, 0x10000);
        assert(frame.contacts[i].slot == slot);
    }
}

/// An event is news exactly when it is a tracking ID, an X or a Y of a contact, or a
/// key that reports one to five fingers.
pub proof fn law_news(event: RawInputEvent)
    ensures
        is_news(event) <==> is_axis(event, ABS_MT_TRACKING_ID) || is_axis(event, ABS_MT_POSITION_X)
            || is_axis(event, ABS_MT_POSITION_Y) || is_key(event, crate::codes::BTN_TOOL_FINGER)
            || is_key(event, crate::codes::BTN_TOOL_DOUBLETAP) || is_key(
            event,
            crate::codes::BTN_TOOL_TRIPLETAP,
        ) || is_key(event, crate::codes::BTN_TOOL_QUADTAP) || is_key(
            event,
            crate::codes::BTN_TOOL_QUINTTAP,
        ),
        is_report(event) <==> is_sync(event),
{
    lemma_names_differ();
}

/// A mean takes in each contact with complete coordinates, one by one: a further
/// such contact adds its x to the one total, its y to the other and itself to the
/// count; a contact without complete coordinates changes nothing; and there is no
/// mean of nothing.
pub proof fn law_means_take_in_each_contact(contacts: Seq<TouchContact>, contact: TouchContact)
    requires
        contacts.len() < 0x10000,
    ensures
        mean(Seq::empty()) is None,
        contact.x is None || contact.y is None ==> mean(contacts.push(contact)) == mean(contacts),
        contact.x is Some && contact.y is Some ==> {
            let after = mean(contacts.push(contact));
            let before = mean(contacts);
            &&& after is Some
            &&& before is None ==> after->0.x_total == contact.x->0 && after->0.y_total
                == contact.y->0 && after->0.contacts == 1
            &&& before is Some ==> after->0.x_total == before->0.x_total + contact.x->0
                && after->0.y_total == before->0.y_total + contact.y->0 && after->0.contacts
                == before->0.contacts + 1
        },
        located_ids(Seq::empty()).len() == 0,
        located_ids(contacts.push(contact)) == if contact.x is Some && contact.y is Some {
            located_ids(contacts).push((contact.slot, contact.tracking_id))
        } else {
            located_ids(contacts)
        },
{
    let all = contacts.push(contact);
    assert(all.drop_last() =~= contacts);
    lemma_sums_are_bounded(contacts);
    lemma_sums_are_bounded(all);
    lemma_no_sum_of_nothing(contacts);
}

proof fn lemma_no_sum_of_nothing(contacts: Seq<TouchContact>)
    ensures
        located_ids(contacts).len() == 0 ==> x_sum(contacts) == 0 && y_sum(contacts) == 0,
    decreases contacts.len(),
{
    if contacts.len() > 0 {
        lemma_no_sum_of_nothing(contacts.drop_last());
    }
}

/// The mean that a frame carries is that of its contacts. Where the fingers and the
/// coordinate-bearing contacts are those of the frame before, a frame carries the
/// time since that frame, where both have one and time did not go back.
pub proof fn law_frames_carry_their_mean_and_interval(
    events: Seq<RawInputEvent>,
    report: RawInputEvent,
)
    requires
        is_sync(report),
        has_news(events),
    ensures
        ({
            let earlier = frames_of(events);
            let frame = frames_of(events.push(report)).last();
            let same = frame.fingers > 0 && frame.fingers == last_fingers(earlier) && located_ids(
                frame.contacts,
            ) == last_contacts(earlier);
            &&& frame.centroid == mean(frame.contacts)
            &&& frame.frame_interval_micros is Some <==> same
                && earlier.last().timestamp_micros is Some && report.timestamp_micros is Some
                && earlier.last().timestamp_micros->0 <= report.timestamp_micros->0
            &&& frame.frame_interval_micros matches Some(interval) ==> earlier.last(
            ).timestamp_micros->0 + interval == report.timestamp_micros->0
        }),
{
    assert(events.push(report).drop_last() =~= events);
    lemma_names_differ();
    law_reports_with_news_give_frames(events, report);
    lemma_tracker_remembers(events);
}

} // verus!
