//! The contact state that a physical touchpad reports.

use std::collections::BTreeMap;
use vstd::prelude::*;

use crate::codes::{
    event_kind, highest_tool_down, tool_fingers, EventKind, ABS_MT_POSITION_X, ABS_MT_POSITION_Y,
    ABS_MT_SLOT, ABS_MT_TOOL_TYPE, ABS_MT_TRACKING_ID, ABS_X, ABS_Y, BTN_LEFT,
};
use crate::codes::{
    BTN_TOOL_DOUBLETAP, BTN_TOOL_FINGER, BTN_TOOL_QUADTAP, BTN_TOOL_QUINTTAP, BTN_TOOL_TRIPLETAP,
};
use crate::history::{
    contact_in_slot, key_is_down, last_axis, last_time, lemma_names_differ, reports_fingers,
    selected_slot, since_tracking,
};
use crate::raw_event::RawInputEvent;

verus! {

#[derive(Debug, Clone, Copy, PartialEq, Eq, Structural)]
pub struct PhysicalContact {
    pub tracking_id: i32,
    pub x: Option<i32>,
    pub y: Option<i32>,
    pub tool_type: Option<i32>,
}

/// What a [`PhysicalSnapshot`] holds.
#[verifier::ext_equal]
pub struct SnapshotView {
    pub contacts: Map<u16, PhysicalContact>,
    pub abs_x: Option<i32>,
    pub abs_y: Option<i32>,
    pub button_down: bool,
    pub reported_fingers: usize,
}

impl SnapshotView {
    /// A touchpad that nothing touches.
    pub open spec fn empty() -> SnapshotView {
        SnapshotView {
            contacts: Map::empty(),
            abs_x: None,
            abs_y: None,
            button_down: false,
            reported_fingers: 0,
        }
    }

    /// The greater of the tracked and the reported finger count.
    pub open spec fn fingers(self) -> nat {
        if self.reported_fingers >= self.contacts.len() {
            self.reported_fingers as nat
        } else {
            self.contacts.len()
        }
    }

    pub open spec fn wf(self) -> bool {
        self.contacts.dom().finite()
    }
}

/// The state of a touchpad at the end of a frame.
#[derive(Debug, Clone)]
pub struct PhysicalSnapshot {
    pub contacts: BTreeMap<u16, PhysicalContact>,
    pub abs_x: Option<i32>,
    pub abs_y: Option<i32>,
    pub button_down: bool,
    pub reported_fingers: usize,
}

impl View for PhysicalSnapshot {
    type V = SnapshotView;

    open spec fn view(&self) -> SnapshotView {
        SnapshotView {
            contacts: self.contacts@,
            abs_x: self.abs_x,
            abs_y: self.abs_y,
            button_down: self.button_down,
            reported_fingers: self.reported_fingers,
        }
    }
}

impl PhysicalSnapshot {
    pub fn fingers(&self) -> (fingers: usize)
        ensures
            fingers == self@.fingers(),
    {
        let active: usize = self.contacts.len();
        if self.reported_fingers >= active {
            self.reported_fingers
        } else {
            active
        }
    }

    pub fn empty() -> (snapshot: PhysicalSnapshot)
        ensures
            snapshot@ == SnapshotView::empty(),
    {
        PhysicalSnapshot {
            contacts: BTreeMap::new(),
            abs_x: None,
            abs_y: None,
            button_down: false,
            reported_fingers: 0,
        }
    }
}

/// What a [`PhysicalState`] holds.
#[verifier::ext_equal]
pub struct PhysicalView {
    pub current_slot: u16,
    pub contacts: Map<u16, PhysicalContact>,
    pub abs_x: Option<i32>,
    pub abs_y: Option<i32>,
    pub button_down: bool,
    pub tool_keys: Seq<bool>,
    pub latest_timestamp_micros: Option<u128>,
}

impl PhysicalView {
    /// Before any event.
    pub open spec fn initial() -> PhysicalView {
        PhysicalView {
            current_slot: 0,
            contacts: Map::empty(),
            abs_x: None,
            abs_y: None,
            button_down: false,
            tool_keys: seq![false, false, false, false, false, false],
            latest_timestamp_micros: None,
        }
    }

    /// The current slot's contact replaced, where it is active.
    pub open spec fn with_current(self, contact: PhysicalContact) -> PhysicalView {
        if self.contacts.contains_key(self.current_slot) {
            PhysicalView { contacts: self.contacts.insert(self.current_slot, contact), ..self }
        } else {
            self
        }
    }

    /// An absolute-axis event.
    pub open spec fn absolute(self, code: u16, value: i32) -> PhysicalView {
        let current = self.contacts[self.current_slot];
        if code == ABS_X {
            PhysicalView { abs_x: Some(value), ..self }
        } else if code == ABS_Y {
            PhysicalView { abs_y: Some(value), ..self }
        } else if code == ABS_MT_SLOT {
            if value >= 0 {
                PhysicalView { current_slot: value as u16, ..self }
            } else {
                self
            }
        } else if code == ABS_MT_TRACKING_ID {
            if value < 0 {
                PhysicalView { contacts: self.contacts.remove(self.current_slot), ..self }
            } else {
                PhysicalView {
                    contacts: self.contacts.insert(
                        self.current_slot,
                        PhysicalContact { tracking_id: value, x: None, y: None, tool_type: None },
                    ),
                    ..self
                }
            }
        } else if code == ABS_MT_POSITION_X {
            self.with_current(PhysicalContact { x: Some(value), ..current })
        } else if code == ABS_MT_POSITION_Y {
            self.with_current(PhysicalContact { y: Some(value), ..current })
        } else if code == ABS_MT_TOOL_TYPE {
            self.with_current(PhysicalContact { tool_type: Some(value), ..current })
        } else {
            self
        }
    }

    /// A key event.
    pub open spec fn key(self, code: u16, value: i32) -> PhysicalView {
        if code == BTN_LEFT {
            PhysicalView { button_down: value != 0, ..self }
        } else {
            match crate::codes::tool_fingers_of(code) {
                Some(fingers) => PhysicalView {
                    tool_keys: self.tool_keys.update(fingers as int, value != 0),
                    ..self
                },
                None => self,
            }
        }
    }

    /// The state after one raw event.
    pub open spec fn apply(self, event: RawInputEvent) -> PhysicalView {
        let timed = PhysicalView {
            latest_timestamp_micros: if event.timestamp_micros is Some {
                event.timestamp_micros
            } else {
                self.latest_timestamp_micros
            },
            ..self
        };
        match crate::codes::kind_of(event.event_type@) {
            EventKind::Absolute => timed.absolute(event.code, event.value),
            EventKind::Key => timed.key(event.code, event.value),
            _ => timed,
        }
    }

    pub open spec fn snapshot(self) -> SnapshotView {
        SnapshotView {
            contacts: self.contacts,
            abs_x: self.abs_x,
            abs_y: self.abs_y,
            button_down: self.button_down,
            reported_fingers: crate::codes::highest_tool(self.tool_keys),
        }
    }

    pub open spec fn wf(self) -> bool {
        &&& self.contacts.dom().finite()
        &&& self.tool_keys.len() == 6
    }
}

/// Follows the multitouch protocol events of one physical touchpad.
#[derive(Debug)]
pub struct PhysicalState {
    pub current_slot: u16,
    pub contacts: BTreeMap<u16, PhysicalContact>,
    pub abs_x: Option<i32>,
    pub abs_y: Option<i32>,
    pub button_down: bool,
    pub tool_keys: [bool; 6],
    pub latest_timestamp_micros: Option<u128>,
}

impl View for PhysicalState {
    type V = PhysicalView;

    open spec fn view(&self) -> PhysicalView {
        PhysicalView {
            current_slot: self.current_slot,
            contacts: self.contacts@,
            abs_x: self.abs_x,
            abs_y: self.abs_y,
            button_down: self.button_down,
            tool_keys: self.tool_keys@,
            latest_timestamp_micros: self.latest_timestamp_micros,
        }
    }
}

impl PhysicalState {
    pub fn new() -> (state: PhysicalState)
        ensures
            state@ == PhysicalView::initial(),
    {
        PhysicalState {
            current_slot: 0,
            contacts: BTreeMap::new(),
            abs_x: None,
            abs_y: None,
            button_down: false,
            tool_keys: [false, false, false, false, false, false],
            latest_timestamp_micros: None,
        }
    }

    fn apply_absolute(&mut self, code: u16, value: i32)
        ensures
            final(self)@ == old(self)@.absolute(code, value),
    {
        let slot: u16 = self.current_slot;
        if code == ABS_X {
            self.abs_x = Some(value);
        } else if code == ABS_Y {
            self.abs_y = Some(value);
        } else if code == ABS_MT_SLOT {
            if value >= 0 {
                self.current_slot = #[verifier::truncate] (value as u16);
            }
        } else if code == ABS_MT_TRACKING_ID {
            if value < 0 {
                self.contacts.remove(&slot);
            } else {
                self.contacts.insert(
                    slot,
                    PhysicalContact { tracking_id: value, x: None, y: None, tool_type: None },
                );
            }
        } else if code == ABS_MT_POSITION_X || code == ABS_MT_POSITION_Y || code
            == ABS_MT_TOOL_TYPE {
            let current: Option<PhysicalContact> = match self.contacts.get(&slot) {
                Some(contact) => Some(*contact),
                None => None,
            };
            if let Some(contact) = current {
                let mut contact = contact;
                if code == ABS_MT_POSITION_X {
                    contact.x = Some(value);
                } else if code == ABS_MT_POSITION_Y {
                    contact.y = Some(value);
                } else {
                    contact.tool_type = Some(value);
                }
                self.contacts.insert(slot, contact);
            }
        }
    }

    fn apply_key(&mut self, code: u16, value: i32)
        ensures
            final(self)@ == old(self)@.key(code, value),
    {
        if code == BTN_LEFT {
            self.button_down = value != 0;
        } else if let Some(fingers) = tool_fingers(code) {
            self.tool_keys[fingers] = value != 0;
        }
    }

    /// Takes in one raw event.
    pub fn apply(&mut self, event: &RawInputEvent)
        ensures
            final(self)@ == old(self)@.apply(*event),
    {
        if event.timestamp_micros.is_some() {
            self.latest_timestamp_micros = event.timestamp_micros;
        }
        match event_kind(event.event_type.as_str()) {
            EventKind::Absolute => self.apply_absolute(event.code, event.value),
            EventKind::Key => self.apply_key(event.code, event.value),
            _ => {},
        }
    }

    /// The state as a frame sees it.
    pub fn snapshot(&self) -> (snapshot: PhysicalSnapshot)
        ensures
            snapshot@ == self@.snapshot(),
    {
        PhysicalSnapshot {
            contacts: self.contacts.clone(),
            abs_x: self.abs_x,
            abs_y: self.abs_y,
            button_down: self.button_down,
            reported_fingers: highest_tool_down(&self.tool_keys),
        }
    }
}

/// The state after a stream of raw events.
pub open spec fn physical_after(events: Seq<RawInputEvent>) -> PhysicalView
    decreases events.len(),
{
    if events.len() == 0 {
        PhysicalView::initial()
    } else {
        physical_after(events.drop_last()).apply(events.last())
    }
}

/// After a stream of raw events a slot holds a contact exactly when the last
/// tracking ID that came while the slot was selected is not negative. The contact
/// has that ID, and as its x, its y and its tool the last values of these axes that
/// came while the slot was selected since that ID.
pub proof fn law_contacts_follow_the_events(events: Seq<RawInputEvent>, slot: u16)
    ensures
        ({
            let contacts = physical_after(events).contacts;
            &&& contacts.contains_key(slot) <==> contact_in_slot(events, slot) is Some
            &&& contacts.contains_key(slot) ==> {
                &&& Some(contacts[slot].tracking_id) == contact_in_slot(events, slot)
                &&& contacts[slot].x == since_tracking(events, slot, ABS_MT_POSITION_X)
                &&& contacts[slot].y == since_tracking(events, slot, ABS_MT_POSITION_Y)
                &&& contacts[slot].tool_type == since_tracking(events, slot, ABS_MT_TOOL_TYPE)
            }
        }),
        physical_after(events).current_slot == selected_slot(events),
    decreases events.len(),
{
    if events.len() > 0 {
        law_contacts_follow_the_events(events.drop_last(), slot);
        lemma_names_differ();
    }
}

/// After a stream of raw events the pointer position, the button and the time are
/// the last ones that came, and the reported finger count is the greatest one whose
/// tool key is down.
pub proof fn law_snapshots_follow_the_events(events: Seq<RawInputEvent>)
    ensures
        ({
            let snapshot = physical_after(events).snapshot();
            &&& snapshot.contacts == physical_after(events).contacts
            &&& snapshot.abs_x == last_axis(events, ABS_X)
            &&& snapshot.abs_y == last_axis(events, ABS_Y)
            &&& snapshot.button_down == key_is_down(events, BTN_LEFT)
            &&& reports_fingers(events, snapshot.reported_fingers as int)
        }),
        physical_after(events).latest_timestamp_micros == last_time(events),
{
    lemma_last_values(events);
}

proof fn lemma_last_values(events: Seq<RawInputEvent>)
    ensures
        ({
            let state = physical_after(events);
            &&& state.abs_x == last_axis(events, ABS_X)
            &&& state.abs_y == last_axis(events, ABS_Y)
            &&& state.button_down == key_is_down(events, BTN_LEFT)
            &&& state.latest_timestamp_micros == last_time(events)
            &&& state.tool_keys.len() == 6
            &&& state.tool_keys[1] == key_is_down(events, BTN_TOOL_FINGER)
            &&& state.tool_keys[2] == key_is_down(events, BTN_TOOL_DOUBLETAP)
            &&& state.tool_keys[3] == key_is_down(events, BTN_TOOL_TRIPLETAP)
            &&& state.tool_keys[4] == key_is_down(events, BTN_TOOL_QUADTAP)
            &&& state.tool_keys[5] == key_is_down(events, BTN_TOOL_QUINTTAP)
        }),
    decreases events.len(),
{
    if events.len() > 0 {
        lemma_last_values(events.drop_last());
        lemma_names_differ();
    }
}

/// An event changes the contact of the selected slot only, and only an event of an
/// absolute axis changes any.
pub proof fn law_events_concern_one_contact(
    state: PhysicalView,
    event: RawInputEvent,
    slot: u16,
)
    ensures
        ({
            let next = state.apply(event).contacts;
            &&& slot != state.current_slot ==> {
                &&& next.contains_key(slot) == state.contacts.contains_key(slot)
                &&& next.contains_key(slot) ==> next[slot] == state.contacts[slot]
            }
            &&& event.event_type@ != "ABSOLUTE"@ ==> next == state.contacts
        }),
{
}

} // verus!
