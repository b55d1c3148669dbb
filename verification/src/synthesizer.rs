//! Turns the contact state that should be visible into the events that make a
//! virtual touchpad show it.

use std::collections::BTreeMap;
use vstd::prelude::*;

use crate::codes::{
    tool_key, ABS_MT_POSITION_X, ABS_MT_POSITION_Y, ABS_MT_SLOT, ABS_MT_TOOL_TYPE,
    ABS_MT_TRACKING_ID, ABS_X, ABS_Y, BTN_LEFT, BTN_TOUCH,
};
use crate::output::{absolute_event, key_event, VirtualEvent};
use crate::physical::{PhysicalContact, PhysicalSnapshot};
use crate::slots::sorted_slots;

verus! {

/// A contact as the virtual touchpad shows it.
#[derive(Debug, Clone, Copy, PartialEq, Eq, Structural)]
pub struct VirtualContact {
    pub physical_tracking_id: i32,
    pub x: Option<i32>,
    pub y: Option<i32>,
    pub tool_type: i32,
}

/// The number of slots that a slot number can name.
pub open spec fn slot_count() -> nat {
    0x1_0000
}

pub open spec fn tool_type_of(contact: PhysicalContact) -> i32 {
    match contact.tool_type {
        Some(tool_type) => tool_type,
        None => 0,
    }
}

/// A physical contact as the virtual touchpad shows it.
pub open spec fn mirrored(contact: PhysicalContact) -> VirtualContact {
    VirtualContact {
        physical_tracking_id: contact.tracking_id,
        x: contact.x,
        y: contact.y,
        tool_type: tool_type_of(contact),
    }
}

/// The wanted contacts as the virtual touchpad shows them.
pub open spec fn mirrored_all(desired: Map<u16, PhysicalContact>) -> Map<u16, VirtualContact> {
    Map::new(|slot: u16| desired.contains_key(slot), |slot: u16| mirrored(desired[slot]))
}

/// Whether the contact that a slot shows is the one that it should show.
pub open spec fn keeps(
    shown: Map<u16, VirtualContact>,
    desired: Map<u16, PhysicalContact>,
    slot: u16,
) -> bool {
    &&& shown.contains_key(slot)
    &&& desired.contains_key(slot)
    &&& shown[slot].physical_tracking_id == desired[slot].tracking_id
}

/// The shown contacts that stay.
pub open spec fn kept(
    shown: Map<u16, VirtualContact>,
    desired: Map<u16, PhysicalContact>,
) -> Map<u16, VirtualContact> {
    Map::new(|slot: u16| keeps(shown, desired, slot), |slot: u16| shown[slot])
}

/// What ends the contact of one slot, where it does not stay.
pub open spec fn slot_release(
    shown: Map<u16, VirtualContact>,
    desired: Map<u16, PhysicalContact>,
    slot: u16,
) -> Seq<VirtualEvent> {
    if shown.contains_key(slot) && !keeps(shown, desired, slot) {
        seq![
            crate::output::absolute(ABS_MT_SLOT, slot as i32),
            crate::output::absolute(ABS_MT_TRACKING_ID, (-1) as i32),
        ]
    } else {
        Seq::empty()
    }
}

/// The releases of all slots below a bound, in ascending order.
pub open spec fn release_events(
    shown: Map<u16, VirtualContact>,
    desired: Map<u16, PhysicalContact>,
    below: nat,
) -> Seq<VirtualEvent>
    decreases below,
{
    if below == 0 {
        Seq::empty()
    } else {
        release_events(shown, desired, (below - 1) as nat) + slot_release(
            shown,
            desired,
            (below - 1) as u16,
        )
    }
}

/// A position event, where the position is known.
pub open spec fn position(code: u16, value: Option<i32>) -> Seq<VirtualEvent> {
    match value {
        Some(value) => seq![crate::output::absolute(code, value)],
        None => Seq::empty(),
    }
}

/// What starts a contact in a free slot.
pub open spec fn slot_begin(slot: u16, contact: PhysicalContact, id: i32) -> Seq<VirtualEvent> {
    seq![
        crate::output::absolute(ABS_MT_SLOT, slot as i32),
        crate::output::absolute(ABS_MT_TRACKING_ID, id),
        crate::output::absolute(ABS_MT_TOOL_TYPE, tool_type_of(contact)),
    ] + position(ABS_MT_POSITION_X, contact.x) + position(ABS_MT_POSITION_Y, contact.y)
}

/// What brings a contact that stays up to date: nothing where nothing changed,
/// else a slot selector and the changes.
pub open spec fn slot_update(
    slot: u16,
    shown: VirtualContact,
    contact: PhysicalContact,
) -> Seq<VirtualEvent> {
    let selector = if shown.tool_type != tool_type_of(contact) || shown.x != contact.x || shown.y
        != contact.y {
        seq![crate::output::absolute(ABS_MT_SLOT, slot as i32)]
    } else {
        Seq::empty()
    };
    let tool = if shown.tool_type != tool_type_of(contact) {
        seq![crate::output::absolute(ABS_MT_TOOL_TYPE, tool_type_of(contact))]
    } else {
        Seq::empty()
    };
    let x = if shown.x != contact.x {
        position(ABS_MT_POSITION_X, contact.x)
    } else {
        Seq::empty()
    };
    let y = if shown.y != contact.y {
        position(ABS_MT_POSITION_Y, contact.y)
    } else {
        Seq::empty()
    };
    selector + tool + x + y
}

/// The tracking ID to hand out after `id`.
pub open spec fn following_id(id: i32) -> i32 {
    if id == i32::MAX {
        1
    } else {
        (id + 1) as i32
    }
}

/// Whether a slot has to start a contact.
pub open spec fn begins(
    shown: Map<u16, VirtualContact>,
    desired: Map<u16, PhysicalContact>,
    slot: u16,
) -> bool {
    desired.contains_key(slot) && !keeps(shown, desired, slot)
}

/// The tracking ID to hand out next once all slots below a bound are served.
pub open spec fn id_after(
    shown: Map<u16, VirtualContact>,
    desired: Map<u16, PhysicalContact>,
    first: i32,
    below: nat,
) -> i32
    decreases below,
{
    if below == 0 {
        first
    } else {
        let id = id_after(shown, desired, first, (below - 1) as nat);
        if begins(shown, desired, (below - 1) as u16) {
            following_id(id)
        } else {
            id
        }
    }
}

/// What brings one slot to the wanted contact after the releases.
pub open spec fn slot_contact(
    shown: Map<u16, VirtualContact>,
    desired: Map<u16, PhysicalContact>,
    slot: u16,
    id: i32,
) -> Seq<VirtualEvent> {
    if begins(shown, desired, slot) {
        slot_begin(slot, desired[slot], id)
    } else if keeps(shown, desired, slot) {
        slot_update(slot, shown[slot], desired[slot])
    } else {
        Seq::empty()
    }
}

/// The wanted contacts of all slots below a bound, in ascending order.
pub open spec fn contact_events(
    shown: Map<u16, VirtualContact>,
    desired: Map<u16, PhysicalContact>,
    first: i32,
    below: nat,
) -> Seq<VirtualEvent>
    decreases below,
{
    if below == 0 {
        Seq::empty()
    } else {
        contact_events(shown, desired, first, (below - 1) as nat) + slot_contact(
            shown,
            desired,
            (below - 1) as u16,
            id_after(shown, desired, first, (below - 1) as nat),
        )
    }
}

/// A key event where a key has to change.
pub open spec fn key_change(code: u16, shown: bool, desired: bool) -> Seq<VirtualEvent> {
    if shown != desired {
        seq![
            crate::output::key(
                code,
                if desired {
                    1
                } else {
                    0
                },
            ),
        ]
    } else {
        Seq::empty()
    }
}

/// A tool key event, where the finger count has a tool key.
pub open spec fn tool_event(fingers: nat, value: i32) -> Seq<VirtualEvent> {
    match crate::codes::tool_key_of(fingers) {
        Some(code) => seq![crate::output::key(code, value)],
        None => Seq::empty(),
    }
}

/// The tool keys, where the finger count changes.
pub open spec fn tool_change(shown: nat, desired: nat) -> Seq<VirtualEvent> {
    if shown != desired {
        tool_event(shown, 0) + tool_event(desired, 1)
    } else {
        Seq::empty()
    }
}

/// A pointer position event, where the position changes to a known one.
pub open spec fn axis_change(code: u16, shown: Option<i32>, desired: Option<i32>) -> Seq<
    VirtualEvent,
> {
    if shown != desired {
        position(code, desired)
    } else {
        Seq::empty()
    }
}

/// What a [`VirtualSynthesizer`] holds.
#[verifier::ext_equal]
pub struct SynthesizerView {
    pub contacts: Map<u16, VirtualContact>,
    pub abs_x: Option<i32>,
    pub abs_y: Option<i32>,
    pub button_down: bool,
    pub touch_down: bool,
    pub tool_fingers: nat,
    pub next_tracking_id: i32,
}

impl SynthesizerView {
    /// A virtual touchpad that shows nothing.
    pub open spec fn initial() -> SynthesizerView {
        SynthesizerView {
            contacts: Map::empty(),
            abs_x: None,
            abs_y: None,
            button_down: false,
            touch_down: false,
            tool_fingers: 0,
            next_tracking_id: 1,
        }
    }

    /// The pointer position and the keys, after the contacts.
    pub open spec fn tail_events(self, desired: crate::physical::SnapshotView) -> Seq<
        VirtualEvent,
    > {
        axis_change(ABS_X, self.abs_x, desired.abs_x) + axis_change(
            ABS_Y,
            self.abs_y,
            desired.abs_y,
        ) + key_change(BTN_LEFT, self.button_down, desired.button_down) + key_change(
            BTN_TOUCH,
            self.touch_down,
            desired.contacts.len() > 0,
        ) + tool_change(self.tool_fingers, desired.contacts.len())
    }

    /// The events that lead from what is shown to what should be shown:
    /// releases first, then contacts, then pointer position and keys.
    pub open spec fn frame(self, desired: crate::physical::SnapshotView) -> Seq<VirtualEvent> {
        release_events(self.contacts, desired.contacts, slot_count()) + contact_events(
            self.contacts,
            desired.contacts,
            self.next_tracking_id,
            slot_count(),
        ) + self.tail_events(desired)
    }

    /// What is shown once those events are out.
    pub open spec fn showing(self, desired: crate::physical::SnapshotView) -> SynthesizerView {
        SynthesizerView {
            contacts: mirrored_all(desired.contacts),
            abs_x: desired.abs_x,
            abs_y: desired.abs_y,
            button_down: desired.button_down,
            touch_down: desired.contacts.len() > 0,
            tool_fingers: desired.contacts.len(),
            next_tracking_id: id_after(
                self.contacts,
                desired.contacts,
                self.next_tracking_id,
                slot_count(),
            ),
        }
    }

    /// What to show while a second finger waits: of the shown contacts those
    /// that are still down, at their present positions, and nothing new.
    pub open spec fn pending(self, physical: crate::physical::SnapshotView) -> crate::physical::SnapshotView {
        let contacts = Map::new(
            |slot: u16| keeps(self.contacts, physical.contacts, slot),
            |slot: u16| physical.contacts[slot],
        );
        if contacts.is_empty() {
            crate::physical::SnapshotView::empty()
        } else {
            crate::physical::SnapshotView {
                contacts,
                abs_x: self.abs_x,
                abs_y: self.abs_y,
                button_down: physical.button_down,
                reported_fingers: 0,
            }
        }
    }
}

proof fn lemma_release_gap(
    shown: Map<u16, VirtualContact>,
    desired: Map<u16, PhysicalContact>,
    from: nat,
    to: nat,
)
    requires
        from <= to <= slot_count(),
        forall|slot: u16| from <= slot < to ==> !shown.contains_key(slot),
    ensures
        release_events(shown, desired, to) == release_events(shown, desired, from),
    decreases to,
{
    if from < to {
        lemma_release_gap(shown, desired, from, (to - 1) as nat);
        let slot = (to - 1) as u16;
        assert(from <= slot < to);
        assert(slot_release(shown, desired, slot) =~= Seq::empty());
        assert(release_events(shown, desired, to) =~= release_events(
            shown,
            desired,
            (to - 1) as nat,
        ));
    }
}

proof fn lemma_contact_gap(
    shown: Map<u16, VirtualContact>,
    desired: Map<u16, PhysicalContact>,
    first: i32,
    from: nat,
    to: nat,
)
    requires
        from <= to <= slot_count(),
        forall|slot: u16| from <= slot < to ==> !desired.contains_key(slot),
    ensures
        contact_events(shown, desired, first, to) == contact_events(shown, desired, first, from),
        id_after(shown, desired, first, to) == id_after(shown, desired, first, from),
    decreases to,
{
    if from < to {
        lemma_contact_gap(shown, desired, first, from, (to - 1) as nat);
        let slot = (to - 1) as u16;
        assert(from <= slot < to);
        let id = id_after(shown, desired, first, (to - 1) as nat);
        assert(slot_contact(shown, desired, slot, id) =~= Seq::empty());
        assert(contact_events(shown, desired, first, to) =~= contact_events(
            shown,
            desired,
            first,
            (to - 1) as nat,
        ));
    }
}

/// The state of the virtual touchpad.
#[derive(Debug)]
pub struct VirtualSynthesizer {
    pub contacts: BTreeMap<u16, VirtualContact>,
    pub abs_x: Option<i32>,
    pub abs_y: Option<i32>,
    pub button_down: bool,
    pub touch_down: bool,
    pub tool_fingers: usize,
    pub next_tracking_id: i32,
}

impl View for VirtualSynthesizer {
    type V = SynthesizerView;

    open spec fn view(&self) -> SynthesizerView {
        SynthesizerView {
            contacts: self.contacts@,
            abs_x: self.abs_x,
            abs_y: self.abs_y,
            button_down: self.button_down,
            touch_down: self.touch_down,
            tool_fingers: self.tool_fingers as nat,
            next_tracking_id: self.next_tracking_id,
        }
    }
}

/// Appends a position event, where the position is known.
fn push_position(events: &mut Vec<VirtualEvent>, code: u16, value: Option<i32>)
    ensures
        final(events)@ == old(events)@ + position(code, value),
{
    if let Some(value) = value {
        events.push(absolute_event(code, value));
    }
    proof {
        assert(events@ =~= old(events)@ + position(code, value));
    }
}

/// Appends a key event where a key has to change.
fn push_key_change(events: &mut Vec<VirtualEvent>, code: u16, shown: bool, desired: bool)
    ensures
        final(events)@ == old(events)@ + key_change(code, shown, desired),
{
    if shown != desired {
        events.push(
            key_event(
                code,
                if desired {
                    1
                } else {
                    0
                },
            ),
        );
    }
    proof {
        assert(events@ =~= old(events)@ + key_change(code, shown, desired));
    }
}

/// Appends a tool key event, where the finger count has a tool key.
fn push_tool_event(events: &mut Vec<VirtualEvent>, fingers: usize, value: i32)
    ensures
        final(events)@ == old(events)@ + tool_event(fingers as nat, value),
{
    if let Some(code) = tool_key(fingers) {
        events.push(key_event(code, value));
    }
    proof {
        assert(events@ =~= old(events)@ + tool_event(fingers as nat, value));
    }
}

/// Appends the tool keys, where the finger count changes.
fn push_tool_change(events: &mut Vec<VirtualEvent>, shown: usize, desired: usize)
    ensures
        final(events)@ == old(events)@ + tool_change(shown as nat, desired as nat),
{
    if shown != desired {
        push_tool_event(events, shown, 0);
        push_tool_event(events, desired, 1);
    }
    proof {
        assert(events@ =~= old(events)@ + tool_change(shown as nat, desired as nat));
    }
}

/// Appends a pointer position event, where the position changes.
fn push_axis_change(
    events: &mut Vec<VirtualEvent>,
    code: u16,
    shown: Option<i32>,
    desired: Option<i32>,
)
    ensures
        final(events)@ == old(events)@ + axis_change(code, shown, desired),
{
    if shown != desired {
        push_position(events, code, desired);
    }
    proof {
        assert(events@ =~= old(events)@ + axis_change(code, shown, desired));
    }
}

proof fn lemma_five_appended<A>(
    start: Seq<A>,
    first: Seq<A>,
    second: Seq<A>,
    third: Seq<A>,
    fourth: Seq<A>,
    fifth: Seq<A>,
)
    ensures
        start + first + second + third + fourth + fifth == start + (first + second + third + fourth
            + fifth),
{
    assert(start + first + second + third + fourth + fifth =~= start + (first + second + third
        + fourth + fifth));
}

/// Appends what brings a contact that stays up to date.
fn push_update(
    events: &mut Vec<VirtualEvent>,
    slot: u16,
    shown: VirtualContact,
    contact: PhysicalContact,
)
    ensures
        final(events)@ == old(events)@ + slot_update(slot, shown, contact),
{
    let tool_type: i32 = contact.tool_type.unwrap_or(0);
    let tool_changed: bool = shown.tool_type != tool_type;
    let x_changed: bool = shown.x != contact.x;
    let y_changed: bool = shown.y != contact.y;
    if tool_changed || x_changed || y_changed {
        events.push(absolute_event(ABS_MT_SLOT, slot as i32));
    }
    if tool_changed {
        events.push(absolute_event(ABS_MT_TOOL_TYPE, tool_type));
    }
    if x_changed {
        push_position(events, ABS_MT_POSITION_X, contact.x);
    }
    if y_changed {
        push_position(events, ABS_MT_POSITION_Y, contact.y);
    }
    proof {
        assert(events@ =~= old(events)@ + slot_update(slot, shown, contact));
    }
}

/// Appends what starts a contact in a free slot.
fn push_begin(events: &mut Vec<VirtualEvent>, slot: u16, contact: PhysicalContact, id: i32)
    ensures
        final(events)@ == old(events)@ + slot_begin(slot, contact, id),
{
    events.push(absolute_event(ABS_MT_SLOT, slot as i32));
    events.push(absolute_event(ABS_MT_TRACKING_ID, id));
    events.push(absolute_event(ABS_MT_TOOL_TYPE, contact.tool_type.unwrap_or(0)));
    push_position(events, ABS_MT_POSITION_X, contact.x);
    push_position(events, ABS_MT_POSITION_Y, contact.y);
    proof {
        assert(events@ =~= old(events)@ + slot_begin(slot, contact, id));
    }
}

impl VirtualSynthesizer {
    pub fn new() -> (synthesizer: VirtualSynthesizer)
        ensures
            synthesizer@ == SynthesizerView::initial(),
    {
        VirtualSynthesizer {
            contacts: BTreeMap::new(),
            abs_x: None,
            abs_y: None,
            button_down: false,
            touch_down: false,
            tool_fingers: 0,
            next_tracking_id: 1,
        }
    }

    /// Hands out a tracking ID.
    fn allocate_tracking_id(&mut self) -> (id: i32)
        ensures
            id == old(self)@.next_tracking_id,
            final(self)@ == (SynthesizerView {
                next_tracking_id: following_id(old(self)@.next_tracking_id),
                ..old(self)@
            }),
    {
        let tracking_id: i32 = self.next_tracking_id;
        self.next_tracking_id = match self.next_tracking_id.checked_add(1) {
            Some(next) => next,
            None => 1,
        };
        tracking_id
    }

    /// Ends every shown contact that does not stay.
    fn release_stale(&mut self, desired: &BTreeMap<u16, PhysicalContact>, events: &mut Vec<
        VirtualEvent,
    >)
        ensures
            final(self)@ == (SynthesizerView {
                contacts: kept(old(self)@.contacts, desired@),
                ..old(self)@
            }),
            final(events)@ == old(events)@ + release_events(
                old(self)@.contacts,
                desired@,
                slot_count(),
            ),
    {
        let slots = sorted_slots(&self.contacts);
        let ghost shown = self.contacts@;
        let ghost before = self@;
        let ghost start = events@;
        let mut index: usize = 0;
        let ghost mut below: nat = 0;
        assert(events@ =~= start + release_events(shown, desired@, 0));
        while index < slots.len()
            invariant
                index <= slots@.len(),
                before.contacts == shown,
                self@ == (SynthesizerView { contacts: self.contacts@, ..before }),
                forall|i: int, j: int| 0 <= i < j < slots@.len() ==> slots@[i] < slots@[j],
                forall|slot: u16| #[trigger] shown.contains_key(slot) <==> slots@.contains(slot),
                below <= slot_count(),
                forall|i: int| 0 <= i < index ==> slots@[i] < below,
                forall|i: int| index <= i < slots@.len() ==> below <= slots@[i],
                forall|slot: u16| #[trigger]
                    self.contacts@.contains_key(slot) <==> (if slot < below {
                        keeps(shown, desired@, slot)
                    } else {
                        shown.contains_key(slot)
                    }),
                forall|slot: u16|
                    self.contacts@.contains_key(slot) ==> #[trigger] self.contacts@[slot]
                        == shown[slot],
                events@ == start + release_events(shown, desired@, below),
            decreases slots@.len() - index,
        {
            let slot: u16 = slots[index];
            assert(slots@.contains(slot));
            proof {
                assert forall|other: u16| below <= other < slot implies !shown.contains_key(
                    other,
                ) by {
                    if shown.contains_key(other) {
                        let i = choose|i: int| 0 <= i < slots@.len() && slots@[i] == other;
                        assert(slots@[i] == other);
                    }
                }
                lemma_release_gap(shown, desired@, below, slot as nat);
            }
            let stays: bool = match (desired.get(&slot), self.contacts.get(&slot)) {
                (Some(contact), Some(current)) => current.physical_tracking_id
                    == contact.tracking_id,
                _ => false,
            };
            assert(stays == keeps(shown, desired@, slot));
            let ghost previous = events@;
            if !stays {
                events.push(absolute_event(ABS_MT_SLOT, slot as i32));
                events.push(absolute_event(ABS_MT_TRACKING_ID, -1));
                self.contacts.remove(&slot);
            }
            proof {
                assert(events@ =~= previous + slot_release(shown, desired@, slot));
                below = (slot + 1) as nat;
                assert((below - 1) as u16 == slot);
                assert(events@ =~= start + release_events(shown, desired@, below));
            }
            index = index + 1;
        }
        proof {
            assert forall|other: u16| below <= other < slot_count() implies !shown.contains_key(
                other,
            ) by {
                if shown.contains_key(other) {
                    let i = choose|i: int| 0 <= i < slots@.len() && slots@[i] == other;
                    assert(slots@[i] == other);
                }
            }
            lemma_release_gap(shown, desired@, below, slot_count());
            assert(self.contacts@ =~= kept(shown, desired@));
        }
    }

    /// Starts or updates every wanted contact, once the stale ones are gone.
    fn place_contacts(
        &mut self,
        desired: &BTreeMap<u16, PhysicalContact>,
        events: &mut Vec<VirtualEvent>,
        Ghost(shown): Ghost<Map<u16, VirtualContact>>,
    )
        requires
            old(self)@.contacts == kept(shown, desired@),
        ensures
            final(self)@ == (SynthesizerView {
                contacts: mirrored_all(desired@),
                next_tracking_id: id_after(
                    shown,
                    desired@,
                    old(self)@.next_tracking_id,
                    slot_count(),
                ),
                ..old(self)@
            }),
            final(events)@ == old(events)@ + contact_events(
                shown,
                desired@,
                old(self)@.next_tracking_id,
                slot_count(),
            ),
    {
        let slots = sorted_slots(desired);
        let ghost before = self@;
        let ghost first = self.next_tracking_id;
        let ghost start = events@;
        let mut index: usize = 0;
        let ghost mut below: nat = 0;
        assert(events@ =~= start + contact_events(shown, desired@, first, 0));
        while index < slots.len()
            invariant
                index <= slots@.len(),
                before.contacts == kept(shown, desired@),
                before.next_tracking_id == first,
                self@ == (SynthesizerView {
                    contacts: self.contacts@,
                    next_tracking_id: self.next_tracking_id,
                    ..before
                }),
                forall|i: int, j: int| 0 <= i < j < slots@.len() ==> slots@[i] < slots@[j],
                forall|slot: u16| #[trigger]
                    desired@.contains_key(slot) <==> slots@.contains(slot),
                below <= slot_count(),
                forall|i: int| 0 <= i < index ==> slots@[i] < below,
                forall|i: int| index <= i < slots@.len() ==> below <= slots@[i],
                forall|slot: u16| #[trigger]
                    self.contacts@.contains_key(slot) <==> (if slot < below {
                        desired@.contains_key(slot)
                    } else {
                        keeps(shown, desired@, slot)
                    }),
                forall|slot: u16|
                    self.contacts@.contains_key(slot) ==> #[trigger] self.contacts@[slot] == (
                    if slot < below {
                        mirrored(desired@[slot])
                    } else {
                        shown[slot]
                    }),
                self.next_tracking_id == id_after(shown, desired@, first, below),
                events@ == start + contact_events(shown, desired@, first, below),
            decreases slots@.len() - index,
        {
            let slot: u16 = slots[index];
            assert(slots@.contains(slot));
            proof {
                assert forall|other: u16| below <= other < slot implies !desired@.contains_key(
                    other,
                ) by {
                    if desired@.contains_key(other) {
                        let i = choose|i: int| 0 <= i < slots@.len() && slots@[i] == other;
                        assert(slots@[i] == other);
                    }
                }
                lemma_contact_gap(shown, desired@, first, below, slot as nat);
            }
            let ghost previous = events@;
            let ghost id = self.next_tracking_id;
            let wanted: PhysicalContact = match desired.get(&slot) {
                Some(contact) => *contact,
                None => PhysicalContact { tracking_id: 0, x: None, y: None, tool_type: None },
            };
            let current: Option<VirtualContact> = match self.contacts.get(&slot) {
                Some(contact) => Some(*contact),
                None => None,
            };
            match current {
                Some(current) => {
                    assert(keeps(shown, desired@, slot));
                    push_update(events, slot, current, wanted);
                },
                None => {
                    assert(begins(shown, desired@, slot));
                    let tracking_id = self.allocate_tracking_id();
                    push_begin(events, slot, wanted, tracking_id);
                },
            }
            self.contacts.insert(
                slot,
                VirtualContact {
                    physical_tracking_id: wanted.tracking_id,
                    x: wanted.x,
                    y: wanted.y,
                    tool_type: wanted.tool_type.unwrap_or(0),
                },
            );
            proof {
                assert(events@ =~= previous + slot_contact(shown, desired@, slot, id));
                below = (slot + 1) as nat;
                assert((below - 1) as u16 == slot);
                assert(events@ =~= start + contact_events(shown, desired@, first, below));
            }
            index = index + 1;
        }
        proof {
            assert forall|other: u16| below <= other < slot_count() implies !desired@.contains_key(
                other,
            ) by {
                if desired@.contains_key(other) {
                    let i = choose|i: int| 0 <= i < slots@.len() && slots@[i] == other;
                    assert(slots@[i] == other);
                }
            }
            lemma_contact_gap(shown, desired@, first, below, slot_count());
            assert(self.contacts@ =~= mirrored_all(desired@));
        }
    }

    /// Brings the pointer position and the keys to the wanted state.
    fn push_tail(&mut self, desired: &PhysicalSnapshot, events: &mut Vec<VirtualEvent>)
        ensures
            final(self)@ == (SynthesizerView {
                abs_x: desired@.abs_x,
                abs_y: desired@.abs_y,
                button_down: desired@.button_down,
                touch_down: desired@.contacts.len() > 0,
                tool_fingers: desired@.contacts.len(),
                ..old(self)@
            }),
            final(events)@ == old(events)@ + old(self)@.tail_events(desired@),
    {
        let desired_fingers: usize = desired.contacts.len();
        let desired_touch_down: bool = desired_fingers > 0;
        proof {
            lemma_five_appended(
                events@,
                axis_change(ABS_X, self.abs_x, desired.abs_x),
                axis_change(ABS_Y, self.abs_y, desired.abs_y),
                key_change(BTN_LEFT, self.button_down, desired.button_down),
                key_change(BTN_TOUCH, self.touch_down, desired_touch_down),
                tool_change(self.tool_fingers as nat, desired_fingers as nat),
            );
        }
        push_axis_change(events, ABS_X, self.abs_x, desired.abs_x);
        self.abs_x = desired.abs_x;
        push_axis_change(events, ABS_Y, self.abs_y, desired.abs_y);
        self.abs_y = desired.abs_y;
        push_key_change(events, BTN_LEFT, self.button_down, desired.button_down);
        self.button_down = desired.button_down;
        push_key_change(events, BTN_TOUCH, self.touch_down, desired_touch_down);
        self.touch_down = desired_touch_down;
        push_tool_change(events, self.tool_fingers, desired_fingers);
        self.tool_fingers = desired_fingers;
    }

    /// Emits what leads from the shown state to the wanted one.
    pub fn synthesize(&mut self, desired: &PhysicalSnapshot) -> (events: Vec<VirtualEvent>)
        ensures
            events@ == old(self)@.frame(desired@),
            final(self)@ == old(self)@.showing(desired@),
    {
        let mut events: Vec<VirtualEvent> = Vec::new();
        let ghost before = self@;
        let ghost releases = release_events(before.contacts, desired@.contacts, slot_count());
        let ghost placed = contact_events(
            before.contacts,
            desired@.contacts,
            before.next_tracking_id,
            slot_count(),
        );
        self.release_stale(&desired.contacts, &mut events);
        assert(events@ =~= releases);
        self.place_contacts(&desired.contacts, &mut events, Ghost(before.contacts));
        assert(events@ == releases + placed);
        assert(self@.tail_events(desired@) == before.tail_events(desired@));
        self.push_tail(desired, &mut events);
        events
    }

    /// What to show while a second finger waits.
    pub fn pending_snapshot(&self, physical: &PhysicalSnapshot) -> (snapshot: PhysicalSnapshot)
        ensures
            snapshot@ == self@.pending(physical@),
    {
        let mut contacts: BTreeMap<u16, PhysicalContact> = BTreeMap::new();
        let slots = sorted_slots(&self.contacts);
        let mut index: usize = 0;
        while index < slots.len()
            invariant
                index <= slots@.len(),
                forall|slot: u16| #[trigger]
                    self.contacts@.contains_key(slot) <==> slots@.contains(slot),
                forall|slot: u16| #[trigger]
                    contacts@.contains_key(slot) <==> keeps(
                        self.contacts@,
                        physical.contacts@,
                        slot,
                    ) && slots@.take(index as int).contains(slot),
                forall|slot: u16|
                    contacts@.contains_key(slot) ==> #[trigger] contacts@[slot]
                        == physical.contacts@[slot],
            decreases slots@.len() - index,
        {
            let slot: u16 = slots[index];
            assert(slots@.contains(slot));
            if let (Some(current), Some(contact)) = (
                self.contacts.get(&slot),
                physical.contacts.get(&slot),
            ) {
                if contact.tracking_id == current.physical_tracking_id {
                    contacts.insert(slot, *contact);
                }
            }
            proof {
                let taken = slots@.take(index as int);
                let longer = slots@.take(index + 1);
                assert(longer =~= taken.push(slot));
                assert forall|other: u16| longer.contains(other) <==> taken.contains(other) || other
                    == slot by {
                    if taken.contains(other) {
                        let i = choose|i: int| 0 <= i < taken.len() && taken[i] == other;
                        assert(longer[i] == other);
                    }
                    assert(longer[index as int] == slot);
                }
            }
            index = index + 1;
        }
        assert(slots@.take(index as int) =~= slots@);
        let ghost stay = Map::new(
            |slot: u16| keeps(self.contacts@, physical.contacts@, slot),
            |slot: u16| physical.contacts@[slot],
        );
        assert(contacts@ =~= stay);
        if contacts.is_empty() {
            PhysicalSnapshot::empty()
        } else {
            PhysicalSnapshot {
                contacts,
                abs_x: self.abs_x,
                abs_y: self.abs_y,
                button_down: physical.button_down,
                reported_fingers: 0,
            }
        }
    }
}

} // verus!
