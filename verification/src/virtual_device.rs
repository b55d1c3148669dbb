//! What the events of a virtual touchpad amount to on a device that takes them
//! in.

use vstd::prelude::*;

use crate::codes::{
    ABS_MT_POSITION_X, ABS_MT_POSITION_Y, ABS_MT_SLOT, ABS_MT_TOOL_TYPE, ABS_MT_TRACKING_ID,
    ABS_X, ABS_Y, BTN_LEFT, BTN_TOUCH, EV_ABS, EV_KEY,
};
use crate::output::VirtualEvent;
use crate::physical::{PhysicalContact, SnapshotView};
use crate::synthesizer::{SynthesizerView, VirtualContact};

verus! {

/// A multitouch device, as the kernel keeps it: the slot that is selected, the
/// tracking IDs of the active slots, what each slot last said, the pointer
/// position, and the keys that are down.
#[verifier::ext_equal]
pub struct DeviceView {
    pub slot: u16,
    pub active: Map<u16, i32>,
    pub tool_types: Map<u16, i32>,
    pub x: Map<u16, i32>,
    pub y: Map<u16, i32>,
    pub abs_x: Option<i32>,
    pub abs_y: Option<i32>,
    pub keys: Set<u16>,
}

impl DeviceView {
    /// A device that has taken in nothing.
    pub open spec fn empty() -> DeviceView {
        DeviceView {
            slot: 0,
            active: Map::empty(),
            tool_types: Map::empty(),
            x: Map::empty(),
            y: Map::empty(),
            abs_x: None,
            abs_y: None,
            keys: Set::empty(),
        }
    }

    /// An absolute-axis event taken in.
    pub open spec fn absolute(self, code: u16, value: i32) -> DeviceView {
        if code == ABS_MT_SLOT {
            DeviceView { slot: value as u16, ..self }
        } else if code == ABS_MT_TRACKING_ID {
            if value < 0 {
                DeviceView { active: self.active.remove(self.slot), ..self }
            } else {
                DeviceView { active: self.active.insert(self.slot, value), ..self }
            }
        } else if code == ABS_MT_TOOL_TYPE {
            DeviceView { tool_types: self.tool_types.insert(self.slot, value), ..self }
        } else if code == ABS_MT_POSITION_X {
            DeviceView { x: self.x.insert(self.slot, value), ..self }
        } else if code == ABS_MT_POSITION_Y {
            DeviceView { y: self.y.insert(self.slot, value), ..self }
        } else if code == ABS_X {
            DeviceView { abs_x: Some(value), ..self }
        } else if code == ABS_Y {
            DeviceView { abs_y: Some(value), ..self }
        } else {
            self
        }
    }

    /// One event taken in.
    pub open spec fn step(self, event: VirtualEvent) -> DeviceView {
        if event.event_type == EV_ABS {
            self.absolute(event.code, event.value)
        } else if event.event_type == EV_KEY {
            if event.value != 0 {
                DeviceView { keys: self.keys.insert(event.code), ..self }
            } else {
                DeviceView { keys: self.keys.remove(event.code), ..self }
            }
        } else {
            self
        }
    }

    /// A run of events taken in from the left.
    pub open spec fn replay(self, events: Seq<VirtualEvent>) -> DeviceView
        decreases events.len(),
    {
        if events.len() == 0 {
            self
        } else {
            self.replay(events.drop_last()).step(events.last())
        }
    }

    /// Whether a slot holds a contact: it is active, has the tool type, and the
    /// position as far as it is known.
    pub open spec fn holds(self, slot: u16, contact: VirtualContact) -> bool {
        &&& self.active.contains_key(slot)
        &&& self.tool_types.contains_key(slot)
        &&& self.tool_types[slot] == contact.tool_type
        &&& contact.x matches Some(x) ==> self.x.contains_key(slot) && self.x[slot] == x
        &&& contact.y matches Some(y) ==> self.y.contains_key(slot) && self.y[slot] == y
    }

    /// Whether the active slots are those of the contacts, and hold them.
    pub open spec fn holds_all(self, contacts: Map<u16, VirtualContact>) -> bool {
        &&& forall|slot: u16| #[trigger]
            self.active.contains_key(slot) <==> contacts.contains_key(slot)
        &&& forall|slot: u16| #[trigger]
            contacts.contains_key(slot) ==> self.holds(slot, contacts[slot])
    }

    /// Whether the pointer position is the given one, as far as it is known.
    pub open spec fn points_at(self, x: Option<i32>, y: Option<i32>) -> bool {
        &&& x is Some ==> self.abs_x == x
        &&& y is Some ==> self.abs_y == y
    }

    /// Whether the button and touch keys, and of the tool keys that of the finger
    /// count alone, are down.
    pub open spec fn keys_are(self, button: bool, touch: bool, fingers: nat) -> bool {
        &&& self.keys.contains(BTN_LEFT) <==> button
        &&& self.keys.contains(BTN_TOUCH) <==> touch
        &&& forall|code: u16|
            crate::codes::tool_fingers_of(code) is Some ==> (#[trigger] self.keys.contains(code)
                <==> crate::codes::tool_key_of(fingers) == Some(code))
    }

    /// Whether the device shows what a synthesizer takes it to show.
    pub open spec fn shows(self, shown: SynthesizerView) -> bool {
        &&& self.holds_all(shown.contacts)
        &&& self.points_at(shown.abs_x, shown.abs_y)
        &&& self.keys_are(shown.button_down, shown.touch_down, shown.tool_fingers)
    }

    /// Whether the device differs from another in nothing but the selected slot
    /// and what is said of one slot.
    pub open spec fn differs_at(self, other: DeviceView, slot: u16) -> bool {
        &&& self.abs_x == other.abs_x
        &&& self.abs_y == other.abs_y
        &&& self.keys == other.keys
        &&& forall|at: u16|
            at != slot ==> (#[trigger] self.active.contains_key(at) <==> other.active.contains_key(
                at,
            ))
        &&& forall|at: u16, contact: VirtualContact|
            at != slot ==> (#[trigger] self.holds(at, contact) <==> other.holds(at, contact))
    }
}

proof fn lemma_replay_splits(
    device: DeviceView,
    first: Seq<VirtualEvent>,
    second: Seq<VirtualEvent>,
)
    ensures
        device.replay(first + second) == device.replay(first).replay(second),
    decreases second.len(),
{
    if second.len() == 0 {
        assert(first + second =~= first);
    } else {
        assert((first + second).drop_last() =~= first + second.drop_last());
        lemma_replay_splits(device, first, second.drop_last());
    }
}

proof fn lemma_replay_one(device: DeviceView, event: VirtualEvent)
    ensures
        device.replay(seq![event]) == device.step(event),
{
    assert(seq![event].drop_last() =~= Seq::empty());
    assert(device.replay(Seq::empty()) == device);
}

proof fn lemma_replay_nothing(device: DeviceView, events: Seq<VirtualEvent>)
    requires
        events.len() == 0,
    ensures
        device.replay(events) == device,
{
}

/// The position events of a slot, and those of the pointer.
proof fn lemma_replay_position(device: DeviceView, code: u16, value: Option<i32>)
    ensures
        device.replay(crate::synthesizer::position(code, value)) == match value {
            Some(value) => device.absolute(code, value),
            None => device,
        },
{
    match value {
        Some(value) => {
            lemma_replay_one(device, crate::output::absolute(code, value));
        },
        None => {
            lemma_replay_nothing(device, crate::synthesizer::position(code, value));
        },
    }
}

proof fn lemma_replay_release(
    device: DeviceView,
    shown: Map<u16, VirtualContact>,
    desired: Map<u16, PhysicalContact>,
    slot: u16,
)
    ensures
        ({
            let released = shown.contains_key(slot) && !crate::synthesizer::keeps(
                shown,
                desired,
                slot,
            );
            let end = device.replay(crate::synthesizer::slot_release(shown, desired, slot));
            &&& end.differs_at(device, slot)
            &&& released ==> !end.active.contains_key(slot)
            &&& !released ==> end == device
        }),
{
    let events = crate::synthesizer::slot_release(shown, desired, slot);
    if events.len() > 0 {
        let first = events[0];
        let second = events[1];
        assert(events =~= seq![first] + seq![second]);
        lemma_replay_splits(device, seq![first], seq![second]);
        lemma_replay_one(device, first);
        lemma_replay_one(device.step(first), second);
        assert((slot as i32) as u16 == slot);
    } else {
        lemma_replay_nothing(device, events);
    }
}

proof fn lemma_replay_releases(
    device: DeviceView,
    shown: Map<u16, VirtualContact>,
    desired: Map<u16, PhysicalContact>,
    below: nat,
)
    requires
        below <= crate::synthesizer::slot_count(),
        device.holds_all(shown),
    ensures
        ({
            let end = device.replay(crate::synthesizer::release_events(shown, desired, below));
            &&& end.abs_x == device.abs_x
            &&& end.abs_y == device.abs_y
            &&& end.keys == device.keys
            &&& forall|slot: u16| #[trigger]
                end.active.contains_key(slot) <==> shown.contains_key(slot) && (slot >= below
                    || crate::synthesizer::keeps(shown, desired, slot))
            &&& forall|slot: u16| #[trigger]
                end.active.contains_key(slot) ==> end.holds(slot, shown[slot])
        }),
    decreases below,
{
    if below > 0 {
        let slot = (below - 1) as u16;
        let earlier = crate::synthesizer::release_events(shown, desired, (below - 1) as nat);
        let release = crate::synthesizer::slot_release(shown, desired, slot);
        lemma_replay_releases(device, shown, desired, (below - 1) as nat);
        lemma_replay_splits(device, earlier, release);
        let middle = device.replay(earlier);
        lemma_replay_release(middle, shown, desired, slot);
        let end = middle.replay(release);
        assert forall|at: u16| #[trigger] end.active.contains_key(at) implies end.holds(
            at,
            shown[at],
        ) by {
            if at != slot {
                assert(middle.active.contains_key(at));
                assert(middle.holds(at, shown[at]));
            }
        }
    }
}

/// The contact events of one slot, from a device on which the slot is free or
/// holds the contact that stays.
proof fn lemma_replay_contact(
    device: DeviceView,
    shown: Map<u16, VirtualContact>,
    desired: Map<u16, PhysicalContact>,
    slot: u16,
    id: i32,
)
    requires
        id >= 1,
        device.active.contains_key(slot) <==> crate::synthesizer::keeps(shown, desired, slot),
        crate::synthesizer::keeps(shown, desired, slot) ==> device.holds(slot, shown[slot]),
    ensures
        ({
            let end = device.replay(
                crate::synthesizer::slot_contact(shown, desired, slot, id),
            );
            &&& end.differs_at(device, slot)
            &&& end.active.contains_key(slot) <==> desired.contains_key(slot)
            &&& desired.contains_key(slot) ==> end.holds(
                slot,
                crate::synthesizer::mirrored(desired[slot]),
            )
        }),
{
    let events = crate::synthesizer::slot_contact(shown, desired, slot, id);
    let selector = crate::output::absolute(ABS_MT_SLOT, slot as i32);
    assert((slot as i32) as u16 == slot);
    let selected = DeviceView { slot, ..device };
    lemma_replay_one(device, selector);
    if crate::synthesizer::begins(shown, desired, slot) {
        let contact = desired[slot];
        let tracking = crate::output::absolute(ABS_MT_TRACKING_ID, id);
        let tool = crate::output::absolute(
            ABS_MT_TOOL_TYPE,
            crate::synthesizer::tool_type_of(contact),
        );
        let x = crate::synthesizer::position(ABS_MT_POSITION_X, contact.x);
        let y = crate::synthesizer::position(ABS_MT_POSITION_Y, contact.y);
        let head = seq![selector, tracking, tool];
        assert(events == head + x + y);
        assert(head =~= seq![selector] + seq![tracking] + seq![tool]);
        lemma_replay_splits(device, seq![selector], seq![tracking]);
        lemma_replay_splits(device, seq![selector] + seq![tracking], seq![tool]);
        lemma_replay_one(selected, tracking);
        let tracking_done = selected.step(tracking);
        lemma_replay_one(tracking_done, tool);
        let tool_done = tracking_done.step(tool);
        lemma_replay_splits(device, head, x);
        lemma_replay_splits(device, head + x, y);
        lemma_replay_position(tool_done, ABS_MT_POSITION_X, contact.x);
        lemma_replay_position(tool_done.replay(x), ABS_MT_POSITION_Y, contact.y);
    } else if crate::synthesizer::keeps(shown, desired, slot) {
        let contact = desired[slot];
        let now = shown[slot];
        let tool_type = crate::synthesizer::tool_type_of(contact);
        let tool_event = crate::output::absolute(ABS_MT_TOOL_TYPE, tool_type);
        let changed = now.tool_type != tool_type || now.x != contact.x || now.y != contact.y;
        let start: Seq<VirtualEvent> = if changed {
            seq![selector]
        } else {
            Seq::empty()
        };
        let tool: Seq<VirtualEvent> = if now.tool_type != tool_type {
            seq![tool_event]
        } else {
            Seq::empty()
        };
        let x: Seq<VirtualEvent> = if now.x != contact.x {
            crate::synthesizer::position(ABS_MT_POSITION_X, contact.x)
        } else {
            Seq::empty()
        };
        let y: Seq<VirtualEvent> = if now.y != contact.y {
            crate::synthesizer::position(ABS_MT_POSITION_Y, contact.y)
        } else {
            Seq::empty()
        };
        assert(events =~= start + tool + x + y);
        lemma_replay_splits(device, start + tool + x, y);
        lemma_replay_splits(device, start + tool, x);
        lemma_replay_splits(device, start, tool);
        let started = device.replay(start);
        if !changed {
            lemma_replay_nothing(device, start);
        }
        if now.tool_type != tool_type {
            lemma_replay_one(started, tool_event);
        } else {
            lemma_replay_nothing(started, tool);
        }
        let tool_done = started.replay(tool);
        if now.x != contact.x {
            lemma_replay_position(tool_done, ABS_MT_POSITION_X, contact.x);
        } else {
            lemma_replay_nothing(tool_done, x);
        }
        let x_done = tool_done.replay(x);
        if now.y != contact.y {
            lemma_replay_position(x_done, ABS_MT_POSITION_Y, contact.y);
        } else {
            lemma_replay_nothing(x_done, y);
        }
    } else {
        lemma_replay_nothing(device, events);
    }
}

proof fn lemma_ids_are_positive(
    shown: Map<u16, VirtualContact>,
    desired: Map<u16, PhysicalContact>,
    first: i32,
    below: nat,
)
    requires
        first >= 1,
    ensures
        crate::synthesizer::id_after(shown, desired, first, below) >= 1,
    decreases below,
{
    if below > 0 {
        lemma_ids_are_positive(shown, desired, first, (below - 1) as nat);
    }
}

proof fn lemma_replay_contacts(
    device: DeviceView,
    shown: Map<u16, VirtualContact>,
    desired: Map<u16, PhysicalContact>,
    first: i32,
    below: nat,
)
    requires
        below <= crate::synthesizer::slot_count(),
        first >= 1,
        forall|slot: u16| #[trigger]
            device.active.contains_key(slot) <==> crate::synthesizer::keeps(shown, desired, slot),
        forall|slot: u16| #[trigger]
            device.active.contains_key(slot) ==> device.holds(slot, shown[slot]),
    ensures
        ({
            let end = device.replay(
                crate::synthesizer::contact_events(shown, desired, first, below),
            );
            &&& end.abs_x == device.abs_x
            &&& end.abs_y == device.abs_y
            &&& end.keys == device.keys
            &&& forall|slot: u16| #[trigger]
                end.active.contains_key(slot) <==> if slot < below {
                    desired.contains_key(slot)
                } else {
                    crate::synthesizer::keeps(shown, desired, slot)
                }
            &&& forall|slot: u16| #[trigger]
                end.active.contains_key(slot) ==> end.holds(
                    slot,
                    if slot < below {
                        crate::synthesizer::mirrored(desired[slot])
                    } else {
                        shown[slot]
                    },
                )
        }),
    decreases below,
{
    if below > 0 {
        let slot = (below - 1) as u16;
        let earlier = crate::synthesizer::contact_events(
            shown,
            desired,
            first,
            (below - 1) as nat,
        );
        let id = crate::synthesizer::id_after(shown, desired, first, (below - 1) as nat);
        let contact = crate::synthesizer::slot_contact(shown, desired, slot, id);
        lemma_replay_contacts(device, shown, desired, first, (below - 1) as nat);
        lemma_ids_are_positive(shown, desired, first, (below - 1) as nat);
        lemma_replay_splits(device, earlier, contact);
        let middle = device.replay(earlier);
        assert(middle.active.contains_key(slot) <==> crate::synthesizer::keeps(
            shown,
            desired,
            slot,
        ));
        lemma_replay_contact(middle, shown, desired, slot, id);
        let end = middle.replay(contact);
        assert forall|at: u16| #[trigger] end.active.contains_key(at) implies end.holds(
            at,
            if at < below {
                crate::synthesizer::mirrored(desired[at])
            } else {
                shown[at]
            },
        ) by {
            if at != slot {
                assert(middle.active.contains_key(at));
            }
        }
    }
}

/// Key and pointer events leave the slots alone.
#[verifier::spinoff_prover]
#[verifier::rlimit(60)]
proof fn lemma_replay_tail(device: DeviceView, shown: SynthesizerView, desired: SnapshotView)
    requires
        device.points_at(shown.abs_x, shown.abs_y),
        device.keys_are(shown.button_down, shown.touch_down, shown.tool_fingers),
    ensures
        ({
            let end = device.replay(shown.tail_events(desired));
            &&& end.active == device.active
            &&& end.tool_types == device.tool_types
            &&& end.x == device.x
            &&& end.y == device.y
            &&& end.points_at(desired.abs_x, desired.abs_y)
            &&& end.keys_are(
                desired.button_down,
                desired.contacts.len() > 0,
                desired.contacts.len(),
            )
        }),
{
    let x = crate::synthesizer::axis_change(ABS_X, shown.abs_x, desired.abs_x);
    let y = crate::synthesizer::axis_change(ABS_Y, shown.abs_y, desired.abs_y);
    let button = crate::synthesizer::key_change(BTN_LEFT, shown.button_down, desired.button_down);
    let touch = crate::synthesizer::key_change(
        BTN_TOUCH,
        shown.touch_down,
        desired.contacts.len() > 0,
    );
    let tool = crate::synthesizer::tool_change(shown.tool_fingers, desired.contacts.len());
    lemma_replay_splits(device, x + y + button + touch, tool);
    lemma_replay_splits(device, x + y + button, touch);
    lemma_replay_splits(device, x + y, button);
    lemma_replay_splits(device, x, y);
    if shown.abs_x != desired.abs_x {
        lemma_replay_position(device, ABS_X, desired.abs_x);
    } else {
        lemma_replay_nothing(device, x);
    }
    let x_done = device.replay(x);
    if shown.abs_y != desired.abs_y {
        lemma_replay_position(x_done, ABS_Y, desired.abs_y);
    } else {
        lemma_replay_nothing(x_done, y);
    }
    let y_done = x_done.replay(y);
    lemma_replay_key(y_done, BTN_LEFT, shown.button_down, desired.button_down);
    let button_done = y_done.replay(button);
    lemma_replay_key(button_done, BTN_TOUCH, shown.touch_down, desired.contacts.len() > 0);
    let touch_done = button_done.replay(touch);
    let up = crate::synthesizer::tool_event(shown.tool_fingers, 0);
    let down = crate::synthesizer::tool_event(desired.contacts.len(), 1);
    if shown.tool_fingers != desired.contacts.len() {
        lemma_replay_splits(touch_done, up, down);
        lemma_replay_tool(touch_done, shown.tool_fingers, 0);
        lemma_replay_tool(touch_done.replay(up), desired.contacts.len(), 1);
    } else {
        lemma_replay_nothing(touch_done, tool);
    }
}

proof fn lemma_replay_key(device: DeviceView, code: u16, shown: bool, desired: bool)
    requires
        device.keys.contains(code) <==> shown,
    ensures
        ({
            let end = device.replay(crate::synthesizer::key_change(code, shown, desired));
            end == DeviceView { keys: end.keys, ..device } && end.keys.contains(code) == desired
                && forall|other: u16|
                other != code ==> (#[trigger] end.keys.contains(other) <==> device.keys.contains(
                    other,
                ))
        }),
{
    let events = crate::synthesizer::key_change(code, shown, desired);
    if shown != desired {
        lemma_replay_one(device, events[0]);
        assert(events =~= seq![events[0]]);
    } else {
        lemma_replay_nothing(device, events);
    }
}

proof fn lemma_replay_tool(device: DeviceView, fingers: nat, value: i32)
    ensures
        ({
            let end = device.replay(crate::synthesizer::tool_event(fingers, value));
            end == DeviceView { keys: end.keys, ..device } && forall|code: u16| #[trigger]
                end.keys.contains(code) <==> if crate::codes::tool_key_of(fingers) == Some(code) {
                    value != 0
                } else {
                    device.keys.contains(code)
                }
        }),
{
    let events = crate::synthesizer::tool_event(fingers, value);
    match crate::codes::tool_key_of(fingers) {
        Some(code) => {
            lemma_replay_one(device, events[0]);
            assert(events =~= seq![events[0]]);
        },
        None => {
            lemma_replay_nothing(device, events);
        },
    }
}

/// The events of a frame lead a device from what is shown to what should be
/// shown.
pub proof fn law_frames_show_what_is_desired(
    device: DeviceView,
    shown: SynthesizerView,
    desired: SnapshotView,
)
    requires
        device.shows(shown),
        shown.next_tracking_id >= 1,
    ensures
        device.replay(shown.frame(desired)).shows(shown.showing(desired)),
        shown.showing(desired).next_tracking_id >= 1,
{
    let count = crate::synthesizer::slot_count();
    let releases = crate::synthesizer::release_events(shown.contacts, desired.contacts, count);
    let contacts = crate::synthesizer::contact_events(
        shown.contacts,
        desired.contacts,
        shown.next_tracking_id,
        count,
    );
    let tail = shown.tail_events(desired);
    lemma_ids_are_positive(shown.contacts, desired.contacts, shown.next_tracking_id, count);
    lemma_replay_splits(device, releases + contacts, tail);
    lemma_replay_splits(device, releases, contacts);
    lemma_replay_releases(device, shown.contacts, desired.contacts, count);
    let freed = device.replay(releases);
    assert forall|slot: u16| #[trigger]
        freed.active.contains_key(slot) <==> crate::synthesizer::keeps(
            shown.contacts,
            desired.contacts,
            slot,
        ) by {
        assert(slot < count);
    }
    lemma_replay_contacts(
        freed,
        shown.contacts,
        desired.contacts,
        shown.next_tracking_id,
        count,
    );
    let placed = freed.replay(contacts);
    lemma_replay_tail(placed, shown, desired);
    let end = placed.replay(tail);
    let after = shown.showing(desired);
    assert forall|slot: u16| #[trigger] end.active.contains_key(slot) <==>
        after.contacts.contains_key(slot) by {
        assert(placed.active.contains_key(slot) <==> end.active.contains_key(slot));
        assert(slot < count);
    }
    assert forall|slot: u16| #[trigger] after.contacts.contains_key(slot) implies end.holds(
        slot,
        after.contacts[slot],
    ) by {
        assert(slot < count);
        assert(placed.active.contains_key(slot));
        assert(placed.holds(slot, crate::synthesizer::mirrored(desired.contacts[slot])));
    }
}

/// What is shown after a run of frames.
pub open spec fn shown_after(frames: Seq<SnapshotView>) -> SynthesizerView
    decreases frames.len(),
{
    if frames.len() == 0 {
        SynthesizerView::initial()
    } else {
        shown_after(frames.drop_last()).showing(frames.last())
    }
}

/// All events of a run of frames.
pub open spec fn all_events(frames: Seq<SnapshotView>) -> Seq<VirtualEvent>
    decreases frames.len(),
{
    if frames.len() == 0 {
        Seq::empty()
    } else {
        all_events(frames.drop_last()) + shown_after(frames.drop_last()).frame(frames.last())
    }
}

proof fn lemma_replayed_frames(frames: Seq<SnapshotView>)
    ensures
        DeviceView::empty().replay(all_events(frames)).shows(shown_after(frames)),
        shown_after(frames).next_tracking_id >= 1,
    decreases frames.len(),
{
    if frames.len() > 0 {
        let earlier = frames.drop_last();
        lemma_replayed_frames(earlier);
        lemma_replay_splits(
            DeviceView::empty(),
            all_events(earlier),
            shown_after(earlier).frame(frames.last()),
        );
        law_frames_show_what_is_desired(
            DeviceView::empty().replay(all_events(earlier)),
            shown_after(earlier),
            frames.last(),
        );
    }
}

/// All events that a synthesizer has made, taken in by a device that starts
/// empty, leave it with what the last frame should show: its contacts in their
/// slots and no others, each with its tool type and its position as far as it is
/// known, the pointer position as far as it is known, the button, the touch key
/// while there is a contact, and the tool key of the contact count alone.
pub proof fn law_replayed_events_show_what_is_desired(frames: Seq<SnapshotView>)
    requires
        frames.len() > 0,
        frames.last().wf(),
    ensures
        ({
            let device = DeviceView::empty().replay(all_events(frames));
            let desired = frames.last();
            &&& device.active.dom() == desired.contacts.dom()
            &&& forall|slot: u16| #[trigger]
                desired.contacts.contains_key(slot) ==> {
                    let contact = desired.contacts[slot];
                    &&& device.tool_types[slot] == crate::synthesizer::tool_type_of(contact)
                    &&& contact.x matches Some(x) ==> device.x[slot] == x
                    &&& contact.y matches Some(y) ==> device.y[slot] == y
                }
            &&& device.points_at(desired.abs_x, desired.abs_y)
            &&& device.keys_are(
                desired.button_down,
                !desired.contacts.is_empty(),
                desired.contacts.len(),
            )
        }),
{
    lemma_replayed_frames(frames);
    let device = DeviceView::empty().replay(all_events(frames));
    let desired = frames.last();
    let shown = shown_after(frames);
    assert(device.active.dom() =~= desired.contacts.dom());
    assert forall|slot: u16| #[trigger] desired.contacts.contains_key(slot) implies {
        let contact = desired.contacts[slot];
        &&& device.tool_types[slot] == crate::synthesizer::tool_type_of(contact)
        &&& contact.x matches Some(x) ==> device.x[slot] == x
        &&& contact.y matches Some(y) ==> device.y[slot] == y
    } by {
        assert(shown.contacts.contains_key(slot));
    }
    if desired.contacts.len() == 0 {
        assert(desired.contacts.dom() =~= Set::empty());
        assert(desired.contacts =~= Map::empty());
    }
}

} // verus!
