//! What a device that takes in everything the touchpad proxy emits ends up showing,
//! in terms of the raw events that the proxy was fed.

use vstd::prelude::*;

use crate::codes::{
    ABS_MT_POSITION_X, ABS_MT_POSITION_Y, ABS_MT_SLOT, ABS_MT_TOOL_TYPE, ABS_MT_TRACKING_ID, ABS_X,
    ABS_Y, BTN_LEFT, BTN_TOUCH, EV_ABS,
};
use crate::history::{
    contact_in_slot, is_sync, key_is_down, last_axis, last_time, lemma_names_differ,
    reports_fingers, since_tracking,
};
use crate::output::{Progress, ValidatorView, VirtualEvent};
use crate::passthrough::{
    after, distinct_ids, handed_out, in_step, law_no_stream_fails_the_check,
    law_synthesized_frames_pass, PassthroughView, ProxyStep,
};
use crate::physical::{
    law_contacts_follow_the_events, law_snapshots_follow_the_events, physical_after, SnapshotView,
};
use crate::raw_event::RawInputEvent;
use crate::router::{RouterView, RoutingMode};
use crate::virtual_device::{law_frames_show_what_is_desired, DeviceView};

verus! {

/// Whether a device may take in the event at a place of a frame: a slot selector is not
/// negative; what is said of a contact follows a slot selector of the frame; a contact
/// ends only in an active slot, and begins only in an inactive one, with a tracking ID
/// that no slot holds.
pub open spec fn is_legal(device: DeviceView, events: Seq<VirtualEvent>, at: int) -> bool {
    let event = events[at];
    let now = device.replay(events.take(at));
    let selected = exists|j: int|
        0 <= j < at && (#[trigger] events[j]).event_type == EV_ABS && events[j].code == ABS_MT_SLOT;
    event.event_type == EV_ABS ==> {
        &&& event.code == ABS_MT_SLOT ==> event.value >= 0
        &&& event.code == ABS_MT_TRACKING_ID || event.code == ABS_MT_POSITION_X || event.code
            == ABS_MT_POSITION_Y || event.code == ABS_MT_TOOL_TYPE ==> selected
        &&& event.code == ABS_MT_TRACKING_ID && event.value < 0 ==> now.active.contains_key(
            now.slot,
        )
        &&& event.code == ABS_MT_TRACKING_ID && event.value >= 0 ==> !now.active.contains_key(
            now.slot,
        ) && forall|slot: u16| #[trigger]
            now.active.contains_key(slot) ==> now.active[slot] != event.value
    }
}

proof fn lemma_run_follows_the_device(
    device: DeviceView,
    start: Progress,
    events: Seq<VirtualEvent>,
)
    requires
        start.active == device.active,
        start.current_slot == device.slot,
        !start.slot_selected,
    ensures
        start.run(events) is Ok <==> forall|at: int|
            0 <= at < events.len() ==> #[trigger] is_legal(device, events, at),
        start.run(events) matches Ok(end) ==> end.active == device.replay(events).active
            && end.current_slot == device.replay(events).slot && (end.slot_selected <==> exists|
            j: int,
        |
            0 <= j < events.len() && (#[trigger] events[j]).event_type == EV_ABS && events[j].code
                == ABS_MT_SLOT),
    decreases events.len(),
{
    if events.len() > 0 {
        let earlier = events.drop_last();
        let last = events.len() - 1;
        lemma_run_follows_the_device(device, start, earlier);
        assert(events.take(last) =~= earlier);
        assert forall|at: int| 0 <= at < last implies #[trigger] is_legal(device, events, at)
            == is_legal(device, earlier, at) by {
            assert(events.take(at) =~= earlier.take(at));
            assert(forall|j: int| 0 <= j < at ==> events[j] == #[trigger] earlier[j]);
            if exists|j: int|
                0 <= j < at && (#[trigger] events[j]).event_type == EV_ABS && events[j].code
                    == ABS_MT_SLOT {
                let j = choose|j: int|
                    0 <= j < at && (#[trigger] events[j]).event_type == EV_ABS && events[j].code
                        == ABS_MT_SLOT;
                assert(earlier[j].code == ABS_MT_SLOT);
            }
        }
        if start.run(earlier) is Ok {
            let progress = start.run(earlier)->Ok_0;
            let now = device.replay(earlier);
            assert(progress.slot_selected <==> exists|j: int|
                0 <= j < last && (#[trigger] events[j]).event_type == EV_ABS && events[j].code
                    == ABS_MT_SLOT) by {
                if progress.slot_selected {
                    let j = choose|j: int|
                        0 <= j < earlier.len() && (#[trigger] earlier[j]).event_type == EV_ABS
                            && earlier[j].code == ABS_MT_SLOT;
                    assert(events[j].code == ABS_MT_SLOT);
                }
                if exists|j: int|
                    0 <= j < last && (#[trigger] events[j]).event_type == EV_ABS && events[j].code
                        == ABS_MT_SLOT {
                    let j = choose|j: int|
                        0 <= j < last && (#[trigger] events[j]).event_type == EV_ABS
                            && events[j].code == ABS_MT_SLOT;
                    assert(earlier[j].code == ABS_MT_SLOT);
                }
            }
            assert(events.last() == events[last]);
            assert(progress.step(events.last()) is Ok <==> is_legal(device, events, last));
            if progress.step(events.last()) is Ok {
                assert forall|at: int| 0 <= at < events.len() implies #[trigger] is_legal(
                    device,
                    events,
                    at,
                ) by {
                    if at < last {
                        assert(is_legal(device, earlier, at));
                    }
                }
            }
        } else {
            let at = choose|at: int|
                0 <= at < earlier.len() && !#[trigger] is_legal(device, earlier, at);
            assert(!is_legal(device, events, at));
        }
    }
}

/// A frame passes the check exactly when a device in the same state may take in each of
/// its events, one after the other. The check then counts as active what the device
/// does.
pub proof fn law_the_check_follows_the_device(
    device: DeviceView,
    validator: ValidatorView,
    events: Seq<VirtualEvent>,
)
    requires
        validator.active == device.active,
        validator.current_slot == device.slot,
    ensures
        validator.check(events) is Ok <==> forall|at: int|
            0 <= at < events.len() ==> #[trigger] is_legal(device, events, at),
        validator.check(events) matches Ok(next) ==> next.active == device.replay(events).active
            && next.current_slot == device.replay(events).slot,
{
    lemma_run_follows_the_device(device, validator.frame_start(), events);
}

/// The raw events that a run of steps feeds.
pub open spec fn fed(steps: Seq<ProxyStep>) -> Seq<RawInputEvent>
    decreases steps.len(),
{
    if steps.len() == 0 {
        Seq::empty()
    } else {
        match steps.last() {
            ProxyStep::Push { event } => fed(steps.drop_last()).push(event),
            ProxyStep::Release => fed(steps.drop_last()),
        }
    }
}

/// The events that a step makes the proxy emit: its frame, where that passes the check.
pub open spec fn emitted_by(state: PassthroughView, step: ProxyStep) -> Seq<VirtualEvent> {
    match state.step_checked(step) {
        Ok(_) => match step {
            ProxyStep::Push { event } => state.frame(event),
            ProxyStep::Release => state.router.shown.frame(SnapshotView::empty()),
        },
        Err(_) => Seq::empty(),
    }
}

/// A device that has taken in everything that a run of steps made the proxy emit.
pub open spec fn device_after(steps: Seq<ProxyStep>) -> DeviceView
    decreases steps.len(),
{
    if steps.len() == 0 {
        DeviceView::empty()
    } else {
        device_after(steps.drop_last()).replay(
            emitted_by(after(steps.drop_last()), steps.last()),
        )
    }
}

proof fn lemma_physical_state(steps: Seq<ProxyStep>)
    ensures
        after(steps).router.physical == physical_after(fed(steps)),
    decreases steps.len(),
{
    if steps.len() > 0 {
        lemma_physical_state(steps.drop_last());
        match steps.last() {
            ProxyStep::Push { event } => {
                assert(fed(steps).drop_last() =~= fed(steps.drop_last()));
            },
            ProxyStep::Release => {},
        }
    }
}

proof fn lemma_device_state(steps: Seq<ProxyStep>)
    requires
        handed_out(steps) < i32::MAX,
    ensures
        device_after(steps).shows(after(steps).router.shown),
        after(steps).router.shown.next_tracking_id >= 1,
        after(steps).validator.active == device_after(steps).active,
        after(steps).validator.current_slot == device_after(steps).slot,
        in_step(after(steps).router.shown, after(steps).validator),
    decreases steps.len(),
{
    law_no_stream_fails_the_check(steps);
    assert(steps.take(steps.len() as int) =~= steps);
    if steps.len() > 0 {
        let earlier = steps.drop_last();
        assert(steps.take(steps.len() - 1) =~= earlier);
        lemma_device_state(earlier);
        let state = after(earlier);
        let device = device_after(earlier);
        let events = emitted_by(state, steps.last());
        assert(state.step_checked(steps[steps.len() - 1]) is Ok);
        law_the_check_follows_the_device(device, state.validator, events);
        match steps.last() {
            ProxyStep::Push { event } => {
                let noted = state.router.noted(event);
                if RouterView::ends_frame(event) {
                    law_frames_show_what_is_desired(
                        device,
                        noted.shown,
                        noted.desired(noted.now()),
                    );
                } else {
                    assert(events =~= Seq::empty());
                    assert(device.replay(events) == device);
                }
            },
            ProxyStep::Release => {
                law_frames_show_what_is_desired(device, state.router.shown, SnapshotView::empty());
            },
        }
    }
}

/// The slots that hold a finger after a stream of raw events.
pub open spec fn finger_slots(raw: Seq<RawInputEvent>) -> Set<u16> {
    Set::new(|slot: u16| contact_in_slot(raw, slot) is Some)
}

/// The fingers that the proxy counts are the greater of the slots that hold one and of
/// what the device reports.
pub proof fn law_counted_fingers(steps: Seq<ProxyStep>) -> (reported: int)
    ensures
        reports_fingers(fed(steps), reported),
        after(steps).router.fingers() == if reported >= finger_slots(fed(steps)).len() {
            reported
        } else {
            finger_slots(fed(steps)).len() as int
        },
        after(steps).router.now() == match last_time(fed(steps)) {
            Some(micros) => micros,
            None => 0,
        },
{
    let raw = fed(steps);
    lemma_physical_state(steps);
    law_snapshots_follow_the_events(raw);
    let contacts = physical_after(raw).contacts;
    assert forall|slot: u16| #[trigger] contacts.dom().contains(slot) <==> finger_slots(
        raw,
    ).contains(slot) by {
        law_contacts_follow_the_events(raw, slot);
    }
    assert(contacts.dom() =~= finger_slots(raw));
    after(steps).router.physical.snapshot().reported_fingers as int
}

/// How a report is treated. With three fingers or more it claims the session; a claimed
/// session is suppressed up to and with the report that has no finger. Two fingers wait
/// from the report that first has them until a hundred milliseconds have passed. No
/// finger, one, and two that have waited are forwarded.
pub proof fn law_reports_are_routed(router: RouterView, now: u128)
    ensures
        ({
            let fingers = router.fingers();
            let next = router.frame_done(now).mode;
            let outcome = router.outcome(now);
            let waited = router.mode matches RoutingMode::PendingTwo { started_micros } && now
                >= started_micros + 100_000;
            let free = !(router.mode is Suppressing);
            &&& router.mode is Suppressing ==> outcome is Suppressed && (next is Suppressing
                <==> fingers > 0) && (next is Forwarding <==> fingers == 0)
            &&& free && fingers >= 3 ==> outcome is ReleasedAndSuppressed && next is Suppressing
            &&& free && fingers <= 1 ==> outcome is Forwarded && next is Forwarding
            &&& free && fingers == 2 && waited ==> outcome is Forwarded && next is Forwarding
            &&& free && fingers == 2 && !waited ==> outcome is PendingTwo && (
            next matches RoutingMode::PendingTwo { started_micros } && started_micros == (
            match router.mode {
                RoutingMode::PendingTwo { started_micros: earlier } => earlier,
                _ => now,
            }))
        }),
{
}

/// A report that is forwarded leaves the device with exactly the fingers that the raw
/// events leave on the touchpad: each in its slot, with its reported X on the X axis,
/// its reported Y on the Y axis and its reported tool; with the reported pointer
/// position; and with the button as it is.
pub proof fn law_forwarded_reports_show_the_fingers(
    steps: Seq<ProxyStep>,
    report: RawInputEvent,
    slot: u16,
)
    requires
        is_sync(report),
        handed_out(steps.push(ProxyStep::Push { event: report })) < i32::MAX,
        ({
            let noted = after(steps).router.noted(report);
            noted.outcome(noted.now()) is Forwarded
        }),
    ensures
        ({
            let raw = fed(steps).push(report);
            let device = device_after(steps.push(ProxyStep::Push { event: report }));
            &&& device.active.contains_key(slot) <==> contact_in_slot(raw, slot) is Some
            &&& device.active.contains_key(slot) ==> {
                &&& since_tracking(raw, slot, ABS_MT_POSITION_X) matches Some(x)
                    ==> device.x.contains_key(slot) && device.x[slot] == x
                &&& since_tracking(raw, slot, ABS_MT_POSITION_Y) matches Some(y)
                    ==> device.y.contains_key(slot) && device.y[slot] == y
                &&& device.tool_types.contains_key(slot)
                &&& device.tool_types[slot] == match since_tracking(raw, slot, ABS_MT_TOOL_TYPE) {
                    Some(tool) => tool,
                    None => 0,
                }
            }
            &&& last_axis(raw, ABS_X) is Some ==> device.abs_x == last_axis(raw, ABS_X)
            &&& last_axis(raw, ABS_Y) is Some ==> device.abs_y == last_axis(raw, ABS_Y)
            &&& device.keys.contains(BTN_LEFT) <==> key_is_down(raw, BTN_LEFT)
            &&& device.keys.contains(BTN_TOUCH) <==> finger_slots(raw).len() > 0
            &&& finger_slots(raw).len() > 0 <==> exists|held: u16| #[trigger]
                device.active.contains_key(held)
        }),
{
    let step = ProxyStep::Push { event: report };
    let all = steps.push(step);
    let raw = fed(steps).push(report);
    assert(all.drop_last() =~= steps);
    assert(fed(all) == raw);
    lemma_names_differ();
    lemma_device_state(all);
    lemma_physical_state(all);
    law_contacts_follow_the_events(raw, slot);
    law_snapshots_follow_the_events(raw);
    let noted = after(steps).router.noted(report);
    let shown = after(all).router.shown;
    let contacts = physical_after(raw).contacts;
    assert(noted.physical == physical_after(raw)) by {
        lemma_physical_state(steps);
        assert(raw.drop_last() =~= fed(steps));
    }
    assert(shown == noted.shown.showing(noted.physical.snapshot()));
    let device = device_after(all);
    assert(device.shows(shown));
    assert(shown.contacts.contains_key(slot) <==> contacts.contains_key(slot));
    if device.active.contains_key(slot) {
        assert(device.holds(slot, shown.contacts[slot]));
    }
    lemma_contacts_are_finite(raw);
    assert forall|held: u16| #[trigger] contacts.dom().contains(held) <==> finger_slots(
        raw,
    ).contains(held) by {
        law_contacts_follow_the_events(raw, held);
    }
    assert(contacts.dom() =~= finger_slots(raw));
    if finger_slots(raw).len() > 0 {
        let held = finger_slots(raw).choose();
        assert(finger_slots(raw).contains(held));
        assert(shown.contacts.contains_key(held));
        assert(device.active.contains_key(held));
    }
    if exists|held: u16| #[trigger] device.active.contains_key(held) {
        let held = choose|held: u16| #[trigger] device.active.contains_key(held);
        assert(shown.contacts.contains_key(held));
        assert(finger_slots(raw).contains(held));
        assert(finger_slots(raw).len() > 0) by {
            if finger_slots(raw).len() == 0 {
                assert(finger_slots(raw) =~= Set::empty());
            }
        }
    }
}

proof fn lemma_contacts_are_finite(raw: Seq<RawInputEvent>)
    ensures
        physical_after(raw).contacts.dom().finite(),
    decreases raw.len(),
{
    if raw.len() > 0 {
        lemma_contacts_are_finite(raw.drop_last());
    }
}

/// While two fingers wait, the device shows of the fingers on the touchpad those that it
/// showed before, each at its reported position, and no other.
pub proof fn law_waiting_reports_show_no_new_finger(
    steps: Seq<ProxyStep>,
    report: RawInputEvent,
    slot: u16,
)
    requires
        is_sync(report),
        handed_out(steps.push(ProxyStep::Push { event: report })) < i32::MAX,
        ({
            let noted = after(steps).router.noted(report);
            noted.outcome(noted.now()) is PendingTwo
        }),
    ensures
        ({
            let raw = fed(steps).push(report);
            let before = device_after(steps);
            let device = device_after(steps.push(ProxyStep::Push { event: report }));
            device.active.contains_key(slot) ==> {
                &&& before.active.contains_key(slot) && device.active[slot] == before.active[slot]
                &&& contact_in_slot(raw, slot) is Some
                &&& since_tracking(raw, slot, ABS_MT_POSITION_X) matches Some(x) ==> device.x[slot]
                    == x
                &&& since_tracking(raw, slot, ABS_MT_POSITION_Y) matches Some(y) ==> device.y[slot]
                    == y
            }
        }),
{
    let step = ProxyStep::Push { event: report };
    let all = steps.push(step);
    let raw = fed(steps).push(report);
    assert(all.drop_last() =~= steps);
    assert(fed(all) == raw);
    lemma_names_differ();
    lemma_device_state(steps);
    lemma_device_state(all);
    lemma_physical_state(all);
    law_contacts_follow_the_events(raw, slot);
    let state = after(steps);
    let noted = state.router.noted(report);
    assert(noted.physical == physical_after(raw)) by {
        lemma_physical_state(steps);
        assert(raw.drop_last() =~= fed(steps));
    }
    let desired = noted.desired(noted.now());
    let shown = after(all).router.shown;
    assert(shown == noted.shown.showing(desired));
    let device = device_after(all);
    if device.active.contains_key(slot) {
        assert(device.holds(slot, shown.contacts[slot]));
        lemma_ids_left(all);
        law_synthesized_frames_pass(noted.shown, state.validator, desired);
        assert(desired.contacts.contains_key(slot));
        assert(state.validator.active.contains_key(slot));
    }
}

/// The last of some steps leaves tracking IDs for the contacts that it starts.
proof fn lemma_ids_left(steps: Seq<ProxyStep>)
    requires
        steps.len() > 0,
        handed_out(steps) < i32::MAX,
    ensures
        after(steps.drop_last()).router.shown.next_tracking_id + after(
            steps.drop_last(),
        ).handed_out_by(steps.last()) <= i32::MAX,
{
    crate::passthrough::lemma_steps_stay_in_step(steps.drop_last());
}

/// A finger that the device shows before and after a step, in one slot and with one
/// tracking ID of the touchpad, keeps its tracking ID on the device. Every other finger
/// that it shows afterwards has one that no finger had before.
pub proof fn law_fingers_keep_their_identity(steps: Seq<ProxyStep>, step: ProxyStep, slot: u16)
    requires
        handed_out(steps.push(step)) < i32::MAX,
        device_after(steps.push(step)).active.contains_key(slot),
    ensures
        ({
            let before = device_after(steps);
            let device = device_after(steps.push(step));
            let shown = after(steps).router.shown.contacts;
            let next = after(steps.push(step)).router.shown.contacts;
            &&& next.contains_key(slot)
            &&& shown.contains_key(slot) <==> before.active.contains_key(slot)
            &&& shown.contains_key(slot) && shown[slot].physical_tracking_id
                == next[slot].physical_tracking_id ==> device.active[slot] == before.active[slot]
            &&& !(shown.contains_key(slot) && shown[slot].physical_tracking_id
                == next[slot].physical_tracking_id) ==> forall|other: u16| #[trigger]
                before.active.contains_key(other) ==> before.active[other] < device.active[slot]
            &&& distinct_ids(device.active)
        }),
{
    let all = steps.push(step);
    assert(all.drop_last() =~= steps);
    lemma_device_state(steps);
    lemma_device_state(all);
    lemma_ids_left(all);
    let state = after(steps);
    let next = after(all);
    assert(next.router.shown.contacts.contains_key(slot));
    match step {
        ProxyStep::Push { event } => {
            let noted = state.router.noted(event);
            if RouterView::ends_frame(event) {
                let desired = noted.desired(noted.now());
                law_synthesized_frames_pass(noted.shown, state.validator, desired);
                assert(desired.contacts.contains_key(slot));
                assert forall|other: u16| #[trigger]
                    device_after(steps).active.contains_key(other) implies device_after(
                    steps,
                ).active[other] < noted.shown.next_tracking_id by {
                    assert(state.validator.active.contains_key(other));
                }
            } else {
                assert(state.frame(event) =~= Seq::empty());
                assert(device_after(steps).replay(Seq::<VirtualEvent>::empty()) == device_after(
                    steps,
                ));
            }
        },
        ProxyStep::Release => {},
    }
}

proof fn lemma_claimed_sessions_are_hidden(steps: Seq<ProxyStep>)
    ensures
        after(steps).router.mode is Suppressing ==> after(steps).router.shown.contacts.dom()
            == Set::<u16>::empty(),
    decreases steps.len(),
{
    if steps.len() > 0 {
        lemma_claimed_sessions_are_hidden(steps.drop_last());
        assert(after(steps).router.mode is Suppressing ==> after(
            steps,
        ).router.shown.contacts.dom() =~= Set::<u16>::empty());
    }
}

/// Once a report has three fingers or more, the device shows none after any further
/// step, as long as every report has a finger.
pub proof fn law_claimed_sessions_stay_hidden(steps: Seq<ProxyStep>, from: int)
    requires
        handed_out(steps) < i32::MAX,
        0 <= from < steps.len(),
        steps[from] is Push,
        is_sync(steps[from]->event),
        after(steps.take(from)).router.noted(steps[from]->event).fingers() >= 3,
        forall|n: int|
            from < n < steps.len() && (#[trigger] steps[n]) is Push && is_sync(steps[n]->event)
                ==> after(steps.take(n)).router.noted(steps[n]->event).fingers() > 0,
    ensures
        after(steps).router.mode is Suppressing,
        device_after(steps).active.dom() == Set::<u16>::empty(),
    decreases steps.len(),
{
    let earlier = steps.drop_last();
    let last = steps.len() - 1;
    assert(steps.take(last) =~= earlier);
    lemma_names_differ();
    if from < last {
        assert(earlier.take(from) =~= steps.take(from));
        assert forall|n: int|
            from < n < earlier.len() && (#[trigger] earlier[n]) is Push && is_sync(
                earlier[n]->event,
            ) implies after(earlier.take(n)).router.noted(earlier[n]->event).fingers() > 0 by {
            assert(earlier[n] == steps[n]);
            assert(earlier.take(n) =~= steps.take(n));
        }
        law_claimed_sessions_stay_hidden(earlier, from);
        assert(steps[last] == steps.last());
    }
    lemma_claimed_sessions_are_hidden(steps);
    lemma_device_state(steps);
    assert(device_after(steps).active.dom() =~= Set::<u16>::empty());
}

/// Releasing everything leaves the device without a finger, without a button down and
/// without a touch.
pub proof fn law_releases_leave_nothing(steps: Seq<ProxyStep>)
    requires
        handed_out(steps) < i32::MAX,
    ensures
        ({
            let device = device_after(steps.push(ProxyStep::Release));
            &&& device.active.dom() == Set::<u16>::empty()
            &&& !device.keys.contains(BTN_LEFT)
            &&& !device.keys.contains(BTN_TOUCH)
            &&& forall|code: u16|
                code == 325 || code == 333 || code == 334 || code == 335 || code == 328
                    ==> !(#[trigger] device.keys.contains(code))
        }),
        fed(steps.push(ProxyStep::Release)) == fed(steps),
{
    let all = steps.push(ProxyStep::Release);
    assert(all.drop_last() =~= steps);
    lemma_device_state(all);
    let shown = after(all).router.shown;
    assert(shown.contacts =~= Map::empty());
    assert(device_after(all).active.dom() =~= Set::<u16>::empty());
    assert forall|code: u16|
        code == 325 || code == 333 || code == 334 || code == 335 || code
            == 328 implies !(#[trigger] device_after(all).keys.contains(code)) by {
        assert(crate::codes::tool_fingers_of(code) is Some);
    }
}

} // verus!
