//! The exclusive touchpad proxy: routes physical events to a virtual touchpad
//! and lets out only frames that pass the check.

use vstd::prelude::*;

use crate::codes::{
    ABS_MT_POSITION_X, ABS_MT_POSITION_Y, ABS_MT_SLOT, ABS_MT_TRACKING_ID, ABS_X, ABS_Y,
};
use crate::output::{OutputError, OutputValidator, Progress, ValidatorView, VirtualEvent};
use crate::physical::{PhysicalContact, SnapshotView};
use crate::raw_event::RawInputEvent;
use crate::router::{RouteOutcome, RouterView, RoutingMode, TouchpadRouter};
use crate::synthesizer::{SynthesizerView, VirtualContact};

verus! {

/// What a [`TouchpadPassthrough`] holds.
#[verifier::ext_equal]
pub struct PassthroughView {
    pub router: RouterView,
    pub validator: ValidatorView,
}

impl PassthroughView {
    /// Before any event.
    pub open spec fn initial() -> PassthroughView {
        PassthroughView { router: RouterView::initial(), validator: ValidatorView::initial() }
    }

    /// The virtual frame that a raw event completes, nothing where it
    /// completes none.
    pub open spec fn frame(self, event: RawInputEvent) -> Seq<VirtualEvent> {
        let noted = self.router.noted(event);
        if RouterView::ends_frame(event) {
            noted.frame(noted.now())
        } else {
            Seq::empty()
        }
    }

    /// What the check makes of the frame that a raw event completes.
    pub open spec fn checked(self, event: RawInputEvent) -> Result<ValidatorView, OutputError> {
        self.validator.check(self.frame(event))
    }

    /// The state after a raw event.
    pub open spec fn pushed(self, event: RawInputEvent) -> PassthroughView {
        PassthroughView {
            router: self.router.pushed(event),
            validator: match self.checked(event) {
                Ok(next) => next,
                Err(_) => self.validator,
            },
        }
    }
}

/// Something that happens to the proxy.
#[verifier::ext_equal]
pub enum ProxyStep {
    /// A raw event comes in.
    Push { event: RawInputEvent },
    /// Everything that is shown is released.
    Release,
}

impl PassthroughView {
    /// What the check makes of the frame that releases everything.
    pub open spec fn release_checked(self) -> Result<ValidatorView, OutputError> {
        self.validator.check(self.router.shown.frame(SnapshotView::empty()))
    }

    /// The state after everything is released.
    pub open spec fn released(self) -> PassthroughView {
        PassthroughView {
            router: self.router.released(),
            validator: match self.release_checked() {
                Ok(next) => next,
                Err(_) => self.validator,
            },
        }
    }

    /// What the check makes of the frame that a step leads to.
    pub open spec fn step_checked(self, step: ProxyStep) -> Result<ValidatorView, OutputError> {
        match step {
            ProxyStep::Push { event } => self.checked(event),
            ProxyStep::Release => self.release_checked(),
        }
    }

    /// The state after a step.
    pub open spec fn stepped(self, step: ProxyStep) -> PassthroughView {
        match step {
            ProxyStep::Push { event } => self.pushed(event),
            ProxyStep::Release => self.released(),
        }
    }

    /// How many tracking IDs a step hands out: one for each contact that it
    /// starts.
    pub open spec fn handed_out_by(self, step: ProxyStep) -> nat {
        match step {
            ProxyStep::Push { event } => {
                let noted = self.router.noted(event);
                if RouterView::ends_frame(event) {
                    begin_count(
                        noted.shown.contacts,
                        noted.desired(noted.now()).contacts,
                        crate::synthesizer::slot_count(),
                    )
                } else {
                    0
                }
            },
            ProxyStep::Release => 0,
        }
    }
}

/// The axes that a touchpad must have for its input to be proxied.
pub open spec fn required_axes() -> Seq<u16> {
    seq![
        ABS_X,
        ABS_Y,
        ABS_MT_SLOT,
        ABS_MT_POSITION_X,
        ABS_MT_POSITION_Y,
        ABS_MT_TRACKING_ID,
    ]
}

fn has_axis(axes: &Vec<u16>, axis: u16) -> (result: bool)
    ensures
        result == axes@.contains(axis),
{
    let mut index: usize = 0;
    while index < axes.len()
        invariant
            index <= axes@.len(),
            forall|i: int| 0 <= i < index ==> axes@[i] != axis,
        decreases axes@.len() - index,
    {
        if axes[index] == axis {
            return true;
        }
        index = index + 1;
    }
    false
}

/// The first required axis that a device does not have.
pub fn missing_axis(axes: &Vec<u16>) -> (missing: Option<u16>)
    ensures
        missing is None <==> forall|i: int|
            0 <= i < required_axes().len() ==> axes@.contains(#[trigger] required_axes()[i]),
        missing matches Some(axis) ==> exists|i: int|
            0 <= i < required_axes().len() && #[trigger] required_axes()[i] == axis
                && !axes@.contains(axis) && forall|j: int|
                0 <= j < i ==> axes@.contains(#[trigger] required_axes()[j]),
{
    let required: [u16; 6] = [
        ABS_X,
        ABS_Y,
        ABS_MT_SLOT,
        ABS_MT_POSITION_X,
        ABS_MT_POSITION_Y,
        ABS_MT_TRACKING_ID,
    ];
    assert(required@ =~= required_axes());
    let mut index: usize = 0;
    while index < 6
        invariant
            index <= 6,
            required@ == required_axes(),
            forall|i: int| 0 <= i < index ==> axes@.contains(#[trigger] required_axes()[i]),
        decreases 6 - index,
    {
        if !has_axis(axes, required[index]) {
            assert(required_axes()[index as int] == required@[index as int]);
            return Some(required[index]);
        }
        assert(required_axes()[index as int] == required@[index as int]);
        index = index + 1;
    }
    None
}

/// Exclusive touchpad proxy that synthesizes a new, checked multitouch stream
/// instead of replaying physical events verbatim.
#[derive(Debug)]
pub struct TouchpadPassthrough {
    pub router: TouchpadRouter,
    pub validator: OutputValidator,
}

impl View for TouchpadPassthrough {
    type V = PassthroughView;

    open spec fn view(&self) -> PassthroughView {
        PassthroughView { router: self.router@, validator: self.validator@ }
    }
}

impl TouchpadPassthrough {
    pub fn new() -> (passthrough: TouchpadPassthrough)
        ensures
            passthrough@ == PassthroughView::initial(),
    {
        TouchpadPassthrough { router: TouchpadRouter::new(), validator: OutputValidator::new() }
    }

    /// Feeds one raw physical event and returns the events to emit, none where
    /// no frame is complete. A frame that fails the check is not to be emitted.
    pub fn push(&mut self, event: &RawInputEvent) -> (result: Result<
        Vec<VirtualEvent>,
        OutputError,
    >)
        ensures
            final(self)@ == old(self)@.pushed(*event),
            match old(self)@.checked(*event) {
                Ok(_) => result matches Ok(events) && events@ == old(self)@.frame(*event),
                Err(error) => result == Err::<Vec<VirtualEvent>, OutputError>(error),
            },
    {
        match self.router.push(event) {
            Some(packet) => {
                match self.validator.validate(packet.events.as_slice()) {
                    Ok(()) => Ok(packet.events),
                    Err(error) => Err(error),
                }
            },
            None => {
                let none: Vec<VirtualEvent> = Vec::new();
                assert(none@ =~= Seq::empty());
                assert(self.validator@ == old(self)@.validator);
                Ok(none)
            },
        }
    }

    /// Ends every contact that the virtual touchpad shows, and returns the
    /// events that do so.
    pub fn release_all(&mut self) -> (result: Result<Vec<VirtualEvent>, OutputError>)
        ensures
            final(self)@ == old(self)@.released(),
            match old(self)@.release_checked() {
                Ok(_) => result matches Ok(events) && events@ == old(self)@.router.shown.frame(
                    SnapshotView::empty(),
                ),
                Err(error) => result == Err::<Vec<VirtualEvent>, OutputError>(error),
            },
    {
        let events = self.router.release_packet();
        match self.validator.validate(events.as_slice()) {
            Ok(()) => Ok(events),
            Err(error) => Err(error),
        }
    }
}

/// The check and the virtual touchpad agree on which slots are in use, every
/// tracking ID in use was handed out before the next one, and no two slots share
/// one.
pub open spec fn in_step(shown: SynthesizerView, validator: ValidatorView) -> bool {
    &&& shown.next_tracking_id >= 1
    &&& forall|slot: u16| #[trigger]
        validator.active.contains_key(slot) <==> shown.contacts.contains_key(slot)
    &&& forall|slot: u16| #[trigger]
        validator.active.contains_key(slot) ==> 1 <= validator.active[slot]
            < shown.next_tracking_id
    &&& distinct_ids(validator.active)
}

/// No two slots share a tracking ID.
pub open spec fn distinct_ids(active: Map<u16, i32>) -> bool {
    forall|left: u16, right: u16|
        #![trigger active.contains_key(left), active.contains_key(right)]
        active.contains_key(left) && active.contains_key(right) && left != right ==> active[left]
            != active[right]
}

/// Events that leave the check where it is.
proof fn lemma_harmless_run(start: Progress, events: Seq<VirtualEvent>)
    requires
        forall|i: int| 0 <= i < events.len() ==> start.step(#[trigger] events[i]) == Ok::<
            Progress,
            OutputError,
        >(start),
    ensures
        start.run(events) == Ok::<Progress, OutputError>(start),
    decreases events.len(),
{
    if events.len() > 0 {
        assert forall|i: int| 0 <= i < events.drop_last().len() implies start.step(
            #[trigger] events.drop_last()[i],
        ) == Ok::<Progress, OutputError>(start) by {
            assert(events.drop_last()[i] == events[i]);
        }
        lemma_harmless_run(start, events.drop_last());
        assert(start.step(events[events.len() - 1]) == Ok::<Progress, OutputError>(start));
    }
}

proof fn lemma_run_one(start: Progress, event: VirtualEvent)
    ensures
        start.run(seq![event]) == start.step(event),
{
    assert(seq![event].drop_last() =~= Seq::empty());
    assert(start.run(Seq::empty()) == Ok::<Progress, OutputError>(start));
}

proof fn lemma_run_two(start: Progress, first: VirtualEvent, second: VirtualEvent)
    requires
        start.step(first) is Ok,
    ensures
        start.run(seq![first, second]) == start.step(first)->Ok_0.step(second),
{
    assert(seq![first, second].drop_last() =~= seq![first]);
    lemma_run_one(start, first);
}

proof fn lemma_releases_pass(
    start: Progress,
    shown: Map<u16, VirtualContact>,
    desired: Map<u16, PhysicalContact>,
    below: nat,
)
    requires
        below <= crate::synthesizer::slot_count(),
        forall|slot: u16| #[trigger]
            start.active.contains_key(slot) <==> shown.contains_key(slot),
    ensures
        start.run(crate::synthesizer::release_events(shown, desired, below)) matches Ok(end) && {
            &&& forall|slot: u16| #[trigger]
                end.active.contains_key(slot) <==> (shown.contains_key(slot) && (slot >= below
                    || crate::synthesizer::keeps(shown, desired, slot)))
            &&& forall|slot: u16|
                end.active.contains_key(slot) ==> #[trigger] end.active[slot] == start.active[slot]
        },
    decreases below,
{
    if below > 0 {
        let slot = (below - 1) as u16;
        let earlier = crate::synthesizer::release_events(shown, desired, (below - 1) as nat);
        let release = crate::synthesizer::slot_release(shown, desired, slot);
        lemma_releases_pass(start, shown, desired, (below - 1) as nat);
        crate::output::lemma_run_splits(start, earlier, release);
        let middle = start.run(earlier)->Ok_0;
        if release.len() > 0 {
            lemma_run_two(middle, release[0], release[1]);
            assert(release =~= seq![release[0], release[1]]);
        } else {
            assert(release =~= Seq::empty());
        }
    }
}

/// How many slots below a bound start a contact.
pub open spec fn begin_count(
    shown: Map<u16, VirtualContact>,
    desired: Map<u16, PhysicalContact>,
    below: nat,
) -> nat
    decreases below,
{
    if below == 0 {
        0
    } else {
        begin_count(shown, desired, (below - 1) as nat) + if crate::synthesizer::begins(
            shown,
            desired,
            (below - 1) as u16,
        ) {
            1nat
        } else {
            0nat
        }
    }
}

proof fn lemma_nothing_begins(shown: Map<u16, VirtualContact>, below: nat)
    ensures
        begin_count(shown, Map::<u16, PhysicalContact>::empty(), below) == 0,
    decreases below,
{
    if below > 0 {
        lemma_nothing_begins(shown, (below - 1) as nat);
    }
}

proof fn lemma_ids_count_up(
    shown: Map<u16, VirtualContact>,
    desired: Map<u16, PhysicalContact>,
    first: i32,
    below: nat,
)
    requires
        first >= 1,
        first + begin_count(shown, desired, below) <= i32::MAX,
    ensures
        crate::synthesizer::id_after(shown, desired, first, below) == first + begin_count(
            shown,
            desired,
            below,
        ),
    decreases below,
{
    if below > 0 {
        lemma_ids_count_up(shown, desired, first, (below - 1) as nat);
    }
}

/// One slot's contact events, from a state in which the slot is free or holds
/// the contact that stays.
proof fn lemma_slot_contact_passes(
    start: Progress,
    shown: Map<u16, VirtualContact>,
    desired: Map<u16, PhysicalContact>,
    slot: u16,
    id: i32,
)
    requires
        id >= 1,
        start.active.contains_key(slot) <==> crate::synthesizer::keeps(shown, desired, slot),
        forall|other: u16| #[trigger]
            start.active.contains_key(other) ==> start.active[other] < id,
    ensures
        start.run(crate::synthesizer::slot_contact(shown, desired, slot, id)) matches Ok(end)
            && end.active == (if crate::synthesizer::begins(shown, desired, slot) {
            start.active.insert(slot, id)
        } else {
            start.active
        }),
{
    let events = crate::synthesizer::slot_contact(shown, desired, slot, id);
    let selector = crate::output::absolute(crate::codes::ABS_MT_SLOT, slot as i32);
    let selected = Progress { current_slot: slot, slot_selected: true, ..start };
    if crate::synthesizer::begins(shown, desired, slot) {
        let tracking = crate::output::absolute(crate::codes::ABS_MT_TRACKING_ID, id);
        let head = seq![selector, tracking];
        let rest = events.skip(2);
        assert(events =~= head + rest);
        lemma_run_two(start, selector, tracking);
        let placed = Progress { active: start.active.insert(slot, id), ..selected };
        assert(selected.step(tracking) == Ok::<Progress, OutputError>(placed));
        crate::output::lemma_run_splits(start, head, rest);
        lemma_harmless_run(placed, rest);
    } else if events.len() > 0 {
        let head = seq![selector];
        let rest = events.skip(1);
        assert(events =~= head + rest);
        lemma_run_one(start, selector);
        crate::output::lemma_run_splits(start, head, rest);
        lemma_harmless_run(selected, rest);
    } else {
        assert(events =~= Seq::empty());
    }
}

proof fn lemma_contacts_pass(
    start: Progress,
    shown: Map<u16, VirtualContact>,
    desired: Map<u16, PhysicalContact>,
    first: i32,
    below: nat,
)
    requires
        below <= crate::synthesizer::slot_count(),
        first >= 1,
        first + begin_count(shown, desired, below) <= i32::MAX,
        forall|slot: u16| #[trigger]
            start.active.contains_key(slot) <==> crate::synthesizer::keeps(shown, desired, slot),
        forall|slot: u16| #[trigger]
            start.active.contains_key(slot) ==> 1 <= start.active[slot] < first,
        distinct_ids(start.active),
    ensures
        start.run(
            crate::synthesizer::contact_events(shown, desired, first, below),
        ) matches Ok(end) && {
            &&& forall|slot: u16| #[trigger]
                end.active.contains_key(slot) <==> (if slot < below {
                    desired.contains_key(slot)
                } else {
                    crate::synthesizer::keeps(shown, desired, slot)
                })
            &&& forall|slot: u16| #[trigger]
                end.active.contains_key(slot) ==> 1 <= end.active[slot]
                    < crate::synthesizer::id_after(shown, desired, first, below)
            &&& forall|slot: u16| #[trigger]
                end.active.contains_key(slot) ==> if crate::synthesizer::keeps(
                    shown,
                    desired,
                    slot,
                ) {
                    end.active[slot] == start.active[slot]
                } else {
                    end.active[slot] >= first
                }
            &&& distinct_ids(end.active)
        },
    decreases below,
{
    if below > 0 {
        let slot = (below - 1) as u16;
        let earlier = crate::synthesizer::contact_events(
            shown,
            desired,
            first,
            (below - 1) as nat,
        );
        let id = crate::synthesizer::id_after(shown, desired, first, (below - 1) as nat);
        let contact = crate::synthesizer::slot_contact(shown, desired, slot, id);
        lemma_contacts_pass(start, shown, desired, first, (below - 1) as nat);
        lemma_ids_count_up(shown, desired, first, (below - 1) as nat);
        lemma_ids_count_up(shown, desired, first, below);
        let middle = start.run(earlier)->Ok_0;
        crate::output::lemma_run_splits(start, earlier, contact);
        lemma_slot_contact_passes(middle, shown, desired, slot, id);
    }
}

proof fn lemma_tail_passes(start: Progress, shown: SynthesizerView, desired: SnapshotView)
    ensures
        start.run(shown.tail_events(desired)) == Ok::<Progress, OutputError>(start),
{
    let tail = shown.tail_events(desired);
    assert forall|i: int| 0 <= i < tail.len() implies start.step(#[trigger] tail[i]) == Ok::<
        Progress,
        OutputError,
    >(start) by {}
    lemma_harmless_run(start, tail);
}

/// Every frame that the synthesizer makes passes the check, and the two stay
/// in step, as long as there are tracking IDs left for the contacts that it
/// starts; each of these takes one. A finger that stays in its slot keeps its
/// tracking ID, and another one gets an ID that was not handed out before.
pub proof fn law_synthesized_frames_pass(
    shown: SynthesizerView,
    validator: ValidatorView,
    desired: SnapshotView,
)
    requires
        in_step(shown, validator),
        shown.next_tracking_id + begin_count(
            shown.contacts,
            desired.contacts,
            crate::synthesizer::slot_count(),
        ) <= i32::MAX,
    ensures
        validator.check(shown.frame(desired)) matches Ok(next) && in_step(
            shown.showing(desired),
            next,
        ),
        shown.showing(desired).next_tracking_id == shown.next_tracking_id + begin_count(
            shown.contacts,
            desired.contacts,
            crate::synthesizer::slot_count(),
        ),
        forall|slot: u16| #[trigger]
            desired.contacts.contains_key(slot) ==> {
                let next = validator.check(shown.frame(desired))->Ok_0;
                let stays = shown.contacts.contains_key(slot)
                    && shown.contacts[slot].physical_tracking_id
                    == desired.contacts[slot].tracking_id;
                &&& stays ==> next.active[slot] == validator.active[slot]
                &&& !stays ==> next.active[slot] >= shown.next_tracking_id
            },
{
    let start = validator.frame_start();
    let count = crate::synthesizer::slot_count();
    let releases = crate::synthesizer::release_events(shown.contacts, desired.contacts, count);
    let contacts = crate::synthesizer::contact_events(
        shown.contacts,
        desired.contacts,
        shown.next_tracking_id,
        count,
    );
    let tail = shown.tail_events(desired);
    lemma_ids_count_up(shown.contacts, desired.contacts, shown.next_tracking_id, count);
    lemma_releases_pass(start, shown.contacts, desired.contacts, count);
    let freed = start.run(releases)->Ok_0;
    assert forall|slot: u16| #[trigger] freed.active.contains_key(slot) implies 1
        <= freed.active[slot] < shown.next_tracking_id by {
        assert(freed.active[slot] == start.active[slot]);
        assert(validator.active.contains_key(slot));
    }
    assert forall|left: u16, right: u16|
        #![trigger freed.active.contains_key(left), freed.active.contains_key(right)]
        freed.active.contains_key(left) && freed.active.contains_key(right) && left
            != right implies freed.active[left] != freed.active[right] by {
        assert(freed.active[left] == start.active[left]);
        assert(freed.active[right] == start.active[right]);
        assert(validator.active.contains_key(left) && validator.active.contains_key(right));
    }
    lemma_contacts_pass(
        freed,
        shown.contacts,
        desired.contacts,
        shown.next_tracking_id,
        count,
    );
    let placed = freed.run(contacts)->Ok_0;
    crate::output::lemma_run_splits(start, releases, contacts);
    crate::output::lemma_run_splits(start, releases + contacts, tail);
    lemma_tail_passes(placed, shown, desired);
    let end = ValidatorView { current_slot: placed.current_slot, active: placed.active };
    assert(validator.check(shown.frame(desired)) == Ok::<ValidatorView, OutputError>(end));
    assert forall|slot: u16| #[trigger] desired.contacts.contains_key(slot) implies {
        let stays = shown.contacts.contains_key(slot)
            && shown.contacts[slot].physical_tracking_id == desired.contacts[slot].tracking_id;
        &&& stays ==> end.active[slot] == validator.active[slot]
        &&& !stays ==> end.active[slot] >= shown.next_tracking_id
    } by {
        assert(slot < count);
        assert(placed.active.contains_key(slot));
        if crate::synthesizer::keeps(shown.contacts, desired.contacts, slot) {
            assert(freed.active.contains_key(slot));
            assert(freed.active[slot] == start.active[slot]);
        }
    }
}

/// The state after a run of steps.
pub open spec fn after(steps: Seq<ProxyStep>) -> PassthroughView
    decreases steps.len(),
{
    if steps.len() == 0 {
        PassthroughView::initial()
    } else {
        after(steps.drop_last()).stepped(steps.last())
    }
}

/// How many tracking IDs a run of steps hands out.
pub open spec fn handed_out(steps: Seq<ProxyStep>) -> nat
    decreases steps.len(),
{
    if steps.len() == 0 {
        0
    } else {
        handed_out(steps.drop_last()) + after(steps.drop_last()).handed_out_by(steps.last())
    }
}

/// What is shown is at most two contacts.
spec fn shows_little(state: PassthroughView) -> bool {
    &&& state.router.physical.wf()
    &&& state.router.shown.contacts.dom().finite()
    &&& state.router.shown.contacts.len() <= 2
}

/// Whatever a frame should show is at most two contacts.
proof fn lemma_desired_is_small(router: RouterView, now: u128)
    requires
        router.physical.wf(),
    ensures
        router.desired(now).wf(),
        router.desired(now).contacts.len() <= 2,
{
    let physical = router.physical.snapshot();
    let desired = router.desired(now);
    match router.outcome(now) {
        RouteOutcome::PendingTwo => {
            assert(desired.contacts.dom().subset_of(physical.contacts.dom()));
            vstd::set_lib::lemma_len_subset(desired.contacts.dom(), physical.contacts.dom());
        },
        _ => {},
    }
}

proof fn lemma_mirrored_size(desired: Map<u16, PhysicalContact>)
    ensures
        crate::synthesizer::mirrored_all(desired).dom() == desired.dom(),
{
    assert(crate::synthesizer::mirrored_all(desired).dom() =~= desired.dom());
}

proof fn lemma_steps_show_little(steps: Seq<ProxyStep>)
    ensures
        shows_little(after(steps)),
    decreases steps.len(),
{
    if steps.len() > 0 {
        lemma_steps_show_little(steps.drop_last());
        let before = after(steps.drop_last());
        match steps.last() {
            ProxyStep::Push { event } => {
                let noted = before.router.noted(event);
                if RouterView::ends_frame(event) {
                    lemma_desired_is_small(noted, noted.now());
                    lemma_mirrored_size(noted.desired(noted.now()).contacts);
                }
            },
            ProxyStep::Release => {
                lemma_mirrored_size(SnapshotView::empty().contacts);
            },
        }
    }
}

/// One step from a state in step, with tracking IDs left for it.
proof fn lemma_step_passes(state: PassthroughView, step: ProxyStep)
    requires
        in_step(state.router.shown, state.validator),
        state.router.shown.next_tracking_id + state.handed_out_by(step) <= i32::MAX,
    ensures
        state.step_checked(step) is Ok,
        in_step(state.stepped(step).router.shown, state.stepped(step).validator),
        state.stepped(step).router.shown.next_tracking_id == state.router.shown.next_tracking_id
            + state.handed_out_by(step),
{
    match step {
        ProxyStep::Push { event } => {
            let noted = state.router.noted(event);
            if RouterView::ends_frame(event) {
                law_synthesized_frames_pass(
                    noted.shown,
                    state.validator,
                    noted.desired(noted.now()),
                );
            } else {
                assert(state.frame(event) =~= Seq::empty());
                assert(state.checked(event) == Ok::<ValidatorView, OutputError>(
                    ValidatorView {
                        current_slot: state.validator.current_slot,
                        active: state.validator.active,
                    },
                ));
            }
        },
        ProxyStep::Release => {
            lemma_nothing_begins(state.router.shown.contacts, crate::synthesizer::slot_count());
            law_synthesized_frames_pass(
                state.router.shown,
                state.validator,
                SnapshotView::empty(),
            );
        },
    }
}

proof fn lemma_handed_out_grows(steps: Seq<ProxyStep>, n: int)
    requires
        0 <= n <= steps.len(),
    ensures
        handed_out(steps.take(n)) <= handed_out(steps),
    decreases steps.len() - n,
{
    if n < steps.len() {
        lemma_handed_out_grows(steps, n + 1);
        assert(steps.take(n + 1).drop_last() =~= steps.take(n));
    } else {
        assert(steps.take(n) =~= steps);
    }
}

pub(crate) proof fn lemma_steps_stay_in_step(steps: Seq<ProxyStep>)
    requires
        handed_out(steps) < i32::MAX,
    ensures
        in_step(after(steps).router.shown, after(steps).validator),
        after(steps).router.shown.next_tracking_id == 1 + handed_out(steps),
    decreases steps.len(),
{
    if steps.len() > 0 {
        lemma_steps_stay_in_step(steps.drop_last());
        lemma_step_passes(after(steps.drop_last()), steps.last());
    }
}

/// No mix of raw events and releases, whatever it holds, makes the proxy produce
/// a frame that fails the check, as long as the tracking IDs have not run out;
/// and all along the check and the virtual touchpad stay in step, so that no two
/// slots share a tracking ID.
pub proof fn law_no_stream_fails_the_check(steps: Seq<ProxyStep>)
    requires
        handed_out(steps) < i32::MAX,
    ensures
        forall|n: int|
            0 <= n < steps.len() ==> after(#[trigger] steps.take(n)).step_checked(steps[n]) is Ok,
        forall|n: int|
            0 <= n <= steps.len() ==> in_step(
                after(#[trigger] steps.take(n)).router.shown,
                after(steps.take(n)).validator,
            ),
        after(steps).release_checked() is Ok,
{
    assert forall|n: int| 0 <= n <= steps.len() implies in_step(
        after(#[trigger] steps.take(n)).router.shown,
        after(steps.take(n)).validator,
    ) by {
        lemma_handed_out_grows(steps, n);
        lemma_steps_stay_in_step(steps.take(n));
    }
    assert forall|n: int| 0 <= n < steps.len() implies after(#[trigger] steps.take(n)).step_checked(
        steps[n],
    ) is Ok by {
        lemma_handed_out_grows(steps, n);
        lemma_handed_out_grows(steps, n + 1);
        lemma_steps_stay_in_step(steps.take(n));
        assert(steps.take(n + 1).drop_last() =~= steps.take(n));
        lemma_step_passes(after(steps.take(n)), steps[n]);
    }
    lemma_steps_stay_in_step(steps);
    lemma_step_passes(after(steps), ProxyStep::Release);
}

/// The virtual touchpad never shows more than two contacts.
pub proof fn law_at_most_two_contacts(steps: Seq<ProxyStep>)
    ensures
        after(steps).router.shown.contacts.len() <= 2,
{
    lemma_steps_show_little(steps);
}

/// What the virtual touchpad shows is what the check counts as active.
pub proof fn law_shown_contacts_are_active(steps: Seq<ProxyStep>)
    requires
        handed_out(steps) < i32::MAX,
    ensures
        after(steps).validator.active.dom() == after(steps).router.shown.contacts.dom(),
{
    lemma_steps_stay_in_step(steps);
    assert(after(steps).validator.active.dom() =~= after(steps).router.shown.contacts.dom());
}

/// A frame with three or more fingers shows nothing and claims the session.
pub proof fn law_third_finger_hides_everything(router: RouterView, now: u128)
    requires
        router.fingers() >= 3,
    ensures
        router.frame_done(now).shown.contacts == Map::<u16, VirtualContact>::empty(),
        router.frame_done(now).mode == RoutingMode::Suppressing,
{
    assert(router.frame_done(now).shown.contacts =~= Map::<u16, VirtualContact>::empty());
}

/// A claimed session shows nothing, and ends with the frame in which the last
/// finger is lifted and no sooner.
pub proof fn law_suppression_lasts_until_all_fingers_are_lifted(router: RouterView, now: u128)
    requires
        router.mode == RoutingMode::Suppressing,
    ensures
        router.frame_done(now).shown.contacts == Map::<u16, VirtualContact>::empty(),
        router.frame_done(now).mode == RoutingMode::Suppressing <==> router.fingers() > 0,
        router.fingers() == 0 ==> router.frame_done(now).mode == RoutingMode::Forwarding,
{
    assert(router.frame_done(now).shown.contacts =~= Map::<u16, VirtualContact>::empty());
}

/// While a second finger waits no contact appears that was not shown before.
pub proof fn law_second_finger_waits(router: RouterView, now: u128, slot: u16)
    requires
        router.fingers() == 2,
        router.mode == RoutingMode::Forwarding || (router.mode matches RoutingMode::PendingTwo {
            started_micros,
        } && !crate::router::window_over(started_micros, now)),
    ensures
        router.outcome(now) == RouteOutcome::PendingTwo,
        router.frame_done(now).shown.contacts.contains_key(slot) ==> crate::synthesizer::keeps(
            router.shown.contacts,
            router.physical.contacts,
            slot,
        ),
{
}

/// One finger, or none, is shown as it is, unless the session is claimed; so
/// are two fingers once the window is over.
pub proof fn law_few_fingers_are_forwarded(router: RouterView, now: u128)
    requires
        router.mode == RoutingMode::Forwarding && router.fingers() <= 1 || (router.mode matches RoutingMode::PendingTwo {
            started_micros,
        } && (router.fingers() <= 1 || router.fingers() == 2 && crate::router::window_over(
            started_micros,
            now,
        ))),
    ensures
        router.outcome(now) == RouteOutcome::Forwarded,
        router.frame_done(now).shown.contacts == crate::synthesizer::mirrored_all(
            router.physical.contacts,
        ),
        router.frame_done(now).mode == RoutingMode::Forwarding,
{
}

proof fn lemma_nothing_to_release(
    shown: Map<u16, VirtualContact>,
    desired: Map<u16, PhysicalContact>,
    below: nat,
)
    requires
        shown == crate::synthesizer::mirrored_all(desired),
    ensures
        crate::synthesizer::release_events(shown, desired, below) == Seq::<VirtualEvent>::empty(),
    decreases below,
{
    if below > 0 {
        lemma_nothing_to_release(shown, desired, (below - 1) as nat);
        assert(crate::synthesizer::release_events(shown, desired, below) =~= Seq::<
            VirtualEvent,
        >::empty());
    } else {
        assert(crate::synthesizer::release_events(shown, desired, below) =~= Seq::<
            VirtualEvent,
        >::empty());
    }
}

proof fn lemma_nothing_to_place(
    shown: Map<u16, VirtualContact>,
    desired: Map<u16, PhysicalContact>,
    first: i32,
    below: nat,
)
    requires
        shown == crate::synthesizer::mirrored_all(desired),
    ensures
        crate::synthesizer::contact_events(shown, desired, first, below) == Seq::<
            VirtualEvent,
        >::empty(),
        crate::synthesizer::id_after(shown, desired, first, below) == first,
    decreases below,
{
    if below > 0 {
        let slot = (below - 1) as u16;
        lemma_nothing_to_place(shown, desired, first, (below - 1) as nat);
        assert(crate::synthesizer::slot_contact(shown, desired, slot, first) =~= Seq::<
            VirtualEvent,
        >::empty());
        assert(crate::synthesizer::contact_events(shown, desired, first, below) =~= Seq::<
            VirtualEvent,
        >::empty());
    } else {
        assert(crate::synthesizer::contact_events(shown, desired, first, below) =~= Seq::<
            VirtualEvent,
        >::empty());
    }
}

/// What is already shown takes no events and changes nothing.
pub proof fn law_synthesis_is_idempotent(shown: SynthesizerView, desired: SnapshotView)
    ensures
        shown.showing(desired).frame(desired) == Seq::<VirtualEvent>::empty(),
        shown.showing(desired).showing(desired) == shown.showing(desired),
{
    let settled = shown.showing(desired);
    let count = crate::synthesizer::slot_count();
    lemma_nothing_to_release(settled.contacts, desired.contacts, count);
    lemma_nothing_to_place(settled.contacts, desired.contacts, settled.next_tracking_id, count);
    assert(settled.frame(desired) =~= Seq::<VirtualEvent>::empty());
    assert(settled.showing(desired) =~= settled);
}

/// A release leaves nothing shown, and a second release emits nothing.
pub proof fn law_release_is_idempotent(router: RouterView)
    ensures
        router.released().shown.contacts == Map::<u16, VirtualContact>::empty(),
        router.released().shown.frame(SnapshotView::empty()) == Seq::<VirtualEvent>::empty(),
        router.released().released() == router.released(),
{
    law_synthesis_is_idempotent(router.shown, SnapshotView::empty());
    assert(router.released().shown.contacts =~= Map::<u16, VirtualContact>::empty());
    assert(router.released().released() =~= router.released());
}

/// A touchpad needs the pointer axes, the slot, both positions and the tracking ID.
pub proof fn law_required_axes()
    ensures
        required_axes().len() == 6,
        required_axes().contains(0x00) && required_axes().contains(0x01),
        required_axes().contains(0x2f) && required_axes().contains(0x35),
        required_axes().contains(0x36) && required_axes().contains(0x39),
{
    let axes = required_axes();
    assert(axes[0] == 0x00 && axes[1] == 0x01 && axes[2] == 0x2f && axes[3] == 0x35);
    assert(axes[4] == 0x36 && axes[5] == 0x39);
}

} // verus!
