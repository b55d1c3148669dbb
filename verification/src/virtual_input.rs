//! A model of what a pointer and a keyboard make of the events that are emitted on
//! them, and what the commands and chords of this library do to it.

use vstd::prelude::*;

use crate::codes::{BTN_LEFT, BTN_MIDDLE, BTN_RIGHT, EV_KEY, EV_REL, REL_X, REL_Y};
use crate::event::EventView;
use crate::key_chord::{key_frames, TapStage, TapView};
use crate::metric::Metric;
use crate::output::VirtualEvent;
use crate::pointer_drag::{
    command_frames, every_button_up, events_of, DragFault, DragParams, DragPlanView, DragStateView,
    MouseButton, PointerCommand,
};

verus! {

/// Where a pointer is, and which keys and buttons are down.
#[verifier::ext_equal]
pub struct InputView {
    pub x: int,
    pub y: int,
    pub down: Set<u16>,
}

impl InputView {
    /// One event taken in.
    pub open spec fn step(self, event: VirtualEvent) -> InputView {
        if event.event_type == EV_REL && event.code == REL_X {
            InputView { x: self.x + event.value, ..self }
        } else if event.event_type == EV_REL && event.code == REL_Y {
            InputView { y: self.y + event.value, ..self }
        } else if event.event_type == EV_KEY && event.value != 0 {
            InputView { down: self.down.insert(event.code), ..self }
        } else if event.event_type == EV_KEY {
            InputView { down: self.down.remove(event.code), ..self }
        } else {
            self
        }
    }

    /// A run of events taken in from the left.
    pub open spec fn replay(self, events: Seq<VirtualEvent>) -> InputView
        decreases events.len(),
    {
        if events.len() == 0 {
            self
        } else {
            self.replay(events.drop_last()).step(events.last())
        }
    }

    /// A run of packets taken in from the left.
    pub open spec fn replay_all(self, packets: Seq<Seq<VirtualEvent>>) -> InputView
        decreases packets.len(),
    {
        if packets.len() == 0 {
            self
        } else {
            self.replay_all(packets.drop_last()).replay(packets.last())
        }
    }

    /// The pointer displaced, with the same buttons down.
    pub open spec fn displaced(self, x: int, y: int) -> InputView {
        InputView { x: self.x + x, y: self.y + y, ..self }
    }
}

/// How far some commands move along x.
pub open spec fn total_x(commands: Seq<PointerCommand>) -> int
    decreases commands.len(),
{
    if commands.len() == 0 {
        0
    } else {
        total_x(commands.drop_last()) + match commands.last() {
            PointerCommand::Move { x, .. } => x as int,
            PointerCommand::Button { .. } => 0,
        }
    }
}

/// How far some commands move along y.
pub open spec fn total_y(commands: Seq<PointerCommand>) -> int
    decreases commands.len(),
{
    if commands.len() == 0 {
        0
    } else {
        total_y(commands.drop_last()) + match commands.last() {
            PointerCommand::Move { y, .. } => y as int,
            PointerCommand::Button { .. } => 0,
        }
    }
}

/// Whether a button is down after some commands: by the last command for it, and
/// as before where there is none.
pub open spec fn button_after(
    down: bool,
    commands: Seq<PointerCommand>,
    button: MouseButton,
) -> bool
    decreases commands.len(),
{
    if commands.len() == 0 {
        down
    } else {
        match commands.last() {
            PointerCommand::Button { button: other, down: state } if other == button => state,
            _ => button_after(down, commands.drop_last(), button),
        }
    }
}

/// The kernel's code of a mouse button.
pub open spec fn kernel_button(button: MouseButton) -> u16 {
    match button {
        MouseButton::Left => BTN_LEFT,
        MouseButton::Right => BTN_RIGHT,
        MouseButton::Middle => BTN_MIDDLE,
    }
}

proof fn lemma_replay_two(model: InputView, events: Seq<VirtualEvent>)
    requires
        events.len() <= 2,
    ensures
        events.len() == 0 ==> model.replay(events) == model,
        events.len() == 1 ==> model.replay(events) == model.step(events[0]),
        events.len() == 2 ==> model.replay(events) == model.step(events[0]).step(events[1]),
{
    reveal_with_fuel(InputView::replay, 3);
}

/// A movement displaces a pointer by exactly what it says along each axis and
/// touches no button. A button command puts its button down or up, touches no other
/// key and moves nothing.
pub proof fn law_commands_do_what_they_say(model: InputView, command: PointerCommand)
    ensures
        command matches PointerCommand::Move { x, y } ==> model.replay(events_of(command))
            == model.displaced(x as int, y as int),
        command matches PointerCommand::Button { button, down } ==> {
            let after = model.replay(events_of(command));
            &&& after.x == model.x && after.y == model.y
            &&& after.down.contains(kernel_button(button)) == down
            &&& forall|code: u16|
                code != kernel_button(button) ==> after.down.contains(code)
                    == #[trigger] model.down.contains(code)
        },
{
    lemma_replay_two(model, events_of(command));
}

/// The packets of some commands displace a pointer by exactly the sum of their
/// movements along each axis, and leave each button as the last command for it says.
pub proof fn law_packets_do_what_the_commands_say(
    model: InputView,
    commands: Seq<PointerCommand>,
    button: MouseButton,
)
    ensures
        ({
            let after = model.replay_all(command_frames(commands));
            &&& after.x == model.x + total_x(commands)
            &&& after.y == model.y + total_y(commands)
            &&& after.down.contains(kernel_button(button)) == button_after(
                model.down.contains(kernel_button(button)),
                commands,
                button,
            )
        }),
        forall|i: int|
            0 <= i < command_frames(commands).len() ==> (#[trigger] command_frames(
                commands,
            )[i]).len() > 0,
    decreases commands.len(),
{
    if commands.len() > 0 {
        let earlier = commands.drop_last();
        law_packets_do_what_the_commands_say(model, earlier, button);
        let before = model.replay_all(command_frames(earlier));
        law_commands_do_what_they_say(before, commands.last());
        let frames = command_frames(commands);
        if events_of(commands.last()).len() > 0 {
            assert(frames.drop_last() =~= command_frames(earlier));
        } else {
            lemma_replay_two(before, events_of(commands.last()));
        }
    }
}

/// After every button was released none is down, whatever was down before, and the
/// pointer has not moved.
pub proof fn law_released_buttons_are_up(model: InputView, button: MouseButton)
    ensures
        ({
            let after = model.replay(every_button_up());
            &&& !after.down.contains(kernel_button(button))
            &&& after.x == model.x && after.y == model.y
        }),
{
    reveal_with_fuel(InputView::replay, 4);
    let events = every_button_up();
    assert(events.drop_last() =~= seq![events[0], events[1]]);
    assert(events.drop_last().drop_last() =~= seq![events[0]]);
    assert(events.drop_last().drop_last().drop_last() =~= Seq::empty());
}

proof fn lemma_phases_differ()
    ensures
        "begin"@ != "update"@,
        "begin"@ != "end"@,
        "begin"@ != "cancel"@,
        "update"@ != "end"@,
        "update"@ != "cancel"@,
        "dx"@ != "dy"@,
{
    reveal_strlit("begin");
    reveal_strlit("update");
    reveal_strlit("end");
    reveal_strlit("cancel");
    reveal_strlit("dx");
    reveal_strlit("dy");
    assert("begin"@.len() == 5 && "update"@.len() == 6 && "end"@.len() == 3 && "cancel"@.len() == 6);
    assert("update"@[0] != "cancel"@[0]);
    assert("dx"@[1] != "dy"@[1]);
}

/// Whether an event says how far to move.
pub open spec fn says_how_far(event: EventView) -> bool {
    &&& event.values.contains_key("dx"@) && event.values["dx"@].finite()
    &&& event.values.contains_key("dy"@) && event.values["dy"@].finite()
}

/// A pointer that is taken through a drag event is displaced by exactly the steps
/// that its movement was scaled to, and by nothing where it calls for no movement.
/// Afterwards the button of the drag is down where the state has a drag, and the
/// button of a drag that was released or replaced is up.
pub proof fn law_drags_move_the_pointer(
    model: InputView,
    state: DragStateView,
    event: EventView,
    params: DragParams,
    x: i32,
    residual_x: Metric,
    y: i32,
    residual_y: Metric,
    button: MouseButton,
)
    requires
        state.wf(),
        state.plan(event, params) is Ok,
        model.down.contains(kernel_button(button)) <==> state.button == Some(button),
    ensures
        ({
            let plan = state.plan(event, params)->Ok_0;
            let transition = plan.finished(x, residual_x, y, residual_y);
            let after = model.replay_all(command_frames(transition.commands));
            &&& plan.movement is Some ==> after.x == model.x + x && after.y == model.y + y
                && transition.next.residual_x == residual_x && transition.next.residual_y
                == residual_y
            &&& plan.movement is None ==> after.x == model.x && after.y == model.y
            &&& after.down.contains(kernel_button(button)) <==> transition.next.button == Some(
                button,
            )
        }),
{
    let plan = state.plan(event, params)->Ok_0;
    let commands = plan.finished(x, residual_x, y, residual_y).commands;
    law_packets_do_what_the_commands_say(model, commands, button);
    lemma_phases_differ();
    reveal_with_fuel(total_x, 4);
    reveal_with_fuel(total_y, 4);
    reveal_with_fuel(button_after, 4);
    if commands.len() > plan.commands.len() {
        assert(commands.drop_last() =~= plan.commands);
    }
    if plan.commands.len() == 2 {
        assert(plan.commands.drop_last() =~= seq![plan.commands[0]]);
        assert(seq![plan.commands[0]].drop_last() =~= Seq::empty());
    } else if plan.commands.len() == 1 {
        assert(plan.commands.drop_last() =~= Seq::empty());
    }
}

/// The beginning of a drag of a new stream, where it says how far to move, puts the
/// button of its parameters down and starts with nothing left over.
pub proof fn law_drags_begin(state: DragStateView, event: EventView, params: DragParams)
    requires
        state.wf(),
        event.phase == "begin"@,
        state.last_event_id != Some(event.id),
        event.stream_id() is Some,
        state.stream != event.stream_id(),
    ensures
        state.plan(event, params) is Ok <==> says_how_far(event),
        state.plan(event, params) matches Ok(plan) ==> {
            &&& plan.next.stream == event.stream_id()
            &&& plan.next.button == Some(params.button)
            &&& plan.next.last_event_id == Some(event.id)
            &&& plan.movement matches Some(movement) && movement.dx == event.values["dx"@]
                && movement.dy == event.values["dy"@] && movement.scale == params.scale
                && movement.max_delta == params.max_delta && movement.residual_x == Metric::zero()
                && movement.residual_y == Metric::zero()
        },
        !event.values.contains_key("dx"@) ==> state.plan(event, params) == Err::<
            DragPlanView,
            DragFault,
        >(DragFault::MissingDx),
{
    lemma_phases_differ();
}

/// The beginning of the drag that is active already calls for nothing.
pub proof fn law_drags_begin_once(state: DragStateView, event: EventView, params: DragParams)
    requires
        event.phase == "begin"@,
        event.stream_id() is Some,
        state.stream == event.stream_id(),
    ensures
        state.plan(event, params) matches Ok(plan) && plan.commands.len() == 0
            && plan.movement is None && plan.next.stream == state.stream && plan.next.button
            == state.button && plan.next.residual_x == state.residual_x && plan.next.residual_y
            == state.residual_y && plan.next.last_event_id == Some(event.id),
{
    lemma_phases_differ();
}

/// An update of the active drag with its button, where it says how far to move,
/// presses and releases nothing and moves on from what was left over. Any other
/// update is refused.
pub proof fn law_drags_go_on(state: DragStateView, event: EventView, params: DragParams)
    requires
        event.phase == "update"@,
        state.last_event_id != Some(event.id),
    ensures
        state.plan(event, params) is Ok <==> state.button == Some(params.button)
            && state.stream is Some && state.stream == event.stream_id() && says_how_far(event),
        state.plan(event, params) matches Ok(plan) ==> {
            &&& plan.commands.len() == 0
            &&& plan.next.stream == state.stream && plan.next.button == state.button
            &&& plan.next.last_event_id == Some(event.id)
            &&& plan.movement matches Some(movement) && movement.dx == event.values["dx"@]
                && movement.dy == event.values["dy"@] && movement.scale == params.scale
                && movement.max_delta == params.max_delta && movement.residual_x
                == state.residual_x && movement.residual_y == state.residual_y
        },
{
    lemma_phases_differ();
}

/// Events without a phase of a drag are refused, and so are those of the active drag
/// that name no stream.
pub proof fn law_other_drag_events_are_refused(
    state: DragStateView,
    event: EventView,
    params: DragParams,
)
    requires
        state.last_event_id != Some(event.id),
    ensures
        event.phase != "begin"@ && event.phase != "update"@ && event.phase != "end"@ && event.phase
            != "cancel"@ ==> state.plan(event, params) == Err::<DragPlanView, DragFault>(
            DragFault::UnsupportedPhase { phase: event.phase },
        ),
        event.stream_id() is None && (event.phase == "begin"@ || state.stream is Some)
            ==> state.plan(event, params) is Err,
        event.stream_id() is None && state.stream is None && (event.phase == "end"@ || event.phase
            == "cancel"@) ==> state.plan(event, params) == Ok::<DragPlanView, DragFault>(
            DragStateView::unmoved(state),
        ),
{
    lemma_phases_differ();
}

/// Parameters are accepted exactly when the scale is above zero and at most one
/// hundred, and a step is one to ten thousand.
pub proof fn law_drag_parameters_are_bounded(params: DragParams)
    ensures
        params.fault() is None <==> Metric::zero().below(params.scale) && params.scale.at_most(
            Metric { bits: 0x4059_0000_0000_0000 },
        ) && params.max_delta >= 1 && params.max_delta <= 10_000,
{
}

/// Whether exactly the listed keys are down besides those that were.
pub open spec fn adds_keys(before: InputView, after: InputView, keys: Seq<u16>) -> bool {
    &&& forall|code: u16| #[trigger]
        after.down.contains(code) <==> before.down.contains(code) || keys.contains(code)
    &&& after.x == before.x && after.y == before.y
}

/// Whether the keys that are down are those that were but for the listed ones.
pub open spec fn drops_keys(before: InputView, after: InputView, keys: Seq<u16>) -> bool {
    &&& forall|code: u16| #[trigger]
        after.down.contains(code) <==> before.down.contains(code) && !keys.contains(code)
    &&& after.x == before.x && after.y == before.y
}

proof fn lemma_key_frames(model: InputView, keys: Seq<u16>)
    ensures
        adds_keys(model, model.replay_all(key_frames(keys, 1)), keys),
        drops_keys(model, model.replay_all(key_frames(keys, 0)), keys),
    decreases keys.len(),
{
    if keys.len() > 0 {
        let rest = keys.drop_last();
        lemma_key_frames(model, rest);
        assert(keys =~= rest.push(keys.last()));
        assert(forall|code: u16|
            keys.contains(code) <==> rest.contains(code) || code == keys.last()) by {
            assert(keys[keys.len() - 1] == keys.last());
            assert forall|code: u16| rest.contains(code) implies keys.contains(code) by {
                let i = choose|i: int| 0 <= i < rest.len() && rest[i] == code;
                assert(keys[i] == code);
            }
            assert forall|code: u16|
                keys.contains(code) && code != keys.last() implies rest.contains(code) by {
                let i = choose|i: int| 0 <= i < keys.len() && keys[i] == code;
                assert(rest[i] == code);
            }
        }
        assert(key_frames(keys, 1).drop_last() =~= key_frames(rest, 1));
        assert(key_frames(keys, 0).drop_last() =~= key_frames(rest, 0));
        let pressed = model.replay_all(key_frames(rest, 1));
        let released = model.replay_all(key_frames(rest, 0));
        lemma_replay_two(pressed, key_frames(keys, 1).last());
        lemma_replay_two(released, key_frames(keys, 0).last());
    }
}

/// Pressing the keys of a chord puts exactly these keys down, and releasing them puts
/// exactly these keys up.
pub proof fn law_chords_press_and_release_their_keys(model: InputView, keys: Seq<u16>)
    ensures
        adds_keys(model, model.replay_all(key_frames(keys, 1)), keys),
        drops_keys(model, model.replay_all(key_frames(keys.reverse(), 0)), keys),
        forall|i: int|
            0 <= i < keys.len() ==> (#[trigger] key_frames(keys, 1)[i]).len() == 1,
{
    lemma_key_frames(model, keys);
    lemma_key_frames(model, keys.reverse());
    assert(forall|code: u16| keys.contains(code) <==> keys.reverse().contains(code)) by {
        assert forall|code: u16| keys.contains(code) implies keys.reverse().contains(code) by {
            let i = choose|i: int| 0 <= i < keys.len() && keys[i] == code;
            assert(keys.reverse()[keys.len() - 1 - i] == code);
        }
        assert forall|code: u16| keys.reverse().contains(code) implies keys.contains(code) by {
            let i = choose|i: int| 0 <= i < keys.len() && keys.reverse()[i] == code;
            assert(keys[keys.len() - 1 - i] == code);
        }
    }
}

/// Whether a tap that has dealt with what was down before takes the right keys to be
/// down: none before it presses any and after it has ended, all of its own otherwise.
pub open spec fn knows_its_keys(tap: TapView) -> bool {
    match tap.stage {
        TapStage::ReleaseStale => true,
        TapStage::OpenDevice | TapStage::Finished(_) => tap.pressed.len() == 0,
        _ => tap.pressed == tap.keys,
    }
}

/// Whether every key that is down was down before the tap or is taken to be down.
pub open spec fn accounted_for(before: InputView, now: InputView, tap: TapView) -> bool {
    forall|code: u16| #[trigger]
        now.down.contains(code) ==> before.down.contains(code) || tap.pressed.contains(code)
}

proof fn lemma_some_frames(model: InputView, keys: Seq<u16>, value: i32, delivered: int)
    requires
        0 <= delivered <= keys.len(),
    ensures
        value == 1 ==> adds_keys(
            model,
            model.replay_all(key_frames(keys, value).take(delivered)),
            keys.take(delivered),
        ),
        value == 0 ==> drops_keys(
            model,
            model.replay_all(key_frames(keys, value).take(delivered)),
            keys.take(delivered),
        ),
{
    lemma_key_frames(model, keys.take(delivered));
    assert(key_frames(keys, value).take(delivered) =~= key_frames(keys.take(delivered), value));
}

/// However many of the packets of a tap's work reach the keyboard, provided all of
/// them do where the work succeeds: a key that is down was down before the tap or is
/// taken to be down; while the tap holds, every key of the chord is down; and when it
/// has ended with success or with a release that succeeded, none of the keys that it
/// pressed is.
pub proof fn law_taps_keep_account_of_their_keys(
    before: InputView,
    now: InputView,
    tap: TapView,
    delivered: int,
    succeeded: bool,
)
    requires
        accounted_for(before, now, tap),
        knows_its_keys(tap),
        0 <= delivered <= tap.emitted().len(),
        succeeded ==> delivered == tap.emitted().len(),
        forall|i: int| 0 <= i < tap.pressed.len() ==> !before.down.contains(#[trigger] tap.pressed[i]),
        forall|i: int| 0 <= i < tap.keys.len() ==> !before.down.contains(#[trigger] tap.keys[i]),
    ensures
        ({
            let later = now.replay_all(tap.emitted().take(delivered));
            let next = tap.after(succeeded);
            &&& tap.stage is Press && succeeded ==> (forall|i: int|
                0 <= i < tap.keys.len() ==> later.down.contains(#[trigger] tap.keys[i]))
            &&& (tap.stage is ReleaseStale || tap.stage is Release
                || tap.stage is EmergencyAfterPress || tap.stage is EmergencyAfterRelease)
                && succeeded ==> (forall|code: u16| #[trigger]
                later.down.contains(code) ==> before.down.contains(code))
            &&& !(next.stage is Finished) ==> accounted_for(before, later, next)
            &&& later.x == now.x && later.y == now.y
            &&& knows_its_keys(next)
            &&& next.keys == tap.keys
        }),
{
    let packets = tap.emitted();
    if tap.stage is Press {
        lemma_some_frames(now, tap.keys, 1, delivered);
        let sent = tap.keys.take(delivered);
        assert forall|code: u16| sent.contains(code) implies tap.keys.contains(code) by {
            let i = choose|i: int| 0 <= i < sent.len() && sent[i] == code;
            assert(tap.keys[i] == code);
        }
        if succeeded {
            assert(sent =~= tap.keys);
        }
    } else if packets.len() > 0 {
        let keys = tap.pressed.reverse();
        lemma_some_frames(now, keys, 0, delivered);
        if succeeded {
            assert(keys.take(delivered) =~= keys);
            assert forall|code: u16| tap.pressed.contains(code) implies keys.contains(code) by {
                let i = choose|i: int| 0 <= i < tap.pressed.len() && tap.pressed[i] == code;
                assert(keys[tap.pressed.len() - 1 - i] == code);
            }
        }
    } else {
        assert(packets.take(delivered) =~= Seq::empty());
        assert(now.replay_all(packets.take(delivered)) == now);
    }
    assert(tap.pressed.len() == 0 ==> forall|code: u16| !tap.pressed.contains(code));
}

} // verus!
