//! Virtual pointer drags: which buttons and movements a drag event calls for.
//!
//! How far a movement goes is computed outside this module: a plan says what to
//! scale and by how much, and is finished with the result.

use vstd::prelude::*;

use crate::codes::{BTN_LEFT, BTN_MIDDLE, BTN_RIGHT, EV_REL, REL_X, REL_Y};
use crate::config::ActionSpec;
use crate::event::InputEvent;
use crate::key_chord::{parse_key_chord, ChordError, KeyChordParams};
use crate::metric::Metric;
use crate::output::{key_event, VirtualEvent};
use crate::provider::ActionOutcome;
use crate::text::{append, quote, same_text};

verus! {

#[derive(Debug, Clone, Copy, PartialEq, Eq, Structural)]
pub enum MouseButton {
    Left,
    Middle,
    Right,
}

impl Default for MouseButton {
    fn default() -> (button: MouseButton)
        ensures
            button is Left,
    {
        MouseButton::Left
    }
}

impl MouseButton {
    pub open spec fn code(self) -> u16 {
        match self {
            MouseButton::Left => BTN_LEFT,
            MouseButton::Middle => BTN_MIDDLE,
            MouseButton::Right => BTN_RIGHT,
        }
    }

    pub fn key_code(self) -> (code: u16)
        ensures
            code == self.code(),
    {
        match self {
            MouseButton::Left => BTN_LEFT,
            MouseButton::Middle => BTN_MIDDLE,
            MouseButton::Right => BTN_RIGHT,
        }
    }
}

/// The parameters of `uinput.drag`.
#[derive(Debug, Clone, Copy, PartialEq, Eq, Structural)]
pub struct DragParams {
    pub button: MouseButton,
    pub scale: Metric,
    pub max_delta: i32,
}

impl Default for DragParams {
    /// The left button, one to one, in steps of at most 200.
    fn default() -> (params: DragParams)
        ensures
            params == (DragParams {
                button: MouseButton::Left,
                scale: Metric { bits: 0x3ff0_0000_0000_0000 },
                max_delta: 200,
            }),
    {
        DragParams {
            button: MouseButton::Left,
            scale: Metric { bits: 0x3ff0_0000_0000_0000 },
            max_delta: 200,
        }
    }
}

/// Why a drag is refused.
#[derive(Debug)]
pub enum DragError {
    Params,
    ScaleOutOfRange,
    MaxDeltaOutOfRange,
    WrongFamily { family: String },
    UnsupportedPhase { phase: String },
    MissingStream,
    UpdateBeforeBegin,
    MissingActiveStream,
    OtherStream { stream: String, active: String },
    ButtonChanged,
    MissingDx,
    MissingDy,
    NotFinite,
}

/// What a [`DragError`] says.
#[verifier::ext_equal]
pub enum DragFault {
    Params,
    ScaleOutOfRange,
    MaxDeltaOutOfRange,
    WrongFamily { family: Seq<char> },
    UnsupportedPhase { phase: Seq<char> },
    MissingStream,
    UpdateBeforeBegin,
    MissingActiveStream,
    OtherStream { stream: Seq<char>, active: Seq<char> },
    ButtonChanged,
    MissingDx,
    MissingDy,
    NotFinite,
}

impl View for DragError {
    type V = DragFault;

    open spec fn view(&self) -> DragFault {
        match *self {
            DragError::Params => DragFault::Params,
            DragError::ScaleOutOfRange => DragFault::ScaleOutOfRange,
            DragError::MaxDeltaOutOfRange => DragFault::MaxDeltaOutOfRange,
            DragError::WrongFamily { family } => DragFault::WrongFamily { family: family@ },
            DragError::UnsupportedPhase { phase } => DragFault::UnsupportedPhase { phase: phase@ },
            DragError::MissingStream => DragFault::MissingStream,
            DragError::UpdateBeforeBegin => DragFault::UpdateBeforeBegin,
            DragError::MissingActiveStream => DragFault::MissingActiveStream,
            DragError::OtherStream { stream, active } => DragFault::OtherStream {
                stream: stream@,
                active: active@,
            },
            DragError::ButtonChanged => DragFault::ButtonChanged,
            DragError::MissingDx => DragFault::MissingDx,
            DragError::MissingDy => DragFault::MissingDy,
            DragError::NotFinite => DragFault::NotFinite,
        }
    }
}

impl DragFault {
    pub open spec fn text(self) -> Seq<char> {
        match self {
            DragFault::Params => "uinput.drag expects { button?, scale?, max_delta? }"@,
            DragFault::ScaleOutOfRange =>
                "uinput.drag scale must be finite, greater than 0, and at most 100"@,
            DragFault::MaxDeltaOutOfRange => "uinput.drag max_delta must be between 1 and 10000"@,
            DragFault::WrongFamily { family } =>
                "uinput.drag requires touchpad.drag events, received "@ + crate::text::quoted(
                family,
            ),
            DragFault::UnsupportedPhase { phase } => "uinput.drag does not support phase "@
                + crate::text::quoted(phase),
            DragFault::MissingStream => "touchpad.drag event is missing recognition.stream_id"@,
            DragFault::UpdateBeforeBegin => "uinput.drag received update before begin"@,
            DragFault::MissingActiveStream =>
                "uinput.drag active state is missing its stream id"@,
            DragFault::OtherStream { stream, active } => "uinput.drag update belongs to stream "@
                + crate::text::quoted(stream) + ", but "@ + crate::text::quoted(active)
                + " is active"@,
            DragFault::ButtonChanged => "uinput.drag button cannot change during an active drag"@,
            DragFault::MissingDx => "touchpad.drag event is missing dx"@,
            DragFault::MissingDy => "touchpad.drag event is missing dy"@,
            DragFault::NotFinite => "touchpad.drag dx and dy must be finite"@,
        }
    }
}

impl DragError {
    pub fn message(&self) -> (text: String)
        ensures
            text@ == self@.text(),
    {
        match self {
            DragError::Params => "uinput.drag expects { button?, scale?, max_delta? }".to_owned(),
            DragError::ScaleOutOfRange =>
                "uinput.drag scale must be finite, greater than 0, and at most 100".to_owned(),
            DragError::MaxDeltaOutOfRange =>
                "uinput.drag max_delta must be between 1 and 10000".to_owned(),
            DragError::WrongFamily { family } => {
                let mut text = "uinput.drag requires touchpad.drag events, received ".to_owned();
                append(&mut text, quote(family.as_str()).as_str());
                text
            },
            DragError::UnsupportedPhase { phase } => {
                let mut text = "uinput.drag does not support phase ".to_owned();
                append(&mut text, quote(phase.as_str()).as_str());
                text
            },
            DragError::MissingStream =>
                "touchpad.drag event is missing recognition.stream_id".to_owned(),
            DragError::UpdateBeforeBegin => "uinput.drag received update before begin".to_owned(),
            DragError::MissingActiveStream =>
                "uinput.drag active state is missing its stream id".to_owned(),
            DragError::OtherStream { stream, active } => {
                let mut text = "uinput.drag update belongs to stream ".to_owned();
                append(&mut text, quote(stream.as_str()).as_str());
                append(&mut text, ", but ");
                append(&mut text, quote(active.as_str()).as_str());
                append(&mut text, " is active");
                text
            },
            DragError::ButtonChanged =>
                "uinput.drag button cannot change during an active drag".to_owned(),
            DragError::MissingDx => "touchpad.drag event is missing dx".to_owned(),
            DragError::MissingDy => "touchpad.drag event is missing dy".to_owned(),
            DragError::NotFinite => "touchpad.drag dx and dy must be finite".to_owned(),
        }
    }
}

/// One hundred.
pub open spec fn greatest_scale() -> Metric {
    Metric { bits: 0x4059_0000_0000_0000 }
}

impl DragParams {
    /// What is wrong with the parameters, if anything.
    pub open spec fn fault(self) -> Option<DragFault> {
        if !self.scale.finite() || !Metric::zero().below(self.scale) || greatest_scale().below(
            self.scale,
        ) {
            Some(DragFault::ScaleOutOfRange)
        } else if !(1 <= self.max_delta <= 10000) {
            Some(DragFault::MaxDeltaOutOfRange)
        } else {
            None
        }
    }

    pub fn validate(&self) -> (result: Result<(), DragError>)
        ensures
            result is Ok <==> self.fault() is None,
            result matches Err(error) ==> Some(error@) == self.fault(),
    {
        let zero = Metric { bits: 0 };
        let greatest = Metric { bits: 0x4059_0000_0000_0000 };
        if !self.scale.is_finite() || !zero.is_below(&self.scale) || greatest.is_below(
            &self.scale,
        ) {
            return Err(DragError::ScaleOutOfRange);
        }
        if !(1 <= self.max_delta && self.max_delta <= 10000) {
            return Err(DragError::MaxDeltaOutOfRange);
        }
        Ok(())
    }
}

/// Something for the virtual pointer to do.
#[derive(Debug, Clone, Copy, PartialEq, Eq, Structural)]
pub enum PointerCommand {
    Button { button: MouseButton, down: bool },
    Move { x: i32, y: i32 },
}

/// A movement to be scaled: each of `dx` and `dy` times `scale`, and what was
/// left over before, in whole steps of at most `max_delta`.
#[derive(Debug, Clone, Copy, PartialEq, Eq, Structural)]
pub struct Movement {
    pub dx: Metric,
    pub dy: Metric,
    pub scale: Metric,
    pub residual_x: Metric,
    pub residual_y: Metric,
    pub max_delta: i32,
}

/// What a [`PointerDragState`] holds.
#[verifier::ext_equal]
pub struct DragStateView {
    pub stream: Option<Seq<char>>,
    pub button: Option<MouseButton>,
    pub residual_x: Metric,
    pub residual_y: Metric,
    pub last_event_id: Option<u128>,
}

/// What a [`DragPlan`] holds.
#[verifier::ext_equal]
pub struct DragPlanView {
    pub commands: Seq<PointerCommand>,
    pub next: DragStateView,
    pub movement: Option<Movement>,
}

/// What a [`PointerTransition`] holds.
#[verifier::ext_equal]
pub struct TransitionView {
    pub commands: Seq<PointerCommand>,
    pub next: DragStateView,
}

/// The movement of an event, or why it has none.
pub open spec fn movement_of(
    event: crate::event::EventView,
    params: DragParams,
    residual_x: Metric,
    residual_y: Metric,
) -> Result<Movement, DragFault> {
    if !event.values.contains_key("dx"@) {
        Err(DragFault::MissingDx)
    } else if !event.values.contains_key("dy"@) {
        Err(DragFault::MissingDy)
    } else if !event.values["dx"@].finite() || !event.values["dy"@].finite() {
        Err(DragFault::NotFinite)
    } else {
        Ok(
            Movement {
                dx: event.values["dx"@],
                dy: event.values["dy"@],
                scale: params.scale,
                residual_x,
                residual_y,
                max_delta: params.max_delta,
            },
        )
    }
}

impl DragStateView {
    /// No drag, and nothing left over.
    pub open spec fn idle() -> DragStateView {
        DragStateView {
            stream: None,
            button: None,
            residual_x: Metric::zero(),
            residual_y: Metric::zero(),
            last_event_id: None,
        }
    }

    /// A drag holds a button down, and a button is held down by a drag.
    pub open spec fn wf(self) -> bool {
        self.stream is Some <==> self.button is Some
    }

    /// Nothing to do but to go on from a given state.
    pub open spec fn unmoved(next: DragStateView) -> DragPlanView {
        DragPlanView { commands: Seq::empty(), next, movement: None }
    }

    /// Beginning a drag: the button of an earlier drag goes up, the button of
    /// this one down.
    pub open spec fn begin(self, event: crate::event::EventView, params: DragParams) -> Result<
        DragPlanView,
        DragFault,
    > {
        if event.stream_id() is None {
            Err(DragFault::MissingStream)
        } else if self.stream == event.stream_id() {
            Ok(
                DragStateView::unmoved(
                    DragStateView { last_event_id: Some(event.id), ..self },
                ),
            )
        } else {
            let press = PointerCommand::Button { button: params.button, down: true };
            let commands = match self.button {
                Some(button) => seq![PointerCommand::Button { button, down: false }, press],
                None => seq![press],
            };
            match movement_of(event, params, Metric::zero(), Metric::zero()) {
                Err(fault) => Err(fault),
                Ok(movement) => Ok(
                    DragPlanView {
                        commands,
                        next: DragStateView {
                            stream: event.stream_id(),
                            button: Some(params.button),
                            last_event_id: Some(event.id),
                            ..DragStateView::idle()
                        },
                        movement: Some(movement),
                    },
                ),
            }
        }
    }

    /// Going on with a drag.
    pub open spec fn update(self, event: crate::event::EventView, params: DragParams) -> Result<
        DragPlanView,
        DragFault,
    > {
        if self.button is None {
            Err(DragFault::UpdateBeforeBegin)
        } else if self.stream is None {
            Err(DragFault::MissingActiveStream)
        } else if event.stream_id() is None {
            Err(DragFault::MissingStream)
        } else if self.stream != event.stream_id() {
            Err(
                DragFault::OtherStream { stream: event.stream_id()->0, active: self.stream->0 },
            )
        } else if self.button != Some(params.button) {
            Err(DragFault::ButtonChanged)
        } else {
            match movement_of(event, params, self.residual_x, self.residual_y) {
                Err(fault) => Err(fault),
                Ok(movement) => Ok(
                    DragPlanView {
                        commands: Seq::empty(),
                        next: DragStateView { last_event_id: Some(event.id), ..self },
                        movement: Some(movement),
                    },
                ),
            }
        }
    }

    /// Ending a drag, in either way. One of another stream is let be.
    pub open spec fn release(self, event: crate::event::EventView) -> Result<
        DragPlanView,
        DragFault,
    > {
        if self.stream is None {
            Ok(DragStateView::unmoved(self))
        } else if event.stream_id() is None {
            Err(DragFault::MissingStream)
        } else if self.stream != event.stream_id() {
            Ok(DragStateView::unmoved(self))
        } else {
            Ok(
                DragPlanView {
                    commands: match self.button {
                        Some(button) => seq![PointerCommand::Button { button, down: false }],
                        None => Seq::empty(),
                    },
                    next: DragStateView::idle(),
                    movement: None,
                },
            )
        }
    }

    /// What an event calls for, or why it is refused.
    pub open spec fn plan(self, event: crate::event::EventView, params: DragParams) -> Result<
        DragPlanView,
        DragFault,
    > {
        if self.last_event_id == Some(event.id) {
            Ok(DragStateView::unmoved(self))
        } else if event.phase == "begin"@ {
            self.begin(event, params)
        } else if event.phase == "update"@ {
            self.update(event, params)
        } else if event.phase == "end"@ || event.phase == "cancel"@ {
            self.release(event)
        } else {
            Err(DragFault::UnsupportedPhase { phase: event.phase })
        }
    }
}

impl DragPlanView {
    /// The plan with its movement scaled to whole steps.
    pub open spec fn finished(
        self,
        x: i32,
        residual_x: Metric,
        y: i32,
        residual_y: Metric,
    ) -> TransitionView {
        if self.movement is None {
            TransitionView { commands: self.commands, next: self.next }
        } else {
            TransitionView {
                commands: if x != 0 || y != 0 {
                    self.commands.push(PointerCommand::Move { x, y })
                } else {
                    self.commands
                },
                next: DragStateView { residual_x, residual_y, ..self.next },
            }
        }
    }
}

/// The drag that a virtual pointer performs.
#[derive(Debug)]
pub struct PointerDragState {
    pub active_stream_id: Option<String>,
    pub active_button: Option<MouseButton>,
    pub residual_x: Metric,
    pub residual_y: Metric,
    pub last_event_id: Option<u128>,
}

impl View for PointerDragState {
    type V = DragStateView;

    open spec fn view(&self) -> DragStateView {
        DragStateView {
            stream: crate::text::optional_text(self.active_stream_id),
            button: self.active_button,
            residual_x: self.residual_x,
            residual_y: self.residual_y,
            last_event_id: self.last_event_id,
        }
    }
}

impl Default for PointerDragState {
    fn default() -> (state: PointerDragState)
        ensures
            state@ == DragStateView::idle(),
    {
        PointerDragState {
            active_stream_id: None,
            active_button: None,
            residual_x: Metric { bits: 0 },
            residual_y: Metric { bits: 0 },
            last_event_id: None,
        }
    }
}

impl Clone for PointerDragState {
    fn clone(&self) -> (state: PointerDragState)
        ensures
            state@ == self@,
    {
        PointerDragState {
            active_stream_id: crate::event::clone_optional(&self.active_stream_id),
            active_button: self.active_button,
            residual_x: self.residual_x,
            residual_y: self.residual_y,
            last_event_id: self.last_event_id,
        }
    }
}

/// What an event calls for, before its movement is scaled.
#[derive(Debug)]
pub struct DragPlan {
    pub commands: Vec<PointerCommand>,
    pub next_state: PointerDragState,
    pub movement: Option<Movement>,
}

impl View for DragPlan {
    type V = DragPlanView;

    open spec fn view(&self) -> DragPlanView {
        DragPlanView {
            commands: self.commands@,
            next: self.next_state@,
            movement: self.movement,
        }
    }
}

/// What an event calls for.
#[derive(Debug)]
pub struct PointerTransition {
    pub commands: Vec<PointerCommand>,
    pub next_state: PointerDragState,
}

impl View for PointerTransition {
    type V = TransitionView;

    open spec fn view(&self) -> TransitionView {
        TransitionView { commands: self.commands@, next: self.next_state@ }
    }
}

impl DragPlan {
    /// Takes in the movement, scaled to whole steps, and what is left over of
    /// it; where the plan has no movement, they do not count.
    pub fn finish(self, x: i32, residual_x: Metric, y: i32, residual_y: Metric) -> (transition:
        PointerTransition)
        ensures
            transition@ == self@.finished(x, residual_x, y, residual_y),
    {
        let mut commands = self.commands;
        let mut next_state = self.next_state;
        if self.movement.is_some() {
            if x != 0 || y != 0 {
                commands.push(PointerCommand::Move { x, y });
            }
            next_state.residual_x = residual_x;
            next_state.residual_y = residual_y;
        }
        PointerTransition { commands, next_state }
    }
}

impl PointerTransition {
    /// The state after an attempt to emit the commands: where it failed, every
    /// button is released and the drag is forgotten.
    pub fn settle(self, emitted: bool) -> (state: PointerDragState)
        ensures
            state@ == if emitted {
                self@.next
            } else {
                DragStateView::idle()
            },
    {
        if emitted {
            self.next_state
        } else {
            PointerDragState::default()
        }
    }
}

fn movement(
    event: &InputEvent,
    params: &DragParams,
    residual_x: Metric,
    residual_y: Metric,
) -> (result: Result<Movement, DragError>)
    ensures
        result is Ok <==> movement_of(event@, *params, residual_x, residual_y) is Ok,
        result matches Ok(found) ==> movement_of(event@, *params, residual_x, residual_y) == Ok::<
            Movement,
            DragFault,
        >(found),
        result matches Err(error) ==> movement_of(event@, *params, residual_x, residual_y)
            == Err::<Movement, DragFault>(error@),
{
    let dx: Metric = match event.values.get("dx") {
        Some(dx) => *dx,
        None => {
            return Err(DragError::MissingDx);
        },
    };
    let dy: Metric = match event.values.get("dy") {
        Some(dy) => *dy,
        None => {
            return Err(DragError::MissingDy);
        },
    };
    if !dx.is_finite() || !dy.is_finite() {
        return Err(DragError::NotFinite);
    }
    Ok(
        Movement {
            dx,
            dy,
            scale: params.scale,
            residual_x,
            residual_y,
            max_delta: params.max_delta,
        },
    )
}

/// What a result says, over what the error and the value hold.
pub open spec fn plan_view(result: Result<DragPlan, DragError>) -> Result<DragPlanView, DragFault> {
    match result {
        Ok(plan) => Ok(plan@),
        Err(error) => Err(error@),
    }
}

fn same_stream(active: &Option<String>, stream: &str) -> (same: bool)
    ensures
        same == (crate::text::optional_text(*active) == Some(stream@)),
{
    match active {
        Some(active) => same_text(active.as_str(), stream),
        None => false,
    }
}

impl PointerDragState {
    fn plan_begin(&self, event: &InputEvent, params: &DragParams) -> (result: Result<
        DragPlan,
        DragError,
    >)
        ensures
            plan_view(result) == self@.begin(event@, *params),
    {
        let stream = match event.stream_id() {
            Some(stream) => stream,
            None => {
                return Err(DragError::MissingStream);
            },
        };
        if same_stream(&self.active_stream_id, stream) {
            let mut next_state = self.clone();
            next_state.last_event_id = Some(event.id);
            return Ok(DragPlan { commands: Vec::new(), next_state, movement: None });
        }
        let mut commands: Vec<PointerCommand> = Vec::new();
        if let Some(button) = self.active_button {
            commands.push(PointerCommand::Button { button, down: false });
        }
        commands.push(PointerCommand::Button { button: params.button, down: true });
        assert(commands@ =~= match self.active_button {
            Some(button) => seq![
                PointerCommand::Button { button, down: false },
                PointerCommand::Button { button: params.button, down: true },
            ],
            None => seq![PointerCommand::Button { button: params.button, down: true }],
        });
        let zero = Metric { bits: 0 };
        match movement(event, params, zero, zero) {
            Err(error) => Err(error),
            Ok(found) => {
                let next_state = PointerDragState {
                    active_stream_id: Some(stream.to_owned()),
                    active_button: Some(params.button),
                    residual_x: zero,
                    residual_y: zero,
                    last_event_id: Some(event.id),
                };
                Ok(DragPlan { commands, next_state, movement: Some(found) })
            },
        }
    }

    fn plan_update(&self, event: &InputEvent, params: &DragParams) -> (result: Result<
        DragPlan,
        DragError,
    >)
        ensures
            plan_view(result) == self@.update(event@, *params),
    {
        let button: MouseButton = match self.active_button {
            Some(button) => button,
            None => {
                return Err(DragError::UpdateBeforeBegin);
            },
        };
        let active = match &self.active_stream_id {
            Some(active) => active,
            None => {
                return Err(DragError::MissingActiveStream);
            },
        };
        let stream = match event.stream_id() {
            Some(stream) => stream,
            None => {
                return Err(DragError::MissingStream);
            },
        };
        if !same_text(active.as_str(), stream) {
            return Err(
                DragError::OtherStream { stream: stream.to_owned(), active: active.clone() },
            );
        }
        if button != params.button {
            return Err(DragError::ButtonChanged);
        }
        match movement(event, params, self.residual_x, self.residual_y) {
            Err(error) => Err(error),
            Ok(found) => {
                let mut next_state = self.clone();
                next_state.last_event_id = Some(event.id);
                Ok(DragPlan { commands: Vec::new(), next_state, movement: Some(found) })
            },
        }
    }

    fn plan_release(&self, event: &InputEvent) -> (result: Result<DragPlan, DragError>)
        ensures
            plan_view(result) == self@.release(event@),
    {
        let active = match &self.active_stream_id {
            Some(active) => active,
            None => {
                return Ok(
                    DragPlan { commands: Vec::new(), next_state: self.clone(), movement: None },
                );
            },
        };
        let stream = match event.stream_id() {
            Some(stream) => stream,
            None => {
                return Err(DragError::MissingStream);
            },
        };
        if !same_text(active.as_str(), stream) {
            return Ok(DragPlan { commands: Vec::new(), next_state: self.clone(), movement: None });
        }
        let mut commands: Vec<PointerCommand> = Vec::new();
        if let Some(button) = self.active_button {
            commands.push(PointerCommand::Button { button, down: false });
        }
        Ok(DragPlan { commands, next_state: PointerDragState::default(), movement: None })
    }

    /// Plans what an event calls for.
    pub fn plan(&self, event: &InputEvent, params: &DragParams) -> (result: Result<
        DragPlan,
        DragError,
    >)
        ensures
            plan_view(result) == self@.plan(event@, *params),
    {
        let seen: bool = match self.last_event_id {
            Some(id) => id == event.id,
            None => false,
        };
        if seen {
            return Ok(DragPlan { commands: Vec::new(), next_state: self.clone(), movement: None });
        }
        let phase = event.phase.as_str();
        if same_text(phase, "begin") {
            self.plan_begin(event, params)
        } else if same_text(phase, "update") {
            self.plan_update(event, params)
        } else if same_text(phase, "end") || same_text(phase, "cancel") {
            self.plan_release(event)
        } else {
            Err(DragError::UnsupportedPhase { phase: event.phase.clone() })
        }
    }
}

/// The events of a command; a movement along no axis has none.
pub open spec fn events_of(command: PointerCommand) -> Seq<VirtualEvent> {
    match command {
        PointerCommand::Button { button, down } => seq![
            crate::output::key(
                button.code(),
                if down {
                    1i32
                } else {
                    0i32
                },
            ),
        ],
        PointerCommand::Move { x, y } => {
            let along_x = if x != 0 {
                seq![VirtualEvent { event_type: EV_REL, code: REL_X, value: x }]
            } else {
                Seq::empty()
            };
            if y != 0 {
                along_x.push(VirtualEvent { event_type: EV_REL, code: REL_Y, value: y })
            } else {
                along_x
            }
        },
    }
}

/// The events of a command.
pub fn command_events(command: &PointerCommand) -> (events: Vec<VirtualEvent>)
    ensures
        events@ == events_of(*command),
{
    let mut events: Vec<VirtualEvent> = Vec::new();
    match *command {
        PointerCommand::Button { button, down } => {
            let value: i32 = if down {
                1
            } else {
                0
            };
            events.push(key_event(button.key_code(), value));
        },
        PointerCommand::Move { x, y } => {
            if x != 0 {
                events.push(VirtualEvent { event_type: EV_REL, code: REL_X, value: x });
            }
            if y != 0 {
                events.push(VirtualEvent { event_type: EV_REL, code: REL_Y, value: y });
            }
        },
    }
    assert(events@ =~= events_of(*command));
    events
}

/// One frame for each command that has events.
pub open spec fn command_frames(commands: Seq<PointerCommand>) -> Seq<Seq<VirtualEvent>>
    decreases commands.len(),
{
    if commands.len() == 0 {
        Seq::empty()
    } else {
        let earlier = command_frames(commands.drop_last());
        if events_of(commands.last()).len() == 0 {
            earlier
        } else {
            earlier.push(events_of(commands.last()))
        }
    }
}

/// One frame for each command that has events, in order.
pub fn command_event_packets(commands: &Vec<PointerCommand>) -> (packets: Vec<Vec<VirtualEvent>>)
    ensures
        crate::key_chord::frames(packets@) == command_frames(commands@),
{
    let mut packets: Vec<Vec<VirtualEvent>> = Vec::new();
    let mut index: usize = 0;
    assert(crate::key_chord::frames(packets@) =~= command_frames(commands@.take(0)));
    while index < commands.len()
        invariant
            index <= commands@.len(),
            crate::key_chord::frames(packets@) == command_frames(commands@.take(index as int)),
        decreases commands@.len() - index,
    {
        assert(commands@.take(index + 1).drop_last() =~= commands@.take(index as int));
        let events = command_events(&commands[index]);
        if events.len() > 0 {
            let ghost earlier = crate::key_chord::frames(packets@);
            packets.push(events);
            assert(crate::key_chord::frames(packets@) =~= earlier.push(events@));
        }
        index = index + 1;
    }
    assert(commands@.take(index as int) =~= commands@);
    packets
}

/// The events that release every button.
pub open spec fn every_button_up() -> Seq<VirtualEvent> {
    seq![
        crate::output::key(BTN_LEFT, 0),
        crate::output::key(BTN_MIDDLE, 0),
        crate::output::key(BTN_RIGHT, 0),
    ]
}

/// The events that release every button.
pub fn release_all_buttons() -> (events: Vec<VirtualEvent>)
    ensures
        events@ == every_button_up(),
{
    let mut events: Vec<VirtualEvent> = Vec::new();
    events.push(key_event(MouseButton::Left.key_code(), 0));
    events.push(key_event(MouseButton::Middle.key_code(), 0));
    events.push(key_event(MouseButton::Right.key_code(), 0));
    assert(events@ =~= every_button_up());
    events
}

/// Why a `uinput` action is refused.
#[derive(Debug)]
pub enum UinputError {
    UnknownAction { action: String },
    Drag(DragError),
    Chord(ChordError),
}

/// What a [`UinputError`] says.
#[verifier::ext_equal]
pub enum UinputFault {
    UnknownAction { action: Seq<char> },
    Drag(DragFault),
    Chord(crate::key_chord::ChordFault),
}

impl View for UinputError {
    type V = UinputFault;

    open spec fn view(&self) -> UinputFault {
        match *self {
            UinputError::UnknownAction { action } => UinputFault::UnknownAction { action: action@ },
            UinputError::Drag(error) => UinputFault::Drag(error@),
            UinputError::Chord(error) => UinputFault::Chord(error@),
        }
    }
}

impl UinputFault {
    pub open spec fn text(self) -> Seq<char> {
        match self {
            UinputFault::UnknownAction { action } => "unknown uinput action "@
                + crate::text::quoted(action),
            UinputFault::Drag(fault) => fault.text(),
            UinputFault::Chord(fault) => fault.text(),
        }
    }
}

impl UinputError {
    pub fn message(&self) -> (text: String)
        ensures
            text@ == self@.text(),
    {
        match self {
            UinputError::UnknownAction { action } => {
                let mut text = "unknown uinput action ".to_owned();
                append(&mut text, quote(action.as_str()).as_str());
                text
            },
            UinputError::Drag(error) => error.message(),
            UinputError::Chord(error) => error.message(),
        }
    }
}

/// What is wrong with a `uinput` action, if anything.
pub open spec fn uinput_fault(
    spec: ActionSpec,
    drag: Option<DragParams>,
    chord: Option<KeyChordParams>,
) -> Option<UinputFault> {
    if spec.action@ == "drag"@ {
        match drag {
            None => Some(UinputFault::Drag(DragFault::Params)),
            Some(params) => match params.fault() {
                Some(fault) => Some(UinputFault::Drag(fault)),
                None => None,
            },
        }
    } else if spec.action@ == "key-chord"@ {
        match crate::key_chord::chord(chord) {
            Ok(_) => None,
            Err(fault) => Some(UinputFault::Chord(fault)),
        }
    } else {
        Some(UinputFault::UnknownAction { action: spec.action@ })
    }
}

/// `uinput.drag` and `uinput.key-chord`. Parameters come in already read:
/// `None` where they do not have the form that the action expects.
#[derive(Debug, Clone, Copy, PartialEq, Eq, Structural)]
pub struct UinputPointerProvider;

impl UinputPointerProvider {
    pub fn name(&self) -> (name: &'static str)
        ensures
            name@ == "uinput"@,
    {
        "uinput"
    }

    /// Checks an action; no device is opened for it.
    pub fn validate(
        &self,
        spec: &ActionSpec,
        drag: &Option<DragParams>,
        chord: &Option<KeyChordParams>,
    ) -> (result: Result<(), UinputError>)
        ensures
            result is Ok <==> uinput_fault(*spec, *drag, *chord) is None,
            result matches Err(error) ==> Some(error@) == uinput_fault(*spec, *drag, *chord),
    {
        if same_text(spec.action.as_str(), "drag") {
            match drag {
                None => Err(UinputError::Drag(DragError::Params)),
                Some(params) => match params.validate() {
                    Ok(()) => Ok(()),
                    Err(error) => Err(UinputError::Drag(error)),
                },
            }
        } else if same_text(spec.action.as_str(), "key-chord") {
            match parse_key_chord(chord) {
                Ok(_) => Ok(()),
                Err(error) => Err(UinputError::Chord(error)),
            }
        } else {
            Err(UinputError::UnknownAction { action: spec.action.clone() })
        }
    }

    /// Plans a drag event; events of other families are refused.
    pub fn plan_drag(
        &self,
        state: &PointerDragState,
        event: &InputEvent,
        params: &DragParams,
    ) -> (result: Result<DragPlan, DragError>)
        ensures
            plan_view(result) == if event@.family != "touchpad.drag"@ {
                Err(DragFault::WrongFamily { family: event@.family })
            } else {
                state@.plan(event@, *params)
            },
    {
        if !same_text(event.family.as_str(), "touchpad.drag") {
            return Err(DragError::WrongFamily { family: event.family.clone() });
        }
        state.plan(event, params)
    }

    /// What is reported of a drag event that was performed.
    pub fn drag_outcome(&self, spec: &ActionSpec, event: &InputEvent) -> (outcome: ActionOutcome)
        ensures
            outcome@ == crate::provider::succeeded(
                *spec,
                Some("virtual pointer handled drag phase "@ + event.phase@),
            ),
    {
        let mut message = "virtual pointer handled drag phase ".to_owned();
        append(&mut message, event.phase.as_str());
        ActionOutcome::success(spec, Some(message))
    }

    /// What is reported of a chord that was sent.
    pub fn chord_outcome(&self, spec: &ActionSpec) -> (outcome: ActionOutcome)
        ensures
            outcome@ == crate::provider::succeeded(
                *spec,
                Some("virtual keyboard sent key chord"@),
            ),
    {
        ActionOutcome::success(spec, Some("virtual keyboard sent key chord".to_owned()))
    }
}

/// Which button is down after a command, where `held` was down before it.
pub open spec fn held_after(held: Option<MouseButton>, command: PointerCommand) -> Option<
    MouseButton,
> {
    match command {
        PointerCommand::Button { button, down: true } => Some(button),
        PointerCommand::Button { button, down: false } => if held == Some(button) {
            None
        } else {
            held
        },
        PointerCommand::Move { .. } => held,
    }
}

/// Which button is down after some commands.
pub open spec fn held_after_all(
    held: Option<MouseButton>,
    commands: Seq<PointerCommand>,
) -> Option<MouseButton>
    decreases commands.len(),
{
    if commands.len() == 0 {
        held
    } else {
        held_after(held_after_all(held, commands.drop_last()), commands.last())
    }
}

/// The button that is down is the one that the state says, before and after
/// every event that is accepted, however its movement is scaled; and at no time
/// is a button pressed while another is down.
pub proof fn law_buttons_follow_the_state(
    state: DragStateView,
    event: crate::event::EventView,
    params: DragParams,
    x: i32,
    residual_x: Metric,
    y: i32,
    residual_y: Metric,
)
    requires
        state.wf(),
        state.plan(event, params) is Ok,
    ensures
        ({
            let transition = state.plan(event, params)->Ok_0.finished(
                x,
                residual_x,
                y,
                residual_y,
            );
            &&& transition.next.wf()
            &&& held_after_all(state.button, transition.commands) == transition.next.button
            &&& forall|i: int|
                0 <= i < transition.commands.len() && (#[trigger] transition.commands[i] matches
                PointerCommand::Button { down: true, .. }) ==> held_after_all(
                    state.button,
                    transition.commands.take(i),
                ) is None
        }),
{
    reveal_with_fuel(held_after_all, 4);
    let plan = state.plan(event, params)->Ok_0;
    let commands = plan.finished(x, residual_x, y, residual_y).commands;
    if commands.len() > plan.commands.len() {
        assert(commands.drop_last() =~= plan.commands);
    }
    if plan.commands.len() == 2 {
        assert(plan.commands.drop_last() =~= seq![plan.commands[0]]);
        assert(commands.take(1) =~= seq![plan.commands[0]]);
        assert(seq![plan.commands[0]].drop_last() =~= Seq::empty());
        assert(commands.take(0) =~= Seq::empty());
    } else if plan.commands.len() == 1 {
        assert(plan.commands.drop_last() =~= Seq::empty());
        assert(commands.take(0) =~= Seq::empty());
    }
}

/// An event that was accepted, when it comes again, calls for nothing and
/// changes nothing.
pub proof fn law_duplicate_events_are_idempotent(
    state: DragStateView,
    event: crate::event::EventView,
    params: DragParams,
    x: i32,
    residual_x: Metric,
    y: i32,
    residual_y: Metric,
)
    requires
        state.plan(event, params) is Ok,
    ensures
        ({
            let next = state.plan(event, params)->Ok_0.finished(x, residual_x, y, residual_y).next;
            next.plan(event, params) == Ok::<DragPlanView, DragFault>(DragStateView::unmoved(next))
        }),
{
    reveal_strlit("begin");
    reveal_strlit("update");
    reveal_strlit("end");
    reveal_strlit("cancel");
    assert("begin"@.len() == 5 && "update"@.len() == 6 && "end"@.len() == 3 && "cancel"@.len() == 6);
    assert("update"@[0] != "cancel"@[0]);
}

/// A late end or cancel of another stream releases nothing and changes nothing.
pub proof fn law_stale_releases_are_ignored(
    state: DragStateView,
    event: crate::event::EventView,
    params: DragParams,
)
    requires
        event.phase == "end"@ || event.phase == "cancel"@,
        event.stream_id() is Some,
        state.stream != event.stream_id(),
    ensures
        state.plan(event, params) == Ok::<DragPlanView, DragFault>(DragStateView::unmoved(state)),
{
    reveal_strlit("begin");
    reveal_strlit("update");
    reveal_strlit("end");
    reveal_strlit("cancel");
    assert("begin"@.len() == 5 && "update"@.len() == 6 && "end"@.len() == 3 && "cancel"@.len() == 6);
    assert("update"@[0] != "cancel"@[0]);
}

/// An end or cancel of the active stream releases its button and leaves no
/// drag.
pub proof fn law_matching_releases_end_the_drag(
    state: DragStateView,
    event: crate::event::EventView,
    params: DragParams,
)
    requires
        state.wf(),
        event.phase == "end"@ || event.phase == "cancel"@,
        event.stream_id() is Some,
        state.stream == event.stream_id(),
        state.last_event_id != Some(event.id),
    ensures
        state.plan(event, params) == Ok::<DragPlanView, DragFault>(
            DragPlanView {
                commands: seq![PointerCommand::Button { button: state.button->0, down: false }],
                next: DragStateView::idle(),
                movement: None,
            },
        ),
{
    reveal_strlit("begin");
    reveal_strlit("update");
    reveal_strlit("end");
    reveal_strlit("cancel");
    assert("begin"@.len() == 5 && "update"@.len() == 6 && "end"@.len() == 3 && "cancel"@.len() == 6);
    assert("update"@[0] != "cancel"@[0]);
}

/// An update is refused before a drag has begun, and where it belongs to
/// another stream.
pub proof fn law_updates_need_their_drag(
    state: DragStateView,
    event: crate::event::EventView,
    params: DragParams,
)
    requires
        event.phase == "update"@,
        state.last_event_id != Some(event.id),
        state.button is None || state.stream != event.stream_id(),
    ensures
        state.plan(event, params) is Err,
{
    reveal_strlit("begin");
    reveal_strlit("update");
    assert("begin"@.len() == 5 && "update"@.len() == 6);
}

/// A `uinput` action is accepted exactly when it is `drag` with parameters in range, or
/// `key-chord` with parameters that give a chord.
pub proof fn law_uinput_actions(
    spec: ActionSpec,
    drag: Option<DragParams>,
    chord: Option<KeyChordParams>,
)
    ensures
        uinput_fault(spec, drag, chord) is None <==> (spec.action@ == "drag"@ && drag is Some
            && drag->0.fault() is None) || (spec.action@ == "key-chord"@
            && crate::key_chord::chord(chord) is Ok),
{
    reveal_strlit("drag");
    reveal_strlit("key-chord");
    assert("drag"@.len() == 4 && "key-chord"@.len() == 9);
}

} // verus!
