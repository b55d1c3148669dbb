//! Action-agnostic recognition of normalized touch frames.
//!
//! Distances, velocities and angles are computed outside this module. A frame
//! is therefore recognized in steps: `push` says what is to be measured, and
//! `measured` and `classify` decide on what was.

use vstd::prelude::*;

use crate::event::InputEvent;
use crate::ids::{fresh_id, id_text};
use crate::metric::Metric;
use crate::recognizer_config::{
    DragRule, HoldRule, RecognitionSettings, RecognizerConfig, RecognizerError, SwipeRule,
};
use crate::segments::{best_segment, sample, session_frame, Sample, SessionFrame};
use crate::touch_frame::{same_contacts, TouchFrame, TouchFramePhase};

verus! {

/// The measures of a segment.
#[derive(Debug, Clone, Copy, PartialEq, Eq, Structural)]
pub struct SegmentMeasures {
    pub duration_ms: Metric,
    pub dx: Metric,
    pub dy: Metric,
    pub distance: Metric,
    pub path_length: Metric,
    pub average_velocity: Metric,
    pub axis_deviation_degrees: Metric,
    pub straightness: Metric,
    pub sample_points: Metric,
}

/// The measures of a segment, and what it amounts to.
#[derive(Debug, Clone, PartialEq, Eq)]
pub struct GestureSessionMetrics {
    pub fingers: u8,
    pub points: usize,
    pub duration_ms: Metric,
    pub dx: Metric,
    pub dy: Metric,
    pub distance: Metric,
    pub path_length: Metric,
    pub average_velocity: Metric,
    pub axis_deviation_degrees: Metric,
    pub straightness: Metric,
    pub direction: String,
}

/// A metric without its sign.
pub open spec fn absolute(metric: Metric) -> Metric {
    Metric { bits: metric.magnitude() }
}

/// The direction of the nearest axis; with equal shares, the horizontal one.
pub open spec fn direction_of(dx: Metric, dy: Metric) -> Seq<char> {
    if absolute(dy).at_most(absolute(dx)) {
        if Metric::zero().at_most(dx) {
            "right"@
        } else {
            "left"@
        }
    } else if Metric::zero().at_most(dy) {
        "down"@
    } else {
        "up"@
    }
}

fn without_sign(metric: &Metric) -> (result: Metric)
    ensures
        result == absolute(*metric),
{
    if metric.bits >= 0x8000_0000_0000_0000 {
        Metric { bits: metric.bits - 0x8000_0000_0000_0000 }
    } else {
        *metric
    }
}

/// The direction of the nearest axis.
pub fn direction(dx: &Metric, dy: &Metric) -> (name: &'static str)
    ensures
        name@ == direction_of(*dx, *dy),
{
    let zero = Metric { bits: 0 };
    if without_sign(dy).is_at_most(&without_sign(dx)) {
        if zero.is_at_most(dx) {
            "right"
        } else {
            "left"
        }
    } else if zero.is_at_most(dy) {
        "down"
    } else {
        "up"
    }
}

impl GestureSessionMetrics {
    /// What a segment amounts to.
    pub fn new(fingers: u8, points: usize, measures: &SegmentMeasures) -> (metrics:
        GestureSessionMetrics)
        ensures
            metrics.fingers == fingers,
            metrics.points == points,
            metrics.duration_ms == measures.duration_ms,
            metrics.dx == measures.dx,
            metrics.dy == measures.dy,
            metrics.distance == measures.distance,
            metrics.path_length == measures.path_length,
            metrics.average_velocity == measures.average_velocity,
            metrics.axis_deviation_degrees == measures.axis_deviation_degrees,
            metrics.straightness == measures.straightness,
            metrics.direction@ == direction_of(measures.dx, measures.dy),
    {
        GestureSessionMetrics {
            fingers,
            points,
            duration_ms: measures.duration_ms,
            dx: measures.dx,
            dy: measures.dy,
            distance: measures.distance,
            path_length: measures.path_length,
            average_velocity: measures.average_velocity,
            axis_deviation_degrees: measures.axis_deviation_degrees,
            straightness: measures.straightness,
            direction: direction(&measures.dx, &measures.dy).to_owned(),
        }
    }
}

/// What a [`Candidate`] holds.
#[verifier::ext_equal]
pub struct CandidateView {
    pub rule: int,
    pub samples: Seq<Sample>,
}

/// The segment that a rule would classify.
#[derive(Debug)]
pub struct Candidate {
    pub rule: usize,
    pub samples: Vec<Sample>,
}

impl View for Candidate {
    type V = CandidateView;

    open spec fn view(&self) -> CandidateView {
        CandidateView { rule: self.rule as int, samples: self.samples@ }
    }
}

/// The candidates of a list.
pub open spec fn candidate_views(candidates: Seq<Candidate>) -> Seq<CandidateView> {
    candidates.map_values(|candidate: Candidate| candidate@)
}

/// A completed session: the segments of its enabled swipe and hold rules.
#[derive(Debug)]
pub struct CompletedSession {
    pub swipes: Vec<Candidate>,
    pub holds: Vec<Candidate>,
}

/// The longest segment for each enabled swipe rule that has one.
pub open spec fn swipe_candidates(
    rules: Seq<crate::recognizer_config::SwipeRuleView>,
    session: Seq<crate::segments::Shot>,
) -> Seq<CandidateView>
    decreases rules.len(),
{
    if rules.len() == 0 {
        Seq::empty()
    } else {
        let earlier = swipe_candidates(rules.drop_last(), session);
        let rule = rules.last();
        match crate::segments::best_run(session, rule.swipe.fingers, rule.require_complete_tracking) {
            Some(samples) => if rule.swipe.enabled {
                earlier.push(CandidateView { rule: rules.len() - 1, samples })
            } else {
                earlier
            },
            None => earlier,
        }
    }
}

/// The longest segment for each enabled hold rule that has one.
pub open spec fn hold_candidates(
    rules: Seq<crate::recognizer_config::HoldRuleView>,
    session: Seq<crate::segments::Shot>,
) -> Seq<CandidateView>
    decreases rules.len(),
{
    if rules.len() == 0 {
        Seq::empty()
    } else {
        let earlier = hold_candidates(rules.drop_last(), session);
        let rule = rules.last();
        match crate::segments::best_run(session, rule.hold.fingers, rule.require_complete_tracking) {
            Some(samples) => if rule.hold.enabled {
                earlier.push(CandidateView { rule: rules.len() - 1, samples })
            } else {
                earlier
            },
            None => earlier,
        }
    }
}

/// Whether a segment meets the thresholds of a swipe.
pub open spec fn is_swipe(
    swipe: crate::recognizer_config::SwipeRecognizerConfig,
    measures: SegmentMeasures,
) -> bool {
    &&& swipe.min_distance.at_most(measures.distance)
    &&& swipe.min_average_velocity.at_most(measures.average_velocity)
    &&& measures.duration_ms.at_most(swipe.max_duration_ms)
    &&& measures.axis_deviation_degrees.at_most(swipe.max_axis_deviation_degrees)
}

/// Whether a segment meets the thresholds of a hold.
pub open spec fn is_hold(
    hold: crate::recognizer_config::HoldRecognizerConfig,
    measures: SegmentMeasures,
) -> bool {
    &&& hold.min_duration_ms.at_most(measures.duration_ms)
    &&& measures.distance.at_most(hold.max_net_distance)
}

/// Of the first `count` candidates that fit, the one with the segment that
/// outlasts the others; the first of those that are equal.
pub open spec fn winner(
    candidates: Seq<CandidateView>,
    fits: spec_fn(int) -> bool,
    count: int,
) -> Option<int>
    decreases count,
{
    if count <= 0 {
        None
    } else {
        let earlier = winner(candidates, fits, count - 1);
        if fits(count - 1) && (earlier is None || crate::segments::outlasts(
            candidates[count - 1].samples,
            candidates[earlier->0].samples,
        )) {
            Some(count - 1)
        } else {
            earlier
        }
    }
}

/// The values that an event carries of a segment.
pub open spec fn measure_values(measures: SegmentMeasures) -> Map<Seq<char>, Metric> {
    Map::empty().insert("duration_ms"@, measures.duration_ms).insert("dx"@, measures.dx).insert(
        "dy"@,
        measures.dy,
    ).insert("distance"@, measures.distance).insert("path_length"@, measures.path_length).insert(
        "average_velocity"@,
        measures.average_velocity,
    ).insert("axis_deviation_degrees"@, measures.axis_deviation_degrees).insert(
        "straightness"@,
        measures.straightness,
    ).insert("sample_points"@, measures.sample_points)
}

/// The labels of an event of a completed session.
pub open spec fn session_labels(rule_id: Seq<char>) -> Map<Seq<char>, Seq<char>> {
    Map::empty().insert("recognizer"@, "session-v1"@).insert(
        "recognize_on"@,
        "touch-session-end"@,
    ).insert("recognition.rule_id"@, rule_id)
}

/// A recognized swipe.
pub open spec fn swipe_event(
    id: u128,
    fingers: u8,
    measures: SegmentMeasures,
    rule_id: Seq<char>,
) -> crate::event::EventView {
    crate::event::EventView {
        fingers: Some(fingers),
        direction: Some(direction_of(measures.dx, measures.dy)),
        values: measure_values(measures),
        labels: session_labels(rule_id),
        ..crate::event::EventView::blank(id, "touchpad.swipe"@, "end"@)
    }
}

/// A recognized hold.
pub open spec fn hold_event(
    id: u128,
    fingers: u8,
    measures: SegmentMeasures,
    rule_id: Seq<char>,
) -> crate::event::EventView {
    crate::event::EventView {
        fingers: Some(fingers),
        values: measure_values(measures),
        labels: session_labels(rule_id),
        ..crate::event::EventView::blank(id, "touchpad.hold"@, "end"@)
    }
}

fn add_measures(event: &mut InputEvent, measures: &SegmentMeasures)
    requires
        old(event)@.values == Map::<Seq<char>, Metric>::empty(),
    ensures
        final(event)@ == (crate::event::EventView {
            values: measure_values(*measures),
            ..old(event)@
        }),
{
    event.set_value("duration_ms", measures.duration_ms);
    event.set_value("dx", measures.dx);
    event.set_value("dy", measures.dy);
    event.set_value("distance", measures.distance);
    event.set_value("path_length", measures.path_length);
    event.set_value("average_velocity", measures.average_velocity);
    event.set_value("axis_deviation_degrees", measures.axis_deviation_degrees);
    event.set_value("straightness", measures.straightness);
    event.set_value("sample_points", measures.sample_points);
}

fn add_session_labels(event: &mut InputEvent, rule_id: &str)
    requires
        old(event)@.labels == Map::<Seq<char>, Seq<char>>::empty(),
    ensures
        final(event)@ == (crate::event::EventView {
            labels: session_labels(rule_id@),
            ..old(event)@
        }),
{
    event.set_label("recognizer", "session-v1");
    event.set_label("recognize_on", "touch-session-end");
    event.set_label("recognition.rule_id", rule_id);
}

fn make_swipe(rule: &SwipeRule, points: usize, measures: &SegmentMeasures) -> (event: InputEvent)
    ensures
        event@ == swipe_event(event.id, rule.swipe.fingers, *measures, rule.id@),
        crate::ids::is_random_identity(event.id),
{
    let metrics = GestureSessionMetrics::new(rule.swipe.fingers, points, measures);
    let mut event = InputEvent::new("touchpad.swipe", "end");
    event.fingers = Some(metrics.fingers);
    event.direction = Some(metrics.direction);
    add_measures(&mut event, measures);
    add_session_labels(&mut event, rule.id.as_str());
    event
}

fn make_hold(rule: &HoldRule, measures: &SegmentMeasures) -> (event: InputEvent)
    ensures
        event@ == hold_event(event.id, rule.hold.fingers, *measures, rule.id@),
        crate::ids::is_random_identity(event.id),
{
    let mut event = InputEvent::new("touchpad.hold", "end");
    event.fingers = Some(rule.hold.fingers);
    add_measures(&mut event, measures);
    add_session_labels(&mut event, rule.id.as_str());
    event
}

/// How far a drag rule has come in a session.
#[derive(Debug, Clone, Copy, PartialEq, Eq, Structural)]
pub enum Watch {
    /// The current frame does not count for the rule.
    Out,
    /// The fingers have been held since `start`.
    Holding { start: Sample },
    /// They were held long enough; at `armed` the rule was armed.
    Armed { start: Sample, armed: Sample },
    /// They moved too far before the rule was armed.
    Lost,
}

/// What a drag under way holds.
#[verifier::ext_equal]
pub struct ActiveView {
    pub rule: int,
    pub stream: Seq<char>,
    pub start: Sample,
    pub armed: Sample,
    pub last: Sample,
    pub path_length: Metric,
}

/// A drag under way.
#[derive(Debug)]
pub struct ActiveDrag {
    pub rule: usize,
    pub stream: String,
    /// Where the hold began.
    pub start: Sample,
    /// Where the rule was armed; totals are measured from here.
    pub armed: Sample,
    pub last: Sample,
    pub path_length: Metric,
}

impl View for ActiveDrag {
    type V = ActiveView;

    open spec fn view(&self) -> ActiveView {
        ActiveView {
            rule: self.rule as int,
            stream: self.stream@,
            start: self.start,
            armed: self.armed,
            last: self.last,
            path_length: self.path_length,
        }
    }
}

/// What a [`DragProgress`] holds.
#[verifier::ext_equal]
pub enum DragView {
    Watching { watches: Seq<Watch> },
    Active { drag: ActiveView },
    Spent,
}

/// How drags stand in a session.
#[derive(Debug)]
pub enum DragProgress {
    /// No drag has been activated; one watch for each rule.
    Watching { watches: Vec<Watch> },
    Active { drag: ActiveDrag },
    /// A drag was activated and is over; the session is claimed by it.
    Spent,
}

impl View for DragProgress {
    type V = DragView;

    open spec fn view(&self) -> DragView {
        match *self {
            DragProgress::Watching { watches } => DragView::Watching { watches: watches@ },
            DragProgress::Active { drag } => DragView::Active { drag: drag@ },
            DragProgress::Spent => DragView::Spent,
        }
    }
}

/// What to measure for a drag rule. `dx` and `dy` lead from `last` to
/// `current`; totals and the distance from `armed` to `current`; the path length
/// is the one so far and the step from `last`; the duration runs from `start`
/// to `current`, the hold duration from `start` to `armed`. Before the rule is
/// armed, `armed` and `last` are `start`.
#[derive(Debug, Clone, Copy, PartialEq, Eq, Structural)]
pub struct DragProbe {
    pub rule: usize,
    pub start: Sample,
    pub armed: Sample,
    pub last: Sample,
    pub current: Sample,
    pub path_length: Metric,
}

/// The measures of a drag.
#[derive(Debug, Clone, Copy, PartialEq, Eq, Structural)]
pub struct DragMeasures {
    pub dx: Metric,
    pub dy: Metric,
    pub total_dx: Metric,
    pub total_dy: Metric,
    pub distance: Metric,
    pub path_length: Metric,
    pub duration_ms: Metric,
    pub hold_duration_ms: Metric,
}

/// The values that an event carries of a drag.
pub open spec fn drag_values(measures: DragMeasures) -> Map<Seq<char>, Metric> {
    Map::empty().insert("dx"@, measures.dx).insert("dy"@, measures.dy).insert(
        "total_dx"@,
        measures.total_dx,
    ).insert("total_dy"@, measures.total_dy).insert("distance"@, measures.distance).insert(
        "path_length"@,
        measures.path_length,
    ).insert("duration_ms"@, measures.duration_ms).insert(
        "hold_duration_ms"@,
        measures.hold_duration_ms,
    )
}

/// The labels of a drag event.
pub open spec fn drag_labels(rule_id: Seq<char>, stream: Seq<char>) -> Map<Seq<char>, Seq<char>> {
    Map::empty().insert("recognition.rule_id"@, rule_id).insert("recognition.stream_id"@, stream)
}

/// An event of a drag; only a begin and an update carry measures.
pub open spec fn drag_event(
    id: u128,
    phase: Seq<char>,
    rule: DragRule,
    stream: Seq<char>,
    measures: Option<DragMeasures>,
) -> crate::event::EventView {
    crate::event::EventView {
        fingers: Some(rule.fingers),
        values: match measures {
            Some(measures) => drag_values(measures),
            None => Map::empty(),
        },
        labels: drag_labels(rule.id@, stream),
        ..crate::event::EventView::blank(id, "touchpad.drag"@, phase)
    }
}

fn make_drag(phase: &str, rule: &DragRule, stream: &str, measures: Option<DragMeasures>) -> (event:
    InputEvent)
    ensures
        event@ == drag_event(event.id, phase@, *rule, stream@, measures),
        crate::ids::is_random_identity(event.id),
{
    let mut event = InputEvent::new("touchpad.drag", phase);
    event.fingers = Some(rule.fingers);
    if let Some(measures) = measures {
        event.set_value("dx", measures.dx);
        event.set_value("dy", measures.dy);
        event.set_value("total_dx", measures.total_dx);
        event.set_value("total_dy", measures.total_dy);
        event.set_value("distance", measures.distance);
        event.set_value("path_length", measures.path_length);
        event.set_value("duration_ms", measures.duration_ms);
        event.set_value("hold_duration_ms", measures.hold_duration_ms);
    }
    event.set_label("recognition.rule_id", rule.id.as_str());
    event.set_label("recognition.stream_id", stream);
    event
}

/// How a drag ends.
pub enum Ending {
    End,
    Cancel,
}

impl Ending {
    pub open spec fn phase(self) -> Seq<char> {
        match self {
            Ending::End => "end"@,
            Ending::Cancel => "cancel"@,
        }
    }
}

/// A watch after a frame. `broken` says that the frame does not go on where the
/// one before it left off.
pub open spec fn watch_after(
    rule: DragRule,
    watch: Watch,
    shot: crate::segments::Shot,
    broken: bool,
) -> Watch {
    if !rule.enabled || !crate::segments::counts(
        shot,
        rule.fingers,
        rule.require_complete_tracking,
    ) {
        Watch::Out
    } else if watch is Out || broken {
        Watch::Holding { start: crate::segments::sample_of(shot) }
    } else {
        watch
    }
}

/// What to measure for a rule whose watch goes on over a frame.
pub open spec fn watch_probe(rule: int, watch: Watch, current: Sample) -> Option<DragProbe> {
    match watch {
        Watch::Holding { start } => Some(
            DragProbe {
                rule: rule as usize,
                start,
                armed: start,
                last: start,
                current,
                path_length: Metric::zero(),
            },
        ),
        Watch::Armed { start, armed } => Some(
            DragProbe {
                rule: rule as usize,
                start,
                armed,
                last: armed,
                current,
                path_length: Metric::zero(),
            },
        ),
        _ => None,
    }
}

/// What to measure for the first `count` rules.
pub open spec fn watch_probes(
    rules: Seq<DragRule>,
    watches: Seq<Watch>,
    shot: crate::segments::Shot,
    broken: bool,
    count: int,
) -> Seq<DragProbe>
    decreases count,
{
    if count <= 0 {
        Seq::empty()
    } else {
        let earlier = watch_probes(rules, watches, shot, broken, count - 1);
        let after = watch_after(rules[count - 1], watches[count - 1], shot, broken);
        if broken || watches[count - 1] is Out {
            earlier
        } else {
            match watch_probe(count - 1, after, crate::segments::sample_of(shot)) {
                Some(probe) => earlier.push(probe),
                None => earlier,
            }
        }
    }
}

/// A watch after it was measured: a hold that moved too far is lost, one that
/// lasted long enough arms the rule.
pub open spec fn judged(
    rule: DragRule,
    watch: Watch,
    current: Sample,
    measures: DragMeasures,
) -> Watch {
    match watch {
        Watch::Holding { start } => if rule.max_hold_distance.below(measures.distance) {
            Watch::Lost
        } else if rule.min_hold_duration_ms.at_most(measures.duration_ms) {
            Watch::Armed { start, armed: current }
        } else {
            watch
        },
        _ => watch,
    }
}

/// Whether an armed rule is activated: the fingers moved beyond its distance.
pub open spec fn activates(rule: DragRule, watch: Watch, measures: DragMeasures) -> bool {
    watch is Armed && rule.min_drag_distance.below(measures.distance)
}

/// The first probe, from `at` on, whose rule is activated.
pub open spec fn first_activated(
    rules: Seq<DragRule>,
    watches: Seq<Watch>,
    probes: Seq<DragProbe>,
    measures: Seq<DragMeasures>,
    at: int,
) -> Option<int>
    decreases probes.len() - at,
{
    if at < 0 || at >= probes.len() {
        None
    } else {
        let rule = probes[at].rule as int;
        if activates(rules[rule], watches[rule], measures[at]) {
            Some(at)
        } else {
            first_activated(rules, watches, probes, measures, at + 1)
        }
    }
}

/// The watches after the first `count` probes were measured.
pub open spec fn judged_all(
    rules: Seq<DragRule>,
    watches: Seq<Watch>,
    probes: Seq<DragProbe>,
    measures: Seq<DragMeasures>,
    count: int,
) -> Seq<Watch>
    decreases count,
{
    if count <= 0 {
        watches
    } else {
        let earlier = judged_all(rules, watches, probes, measures, count - 1);
        let probe = probes[count - 1];
        let rule = probe.rule as int;
        earlier.update(
            rule,
            judged(rules[rule], earlier[rule], probe.current, measures[count - 1]),
        )
    }
}

/// What a [`GestureRecognizer`] holds.
#[verifier::ext_equal]
pub struct RecognizerView {
    pub settings: RecognitionSettings,
    pub session: Seq<crate::segments::Shot>,
    pub drag: DragView,
}

impl RecognizerView {
    /// Without a session.
    pub open spec fn idle(self) -> RecognizerView {
        RecognizerView {
            session: Seq::empty(),
            drag: DragView::Watching {
                watches: Seq::new(self.settings.drags@.len(), |i: int| Watch::Out),
            },
            ..self
        }
    }

    pub open spec fn wf(self) -> bool {
        match self.drag {
            DragView::Watching { watches } => watches.len() == self.settings.drags@.len(),
            DragView::Active { drag } => 0 <= drag.rule < self.settings.drags@.len()
                && self.session.len() > 0,
            DragView::Spent => self.session.len() > 0,
        }
    }

    /// As a frame finds it: a frame that begins a session leaves nothing of an
    /// earlier one.
    pub open spec fn met_by(self, frame: crate::touch_frame::FrameView) -> RecognizerView {
        if frame.phase is Begin {
            self.idle()
        } else {
            self
        }
    }

    /// Whether a frame is passed over: no finger, and no session.
    pub open spec fn passes_over(self, frame: crate::touch_frame::FrameView) -> bool {
        self.session.len() == 0 && frame.fingers == 0
    }

    /// Whether a frame does not go on where the one before it left off.
    pub open spec fn broken_by(self, shot: crate::segments::Shot) -> bool {
        self.session.len() == 0 || self.session.last().located != shot.located
    }

    /// Whether a frame goes on with a drag under way.
    pub open spec fn carries(self, drag: ActiveView, shot: crate::segments::Shot) -> bool {
        let rule = self.settings.drags@[drag.rule];
        crate::segments::counts(shot, rule.fingers, rule.require_complete_tracking)
            && !self.broken_by(shot)
    }

    /// How a frame ends the drag under way, if it does.
    pub open spec fn ending(self, frame: crate::touch_frame::FrameView) -> Option<Ending> {
        match self.drag {
            DragView::Active { drag } => if frame.phase is Begin {
                Some(Ending::Cancel)
            } else if frame.phase is End {
                Some(Ending::End)
            } else if !self.carries(drag, crate::segments::shot_of(frame)) {
                Some(Ending::Cancel)
            } else {
                None
            },
            _ => None,
        }
    }

    /// What a frame makes it necessary to measure.
    pub open spec fn probes(self, frame: crate::touch_frame::FrameView) -> Seq<DragProbe> {
        let base = self.met_by(frame);
        let shot = crate::segments::shot_of(frame);
        if base.passes_over(frame) || frame.phase is End {
            Seq::empty()
        } else {
            match base.drag {
                DragView::Active { drag } => if base.carries(drag, shot) {
                    seq![
                        DragProbe {
                            rule: drag.rule as usize,
                            start: drag.start,
                            armed: drag.armed,
                            last: drag.last,
                            current: crate::segments::sample_of(shot),
                            path_length: drag.path_length,
                        },
                    ]
                } else {
                    Seq::empty()
                },
                DragView::Watching { watches } => watch_probes(
                    base.settings.drags@,
                    watches,
                    shot,
                    base.broken_by(shot),
                    watches.len() as int,
                ),
                DragView::Spent => Seq::empty(),
            }
        }
    }

    /// Whether a frame completes a session that is to be classified: one that no
    /// drag has claimed.
    pub open spec fn completes(self, frame: crate::touch_frame::FrameView) -> bool {
        let base = self.met_by(frame);
        !base.passes_over(frame) && frame.phase is End && base.drag is Watching
    }

    /// The session with a frame added.
    pub open spec fn session_with(self, frame: crate::touch_frame::FrameView) -> Seq<
        crate::segments::Shot,
    > {
        self.met_by(frame).session.push(crate::segments::shot_of(frame))
    }

    /// After a frame, before anything was measured.
    pub open spec fn pushed(self, frame: crate::touch_frame::FrameView) -> RecognizerView {
        let base = self.met_by(frame);
        let shot = crate::segments::shot_of(frame);
        if base.passes_over(frame) {
            base
        } else if frame.phase is End {
            base.idle()
        } else {
            RecognizerView {
                session: base.session.push(shot),
                drag: match base.drag {
                    DragView::Active { drag } => if base.carries(drag, shot) {
                        DragView::Active { drag }
                    } else {
                        DragView::Spent
                    },
                    DragView::Watching { watches } => DragView::Watching {
                        watches: Seq::new(
                            watches.len(),
                            |i: int|
                                watch_after(
                                    base.settings.drags@[i],
                                    watches[i],
                                    shot,
                                    base.broken_by(shot),
                                ),
                        ),
                    },
                    DragView::Spent => DragView::Spent,
                },
                ..base
            }
        }
    }

    /// Whether measured probes begin a drag, and by which of them.
    pub open spec fn activation(
        self,
        probes: Seq<DragProbe>,
        measures: Seq<DragMeasures>,
    ) -> Option<int> {
        match self.drag {
            DragView::Watching { watches } => first_activated(
                self.settings.drags@,
                watches,
                probes,
                measures,
                0,
            ),
            _ => None,
        }
    }

    /// After probes were measured; a drag that begins is given a stream.
    pub open spec fn after_measures(
        self,
        probes: Seq<DragProbe>,
        measures: Seq<DragMeasures>,
        stream: Seq<char>,
    ) -> RecognizerView {
        if probes.len() == 0 {
            self
        } else {
            match self.drag {
                DragView::Active { drag } => RecognizerView {
                    drag: DragView::Active {
                        drag: ActiveView {
                            last: probes[0].current,
                            path_length: measures[0].path_length,
                            ..drag
                        },
                    },
                    ..self
                },
                DragView::Watching { watches } => match self.activation(probes, measures) {
                    Some(at) => RecognizerView {
                        drag: DragView::Active {
                            drag: ActiveView {
                                rule: probes[at].rule as int,
                                stream,
                                start: probes[at].start,
                                armed: probes[at].armed,
                                last: probes[at].current,
                                path_length: measures[at].path_length,
                            },
                        },
                        ..self
                    },
                    None => RecognizerView {
                        drag: DragView::Watching {
                            watches: judged_all(
                                self.settings.drags@,
                                watches,
                                probes,
                                measures,
                                probes.len() as int,
                            ),
                        },
                        ..self
                    },
                },
                DragView::Spent => self,
            }
        }
    }
}

/// Whether an event is what measured probes give: a begin where they begin a
/// drag, with the stream that it is given, an update where a drag is under way,
/// and none otherwise.
pub open spec fn measured_event(
    state: RecognizerView,
    probes: Seq<DragProbe>,
    measures: Seq<DragMeasures>,
    stream: Seq<char>,
    event: Option<InputEvent>,
) -> bool {
    &&& event matches Some(event) ==> crate::ids::is_random_identity(event.id)
    &&& match state.drag {
        DragView::Active { drag } => if probes.len() == 0 {
            event is None
        } else {
            event matches Some(event) && event@ == drag_event(
                event.id,
                "update"@,
                state.settings.drags@[drag.rule],
                drag.stream,
                Some(measures[0]),
            )
        },
        DragView::Watching { .. } => match state.activation(probes, measures) {
            Some(at) => event matches Some(event) && event@ == drag_event(
                event.id,
                "begin"@,
                state.settings.drags@[probes[at].rule as int],
                stream,
                Some(measures[at]),
            ),
            None => event is None,
        },
        DragView::Spent => event is None,
    }
}

/// What came of a frame: the end of a drag, what to measure, and the session to
/// classify, where there is one.
#[derive(Debug)]
pub struct FrameStep {
    pub ended: Option<InputEvent>,
    pub probes: Vec<DragProbe>,
    pub completed: Option<CompletedSession>,
}

/// Recognizes gestures in normalized touch frames.
#[derive(Debug)]
pub struct GestureRecognizer {
    config: RecognizerConfig,
    swipes: Vec<SwipeRule>,
    holds: Vec<HoldRule>,
    session: Vec<SessionFrame>,
    drag: DragProgress,
}

impl View for GestureRecognizer {
    type V = RecognizerView;

    closed spec fn view(&self) -> RecognizerView {
        RecognizerView {
            settings: self.config.recognition,
            session: crate::segments::shots(self.session@),
            drag: self.drag@,
        }
    }
}

fn out_watches(count: usize) -> (watches: Vec<Watch>)
    ensures
        watches@ == Seq::new(count as nat, |i: int| Watch::Out),
{
    let mut watches: Vec<Watch> = Vec::new();
    while watches.len() < count
        invariant
            watches@.len() <= count,
            forall|i: int| 0 <= i < watches@.len() ==> watches@[i] == Watch::Out,
        decreases count - watches@.len(),
    {
        watches.push(Watch::Out);
    }
    assert(watches@ =~= Seq::new(count as nat, |i: int| Watch::Out));
    watches
}

fn find_swipe_candidates(rules: &Vec<SwipeRule>, session: &Vec<SessionFrame>) -> (candidates: Vec<
    Candidate,
>)
    ensures
        candidate_views(candidates@) == swipe_candidates(
            crate::recognizer_config::swipe_views(rules@),
            crate::segments::shots(session@),
        ),
        forall|i: int| 0 <= i < candidates@.len() ==> (#[trigger] candidates@[i]).rule < rules@.len(),
        forall|i: int|
            0 <= i < candidates@.len() ==> crate::segments::measurable(
                (#[trigger] candidates@[i]).samples@,
            ),
{
    let ghost views = crate::recognizer_config::swipe_views(rules@);
    let ghost shots = crate::segments::shots(session@);
    let mut candidates: Vec<Candidate> = Vec::new();
    let mut index: usize = 0;
    assert(candidate_views(candidates@) =~= swipe_candidates(views.take(0), shots));
    while index < rules.len()
        invariant
            index <= rules@.len(),
            views == crate::recognizer_config::swipe_views(rules@),
            views.len() == rules@.len(),
            shots == crate::segments::shots(session@),
            candidate_views(candidates@) == swipe_candidates(views.take(index as int), shots),
            forall|i: int|
                0 <= i < candidates@.len() ==> (#[trigger] candidates@[i]).rule < rules@.len(),
            forall|i: int|
                0 <= i < candidates@.len() ==> crate::segments::measurable(
                    (#[trigger] candidates@[i]).samples@,
                ),
        decreases rules@.len() - index,
    {
        let rule = &rules[index];
        assert(views.take(index + 1).drop_last() =~= views.take(index as int));
        assert(views[index as int] == crate::recognizer_config::swipe_view(*rule));
        if rule.swipe.enabled {
            if let Some(samples) = best_segment(
                session,
                rule.swipe.fingers,
                rule.require_complete_tracking,
            ) {
                let ghost before = candidate_views(candidates@);
                let candidate = Candidate { rule: index, samples };
                candidates.push(candidate);
                assert(candidate_views(candidates@) =~= before.push(candidate@));
            }
        }
        index = index + 1;
    }
    assert(views.take(index as int) =~= views);
    candidates
}

fn find_hold_candidates(rules: &Vec<HoldRule>, session: &Vec<SessionFrame>) -> (candidates: Vec<
    Candidate,
>)
    ensures
        candidate_views(candidates@) == hold_candidates(
            crate::recognizer_config::hold_views(rules@),
            crate::segments::shots(session@),
        ),
        forall|i: int| 0 <= i < candidates@.len() ==> (#[trigger] candidates@[i]).rule < rules@.len(),
        forall|i: int|
            0 <= i < candidates@.len() ==> crate::segments::measurable(
                (#[trigger] candidates@[i]).samples@,
            ),
{
    let ghost views = crate::recognizer_config::hold_views(rules@);
    let ghost shots = crate::segments::shots(session@);
    let mut candidates: Vec<Candidate> = Vec::new();
    let mut index: usize = 0;
    assert(candidate_views(candidates@) =~= hold_candidates(views.take(0), shots));
    while index < rules.len()
        invariant
            index <= rules@.len(),
            views == crate::recognizer_config::hold_views(rules@),
            views.len() == rules@.len(),
            shots == crate::segments::shots(session@),
            candidate_views(candidates@) == hold_candidates(views.take(index as int), shots),
            forall|i: int|
                0 <= i < candidates@.len() ==> (#[trigger] candidates@[i]).rule < rules@.len(),
            forall|i: int|
                0 <= i < candidates@.len() ==> crate::segments::measurable(
                    (#[trigger] candidates@[i]).samples@,
                ),
        decreases rules@.len() - index,
    {
        let rule = &rules[index];
        assert(views.take(index + 1).drop_last() =~= views.take(index as int));
        assert(views[index as int] == crate::recognizer_config::hold_view(*rule));
        if rule.hold.enabled {
            if let Some(samples) = best_segment(
                session,
                rule.hold.fingers,
                rule.require_complete_tracking,
            ) {
                let ghost before = candidate_views(candidates@);
                let candidate = Candidate { rule: index, samples };
                candidates.push(candidate);
                assert(candidate_views(candidates@) =~= before.push(candidate@));
            }
        }
        index = index + 1;
    }
    assert(views.take(index as int) =~= views);
    candidates
}

/// Whether one candidate's segment outlasts another's.
fn outlasting(left: &Candidate, right: &Candidate) -> (result: bool)
    requires
        crate::segments::measurable(left.samples@),
        crate::segments::measurable(right.samples@),
    ensures
        result == crate::segments::outlasts(left.samples@, right.samples@),
{
    let left_count: usize = left.samples.len();
    let right_count: usize = right.samples.len();
    assert(left.samples@.last() == left.samples@[left_count - 1]);
    assert(right.samples@.last() == right.samples@[right_count - 1]);
    let left_lasts: u128 = left.samples[left_count - 1].timestamp_micros
        - left.samples[0].timestamp_micros;
    let right_lasts: u128 = right.samples[right_count - 1].timestamp_micros
        - right.samples[0].timestamp_micros;
    left_lasts > right_lasts || (left_lasts == right_lasts && left_count > right_count)
}

/// Which swipe candidates meet the thresholds of their rules.
pub open spec fn fitting_swipes(
    rules: Seq<crate::recognizer_config::SwipeRuleView>,
    candidates: Seq<CandidateView>,
    measures: Seq<SegmentMeasures>,
) -> spec_fn(int) -> bool {
    |i: int| is_swipe(rules[candidates[i].rule].swipe, measures[i])
}

/// Which hold candidates meet the thresholds of their rules.
pub open spec fn fitting_holds(
    rules: Seq<crate::recognizer_config::HoldRuleView>,
    candidates: Seq<CandidateView>,
    measures: Seq<SegmentMeasures>,
) -> spec_fn(int) -> bool {
    |i: int| is_hold(rules[candidates[i].rule].hold, measures[i])
}

/// The swipe that a completed session amounts to, if it does: a candidate that
/// meets the thresholds of its rule.
pub open spec fn winning_swipe(
    settings: RecognitionSettings,
    candidates: Seq<CandidateView>,
    measures: Seq<SegmentMeasures>,
) -> Option<int> {
    winner(
        candidates,
        fitting_swipes(settings.swipe_rules(), candidates, measures),
        candidates.len() as int,
    )
}

/// The hold that a completed session amounts to, if it is no swipe.
pub open spec fn winning_hold(
    settings: RecognitionSettings,
    candidates: Seq<CandidateView>,
    measures: Seq<SegmentMeasures>,
) -> Option<int> {
    winner(
        candidates,
        fitting_holds(settings.hold_rules(), candidates, measures),
        candidates.len() as int,
    )
}

/// The event that a completed session amounts to, if any, under an identity that it
/// is given: that of the swipe which wins, or else of the hold which wins.
pub open spec fn session_event(
    settings: RecognitionSettings,
    swipes: Seq<CandidateView>,
    swipe_measures: Seq<SegmentMeasures>,
    holds: Seq<CandidateView>,
    hold_measures: Seq<SegmentMeasures>,
    id: u128,
) -> Option<crate::event::EventView> {
    match winning_swipe(settings, swipes, swipe_measures) {
        Some(at) => Some(
            swipe_event(
                id,
                settings.swipe_rules()[swipes[at].rule].swipe.fingers,
                swipe_measures[at],
                settings.swipe_rules()[swipes[at].rule].id,
            ),
        ),
        None => match winning_hold(settings, holds, hold_measures) {
            Some(at) => Some(
                hold_event(
                    id,
                    settings.hold_rules()[holds[at].rule].hold.fingers,
                    hold_measures[at],
                    settings.hold_rules()[holds[at].rule].id,
                ),
            ),
            None => None,
        },
    }
}

/// Whether the candidates of a completed session belong to rules in force and
/// can be compared.
pub open spec fn classifiable(settings: RecognitionSettings, completed: CompletedSession) -> bool {
    &&& forall|i: int|
        0 <= i < completed.swipes@.len() ==> (#[trigger] completed.swipes@[i]).rule
            < settings.swipe_rules().len() && crate::segments::measurable(
            completed.swipes@[i].samples@,
        )
    &&& forall|i: int|
        0 <= i < completed.holds@.len() ==> (#[trigger] completed.holds@[i]).rule
            < settings.hold_rules().len() && crate::segments::measurable(
            completed.holds@[i].samples@,
        )
}

impl GestureRecognizer {
    /// What every reachable recognizer satisfies.
    pub closed spec fn wf(self) -> bool {
        &&& self.config.fault() is None
        &&& self@.wf()
        &&& crate::recognizer_config::swipe_views(self.swipes@)
            == self.config.recognition.swipe_rules()
        &&& crate::recognizer_config::hold_views(self.holds@)
            == self.config.recognition.hold_rules()
    }

    /// A recognizer for valid rules.
    pub fn new(config: RecognizerConfig) -> (result: Result<GestureRecognizer, RecognizerError>)
        ensures
            result is Ok <==> config.fault() is None,
            result matches Ok(recognizer) ==> recognizer.wf() && recognizer@.settings
                == config.recognition && recognizer@ == recognizer@.idle(),
            result matches Err(error) ==> Some(error@) == config.fault(),
    {
        if let Err(error) = config.validate() {
            return Err(error);
        }
        let swipes = config.recognition.effective_swipes();
        let holds = config.recognition.effective_holds();
        let watches = out_watches(config.recognition.drags.len());
        let recognizer = GestureRecognizer {
            config,
            swipes,
            holds,
            session: Vec::new(),
            drag: DragProgress::Watching { watches },
        };
        assert(recognizer@ =~= recognizer@.idle());
        Ok(recognizer)
    }

    pub fn config(&self) -> (config: &RecognizerConfig)
        ensures
            config.recognition == self@.settings,
    {
        &self.config
    }

    fn forget(&mut self)
        ensures
            final(self)@ == old(self)@.idle(),
            final(self).config == old(self).config,
            final(self).swipes == old(self).swipes,
            final(self).holds == old(self).holds,
    {
        self.session = Vec::new();
        self.drag = DragProgress::Watching {
            watches: out_watches(self.config.recognition.drags.len()),
        };
        assert(self@ =~= old(self)@.idle());
    }

    /// The event that ends the drag under way.
    fn ending_event(&self, phase: &str) -> (event: Option<InputEvent>)
        requires
            self@.wf(),
        ensures
            event is Some <==> self@.drag is Active,
            event matches Some(event) ==> event@ == drag_event(
                event.id,
                phase@,
                self@.settings.drags@[self@.drag->drag.rule],
                self@.drag->drag.stream,
                None,
            ) && crate::ids::is_random_identity(event.id),
    {
        match &self.drag {
            DragProgress::Active { drag } => {
                let rule = &self.config.recognition.drags[drag.rule];
                Some(make_drag(phase, rule, drag.stream.as_str(), None))
            },
            _ => None,
        }
    }

    /// Gives up the session under way; a drag in it is cancelled.
    pub fn cancel(&mut self) -> (event: Option<InputEvent>)
        requires
            old(self).wf(),
        ensures
            final(self).wf(),
            final(self)@ == old(self)@.idle(),
            event is Some <==> old(self)@.drag is Active,
            event matches Some(event) ==> event@ == drag_event(
                event.id,
                "cancel"@,
                old(self)@.settings.drags@[old(self)@.drag->drag.rule],
                old(self)@.drag->drag.stream,
                None,
            ) && crate::ids::is_random_identity(event.id),
    {
        let event = self.ending_event("cancel");
        self.forget();
        event
    }

    fn is_broken_by(&self, frame: &SessionFrame) -> (result: bool)
        ensures
            result == self@.broken_by(frame@),
    {
        let count: usize = self.session.len();
        if count == 0 {
            return true;
        }
        assert(self@.session.last() == self.session@[count - 1]@);
        !same_contacts(&self.session[count - 1].located, &frame.located)
    }

    fn next_watches(&self, watches: &Vec<Watch>, frame: &SessionFrame, broken: bool) -> (next: Vec<
        Watch,
    >)
        requires
            watches@.len() == self@.settings.drags@.len(),
        ensures
            next@ == Seq::new(
                watches@.len(),
                |i: int|
                    watch_after(self@.settings.drags@[i], watches@[i], frame@, broken),
            ),
    {
        let mut next: Vec<Watch> = Vec::new();
        let mut index: usize = 0;
        while index < watches.len()
            invariant
                index <= watches@.len(),
                watches@.len() == self.config.recognition.drags@.len(),
                next@.len() == index,
                forall|i: int|
                    0 <= i < index ==> next@[i] == watch_after(
                        self.config.recognition.drags@[i],
                        watches@[i],
                        frame@,
                        broken,
                    ),
            decreases watches@.len() - index,
        {
            let rule = &self.config.recognition.drags[index];
            let found = sample(frame, rule.fingers, rule.require_complete_tracking);
            let watch: Watch = match found {
                Some(start) => if !rule.enabled {
                    Watch::Out
                } else if broken || matches!(watches[index], Watch::Out) {
                    Watch::Holding { start }
                } else {
                    watches[index]
                },
                None => Watch::Out,
            };
            next.push(watch);
            index = index + 1;
        }
        assert(next@ =~= Seq::new(
            watches@.len(),
            |i: int| watch_after(self@.settings.drags@[i], watches@[i], frame@, broken),
        ));
        next
    }

    fn probes_of(
        &self,
        watches: &Vec<Watch>,
        next: &Vec<Watch>,
        frame: &SessionFrame,
        broken: bool,
    ) -> (probes: Vec<DragProbe>)
        requires
            watches@.len() == self@.settings.drags@.len(),
            next@ == Seq::new(
                watches@.len(),
                |i: int|
                    watch_after(self@.settings.drags@[i], watches@[i], frame@, broken),
            ),
        ensures
            probes@ == watch_probes(
                self@.settings.drags@,
                watches@,
                frame@,
                broken,
                watches@.len() as int,
            ),
            forall|i: int|
                0 <= i < probes@.len() ==> (#[trigger] probes@[i]).rule < self@.settings.drags@.len(),
    {
        let ghost rules = self@.settings.drags@;
        let mut probes: Vec<DragProbe> = Vec::new();
        let mut index: usize = 0;
        while index < watches.len()
            invariant
                index <= watches@.len(),
                rules == self.config.recognition.drags@,
                watches@.len() == rules.len(),
                next@ == Seq::new(
                    watches@.len(),
                    |i: int| watch_after(rules[i], watches@[i], frame@, broken),
                ),
                probes@ == watch_probes(rules, watches@, frame@, broken, index as int),
                forall|i: int|
                    0 <= i < probes@.len() ==> (#[trigger] probes@[i]).rule < rules.len(),
            decreases watches@.len() - index,
        {
            let rule = &self.config.recognition.drags[index];
            if !broken && !matches!(watches[index], Watch::Out) {
                if let Some(current) = sample(
                    frame,
                    rule.fingers,
                    rule.require_complete_tracking,
                ) {
                    let zero = Metric { bits: 0 };
                    match next[index] {
                        Watch::Holding { start } => {
                            probes.push(
                                DragProbe {
                                    rule: index,
                                    start,
                                    armed: start,
                                    last: start,
                                    current,
                                    path_length: zero,
                                },
                            );
                        },
                        Watch::Armed { start, armed } => {
                            probes.push(
                                DragProbe {
                                    rule: index,
                                    start,
                                    armed,
                                    last: armed,
                                    current,
                                    path_length: zero,
                                },
                            );
                        },
                        _ => {},
                    }
                }
            }
            index = index + 1;
        }
        probes
    }

    /// Takes in one normalized touch frame.
    pub fn push(&mut self, frame: &TouchFrame) -> (step: FrameStep)
        requires
            old(self).wf(),
        ensures
            final(self).wf(),
            final(self)@ == old(self)@.pushed(frame@),
            step.probes@ == old(self)@.probes(frame@),
            forall|i: int|
                0 <= i < step.probes@.len() ==> (#[trigger] step.probes@[i]).rule < old(
                    self,
                )@.settings.drags@.len(),
            step.ended is Some <==> old(self)@.ending(frame@) is Some,
            step.ended matches Some(event) ==> event@ == drag_event(
                event.id,
                old(self)@.ending(frame@)->0.phase(),
                old(self)@.settings.drags@[old(self)@.drag->drag.rule],
                old(self)@.drag->drag.stream,
                None,
            ) && crate::ids::is_random_identity(event.id),
            step.completed is Some <==> old(self)@.completes(frame@),
            step.completed matches Some(completed) ==> {
                &&& classifiable(old(self)@.settings, completed)
                &&& candidate_views(completed.swipes@) == swipe_candidates(
                    old(self)@.settings.swipe_rules(),
                    old(self)@.session_with(frame@),
                )
                &&& candidate_views(completed.holds@) == hold_candidates(
                    old(self)@.settings.hold_rules(),
                    old(self)@.session_with(frame@),
                )
            },
    {
        let ghost before = self@;
        let mut ended: Option<InputEvent> = None;
        if matches!(frame.phase, TouchFramePhase::Begin) {
            ended = self.cancel();
        }
        let ghost base = self@;
        assert(base == before.met_by(frame@));
        if self.session.len() == 0 && frame.fingers == 0 {
            return FrameStep { ended, probes: Vec::new(), completed: None };
        }
        let kept = session_frame(frame);
        if matches!(frame.phase, TouchFramePhase::End) {
            let ghost session = crate::segments::shots(self.session@);
            self.session.push(kept);
            assert(crate::segments::shots(self.session@) =~= session.push(kept@));
            ended = self.ending_event("end");
            let completed: Option<CompletedSession> = match &self.drag {
                DragProgress::Watching { .. } => Some(
                    CompletedSession {
                        swipes: find_swipe_candidates(&self.swipes, &self.session),
                        holds: find_hold_candidates(&self.holds, &self.session),
                    },
                ),
                _ => None,
            };
            self.forget();
            return FrameStep { ended, probes: Vec::new(), completed };
        }
        let broken: bool = self.is_broken_by(&kept);
        let mut probes: Vec<DragProbe> = Vec::new();
        let mut carried: bool = true;
        let mut next: Option<Vec<Watch>> = None;
        match &self.drag {
            DragProgress::Active { drag } => {
                let rule = &self.config.recognition.drags[drag.rule];
                let found = sample(&kept, rule.fingers, rule.require_complete_tracking);
                match found {
                    Some(current) => {
                        if broken {
                            carried = false;
                        } else {
                            probes.push(
                                DragProbe {
                                    rule: drag.rule,
                                    start: drag.start,
                                    armed: drag.armed,
                                    last: drag.last,
                                    current,
                                    path_length: drag.path_length,
                                },
                            );
                        }
                    },
                    None => {
                        carried = false;
                    },
                }
                assert(carried == base.carries(drag@, kept@));
            },
            DragProgress::Watching { watches } => {
                let following = self.next_watches(watches, &kept, broken);
                probes = self.probes_of(watches, &following, &kept, broken);
                next = Some(following);
            },
            DragProgress::Spent => {},
        }
        assert(probes@ =~= before.probes(frame@));
        if !carried {
            ended = self.ending_event("cancel");
            self.drag = DragProgress::Spent;
        } else if let Some(watches) = next {
            self.drag = DragProgress::Watching { watches };
        }
        let ghost session = crate::segments::shots(self.session@);
        self.session.push(kept);
        assert(crate::segments::shots(self.session@) =~= session.push(kept@));
        assert(self@ =~= before.pushed(frame@));
        FrameStep { ended, probes, completed: None }
    }

    fn find_activated(
        &self,
        watches: &Vec<Watch>,
        probes: &Vec<DragProbe>,
        measures: &Vec<DragMeasures>,
    ) -> (result: Option<usize>)
        requires
            watches@.len() == self@.settings.drags@.len(),
            probes@.len() == measures@.len(),
            forall|i: int|
                0 <= i < probes@.len() ==> (#[trigger] probes@[i]).rule < self@.settings.drags@.len(),
        ensures
            result is Some <==> first_activated(
                self@.settings.drags@,
                watches@,
                probes@,
                measures@,
                0,
            ) is Some,
            result matches Some(at) ==> at < probes@.len() && first_activated(
                self@.settings.drags@,
                watches@,
                probes@,
                measures@,
                0,
            ) == Some(at as int),
    {
        let ghost rules = self@.settings.drags@;
        let mut at: usize = 0;
        while at < probes.len()
            invariant
                at <= probes@.len(),
                rules == self.config.recognition.drags@,
                watches@.len() == rules.len(),
                probes@.len() == measures@.len(),
                forall|i: int|
                    0 <= i < probes@.len() ==> (#[trigger] probes@[i]).rule < rules.len(),
                first_activated(rules, watches@, probes@, measures@, 0) == first_activated(
                    rules,
                    watches@,
                    probes@,
                    measures@,
                    at as int,
                ),
            decreases probes@.len() - at,
        {
            let rule = &self.config.recognition.drags[probes[at].rule];
            let armed: bool = matches!(watches[probes[at].rule], Watch::Armed { .. });
            if armed && rule.min_drag_distance.is_below(&measures[at].distance) {
                return Some(at);
            }
            at = at + 1;
        }
        None
    }

    fn judge_watches(
        &self,
        watches: &Vec<Watch>,
        probes: &Vec<DragProbe>,
        measures: &Vec<DragMeasures>,
    ) -> (result: Vec<Watch>)
        requires
            watches@.len() == self@.settings.drags@.len(),
            probes@.len() == measures@.len(),
            forall|i: int|
                0 <= i < probes@.len() ==> (#[trigger] probes@[i]).rule < self@.settings.drags@.len(),
        ensures
            result@ == judged_all(
                self@.settings.drags@,
                watches@,
                probes@,
                measures@,
                probes@.len() as int,
            ),
            result@.len() == watches@.len(),
    {
        let ghost rules = self@.settings.drags@;
        let mut result: Vec<Watch> = watches.clone();
        assert(result@ =~= watches@);
        let mut index: usize = 0;
        while index < probes.len()
            invariant
                index <= probes@.len(),
                rules == self.config.recognition.drags@,
                result@.len() == watches@.len() == rules.len(),
                probes@.len() == measures@.len(),
                forall|i: int|
                    0 <= i < probes@.len() ==> (#[trigger] probes@[i]).rule < rules.len(),
                result@ == judged_all(rules, watches@, probes@, measures@, index as int),
            decreases probes@.len() - index,
        {
            let probe = probes[index];
            let rule = &self.config.recognition.drags[probe.rule];
            let watch: Watch = match result[probe.rule] {
                Watch::Holding { start } => if rule.max_hold_distance.is_below(
                    &measures[index].distance,
                ) {
                    Watch::Lost
                } else if rule.min_hold_duration_ms.is_at_most(&measures[index].duration_ms) {
                    Watch::Armed { start, armed: probe.current }
                } else {
                    Watch::Holding { start }
                },
                other => other,
            };
            result.set(probe.rule, watch);
            index = index + 1;
        }
        result
    }

    /// Whether measured probes begin a drag.
    fn begins_drag(&self, probes: &Vec<DragProbe>, measures: &Vec<DragMeasures>) -> (result: bool)
        requires
            self@.wf(),
            probes@.len() == measures@.len(),
            forall|i: int|
                0 <= i < probes@.len() ==> (#[trigger] probes@[i]).rule < self@.settings.drags@.len(),
        ensures
            result == (self@.activation(probes@, measures@) is Some),
    {
        match &self.drag {
            DragProgress::Watching { watches } => self.find_activated(
                watches,
                probes,
                measures,
            ).is_some(),
            _ => false,
        }
    }

    /// Takes in what was measured. A drag that begins or goes on gives an event;
    /// one that begins is given a new stream.
    pub fn measured(&mut self, probes: &Vec<DragProbe>, measures: &Vec<DragMeasures>) -> (event:
        Option<InputEvent>)
        requires
            old(self).wf(),
            probes@.len() == measures@.len(),
            forall|i: int|
                0 <= i < probes@.len() ==> (#[trigger] probes@[i]).rule < old(
                    self,
                )@.settings.drags@.len(),
            probes@.len() > 0 ==> old(self)@.session.len() > 0,
        ensures
            final(self).wf(),
            final(self)@ == old(self)@.after_measures(
                probes@,
                measures@,
                match final(self)@.drag {
                    DragView::Active { drag } => drag.stream,
                    _ => Seq::empty(),
                },
            ),
            old(self)@.activation(probes@, measures@) is Some ==> final(self)@.drag is Active
                && exists|id: u128| #[trigger]
                crate::ids::is_random_identity(id) && final(self)@.drag->drag.stream
                    == crate::ids::hyphenated(id),
            measured_event(
                old(self)@,
                probes@,
                measures@,
                match final(self)@.drag {
                    DragView::Active { drag } => drag.stream,
                    _ => Seq::empty(),
                },
                event,
            ),
    {
        let stream = if self.begins_drag(probes, measures) {
            id_text(fresh_id())
        } else {
            String::new()
        };
        self.measured_in(probes, measures, stream)
    }

    /// Takes in what was measured; a drag that begins is given the stream.
    pub fn measured_in(
        &mut self,
        probes: &Vec<DragProbe>,
        measures: &Vec<DragMeasures>,
        stream: String,
    ) -> (event: Option<InputEvent>)
        requires
            old(self).wf(),
            probes@.len() == measures@.len(),
            forall|i: int|
                0 <= i < probes@.len() ==> (#[trigger] probes@[i]).rule < old(
                    self,
                )@.settings.drags@.len(),
            probes@.len() > 0 ==> old(self)@.session.len() > 0,
        ensures
            final(self).wf(),
            final(self)@ == old(self)@.after_measures(probes@, measures@, stream@),
            measured_event(old(self)@, probes@, measures@, stream@, event),
    {
        let ghost before = self@;
        if probes.len() == 0 {
            return None;
        }
        let mut event: Option<InputEvent> = None;
        let mut begun: Option<ActiveDrag> = None;
        let mut judged: Option<Vec<Watch>> = None;
        match &self.drag {
            DragProgress::Active { drag } => {
                let rule = &self.config.recognition.drags[drag.rule];
                event = Some(make_drag("update", rule, drag.stream.as_str(), Some(measures[0])));
                begun = Some(
                    ActiveDrag {
                        rule: drag.rule,
                        stream: drag.stream.clone(),
                        start: drag.start,
                        armed: drag.armed,
                        last: probes[0].current,
                        path_length: measures[0].path_length,
                    },
                );
            },
            DragProgress::Watching { watches } => {
                match self.find_activated(watches, probes, measures) {
                    Some(at) => {
                        let probe = probes[at];
                        let rule = &self.config.recognition.drags[probe.rule];
                        event = Some(
                            make_drag("begin", rule, stream.as_str(), Some(measures[at])),
                        );
                        begun = Some(
                            ActiveDrag {
                                rule: probe.rule,
                                stream,
                                start: probe.start,
                                armed: probe.armed,
                                last: probe.current,
                                path_length: measures[at].path_length,
                            },
                        );
                    },
                    None => {
                        judged = Some(self.judge_watches(watches, probes, measures));
                    },
                }
            },
            DragProgress::Spent => {},
        }
        if let Some(drag) = begun {
            self.drag = DragProgress::Active { drag };
        } else if let Some(watches) = judged {
            self.drag = DragProgress::Watching { watches };
        }
        event
    }

    /// Decides what a completed session amounts to, given the measures of its
    /// segments: swipes come before holds, and there is at most one event.
    pub fn classify(
        &self,
        completed: &CompletedSession,
        swipe_measures: &Vec<SegmentMeasures>,
        hold_measures: &Vec<SegmentMeasures>,
    ) -> (event: Option<InputEvent>)
        requires
            self.wf(),
            classifiable(self@.settings, *completed),
            swipe_measures@.len() == completed.swipes@.len(),
            hold_measures@.len() == completed.holds@.len(),
        ensures
            ({
                let settings = self@.settings;
                let swipes = candidate_views(completed.swipes@);
                let holds = candidate_views(completed.holds@);
                match winning_swipe(settings, swipes, swipe_measures@) {
                    Some(at) => event matches Some(event) && event@ == swipe_event(
                        event.id,
                        settings.swipe_rules()[swipes[at].rule].swipe.fingers,
                        swipe_measures@[at],
                        settings.swipe_rules()[swipes[at].rule].id,
                    ),
                    None => match winning_hold(settings, holds, hold_measures@) {
                        Some(at) => event matches Some(event) && event@ == hold_event(
                            event.id,
                            settings.hold_rules()[holds[at].rule].hold.fingers,
                            hold_measures@[at],
                            settings.hold_rules()[holds[at].rule].id,
                        ),
                        None => event is None,
                    },
                }
            }),
            event matches Some(event) ==> crate::ids::is_random_identity(event.id),
            forall|id: u128|
                (event is Some && event->0.id == id) || event is None ==> (match event {
                    Some(event) => Some(event@),
                    None => None,
                }) == #[trigger] session_event(
                    self@.settings,
                    candidate_views(completed.swipes@),
                    swipe_measures@,
                    candidate_views(completed.holds@),
                    hold_measures@,
                    id,
                ),
    {
        if let Some(at) = self.find_swipe(completed, swipe_measures) {
            let candidate = &completed.swipes[at];
            let rule = &self.swipes[candidate.rule];
            assert(crate::recognizer_config::swipe_views(self.swipes@)[candidate.rule as int]
                == crate::recognizer_config::swipe_view(*rule));
            assert(candidate_views(completed.swipes@)[at as int].rule == candidate.rule);
            return Some(make_swipe(rule, candidate.samples.len(), &swipe_measures[at]));
        }
        if let Some(at) = self.find_hold(completed, hold_measures) {
            let candidate = &completed.holds[at];
            let rule = &self.holds[candidate.rule];
            assert(crate::recognizer_config::hold_views(self.holds@)[candidate.rule as int]
                == crate::recognizer_config::hold_view(*rule));
            assert(candidate_views(completed.holds@)[at as int].rule == candidate.rule);
            return Some(make_hold(rule, &hold_measures[at]));
        }
        None
    }

    fn find_swipe(&self, completed: &CompletedSession, measures: &Vec<SegmentMeasures>) -> (result:
        Option<usize>)
        requires
            self.wf(),
            classifiable(self@.settings, *completed),
            measures@.len() == completed.swipes@.len(),
        ensures
            result matches Some(at) ==> at < completed.swipes@.len(),
            winning_swipe(self@.settings, candidate_views(completed.swipes@), measures@)
                == match result {
                Some(at) => Some(at as int),
                None => None,
            },
    {
        let ghost rules = self@.settings.swipe_rules();
        let ghost views = candidate_views(completed.swipes@);
        let ghost fits = fitting_swipes(rules, views, measures@);
        let mut best: Option<usize> = None;
        let mut index: usize = 0;
        while index < completed.swipes.len()
            invariant
                index <= completed.swipes@.len(),
                self.wf(),
                classifiable(self@.settings, *completed),
                rules == self@.settings.swipe_rules(),
                rules == crate::recognizer_config::swipe_views(self.swipes@),
                views == candidate_views(completed.swipes@),
                fits == fitting_swipes(rules, views, measures@),
                measures@.len() == completed.swipes@.len(),
                best matches Some(at) ==> at < index,
                winner(views, fits, index as int) == match best {
                    Some(at) => Some(at as int),
                    None => None,
                },
            decreases completed.swipes@.len() - index,
        {
            let candidate = &completed.swipes[index];
            assert(views[index as int] == candidate@);
            let swipe = self.swipes[candidate.rule].swipe;
            assert(rules[candidate.rule as int].swipe == swipe);
            let measured = &measures[index];
            let fit: bool = swipe.min_distance.is_at_most(&measured.distance)
                && swipe.min_average_velocity.is_at_most(&measured.average_velocity)
                && measured.duration_ms.is_at_most(&swipe.max_duration_ms)
                && measured.axis_deviation_degrees.is_at_most(&swipe.max_axis_deviation_degrees);
            assert(fit == fits(index as int));
            if fit {
                let preferred: bool = match best {
                    Some(at) => {
                        assert(views[at as int] == completed.swipes@[at as int]@);
                        outlasting(candidate, &completed.swipes[at])
                    },
                    None => true,
                };
                if preferred {
                    best = Some(index);
                }
            }
            index = index + 1;
        }
        best
    }

    fn find_hold(&self, completed: &CompletedSession, measures: &Vec<SegmentMeasures>) -> (result:
        Option<usize>)
        requires
            self.wf(),
            classifiable(self@.settings, *completed),
            measures@.len() == completed.holds@.len(),
        ensures
            result matches Some(at) ==> at < completed.holds@.len(),
            winning_hold(self@.settings, candidate_views(completed.holds@), measures@)
                == match result {
                Some(at) => Some(at as int),
                None => None,
            },
    {
        let ghost rules = self@.settings.hold_rules();
        let ghost views = candidate_views(completed.holds@);
        let ghost fits = fitting_holds(rules, views, measures@);
        let mut best: Option<usize> = None;
        let mut index: usize = 0;
        while index < completed.holds.len()
            invariant
                index <= completed.holds@.len(),
                self.wf(),
                classifiable(self@.settings, *completed),
                rules == self@.settings.hold_rules(),
                rules == crate::recognizer_config::hold_views(self.holds@),
                views == candidate_views(completed.holds@),
                fits == fitting_holds(rules, views, measures@),
                measures@.len() == completed.holds@.len(),
                best matches Some(at) ==> at < index,
                winner(views, fits, index as int) == match best {
                    Some(at) => Some(at as int),
                    None => None,
                },
            decreases completed.holds@.len() - index,
        {
            let candidate = &completed.holds[index];
            assert(views[index as int] == candidate@);
            let hold = self.holds[candidate.rule].hold;
            assert(rules[candidate.rule as int].hold == hold);
            let measured = &measures[index];
            let fit: bool = hold.min_duration_ms.is_at_most(&measured.duration_ms)
                && measured.distance.is_at_most(&hold.max_net_distance);
            assert(fit == fits(index as int));
            if fit {
                let preferred: bool = match best {
                    Some(at) => {
                        assert(views[at as int] == completed.holds@[at as int]@);
                        outlasting(candidate, &completed.holds[at])
                    },
                    None => true,
                };
                if preferred {
                    best = Some(index);
                }
            }
            index = index + 1;
        }
        best
    }
}

/// The candidate that wins fits, no other that fits outlasts it, and it
/// outlasts those before it; and where one fits, one wins.
pub proof fn law_the_longest_fitting_segment_wins(
    candidates: Seq<CandidateView>,
    fits: spec_fn(int) -> bool,
    count: int,
)
    requires
        0 <= count <= candidates.len(),
    ensures
        winner(candidates, fits, count) matches Some(at) ==> {
            &&& 0 <= at < count
            &&& fits(at)
            &&& forall|other: int|
                0 <= other < count && #[trigger] fits(other) ==> !crate::segments::outlasts(
                    candidates[other].samples,
                    candidates[at].samples,
                )
            &&& forall|other: int|
                0 <= other < at && #[trigger] fits(other) ==> crate::segments::outlasts(
                    candidates[at].samples,
                    candidates[other].samples,
                )
        },
        winner(candidates, fits, count) is None ==> forall|other: int|
            0 <= other < count ==> !#[trigger] fits(other),
    decreases count,
{
    if count > 0 {
        law_the_longest_fitting_segment_wins(candidates, fits, count - 1);
    }
}

/// A drag under way ends exactly when a frame ends it, and goes on otherwise.
pub proof fn law_drags_end_once(state: RecognizerView, frame: crate::touch_frame::FrameView)
    requires
        state.wf(),
        state.drag is Active,
    ensures
        state.ending(frame) is Some <==> !(state.pushed(frame).drag is Active),
        state.ending(frame) is None ==> state.pushed(frame).drag == state.drag && state.probes(
            frame,
        ).len() == 1,
{
}

/// Without a drag under way no frame gives the end of one.
pub proof fn law_only_active_drags_end(
    state: RecognizerView,
    frame: crate::touch_frame::FrameView,
)
    requires
        !(state.drag is Active),
    ensures
        state.ending(frame) is None,
        !(state.pushed(frame).drag is Active),
{
}

/// Once a drag was activated the session is its own: no frame completes a
/// session to be classified, until another one begins.
pub proof fn law_drags_claim_their_session(
    state: RecognizerView,
    frame: crate::touch_frame::FrameView,
)
    requires
        state.wf(),
        state.drag is Active || state.drag is Spent,
        !(frame.phase is Begin),
    ensures
        !state.completes(frame),
        frame.phase is Update ==> state.pushed(frame).drag is Active || state.pushed(
            frame,
        ).drag is Spent,
{
}

/// A session in which no drag was activated is classified when it ends, also
/// where a rule was armed.
pub proof fn law_unclaimed_sessions_are_classified(
    state: RecognizerView,
    frame: crate::touch_frame::FrameView,
)
    requires
        state.session.len() > 0,
        state.drag is Watching,
        frame.phase is End,
    ensures
        state.completes(frame),
        state.pushed(frame) == state.idle(),
{
}

/// A change of the finger count, of the coordinate-bearing contacts, or of
/// tracking that the rule requires to be complete, cancels a drag under way.
pub proof fn law_unstable_drags_are_cancelled(
    state: RecognizerView,
    frame: crate::touch_frame::FrameView,
)
    requires
        state.wf(),
        state.drag is Active,
        frame.phase is Update,
        ({
            let rule = state.settings.drags@[state.drag->drag.rule];
            ||| frame.fingers != rule.fingers
            ||| crate::touch_frame::located_ids(frame.contacts) != state.session.last().located
            ||| rule.require_complete_tracking && !frame.tracking_complete
        }),
    ensures
        state.ending(frame) == Some(Ending::Cancel),
        state.pushed(frame).drag is Spent,
{
}

/// A frame that begins a session while a drag is under way cancels the drag.
pub proof fn law_unexpected_sessions_cancel_drags(
    state: RecognizerView,
    frame: crate::touch_frame::FrameView,
)
    requires
        state.drag is Active,
        frame.phase is Begin,
    ensures
        state.ending(frame) == Some(Ending::Cancel),
        state.pushed(frame) == state.idle().pushed(frame),
{
}

/// A drag begins only with a rule that was armed, once the fingers moved beyond
/// its distance.
pub proof fn law_drags_begin_armed(
    rules: Seq<DragRule>,
    watches: Seq<Watch>,
    probes: Seq<DragProbe>,
    measures: Seq<DragMeasures>,
    at: int,
)
    requires
        0 <= at,
    ensures
        first_activated(rules, watches, probes, measures, at) matches Some(found) ==> {
            let rule = probes[found].rule as int;
            &&& at <= found < probes.len()
            &&& watches[rule] is Armed
            &&& rules[rule].min_drag_distance.below(measures[found].distance)
        },
    decreases probes.len() - at,
{
    if at < probes.len() {
        law_drags_begin_armed(rules, watches, probes, measures, at + 1);
    }
}

/// A rule is armed only by a hold that lasted long enough and stayed close.
pub proof fn law_rules_are_armed_by_holds(
    rule: DragRule,
    watch: Watch,
    current: Sample,
    measures: DragMeasures,
)
    requires
        !(watch is Armed),
        judged(rule, watch, current, measures) is Armed,
    ensures
        watch is Holding,
        rule.min_hold_duration_ms.at_most(measures.duration_ms),
        !rule.max_hold_distance.below(measures.distance),
{
}

/// The movement that a drag event carries.
proof fn lemma_drag_values(measures: DragMeasures)
    ensures
        drag_values(measures).contains_key("dx"@),
        drag_values(measures).contains_key("dy"@),
        drag_values(measures)["dx"@] == measures.dx,
        drag_values(measures)["dy"@] == measures.dy,
{
    reveal_strlit("dx");
    reveal_strlit("dy");
    reveal_strlit("total_dx");
    reveal_strlit("total_dy");
    reveal_strlit("distance");
    reveal_strlit("path_length");
    reveal_strlit("duration_ms");
    reveal_strlit("hold_duration_ms");
    assert("dx"@.len() == 2 && "dy"@.len() == 2 && "dx"@[1] != "dy"@[1]);
    assert("total_dx"@.len() == 8 && "total_dy"@.len() == 8 && "distance"@.len() == 8);
    assert("path_length"@.len() == 11 && "duration_ms"@.len() == 11);
    assert("hold_duration_ms"@.len() == 16);
}

/// The events of a recognized drag can be acted upon: its begin starts a pointer
/// drag of its stream, its updates go on with it, and its end or cancel releases
/// the button, provided that the measures are finite.
pub proof fn law_recognized_drags_move_the_pointer(
    pointer: crate::pointer_drag::DragStateView,
    params: crate::pointer_drag::DragParams,
    rule: DragRule,
    stream: u128,
    id: u128,
    measures: DragMeasures,
    ending: Ending,
)
    requires
        pointer.wf(),
        pointer.last_event_id != Some(id),
        measures.dx.finite(),
        measures.dy.finite(),
    ensures
        ({
            let text = crate::ids::hyphenated(stream);
            let begin = pointer.plan(drag_event(id, "begin"@, rule, text, Some(measures)), params);
            begin matches Ok(plan) && plan.next.stream == Some(text) && plan.next.button is Some
        }),
        ({
            let text = crate::ids::hyphenated(stream);
            let update = pointer.plan(drag_event(id, "update"@, rule, text, Some(measures)), params);
            pointer.stream == Some(text) && pointer.button == Some(params.button) ==> (update matches Ok(
                plan,
            ) && plan.next.stream == Some(text) && plan.movement is Some)
        }),
        ({
            let text = crate::ids::hyphenated(stream);
            let end = pointer.plan(drag_event(id, ending.phase(), rule, text, None), params);
            pointer.stream == Some(text) ==> (end matches Ok(plan) && plan.next
                == crate::pointer_drag::DragStateView::idle() && plan.commands
                == seq![
                crate::pointer_drag::PointerCommand::Button {
                    button: pointer.button->0,
                    down: false,
                },
            ])
        }),
{
    reveal_strlit("begin");
    reveal_strlit("update");
    reveal_strlit("end");
    reveal_strlit("cancel");
    reveal_strlit("dx");
    reveal_strlit("dy");
    assert("begin"@.len() == 5 && "update"@.len() == 6 && "end"@.len() == 3 && "cancel"@.len() == 6);
    assert("update"@[0] != "cancel"@[0]);
    crate::ids::law_written_identities_are_not_blank(stream);
    lemma_drag_values(measures);
}

} // verus!
