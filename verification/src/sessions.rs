//! What is recognized in a touch session, in terms of its frames and of the limits
//! of the rules.

use vstd::prelude::*;

use crate::event::EventView;
use crate::metric::Metric;
use crate::recognizer::{
    direction_of, drag_event, first_activated, hold_candidates, judged, judged_all,
    law_the_longest_fitting_segment_wins, measure_values, session_event, swipe_candidates,
    watch_after, watch_probes, winning_hold, winning_swipe, CandidateView, DragMeasures, DragProbe,
    Ending, RecognizerView, SegmentMeasures, Watch,
};
use crate::recognizer_config::{
    DragRule, HoldRecognizerConfig, HoldRuleView, RecognitionSettings, SwipeRecognizerConfig,
    SwipeRuleView,
};
use crate::segments::{best_run, Sample, Shot};
use crate::touch_frame::{located_ids, FrameView};

verus! {

/// Whether measures keep the four limits of a swipe.
pub open spec fn keeps_swipe_limits(
    limits: SwipeRecognizerConfig,
    distance: Metric,
    average_velocity: Metric,
    duration_ms: Metric,
    axis_deviation_degrees: Metric,
) -> bool {
    &&& limits.min_distance.at_most(distance)
    &&& limits.min_average_velocity.at_most(average_velocity)
    &&& duration_ms.at_most(limits.max_duration_ms)
    &&& axis_deviation_degrees.at_most(limits.max_axis_deviation_degrees)
}

/// Whether measures keep the two limits of a hold.
pub open spec fn keeps_hold_limits(
    limits: HoldRecognizerConfig,
    distance: Metric,
    duration_ms: Metric,
) -> bool {
    &&& limits.min_duration_ms.at_most(duration_ms)
    &&& distance.at_most(limits.max_net_distance)
}

/// Whether a segment may win over another that comes before it in the list: it lasts
/// longer, or as long with more samples.
pub open spec fn lasts_longer(segment: Seq<Sample>, other: Seq<Sample>) -> bool {
    let time = segment[segment.len() - 1].timestamp_micros - segment[0].timestamp_micros;
    let others = other[other.len() - 1].timestamp_micros - other[0].timestamp_micros;
    time > others || (time == others && segment.len() > other.len())
}

/// The swipe that wins keeps all four limits of its rule, a candidate that breaks any
/// one of them does not win, and none wins only where each breaks one. No candidate
/// that keeps its limits lasts longer than the winner, and of equals the first wins.
pub proof fn law_swipes_keep_their_limits(
    settings: RecognitionSettings,
    candidates: Seq<CandidateView>,
    measures: Seq<SegmentMeasures>,
    i: int,
)
    requires
        measures.len() == candidates.len(),
        0 <= i < candidates.len(),
        forall|k: int| 0 <= k < candidates.len() ==> (#[trigger] candidates[k]).samples.len() > 0,
    ensures
        ({
            let limits = settings.swipe_rules()[candidates[i].rule].swipe;
            let keeps = keeps_swipe_limits(
                limits,
                measures[i].distance,
                measures[i].average_velocity,
                measures[i].duration_ms,
                measures[i].axis_deviation_degrees,
            );
            &&& winning_swipe(settings, candidates, measures) == Some(i) ==> keeps
            &&& winning_swipe(settings, candidates, measures) is None ==> !keeps
            &&& winning_swipe(settings, candidates, measures) matches Some(at) ==> {
                &&& 0 <= at < candidates.len()
                &&& keeps ==> !lasts_longer(candidates[i].samples, candidates[at].samples)
                &&& keeps && i < at ==> lasts_longer(candidates[at].samples, candidates[i].samples)
            }
        }),
{
    let fits = crate::recognizer::fitting_swipes(settings.swipe_rules(), candidates, measures);
    law_the_longest_fitting_segment_wins(candidates, fits, candidates.len() as int);
    assert(fits(i) == crate::recognizer::is_swipe(
        settings.swipe_rules()[candidates[i].rule].swipe,
        measures[i],
    ));
}

/// The hold that wins keeps both limits of its rule, a candidate that breaks either
/// does not win, and none wins only where each breaks one. No candidate that keeps
/// its limits lasts longer than the winner, and of equals the first wins.
pub proof fn law_holds_keep_their_limits(
    settings: RecognitionSettings,
    candidates: Seq<CandidateView>,
    measures: Seq<SegmentMeasures>,
    i: int,
)
    requires
        measures.len() == candidates.len(),
        0 <= i < candidates.len(),
        forall|k: int| 0 <= k < candidates.len() ==> (#[trigger] candidates[k]).samples.len() > 0,
    ensures
        ({
            let limits = settings.hold_rules()[candidates[i].rule].hold;
            let keeps = keeps_hold_limits(limits, measures[i].distance, measures[i].duration_ms);
            &&& winning_hold(settings, candidates, measures) == Some(i) ==> keeps
            &&& winning_hold(settings, candidates, measures) is None ==> !keeps
            &&& winning_hold(settings, candidates, measures) matches Some(at) ==> {
                &&& 0 <= at < candidates.len()
                &&& keeps ==> !lasts_longer(candidates[i].samples, candidates[at].samples)
                &&& keeps && i < at ==> lasts_longer(candidates[at].samples, candidates[i].samples)
            }
        }),
{
    let fits = crate::recognizer::fitting_holds(settings.hold_rules(), candidates, measures);
    law_the_longest_fitting_segment_wins(candidates, fits, candidates.len() as int);
    assert(fits(i) == crate::recognizer::is_hold(
        settings.hold_rules()[candidates[i].rule].hold,
        measures[i],
    ));
}

proof fn lemma_value_names_differ()
    ensures
        forall|a: int, b: int|
            0 <= a < b < value_names().len() ==> #[trigger] value_names()[a]
                != #[trigger] value_names()[b],
{
    reveal_strlit("duration_ms");
    reveal_strlit("dx");
    reveal_strlit("dy");
    reveal_strlit("distance");
    reveal_strlit("path_length");
    reveal_strlit("average_velocity");
    reveal_strlit("axis_deviation_degrees");
    reveal_strlit("straightness");
    reveal_strlit("sample_points");
    reveal_strlit("total_dx");
    reveal_strlit("total_dy");
    reveal_strlit("hold_duration_ms");
    assert("duration_ms"@.len() == 11 && "path_length"@.len() == 11 && "duration_ms"@[0]
        != "path_length"@[0]);
    assert("dx"@.len() == 2 && "dy"@.len() == 2 && "dx"@[1] != "dy"@[1]);
    assert("distance"@.len() == 8 && "total_dx"@.len() == 8 && "total_dy"@.len() == 8);
    assert("distance"@[0] != "total_dx"@[0] && "distance"@[0] != "total_dy"@[0]);
    assert("total_dx"@[7] != "total_dy"@[7]);
    assert("average_velocity"@.len() == 16 && "hold_duration_ms"@.len() == 16
        && "average_velocity"@[0] != "hold_duration_ms"@[0]);
    assert("axis_deviation_degrees"@.len() == 22);
    assert("straightness"@.len() == 12);
    assert("sample_points"@.len() == 13);
}

/// The names under which events carry measures.
pub open spec fn value_names() -> Seq<Seq<char>> {
    seq![
        "duration_ms"@,
        "dx"@,
        "dy"@,
        "distance"@,
        "path_length"@,
        "average_velocity"@,
        "axis_deviation_degrees"@,
        "straightness"@,
        "sample_points"@,
        "total_dx"@,
        "total_dy"@,
        "hold_duration_ms"@,
    ]
}

/// Whether an event carries the measures of a segment, each under its name.
pub open spec fn carries_measures(event: EventView, measures: SegmentMeasures) -> bool {
    let values = event.values;
    &&& values.contains_key("duration_ms"@) && values["duration_ms"@] == measures.duration_ms
    &&& values.contains_key("dx"@) && values["dx"@] == measures.dx
    &&& values.contains_key("dy"@) && values["dy"@] == measures.dy
    &&& values.contains_key("distance"@) && values["distance"@] == measures.distance
    &&& values.contains_key("path_length"@) && values["path_length"@] == measures.path_length
    &&& values.contains_key("average_velocity"@) && values["average_velocity"@]
        == measures.average_velocity
    &&& values.contains_key("axis_deviation_degrees"@) && values["axis_deviation_degrees"@]
        == measures.axis_deviation_degrees
    &&& values.contains_key("straightness"@) && values["straightness"@] == measures.straightness
    &&& values.contains_key("sample_points"@) && values["sample_points"@] == measures.sample_points
}

proof fn lemma_measures_carried(measures: SegmentMeasures, event: EventView)
    requires
        event.values == measure_values(measures),
    ensures
        carries_measures(event, measures),
{
    lemma_value_names_differ();
    let names = value_names();
    assert(names[0] != names[1] && names[0] != names[2] && names[0] != names[3] && names[0]
        != names[4] && names[0] != names[5] && names[0] != names[6] && names[0] != names[7]
        && names[0] != names[8]);
    assert(names[1] != names[2] && names[1] != names[3] && names[1] != names[4] && names[1]
        != names[5] && names[1] != names[6] && names[1] != names[7] && names[1] != names[8]);
    assert(names[2] != names[3] && names[2] != names[4] && names[2] != names[5] && names[2]
        != names[6] && names[2] != names[7] && names[2] != names[8]);
    assert(names[3] != names[4] && names[3] != names[5] && names[3] != names[6] && names[3]
        != names[7] && names[3] != names[8]);
    assert(names[4] != names[5] && names[4] != names[6] && names[4] != names[7] && names[4]
        != names[8]);
    assert(names[5] != names[6] && names[5] != names[7] && names[5] != names[8]);
    assert(names[6] != names[7] && names[6] != names[8]);
    assert(names[7] != names[8]);
}

proof fn lemma_label_names_differ()
    ensures
        "recognizer"@ != "recognize_on"@,
        "recognizer"@ != "recognition.rule_id"@,
        "recognize_on"@ != "recognition.rule_id"@,
        "recognition.rule_id"@ != "recognition.stream_id"@,
        "touchpad.swipe"@ != "touchpad.hold"@,
{
    reveal_strlit("recognizer");
    reveal_strlit("recognize_on");
    reveal_strlit("recognition.rule_id");
    reveal_strlit("recognition.stream_id");
    reveal_strlit("touchpad.swipe");
    reveal_strlit("touchpad.hold");
    assert("recognizer"@.len() == 10);
    assert("recognize_on"@.len() == 12);
    assert("recognition.rule_id"@.len() == 19);
    assert("recognition.stream_id"@.len() == 21);
    assert("touchpad.swipe"@.len() == 14);
    assert("touchpad.hold"@.len() == 13);
}

/// A session gives a swipe event only where the measures that the event carries keep
/// all four limits of the rule that the event names, and a hold event only where they
/// keep both limits of theirs and no candidate is a swipe. It gives no event exactly
/// where every candidate breaks a limit of its rule.
pub proof fn law_events_carry_what_keeps_the_limits(
    settings: RecognitionSettings,
    swipes: Seq<CandidateView>,
    swipe_measures: Seq<SegmentMeasures>,
    holds: Seq<CandidateView>,
    hold_measures: Seq<SegmentMeasures>,
    id: u128,
) -> (at: int)
    requires
        swipe_measures.len() == swipes.len(),
        hold_measures.len() == holds.len(),
        forall|k: int| 0 <= k < swipes.len() ==> (#[trigger] swipes[k]).samples.len() > 0,
        forall|k: int| 0 <= k < holds.len() ==> (#[trigger] holds[k]).samples.len() > 0,
    ensures
        ({
            let outcome = session_event(
                settings,
                swipes,
                swipe_measures,
                holds,
                hold_measures,
                id,
            );
            let no_swipe = forall|i: int|
                0 <= i < swipes.len() ==> !keeps_swipe_limits(
                    settings.swipe_rules()[(#[trigger] swipes[i]).rule].swipe,
                    swipe_measures[i].distance,
                    swipe_measures[i].average_velocity,
                    swipe_measures[i].duration_ms,
                    swipe_measures[i].axis_deviation_degrees,
                );
            let no_hold = forall|i: int|
                0 <= i < holds.len() ==> !keeps_hold_limits(
                    settings.hold_rules()[(#[trigger] holds[i]).rule].hold,
                    hold_measures[i].distance,
                    hold_measures[i].duration_ms,
                );
            &&& outcome is None <==> no_swipe && no_hold
            &&& outcome is Some && !no_swipe ==> {
                let event = outcome->0;
                let rule = settings.swipe_rules()[swipes[at].rule];
                &&& 0 <= at < swipes.len()
                &&& event.family == "touchpad.swipe"@ && event.phase == "end"@
                &&& event.fingers == Some(rule.swipe.fingers)
                &&& event.labels.contains_key("recognition.rule_id"@)
                &&& event.labels["recognition.rule_id"@] == rule.id
                &&& event.direction == Some(direction_of(event.values["dx"@], event.values["dy"@]))
                &&& carries_measures(event, swipe_measures[at])
                &&& keeps_swipe_limits(
                    rule.swipe,
                    event.values["distance"@],
                    event.values["average_velocity"@],
                    event.values["duration_ms"@],
                    event.values["axis_deviation_degrees"@],
                )
            }
            &&& outcome is Some && no_swipe ==> {
                let event = outcome->0;
                let rule = settings.hold_rules()[holds[at].rule];
                &&& 0 <= at < holds.len()
                &&& event.family == "touchpad.hold"@ && event.phase == "end"@
                &&& event.fingers == Some(rule.hold.fingers)
                &&& event.labels.contains_key("recognition.rule_id"@)
                &&& event.labels["recognition.rule_id"@] == rule.id
                &&& event.direction is None
                &&& carries_measures(event, hold_measures[at])
                &&& keeps_hold_limits(
                    rule.hold,
                    event.values["distance"@],
                    event.values["duration_ms"@],
                )
            }
            &&& outcome matches Some(event) ==> event.id == id && event.labels.contains_key(
                "recognizer"@,
            ) && event.labels["recognizer"@] == "session-v1"@ && event.labels.contains_key(
                "recognize_on"@,
            ) && event.labels["recognize_on"@] == "touch-session-end"@
        }),
{
    lemma_label_names_differ();
    let outcome = session_event(settings, swipes, swipe_measures, holds, hold_measures, id);
    assert forall|i: int| 0 <= i < swipes.len() && winning_swipe(
        settings,
        swipes,
        swipe_measures,
    ) is None implies !keeps_swipe_limits(
        settings.swipe_rules()[(#[trigger] swipes[i]).rule].swipe,
        swipe_measures[i].distance,
        swipe_measures[i].average_velocity,
        swipe_measures[i].duration_ms,
        swipe_measures[i].axis_deviation_degrees,
    ) by {
        law_swipes_keep_their_limits(settings, swipes, swipe_measures, i);
    }
    assert forall|i: int| 0 <= i < holds.len() && winning_hold(
        settings,
        holds,
        hold_measures,
    ) is None implies !keeps_hold_limits(
        settings.hold_rules()[(#[trigger] holds[i]).rule].hold,
        hold_measures[i].distance,
        hold_measures[i].duration_ms,
    ) by {
        law_holds_keep_their_limits(settings, holds, hold_measures, i);
    }
    match winning_swipe(settings, swipes, swipe_measures) {
        Some(at) => {
            let fits = crate::recognizer::fitting_swipes(
                settings.swipe_rules(),
                swipes,
                swipe_measures,
            );
            law_the_longest_fitting_segment_wins(swipes, fits, swipes.len() as int);
            law_swipes_keep_their_limits(settings, swipes, swipe_measures, at);
            lemma_measures_carried(swipe_measures[at], outcome->0);
            assert(swipes[at].samples.len() > 0);
            at
        },
        None => match winning_hold(settings, holds, hold_measures) {
            Some(at) => {
                let fits = crate::recognizer::fitting_holds(
                    settings.hold_rules(),
                    holds,
                    hold_measures,
                );
                law_the_longest_fitting_segment_wins(holds, fits, holds.len() as int);
                law_holds_keep_their_limits(settings, holds, hold_measures, at);
                lemma_measures_carried(hold_measures[at], outcome->0);
                assert(holds[at].samples.len() > 0);
                at
            },
            None => 0,
        },
    }
}

/// How far a number is from zero.
pub open spec fn extent(metric: Metric) -> int {
    if metric.rank() < 0 {
        -metric.rank()
    } else {
        metric.rank()
    }
}

/// The direction of a displacement by two numbers is that of the axis along which it
/// goes farther, the horizontal one where it goes equally far along both, and its
/// sign says which way: to the right and down where it is not negative.
pub proof fn law_directions(dx: Metric, dy: Metric)
    requires
        !dx.not_a_number(),
        !dy.not_a_number(),
    ensures
        direction_of(dx, dy) == "right"@ <==> extent(dy) <= extent(dx) && dx.rank() >= 0,
        direction_of(dx, dy) == "left"@ <==> extent(dy) <= extent(dx) && dx.rank() < 0,
        direction_of(dx, dy) == "down"@ <==> extent(dx) < extent(dy) && dy.rank() > 0,
        direction_of(dx, dy) == "up"@ <==> extent(dx) < extent(dy) && dy.rank() < 0,
{
    reveal_strlit("right");
    reveal_strlit("left");
    reveal_strlit("down");
    reveal_strlit("up");
    assert("right"@.len() == 5 && "left"@.len() == 4 && "down"@.len() == 4 && "up"@.len() == 2);
    assert("left"@[0] != "down"@[0]);
}

/// Every candidate stands for an enabled rule and is that rule's longest segment; the
/// candidates come in the order of their rules; and each enabled rule that has a
/// segment has its candidate.
pub proof fn law_swipe_candidates(rules: Seq<SwipeRuleView>, session: Seq<Shot>)
    ensures
        ({
            let candidates = swipe_candidates(rules, session);
            &&& forall|i: int|
                0 <= i < candidates.len() ==> {
                    let rule = rules[(#[trigger] candidates[i]).rule];
                    &&& 0 <= candidates[i].rule < rules.len()
                    &&& rule.swipe.enabled
                    &&& best_run(session, rule.swipe.fingers, rule.require_complete_tracking)
                        == Some(candidates[i].samples)
                }
            &&& forall|i: int, j: int|
                0 <= i < j < candidates.len() ==> (#[trigger] candidates[i]).rule
                    < (#[trigger] candidates[j]).rule
            &&& forall|at: int|
                0 <= at < rules.len() && (#[trigger] rules[at]).swipe.enabled && best_run(
                    session,
                    rules[at].swipe.fingers,
                    rules[at].require_complete_tracking,
                ) is Some ==> exists|i: int|
                    0 <= i < candidates.len() && (#[trigger] candidates[i]).rule == at
        }),
    decreases rules.len(),
{
    if rules.len() > 0 {
        let earlier = swipe_candidates(rules.drop_last(), session);
        let candidates = swipe_candidates(rules, session);
        law_swipe_candidates(rules.drop_last(), session);
        assert forall|i: int| 0 <= i < candidates.len() implies {
            let rule = rules[(#[trigger] candidates[i]).rule];
            &&& 0 <= candidates[i].rule < rules.len()
            &&& rule.swipe.enabled
            &&& best_run(session, rule.swipe.fingers, rule.require_complete_tracking) == Some(
                candidates[i].samples,
            )
        } by {
            if i < earlier.len() {
                assert(candidates[i] == earlier[i]);
                assert(rules.drop_last()[earlier[i].rule] == rules[earlier[i].rule]);
            }
        }
        assert forall|at: int|
            0 <= at < rules.len() && (#[trigger] rules[at]).swipe.enabled && best_run(
                session,
                rules[at].swipe.fingers,
                rules[at].require_complete_tracking,
            ) is Some implies exists|i: int|
            0 <= i < candidates.len() && (#[trigger] candidates[i]).rule == at by {
            if at < rules.len() - 1 {
                assert(rules.drop_last()[at] == rules[at]);
                let i = choose|i: int| 0 <= i < earlier.len() && (#[trigger] earlier[i]).rule == at;
                assert(candidates[i].rule == at);
            } else {
                assert(candidates[candidates.len() - 1].rule == at);
            }
        }
    }
}

/// Every candidate stands for an enabled rule and is that rule's longest segment; the
/// candidates come in the order of their rules; and each enabled rule that has a
/// segment has its candidate.
pub proof fn law_hold_candidates(rules: Seq<HoldRuleView>, session: Seq<Shot>)
    ensures
        ({
            let candidates = hold_candidates(rules, session);
            &&& forall|i: int|
                0 <= i < candidates.len() ==> {
                    let rule = rules[(#[trigger] candidates[i]).rule];
                    &&& 0 <= candidates[i].rule < rules.len()
                    &&& rule.hold.enabled
                    &&& best_run(session, rule.hold.fingers, rule.require_complete_tracking)
                        == Some(candidates[i].samples)
                }
            &&& forall|i: int, j: int|
                0 <= i < j < candidates.len() ==> (#[trigger] candidates[i]).rule
                    < (#[trigger] candidates[j]).rule
            &&& forall|at: int|
                0 <= at < rules.len() && (#[trigger] rules[at]).hold.enabled && best_run(
                    session,
                    rules[at].hold.fingers,
                    rules[at].require_complete_tracking,
                ) is Some ==> exists|i: int|
                    0 <= i < candidates.len() && (#[trigger] candidates[i]).rule == at
        }),
    decreases rules.len(),
{
    if rules.len() > 0 {
        let earlier = hold_candidates(rules.drop_last(), session);
        let candidates = hold_candidates(rules, session);
        law_hold_candidates(rules.drop_last(), session);
        assert forall|i: int| 0 <= i < candidates.len() implies {
            let rule = rules[(#[trigger] candidates[i]).rule];
            &&& 0 <= candidates[i].rule < rules.len()
            &&& rule.hold.enabled
            &&& best_run(session, rule.hold.fingers, rule.require_complete_tracking) == Some(
                candidates[i].samples,
            )
        } by {
            if i < earlier.len() {
                assert(candidates[i] == earlier[i]);
                assert(rules.drop_last()[earlier[i].rule] == rules[earlier[i].rule]);
            }
        }
        assert forall|at: int|
            0 <= at < rules.len() && (#[trigger] rules[at]).hold.enabled && best_run(
                session,
                rules[at].hold.fingers,
                rules[at].require_complete_tracking,
            ) is Some implies exists|i: int|
            0 <= i < candidates.len() && (#[trigger] candidates[i]).rule == at by {
            if at < rules.len() - 1 {
                assert(rules.drop_last()[at] == rules[at]);
                let i = choose|i: int| 0 <= i < earlier.len() && (#[trigger] earlier[i]).rule == at;
                assert(candidates[i].rule == at);
            } else {
                assert(candidates[candidates.len() - 1].rule == at);
            }
        }
    }
}

/// Whether a frame shows the fingers of a drag rule: it has the rule's finger count, a
/// time and a mean position, and complete tracking where the rule asks for it.
pub open spec fn shows_fingers_of(rule: DragRule, frame: FrameView) -> bool {
    &&& frame.fingers == rule.fingers
    &&& frame.timestamp_micros is Some
    &&& frame.centroid is Some
    &&& rule.require_complete_tracking ==> frame.tracking_complete
}

/// Whether the contacts with known positions changed since the last frame.
pub open spec fn changes_contacts(state: RecognizerView, frame: FrameView) -> bool {
    state.session.len() == 0 || state.session[state.session.len() - 1].located != located_ids(
        frame.contacts,
    )
}

/// Where a frame shows the fingers, and when.
pub open spec fn is_sample_of(sample: Sample, frame: FrameView) -> bool {
    Some(sample.timestamp_micros) == frame.timestamp_micros && Some(sample.point) == frame.centroid
}

/// While no drag is under way a frame that goes on with a session sets each rule's
/// watch anew: out, where the rule is disabled or the frame does not show its fingers;
/// holding since this frame, where the watch was out or the contacts changed; and as it
/// was otherwise. The first frame of a session finds every watch out.
pub proof fn law_watches_follow_the_frames(state: RecognizerView, frame: FrameView, i: int)
    requires
        state.wf(),
        state.drag is Watching,
        !(frame.phase is End),
        state.session.len() > 0 || frame.fingers > 0,
        frame.phase is Begin ==> frame.fingers > 0,
        0 <= i < state.settings.drags@.len(),
    ensures
        ({
            let rule = state.settings.drags@[i];
            let watch = if frame.phase is Begin {
                Watch::Out
            } else {
                state.drag->watches[i]
            };
            let changed = frame.phase is Begin || changes_contacts(state, frame);
            let next = state.pushed(frame);
            &&& next.drag is Watching && next.drag->watches.len() == state.settings.drags@.len()
            &&& next.settings == state.settings
            &&& !rule.enabled || !shows_fingers_of(rule, frame) ==> next.drag->watches[i] is Out
            &&& rule.enabled && shows_fingers_of(rule, frame) && (watch is Out || changed) ==> (
            next.drag->watches[i] matches Watch::Holding { start } && is_sample_of(start, frame))
            &&& rule.enabled && shows_fingers_of(rule, frame) && !(watch is Out) && !changed
                ==> next.drag->watches[i] == watch
        }),
{
}

/// A session is the frames since the one that began it, each with its fingers, its
/// time, its mean position, its tracking and its located contacts.
pub proof fn law_sessions_keep_their_frames(state: RecognizerView, frame: FrameView)
    requires
        !(frame.phase is End),
        frame.fingers > 0 || (state.session.len() > 0 && frame.phase is Update),
    ensures
        ({
            let session = state.pushed(frame).session;
            let shot = session[session.len() - 1];
            &&& frame.phase is Begin ==> session.len() == 1
            &&& frame.phase is Update ==> session.len() == state.session.len() + 1
            &&& frame.phase is Update ==> (forall|i: int|
                0 <= i < state.session.len() ==> #[trigger] session[i] == state.session[i])
            &&& shot.fingers == frame.fingers && shot.timestamp_micros == frame.timestamp_micros
            &&& shot.centroid == frame.centroid && shot.tracking_complete == frame.tracking_complete
            &&& shot.located == located_ids(frame.contacts)
        }),
{
}

/// A frame that ends a session leaves none, and every rule's watch out.
pub proof fn law_sessions_end(state: RecognizerView, frame: FrameView)
    requires
        frame.phase is End,
        state.session.len() > 0,
    ensures
        state.pushed(frame).session.len() == 0,
        state.pushed(frame).drag is Watching,
        forall|i: int|
            0 <= i < state.settings.drags@.len() ==> #[trigger] state.pushed(frame).drag->watches[i]
                is Out,
        state.probes(frame).len() == 0,
        state.session_with(frame).len() == state.session.len() + 1,
        state.session_with(frame).take(state.session.len() as int) == state.session,
{
    assert(state.session_with(frame).take(state.session.len() as int) =~= state.session);
}

/// A drag under way is ended by a frame without fingers that ends its session,
/// cancelled by one that begins another session or does not show the rule's fingers on
/// the same contacts, and otherwise goes on.
pub proof fn law_endings(state: RecognizerView, frame: FrameView)
    requires
        state.wf(),
        state.drag is Active,
    ensures
        ({
            let rule = state.settings.drags@[state.drag->drag.rule];
            let steady = shows_fingers_of(rule, frame) && !changes_contacts(state, frame);
            &&& frame.phase is End ==> state.ending(frame) == Some(Ending::End)
            &&& frame.phase is Begin ==> state.ending(frame) == Some(Ending::Cancel)
            &&& frame.phase is Update && !steady ==> state.ending(frame) == Some(Ending::Cancel)
            &&& frame.phase is Update && steady ==> state.ending(frame) is None && state.pushed(
                frame,
            ).drag == state.drag
        }),
        Ending::End.phase() == "end"@,
        Ending::Cancel.phase() == "cancel"@,
{
}

/// Holding fingers that moved farther than a rule allows lose it; those that did not,
/// and were held long enough, arm it at the current frame; others go on holding. A rule
/// that is armed, lost or out stays so when it is measured.
pub proof fn law_holding_fingers_arm_rules(
    rule: DragRule,
    start: Sample,
    current: Sample,
    measures: DragMeasures,
    watch: Watch,
)
    ensures
        ({
            let next = judged(rule, Watch::Holding { start }, current, measures);
            let far = rule.max_hold_distance.below(measures.distance);
            let long = rule.min_hold_duration_ms.at_most(measures.duration_ms);
            &&& next == Watch::Lost <==> far
            &&& next == (Watch::Armed { start, armed: current }) <==> !far && long
            &&& next == (Watch::Holding { start }) <==> !far && !long
        }),
        !(watch is Holding) ==> judged(rule, watch, current, measures) == watch,
{
}

/// A drag begins with the first measured rule that is armed and whose fingers moved
/// farther than the distance that it asks for; where there is none, no drag begins.
pub proof fn law_the_first_armed_rule_drags(
    rules: Seq<DragRule>,
    watches: Seq<Watch>,
    probes: Seq<DragProbe>,
    measures: Seq<DragMeasures>,
    at: int,
    i: int,
)
    requires
        0 <= at <= i < probes.len(),
    ensures
        ({
            let rule = probes[i].rule as int;
            let ready = watches[rule] is Armed && rules[rule].min_drag_distance.below(
                measures[i].distance,
            );
            let found = first_activated(rules, watches, probes, measures, at);
            &&& found == Some(i) ==> ready
            &&& ready ==> found is Some && found->0 <= i
            &&& found matches Some(first) ==> at <= first < probes.len()
        }),
    decreases probes.len() - at,
{
    if at < i {
        law_the_first_armed_rule_drags(rules, watches, probes, measures, at + 1, i);
    } else if at + 1 < probes.len() {
        law_the_first_armed_rule_drags(rules, watches, probes, measures, at + 1, at + 1);
    }
}

/// Whether a probe measures a watch: a holding one from its start on, an armed one from
/// where it was armed, both up to the current frame and with no path so far.
pub open spec fn probes_watch(probe: DragProbe, watch: Watch, frame: FrameView) -> bool {
    &&& is_sample_of(probe.current, frame)
    &&& probe.path_length == Metric::zero()
    &&& match watch {
        Watch::Holding { start } => probe.start == start && probe.armed == start && probe.last
            == start,
        Watch::Armed { start, armed } => probe.start == start && probe.armed == armed && probe.last
            == armed,
        _ => false,
    }
}

proof fn lemma_watch_probes(
    rules: Seq<DragRule>,
    watches: Seq<Watch>,
    frame: FrameView,
    broken: bool,
    count: int,
    i: int,
)
    requires
        0 <= count <= watches.len(),
        watches.len() == rules.len(),
        rules.len() <= usize::MAX,
        0 <= i,
    ensures
        ({
            let shot = crate::segments::shot_of(frame);
            let probes = watch_probes(rules, watches, shot, broken, count);
            let after = watch_after(rules[i], watches[i], shot, broken);
            &&& forall|k: int| 0 <= k < probes.len() ==> (#[trigger] probes[k]).rule < count
            &&& forall|j: int, k: int|
                0 <= j < k < probes.len() ==> (#[trigger] probes[j]).rule < (
                #[trigger] probes[k]).rule
            &&& forall|k: int|
                0 <= k < probes.len() && (#[trigger] probes[k]).rule == i ==> probes_watch(
                    probes[k],
                    after,
                    frame,
                ) && after == watches[i] && !broken
            &&& i < count && !broken && after == watches[i] && (after is Holding || after is Armed)
                ==> exists|k: int| 0 <= k < probes.len() && (#[trigger] probes[k]).rule == i
        }),
    decreases count,
{
    let shot = crate::segments::shot_of(frame);
    if count > 0 {
        lemma_watch_probes(rules, watches, frame, broken, count - 1, i);
        let earlier = watch_probes(rules, watches, shot, broken, count - 1);
        let probes = watch_probes(rules, watches, shot, broken, count);
        assert forall|k: int| 0 <= k < earlier.len() implies (#[trigger] probes[k]) == earlier[k] by {}
        let after = watch_after(rules[i], watches[i], shot, broken);
        if i < count && !broken && after == watches[i] && (after is Holding || after is Armed) {
            if i < count - 1 {
                let k = choose|k: int| 0 <= k < earlier.len() && (#[trigger] earlier[k]).rule == i;
                assert(probes[k].rule == i);
            } else {
                assert(probes[probes.len() - 1].rule == i);
            }
        }
    }
}

/// While no drag is under way, a frame makes it necessary to measure exactly the rules
/// whose watch goes on over it, one by one and in order: holding fingers from where they
/// began, armed ones from where they were armed, up to the frame.
pub proof fn law_watches_are_measured(state: RecognizerView, frame: FrameView, i: int)
    requires
        state.wf(),
        state.drag is Watching,
        frame.phase is Update,
        state.session.len() > 0,
        0 <= i < state.settings.drags@.len(),
        state.settings.drags@.len() <= usize::MAX,
    ensures
        ({
            let probes = state.probes(frame);
            let rule = state.settings.drags@[i];
            let watch = state.drag->watches[i];
            let goes_on = rule.enabled && shows_fingers_of(rule, frame) && !changes_contacts(
                state,
                frame,
            ) && (watch is Holding || watch is Armed);
            &&& goes_on <==> exists|k: int|
                0 <= k < probes.len() && (#[trigger] probes[k]).rule == i
            &&& forall|k: int|
                0 <= k < probes.len() && (#[trigger] probes[k]).rule == i ==> probes_watch(
                    probes[k],
                    watch,
                    frame,
                )
            &&& forall|j: int, k: int|
                0 <= j < k < probes.len() ==> (#[trigger] probes[j]).rule < (
                #[trigger] probes[k]).rule
        }),
{
    let shot = crate::segments::shot_of(frame);
    let watches = state.drag->watches;
    lemma_watch_probes(
        state.settings.drags@,
        watches,
        frame,
        state.broken_by(shot),
        watches.len() as int,
        i,
    );
    let probes = state.probes(frame);
    let broken = state.broken_by(shot);
    assert(probes == watch_probes(
        state.settings.drags@,
        watches,
        shot,
        broken,
        watches.len() as int,
    ));
    let rule = state.settings.drags@[i];
    assert(crate::segments::counts(shot, rule.fingers, rule.require_complete_tracking)
        == shows_fingers_of(rule, frame));
    assert(broken == changes_contacts(state, frame));
    if exists|k: int| 0 <= k < probes.len() && (#[trigger] probes[k]).rule == i {
        let k = choose|k: int| 0 <= k < probes.len() && (#[trigger] probes[k]).rule == i;
        assert(probes_watch(probes[k], watches[i], frame));
    }
}

/// Each frame of a drag under way is measured once: from where the drag was last, with
/// the totals from where it was armed, and on top of the path so far. What was measured
/// is where the next frame goes on from, so the steps of a drag join up.
pub proof fn law_steps_of_a_drag_join_up(
    state: RecognizerView,
    frame: FrameView,
    measures: DragMeasures,
    stream: Seq<char>,
    next: FrameView,
)
    requires
        state.wf(),
        state.drag is Active,
        state.settings.drags@.len() <= usize::MAX,
        frame.phase is Update,
        next.phase is Update,
        state.ending(frame) is None,
        state.pushed(frame).after_measures(state.probes(frame), seq![measures], stream).ending(
            next,
        ) is None,
    ensures
        ({
            let drag = state.drag->drag;
            let probes = state.probes(frame);
            let after = state.pushed(frame).after_measures(probes, seq![measures], stream);
            let probe = probes[0];
            let later = after.probes(next)[0];
            &&& probes.len() == 1 && after.probes(next).len() == 1
            &&& is_sample_of(probe.current, frame) && is_sample_of(later.current, next)
            &&& probe.last == drag.last && later.last == probe.current
            &&& probe.start == drag.start && later.start == drag.start
            &&& probe.armed == drag.armed && later.armed == drag.armed
            &&& probe.path_length == drag.path_length && later.path_length == measures.path_length
            &&& probe.rule == drag.rule && later.rule == drag.rule
            &&& after.drag is Active && after.drag->drag.stream == drag.stream
                && after.drag->drag.rule == drag.rule
        }),
{
}

/// Where a measured probe begins a drag, the drag is of that probe's rule, has the given
/// stream, and goes on from the probe's current frame.
pub proof fn law_drags_go_on_from_their_begin(
    state: RecognizerView,
    probes: Seq<DragProbe>,
    measures: Seq<DragMeasures>,
    stream: Seq<char>,
    at: int,
)
    requires
        state.drag is Watching,
        state.activation(probes, measures) == Some(at),
        0 <= at < probes.len(),
    ensures
        ({
            let next = state.after_measures(probes, measures, stream);
            &&& next.drag is Active && next.settings == state.settings && next.session
                == state.session
            &&& next.drag->drag.rule == probes[at].rule && next.drag->drag.stream == stream
            &&& next.drag->drag.start == probes[at].start && next.drag->drag.armed
                == probes[at].armed
            &&& next.drag->drag.last == probes[at].current && next.drag->drag.path_length
                == measures[at].path_length
        }),
{
}

proof fn lemma_judged_all(
    rules: Seq<DragRule>,
    watches: Seq<Watch>,
    probes: Seq<DragProbe>,
    measures: Seq<DragMeasures>,
    count: int,
    i: int,
)
    requires
        0 <= count <= probes.len(),
        0 <= i < watches.len(),
        forall|k: int| 0 <= k < probes.len() ==> (#[trigger] probes[k]).rule < watches.len(),
        forall|j: int, k: int|
            0 <= j < k < probes.len() ==> (#[trigger] probes[j]).rule < (#[trigger] probes[k]).rule,
    ensures
        ({
            let after = judged_all(rules, watches, probes, measures, count);
            &&& after.len() == watches.len()
            &&& (forall|k: int| 0 <= k < count ==> (#[trigger] probes[k]).rule != i) ==> after[i]
                == watches[i]
            &&& forall|k: int|
                0 <= k < count && (#[trigger] probes[k]).rule == i ==> after[i] == judged(
                    rules[i],
                    watches[i],
                    probes[k].current,
                    measures[k],
                )
        }),
    decreases count,
{
    if count > 0 {
        lemma_judged_all(rules, watches, probes, measures, count - 1, i);
        let earlier = judged_all(rules, watches, probes, measures, count - 1);
        let last = probes[count - 1].rule as int;
        if last == i {
            assert forall|k: int| 0 <= k < count - 1 implies (#[trigger] probes[k]).rule != i by {
                assert(probes[k].rule < probes[count - 1].rule);
            }
            assert(earlier[i] == watches[i]);
        }
    }
}

/// Where measured probes begin no drag, each measured rule is judged by its own probe
/// and measures, and every other rule's watch stays as it is.
pub proof fn law_each_rule_is_judged_by_its_probe(
    state: RecognizerView,
    probes: Seq<DragProbe>,
    measures: Seq<DragMeasures>,
    stream: Seq<char>,
    i: int,
)
    requires
        state.wf(),
        state.drag is Watching,
        state.activation(probes, measures) is None,
        0 <= i < state.settings.drags@.len(),
        forall|k: int|
            0 <= k < probes.len() ==> (#[trigger] probes[k]).rule < state.settings.drags@.len(),
        forall|j: int, k: int|
            0 <= j < k < probes.len() ==> (#[trigger] probes[j]).rule < (#[trigger] probes[k]).rule,
    ensures
        ({
            let rule = state.settings.drags@[i];
            let watch = state.drag->watches[i];
            let next = state.after_measures(probes, measures, stream);
            &&& next.drag is Watching
            &&& (forall|k: int| 0 <= k < probes.len() ==> (#[trigger] probes[k]).rule != i)
                ==> next.drag->watches[i] == watch
            &&& forall|k: int|
                0 <= k < probes.len() && (#[trigger] probes[k]).rule == i ==> {
                    let far = rule.max_hold_distance.below(measures[k].distance);
                    let long = rule.min_hold_duration_ms.at_most(measures[k].duration_ms);
                    match watch {
                        Watch::Holding { start } => if far {
                            next.drag->watches[i] == Watch::Lost
                        } else if long {
                            next.drag->watches[i] == (Watch::Armed {
                                start,
                                armed: probes[k].current,
                            })
                        } else {
                            next.drag->watches[i] == watch
                        },
                        _ => next.drag->watches[i] == watch,
                    }
                }
        }),
{
    lemma_judged_all(
        state.settings.drags@,
        state.drag->watches,
        probes,
        measures,
        probes.len() as int,
        i,
    );
}

/// An event of a drag names its rule and its stream, has the rule's finger count and the
/// given phase, and carries each measure under its name; without measures it carries no
/// value.
pub proof fn law_drag_events_say_what_was_measured(
    id: u128,
    phase: Seq<char>,
    rule: DragRule,
    stream: Seq<char>,
    measures: DragMeasures,
)
    ensures
        ({
            let event = drag_event(id, phase, rule, stream, Some(measures));
            let values = event.values;
            &&& event.id == id && event.family == "touchpad.drag"@ && event.phase == phase
            &&& event.fingers == Some(rule.fingers) && event.direction is None
            &&& event.labels.contains_key("recognition.rule_id"@)
                && event.labels["recognition.rule_id"@] == rule.id@
            &&& event.labels.contains_key("recognition.stream_id"@)
                && event.labels["recognition.stream_id"@] == stream
            &&& values.contains_key("dx"@) && values["dx"@] == measures.dx
            &&& values.contains_key("dy"@) && values["dy"@] == measures.dy
            &&& values.contains_key("total_dx"@) && values["total_dx"@] == measures.total_dx
            &&& values.contains_key("total_dy"@) && values["total_dy"@] == measures.total_dy
            &&& values.contains_key("distance"@) && values["distance"@] == measures.distance
            &&& values.contains_key("path_length"@) && values["path_length"@]
                == measures.path_length
            &&& values.contains_key("duration_ms"@) && values["duration_ms"@]
                == measures.duration_ms
            &&& values.contains_key("hold_duration_ms"@) && values["hold_duration_ms"@]
                == measures.hold_duration_ms
        }),
        drag_event(id, phase, rule, stream, None).values.dom() == Set::<Seq<char>>::empty(),
        drag_event(id, phase, rule, stream, None).labels == drag_event(
            id,
            phase,
            rule,
            stream,
            Some(measures),
        ).labels,
        drag_event(id, phase, rule, stream, None).family == "touchpad.drag"@,
        drag_event(id, phase, rule, stream, None).phase == phase,
        drag_event(id, phase, rule, stream, None).fingers == Some(rule.fingers),
{
    lemma_label_names_differ();
    lemma_value_names_differ();
    let names = value_names();
    assert(names[1] != names[2] && names[1] != names[9] && names[1] != names[10] && names[1]
        != names[3] && names[1] != names[4] && names[0] != names[1] && names[1] != names[11]);
    assert(names[2] != names[9] && names[2] != names[10] && names[2] != names[3] && names[2]
        != names[4] && names[0] != names[2] && names[2] != names[11]);
    assert(names[9] != names[10] && names[3] != names[9] && names[4] != names[9] && names[0]
        != names[9] && names[9] != names[11]);
    assert(names[3] != names[10] && names[4] != names[10] && names[0] != names[10] && names[10]
        != names[11]);
    assert(names[3] != names[4] && names[0] != names[3] && names[3] != names[11]);
    assert(names[0] != names[4] && names[4] != names[11]);
    assert(names[0] != names[11]);
    assert(drag_event(id, phase, rule, stream, None).values.dom() =~= Set::<Seq<char>>::empty());
}

/// What measured probes give: an update of the drag under way, in its stream and with
/// what was measured; a begin where they begin a drag, with the measures of the probe
/// that began it; and nothing otherwise.
pub proof fn law_measured_frames_give_events(
    state: RecognizerView,
    probes: Seq<DragProbe>,
    measures: Seq<DragMeasures>,
    stream: Seq<char>,
    event: Option<crate::event::InputEvent>,
)
    requires
        crate::recognizer::measured_event(state, probes, measures, stream, event),
    ensures
        ({
            let begins = state.drag is Watching && state.activation(probes, measures) is Some;
            let goes_on = state.drag is Active && probes.len() > 0;
            &&& event is Some <==> begins || goes_on
            &&& goes_on ==> event->0@ == drag_event(
                event->0.id,
                "update"@,
                state.settings.drags@[state.drag->drag.rule],
                state.drag->drag.stream,
                Some(measures[0]),
            )
            &&& begins ==> {
                let at = state.activation(probes, measures)->0;
                event->0@ == drag_event(
                    event->0.id,
                    "begin"@,
                    state.settings.drags@[probes[at].rule as int],
                    stream,
                    Some(measures[at]),
                )
            }
        }),
{
}

/// Whether a stretch of frames is steady for a rule: each has the rule's finger count,
/// a time and a mean position, complete tracking where it is asked for, and the located
/// contacts of the first.
pub open spec fn steady(session: Seq<Shot>, fingers: u8, complete: bool, from: int, to: int) -> bool {
    &&& 0 <= from < to <= session.len()
    &&& forall|k: int|
        from <= k < to ==> (#[trigger] session[k]).fingers == fingers
            && session[k].timestamp_micros is Some && session[k].centroid is Some && (complete
            ==> session[k].tracking_complete) && session[k].located == session[from].located
}

/// Whether a steady stretch cannot be made longer at either end.
pub open spec fn whole(session: Seq<Shot>, fingers: u8, complete: bool, from: int, to: int) -> bool {
    &&& steady(session, fingers, complete, from, to)
    &&& !steady(session, fingers, complete, from - 1, to)
    &&& !steady(session, fingers, complete, from, to + 1)
}

/// Where and when a stretch of frames shows the fingers.
pub open spec fn samples_between(session: Seq<Shot>, from: int, to: int) -> Seq<Sample> {
    Seq::new(
        (to - from) as nat,
        |k: int|
            Sample {
                timestamp_micros: session[from + k].timestamp_micros->0,
                point: session[from + k].centroid->0,
            },
    )
}

/// Whether a stretch has at least two frames and time passes over it.
pub open spec fn time_passes(session: Seq<Shot>, from: int, to: int) -> bool {
    from + 2 <= to && session[from].timestamp_micros->0 < session[to - 1].timestamp_micros->0
}

proof fn lemma_open_stretch(session: Seq<Shot>, fingers: u8, complete: bool)
    ensures
        ({
            let run = crate::segments::open_run(session, fingers, complete);
            let from = session.len() - run.len();
            if session.len() > 0 && crate::segments::counts(session.last(), fingers, complete) {
                &&& run.len() > 0
                &&& run == samples_between(session, from, session.len() as int)
                &&& whole(session, fingers, complete, from, session.len() as int)
            } else {
                run.len() == 0
            }
        }),
    decreases session.len(),
{
    if session.len() > 0 && crate::segments::counts(session.last(), fingers, complete) {
        let run = crate::segments::open_run(session, fingers, complete);
        let from = session.len() - run.len();
        let end = session.len() as int;
        if crate::segments::goes_on(session, fingers, complete) {
            let earlier = session.drop_last();
            lemma_open_stretch(earlier, fingers, complete);
            assert(earlier.last() == session[session.len() - 2]);
            assert forall|k: int| from <= k < end implies (#[trigger] session[k]).fingers
                == fingers && session[k].timestamp_micros is Some && session[k].centroid is Some
                && (complete ==> session[k].tracking_complete) && session[k].located
                == session[from].located by {
                if k < end - 1 {
                    assert(earlier[k] == session[k]);
                } else {
                    assert(earlier[end - 2].located == earlier[from].located);
                }
            }
            assert(run =~= samples_between(session, from, end));
            if steady(session, fingers, complete, from - 1, end) {
                assert forall|k: int| from - 1 <= k < end - 1 implies (
                #[trigger] earlier[k]).fingers == fingers && earlier[k].timestamp_micros is Some
                    && earlier[k].centroid is Some && (complete ==> earlier[k].tracking_complete)
                    && earlier[k].located == earlier[from - 1].located by {
                    assert(earlier[k] == session[k]);
                }
                assert(steady(earlier, fingers, complete, from - 1, end - 1));
            }
        } else {
            assert(run =~= samples_between(session, from, end));
            if steady(session, fingers, complete, from - 1, end) {
                assert(session[end - 2].fingers == fingers);
                assert(session[end - 1].located == session[end - 2].located);
            }
        }
    }
}

proof fn lemma_one_stretch_ends_at(
    session: Seq<Shot>,
    fingers: u8,
    complete: bool,
    from: int,
    other: int,
    to: int,
)
    requires
        steady(session, fingers, complete, from, to),
        !steady(session, fingers, complete, from - 1, to),
        steady(session, fingers, complete, other, to),
        !steady(session, fingers, complete, other - 1, to),
    ensures
        from == other,
{
    if other < from {
        assert(session[from - 1].located == session[other].located);
        assert forall|k: int| from - 1 <= k < to implies (#[trigger] session[k]).fingers == fingers
            && session[k].timestamp_micros is Some && session[k].centroid is Some && (complete
            ==> session[k].tracking_complete) && session[k].located == session[from - 1].located by {}
        assert(steady(session, fingers, complete, from - 1, to));
    } else if from < other {
        assert(session[other - 1].located == session[from].located);
        assert forall|k: int| other - 1 <= k < to implies (#[trigger] session[k]).fingers
            == fingers && session[k].timestamp_micros is Some && session[k].centroid is Some && (
        complete ==> session[k].tracking_complete) && session[k].located == session[other
            - 1].located by {}
        assert(steady(session, fingers, complete, other - 1, to));
    }
}

proof fn lemma_steady_in_prefix(
    session: Seq<Shot>,
    fingers: u8,
    complete: bool,
    from: int,
    to: int,
)
    requires
        session.len() > 0,
        to < session.len(),
    ensures
        steady(session, fingers, complete, from, to) == steady(
            session.drop_last(),
            fingers,
            complete,
            from,
            to,
        ),
{
    let earlier = session.drop_last();
    if steady(session, fingers, complete, from, to) {
        assert forall|k: int| from <= k < to implies (#[trigger] earlier[k]).fingers == fingers
            && earlier[k].timestamp_micros is Some && earlier[k].centroid is Some && (complete
            ==> earlier[k].tracking_complete) && earlier[k].located == earlier[from].located by {
            assert(earlier[k] == session[k]);
        }
    }
    if steady(earlier, fingers, complete, from, to) {
        assert forall|k: int| from <= k < to implies (#[trigger] session[k]).fingers == fingers
            && session[k].timestamp_micros is Some && session[k].centroid is Some && (complete
            ==> session[k].tracking_complete) && session[k].located == session[from].located by {
            assert(earlier[k] == session[k]);
        }
    }
}

/// Whether a stretch is at best equal to a chosen one, and worse where it comes later.
pub open spec fn is_no_better(
    session: Seq<Shot>,
    from: int,
    to: int,
    chosen: Seq<Sample>,
    end: int,
) -> bool {
    let stretch = samples_between(session, from, to);
    !lasts_longer(stretch, chosen) && (to > end ==> lasts_longer(chosen, stretch))
}

/// Whether a run is the best of the whole stretches that end before a place: it is one
/// of them, ends at `end`, and none is better.
pub open spec fn is_best_before(
    session: Seq<Shot>,
    fingers: u8,
    complete: bool,
    best: Option<Seq<Sample>>,
    from: int,
    end: int,
    bound: int,
) -> bool {
    &&& best matches Some(run) ==> {
        &&& whole(session, fingers, complete, from, end)
        &&& end < bound
        &&& time_passes(session, from, end)
        &&& run == samples_between(session, from, end)
    }
    &&& forall|f: int, t: int| #[trigger]
        whole(session, fingers, complete, f, t) && t < bound && time_passes(session, f, t) ==> best
            is Some && is_no_better(session, f, t, best->0, end)
}

proof fn lemma_better_stretch(
    session: Seq<Shot>,
    fingers: u8,
    complete: bool,
    best: Option<Seq<Sample>>,
    from: int,
    end: int,
    last: int,
    bound: int,
) -> (found: (int, int))
    requires
        is_best_before(session, fingers, complete, best, from, end, bound),
        whole(session, fingers, complete, last, bound),
    ensures
        is_best_before(
            session,
            fingers,
            complete,
            crate::segments::better(best, samples_between(session, last, bound)),
            found.0,
            found.1,
            bound + 1,
        ),
{
    let run = samples_between(session, last, bound);
    let chosen = crate::segments::better(best, run);
    let kept = !crate::segments::measurable(run) || (best is Some && crate::segments::outlasts(
        best->0,
        run,
    ));
    let found = if kept {
        (from, end)
    } else {
        (last, bound)
    };
    assert(crate::segments::measurable(run) == time_passes(session, last, bound));
    assert forall|f: int, t: int| #[trigger]
        whole(session, fingers, complete, f, t) && t < bound + 1 && time_passes(
            session,
            f,
            t,
        ) implies chosen is Some && is_no_better(session, f, t, chosen->0, found.1) by {
        if t == bound {
            lemma_one_stretch_ends_at(session, fingers, complete, f, last, bound);
        } else {
            assert(is_no_better(session, f, t, best->0, end));
        }
    }
    found
}

proof fn lemma_best_closed_stretch(session: Seq<Shot>, fingers: u8, complete: bool) -> (found: (
    int,
    int,
))
    ensures
        is_best_before(
            session,
            fingers,
            complete,
            crate::segments::best_closed(session, fingers, complete),
            found.0,
            found.1,
            session.len() as int,
        ),
    decreases session.len(),
{
    if session.len() == 0 {
        (0, 0)
    } else {
        let earlier = session.drop_last();
        let end = earlier.len() as int;
        let best = crate::segments::best_closed(earlier, fingers, complete);
        let (from, to) = lemma_best_closed_stretch(earlier, fingers, complete);
        assert forall|f: int, t: int| t < end implies #[trigger] whole(
            session,
            fingers,
            complete,
            f,
            t,
        ) == whole(earlier, fingers, complete, f, t) by {
            lemma_steady_in_prefix(session, fingers, complete, f, t);
            lemma_steady_in_prefix(session, fingers, complete, f - 1, t);
            lemma_steady_in_prefix(session, fingers, complete, f, t + 1);
        }
        assert forall|f: int, t: int| #[trigger]
            whole(session, fingers, complete, f, t) && t < end && time_passes(
                session,
                f,
                t,
            ) implies best is Some && is_no_better(session, f, t, best->0, to) by {
            assert(whole(earlier, fingers, complete, f, t));
            assert(samples_between(session, f, t) =~= samples_between(earlier, f, t));
            assert(is_no_better(earlier, f, t, best->0, to));
        }
        if best is Some {
            assert(whole(session, fingers, complete, from, to));
            assert(samples_between(session, from, to) =~= samples_between(earlier, from, to));
        }
        assert(is_best_before(session, fingers, complete, best, from, to, end));
        lemma_open_stretch(earlier, fingers, complete);
        let run = crate::segments::open_run(earlier, fingers, complete);
        let last = end - run.len();
        if crate::segments::goes_on(session, fingers, complete) {
            assert forall|f: int, t: int| #[trigger]
                whole(session, fingers, complete, f, t) implies t != end by {
                if t == end {
                    assert(session[end - 1].located == session[f].located);
                    assert forall|k: int| f <= k < end + 1 implies (#[trigger] session[k]).fingers
                        == fingers && session[k].timestamp_micros is Some
                        && session[k].centroid is Some && (complete
                        ==> session[k].tracking_complete) && session[k].located
                        == session[f].located by {}
                    assert(steady(session, fingers, complete, f, t + 1));
                }
            }
            (from, to)
        } else if run.len() > 0 {
            lemma_steady_in_prefix(session, fingers, complete, last, end);
            lemma_steady_in_prefix(session, fingers, complete, last - 1, end);
            if steady(session, fingers, complete, last, end + 1) {
                assert(session[end].located == session[last].located);
                assert(session[end - 1].located == session[last].located);
            }
            assert(samples_between(session, last, end) =~= run);
            lemma_better_stretch(session, fingers, complete, best, from, to, last, end)
        } else {
            assert forall|f: int, t: int| #[trigger]
                whole(session, fingers, complete, f, t) implies t != end by {
                if t == end {
                    assert(session[end - 1] == earlier[end - 1]);
                    assert(earlier.last() == earlier[end - 1]);
                    assert(session[end - 1].fingers == fingers);
                }
            }
            (from, to)
        }
    }
}

/// The segment of a rule is a whole steady stretch of the session over which time
/// passes, each sample being where and when its frame shows the fingers. No other such
/// stretch lasts longer, or as long with more frames, and those that come later do not
/// equal it. A session without such a stretch has no segment.
pub proof fn law_segments_are_the_longest_steady_stretches(
    session: Seq<Shot>,
    fingers: u8,
    complete: bool,
) -> (found: (int, int))
    ensures
        best_run(session, fingers, complete) matches Some(run) ==> {
            &&& whole(session, fingers, complete, found.0, found.1)
            &&& time_passes(session, found.0, found.1)
            &&& run == samples_between(session, found.0, found.1)
            &&& forall|f: int, t: int| #[trigger]
                whole(session, fingers, complete, f, t) && time_passes(session, f, t)
                    ==> is_no_better(session, f, t, run, found.1)
        },
        best_run(session, fingers, complete) is None ==> forall|f: int, t: int| #[trigger]
            whole(session, fingers, complete, f, t) ==> !time_passes(session, f, t),
{
    let end = session.len() as int;
    let (from, to) = lemma_best_closed_stretch(session, fingers, complete);
    lemma_open_stretch(session, fingers, complete);
    let run = crate::segments::open_run(session, fingers, complete);
    let best = crate::segments::best_closed(session, fingers, complete);
    if run.len() > 0 {
        lemma_better_stretch(session, fingers, complete, best, from, to, end - run.len(), end)
    } else {
        assert forall|f: int, t: int| #[trigger]
            whole(session, fingers, complete, f, t) implies t < end by {
            if t == end {
                assert(session[end - 1].fingers == fingers);
            }
        }
        (from, to)
    }
}

} // verus!
