use gesture_forge::event::InputEvent;
use gesture_forge::metric::Metric;
use gesture_forge::pointer_drag::{DragParams, PointerDragState};
use gesture_forge::recognizer::{
    direction, DragMeasures, DragProbe, FrameStep, GestureRecognizer, GestureSessionMetrics,
    SegmentMeasures,
};
use gesture_forge::recognizer_config::{
    DragRule, DragRuleError, HoldError, HoldRecognizerConfig, HoldRule, RecognizerConfig,
    RecognizerError, SwipeError, SwipeRecognizerConfig, SwipeRule,
};
use gesture_forge::segments::Sample;
use gesture_forge::touch_frame::{TouchContact, TouchFrame, TouchFramePhase, TouchPoint};

fn metric(value: f64) -> Metric {
    Metric {
        bits: value.to_bits(),
    }
}

fn number(metric: Metric) -> f64 {
    f64::from_bits(metric.bits)
}

fn at(x: i64, y: i64) -> Option<TouchPoint> {
    Some(TouchPoint {
        x_total: x,
        y_total: y,
        contacts: 1,
    })
}

fn frame(
    sequence: u64,
    timestamp_ms: u128,
    phase: TouchFramePhase,
    fingers: u8,
    point: Option<TouchPoint>,
) -> TouchFrame {
    TouchFrame {
        sequence,
        timestamp_micros: Some(timestamp_ms * 1_000),
        phase,
        fingers,
        tracked_contacts: usize::from(fingers),
        reported_fingers: Some(fingers),
        tracking_complete: true,
        contacts: Vec::new(),
        centroid: point,
        delta: None,
        velocity_per_second: None,
        frame_interval_micros: None,
    }
}

fn place(sample: &Sample) -> (f64, f64) {
    let contacts = f64::from(sample.point.contacts);
    (
        sample.point.x_total as f64 / contacts,
        sample.point.y_total as f64 / contacts,
    )
}

fn displacement(from: &Sample, to: &Sample) -> (f64, f64) {
    let (from_x, from_y) = place(from);
    let (to_x, to_y) = place(to);
    (to_x - from_x, to_y - from_y)
}

fn milliseconds(from: &Sample, to: &Sample) -> f64 {
    (to.timestamp_micros - from.timestamp_micros) as f64 / 1_000.0
}

fn measure_segment(samples: &Vec<Sample>) -> SegmentMeasures {
    let first = &samples[0];
    let last = samples.last().unwrap();
    let mut path_length = 0.0;
    for pair in samples.windows(2) {
        let (dx, dy) = displacement(&pair[0], &pair[1]);
        path_length += dx.hypot(dy);
    }
    let duration_ms = milliseconds(first, last);
    let (dx, dy) = displacement(first, last);
    let distance = dx.hypot(dy);
    let major = dx.abs().max(dy.abs());
    let minor = dx.abs().min(dy.abs());
    let deviation = if major > 0.0 {
        minor.atan2(major).to_degrees()
    } else {
        0.0
    };
    let straightness = if path_length > 0.0 {
        distance / path_length
    } else {
        1.0
    };
    SegmentMeasures {
        duration_ms: metric(duration_ms),
        dx: metric(dx),
        dy: metric(dy),
        distance: metric(distance),
        path_length: metric(path_length),
        average_velocity: metric(path_length / (duration_ms / 1_000.0)),
        axis_deviation_degrees: metric(deviation),
        straightness: metric(straightness),
        sample_points: metric(samples.len() as f64),
    }
}

fn measure_drag(probe: &DragProbe) -> DragMeasures {
    let (dx, dy) = displacement(&probe.last, &probe.current);
    let (total_dx, total_dy) = displacement(&probe.armed, &probe.current);
    DragMeasures {
        dx: metric(dx),
        dy: metric(dy),
        total_dx: metric(total_dx),
        total_dy: metric(total_dy),
        distance: metric(total_dx.hypot(total_dy)),
        path_length: metric(number(probe.path_length) + dx.hypot(dy)),
        duration_ms: metric(milliseconds(&probe.start, &probe.current)),
        hold_duration_ms: metric(milliseconds(&probe.start, &probe.armed)),
    }
}

fn settle(recognizer: &mut GestureRecognizer, step: FrameStep) -> Vec<InputEvent> {
    let mut events = Vec::new();
    events.extend(step.ended);
    let measures: Vec<DragMeasures> = step.probes.iter().map(measure_drag).collect();
    events.extend(recognizer.measured(&step.probes, &measures));
    if let Some(completed) = step.completed {
        let swipes = completed
            .swipes
            .iter()
            .map(|candidate| measure_segment(&candidate.samples))
            .collect();
        let holds = completed
            .holds
            .iter()
            .map(|candidate| measure_segment(&candidate.samples))
            .collect();
        events.extend(recognizer.classify(&completed, &swipes, &holds));
    }
    events
}

fn push(recognizer: &mut GestureRecognizer, frame: &TouchFrame) -> Vec<InputEvent> {
    let step = recognizer.push(frame);
    settle(recognizer, step)
}

fn recognize_with(config: RecognizerConfig, points: &[(u128, i64, i64)]) -> Vec<InputEvent> {
    let mut recognizer = GestureRecognizer::new(config).unwrap();
    let mut events = push(
        &mut recognizer,
        &frame(1, 0, TouchFramePhase::Begin, 1, at(500, 700)),
    );
    for (index, (timestamp, x, y)) in points.iter().enumerate() {
        events.extend(push(
            &mut recognizer,
            &frame(
                index as u64 + 2,
                *timestamp,
                TouchFramePhase::Update,
                3,
                at(*x, *y),
            ),
        ));
    }
    events.extend(push(
        &mut recognizer,
        &frame(
            points.len() as u64 + 2,
            points.last().map_or(1_000, |point| point.0 + 10),
            TouchFramePhase::End,
            0,
            None,
        ),
    ));
    events
}

fn recognize(points: &[(u128, i64, i64)]) -> Vec<InputEvent> {
    recognize_with(RecognizerConfig::default(), points)
}

fn value(event: &InputEvent, key: &str) -> f64 {
    number(*event.values.get(key).unwrap())
}

fn label<'a>(event: &'a InputEvent, key: &str) -> Option<&'a str> {
    event.labels.get(key).map(|text| text.as_str())
}

#[test]
fn parses_partial_configuration_with_defaults() {
    let table: toml::Table = toml::from_str(
        r#"
            [recognition.three_finger_swipe]
            min_distance = 250.0
        "#,
    )
    .unwrap();
    let swipe = &table["recognition"]["three_finger_swipe"];
    let mut config = RecognizerConfig::default();
    config.recognition.swipe_table_given = true;
    config.recognition.three_finger_swipe = SwipeRecognizerConfig {
        min_distance: metric(swipe["min_distance"].as_float().unwrap()),
        ..SwipeRecognizerConfig::default()
    };

    assert_eq!(
        number(config.recognition.three_finger_swipe.min_distance),
        250.0
    );
    assert_eq!(
        number(config.recognition.three_finger_swipe.min_average_velocity),
        400.0
    );
    assert_eq!(config.recognition.three_finger_hold.fingers, 3);
    assert!(config.validate().is_ok());
}

#[test]
fn the_calibrated_thresholds_are_the_documented_ones() {
    let swipe = SwipeRecognizerConfig::default();
    assert!(swipe.enabled && swipe.fingers == 3);
    assert_eq!(number(swipe.min_distance), 200.0);
    assert_eq!(number(swipe.max_duration_ms), 900.0);
    assert_eq!(number(swipe.max_axis_deviation_degrees), 30.0);
    let hold = HoldRecognizerConfig::default();
    assert!(hold.enabled && hold.fingers == 3);
    assert_eq!(number(hold.min_duration_ms), 650.0);
    assert_eq!(number(hold.max_net_distance), 30.0);
}

#[test]
fn rejects_invalid_direction_tolerance() {
    let mut config = RecognizerConfig::default();
    config
        .recognition
        .three_finger_swipe
        .max_axis_deviation_degrees = metric(50.0);
    assert!(config.validate().is_err());
}

#[test]
fn thresholds_have_their_ranges() {
    let swipe = SwipeRecognizerConfig::default();
    let reason = |swipe: SwipeRecognizerConfig| swipe.validate().unwrap_err();
    assert_eq!(
        reason(SwipeRecognizerConfig { fingers: 0, ..swipe }),
        SwipeError::NoFingers
    );
    assert_eq!(
        reason(SwipeRecognizerConfig { min_distance: metric(-1.0), ..swipe }).message(),
        "swipe min_distance must be a finite non-negative number"
    );
    assert_eq!(
        reason(SwipeRecognizerConfig { min_average_velocity: metric(f64::NAN), ..swipe })
            .message(),
        "swipe min_average_velocity must be a finite non-negative number"
    );
    assert_eq!(
        reason(SwipeRecognizerConfig { max_duration_ms: metric(0.0), ..swipe }).message(),
        "swipe max_duration_ms must be a finite positive number"
    );
    assert_eq!(
        reason(SwipeRecognizerConfig { max_axis_deviation_degrees: metric(45.1), ..swipe })
            .message(),
        "swipe max_axis_deviation_degrees must be between 0 and 45"
    );
    let edge = SwipeRecognizerConfig {
        min_distance: metric(-0.0),
        max_axis_deviation_degrees: metric(45.0),
        ..swipe
    };
    assert!(edge.validate().is_ok());

    let hold = HoldRecognizerConfig::default();
    assert_eq!(
        HoldRecognizerConfig { fingers: 0, ..hold }.validate(),
        Err(HoldError::NoFingers)
    );
    assert_eq!(
        HoldRecognizerConfig { min_duration_ms: metric(0.0), ..hold }
            .validate()
            .unwrap_err()
            .message(),
        "hold min_duration_ms must be a finite positive number"
    );
    assert_eq!(
        HoldRecognizerConfig { max_net_distance: metric(f64::INFINITY), ..hold }
            .validate()
            .unwrap_err()
            .message(),
        "hold max_net_distance must be a finite non-negative number"
    );

    assert!(drag_rule("d").validate().is_ok());
    let broken = DragRule { fingers: 0, ..drag_rule("d") };
    assert_eq!(broken.validate(), Err(DragRuleError::NoFingers));
    let broken = DragRule { min_hold_duration_ms: metric(0.0), ..drag_rule("d") };
    assert_eq!(broken.validate(), Err(DragRuleError::MinHoldDuration));
    let broken = DragRule { max_hold_distance: metric(-1.0), ..drag_rule("d") };
    assert_eq!(broken.validate(), Err(DragRuleError::MaxHoldDistance));
    let broken = DragRule { min_drag_distance: metric(f64::NAN), ..drag_rule("d") };
    assert_eq!(broken.validate(), Err(DragRuleError::MinDragDistance));
}

fn swipe_rule(id: &str) -> SwipeRule {
    SwipeRule {
        id: id.to_owned(),
        swipe: SwipeRecognizerConfig::default(),
        require_complete_tracking: true,
    }
}

fn hold_rule(id: &str) -> HoldRule {
    HoldRule {
        id: id.to_owned(),
        hold: HoldRecognizerConfig::default(),
        require_complete_tracking: true,
    }
}

fn drag_rule(id: &str) -> DragRule {
    DragRule {
        id: id.to_owned(),
        enabled: true,
        fingers: 3,
        min_hold_duration_ms: metric(200.0),
        max_hold_distance: metric(20.0),
        min_drag_distance: metric(10.0),
        require_complete_tracking: true,
    }
}

#[test]
fn tables_and_lists_exclude_each_other_and_rules_are_told_apart() {
    let mut config = RecognizerConfig::default();
    config.recognition.swipes = Some(vec![swipe_rule("a")]);
    assert!(config.validate().is_ok());
    config.recognition.swipe_table_given = true;
    assert_eq!(
        config.validate().unwrap_err().message(),
        "recognition.three_finger_swipe cannot be combined with recognition.swipes"
    );

    let mut config = RecognizerConfig::default();
    config.recognition.holds = Some(Vec::new());
    config.recognition.hold_table_given = true;
    assert!(matches!(
        config.validate(),
        Err(RecognizerError::HoldTableAndList)
    ));

    let mut config = RecognizerConfig::default();
    config.recognition.swipes = Some(vec![swipe_rule("a")]);
    config.recognition.holds = Some(vec![hold_rule("b"), hold_rule("a")]);
    assert_eq!(
        config.validate().unwrap_err().message(),
        "duplicate recognition rule id \"a\""
    );
    config.recognition.holds = Some(vec![hold_rule("b")]);
    config.recognition.drags = vec![drag_rule("a"), drag_rule("c")];
    assert!(config.validate().is_ok());
    let recognizer = GestureRecognizer::new(config).unwrap();
    assert_eq!(recognizer.config().recognition.drags[1].id, "c");
}

#[test]
fn recognizes_three_finger_up_swipe() {
    let events = recognize(&[(100, 500, 700), (300, 505, 500), (500, 510, 300)]);
    assert_eq!(events.len(), 1);
    assert_eq!(events[0].family, "touchpad.swipe");
    assert_eq!(events[0].direction.as_deref(), Some("up"));
    assert_eq!(events[0].fingers, Some(3));
}

#[test]
fn swipes_carry_their_measures_and_their_rule() {
    let events = recognize(&[(100, 100, 100), (300, 250, 100), (500, 500, 100)]);
    let event = &events[0];
    assert_eq!(event.phase, "end");
    assert_eq!(value(event, "duration_ms"), 400.0);
    assert_eq!(value(event, "dx"), 400.0);
    assert_eq!(value(event, "dy"), 0.0);
    assert_eq!(value(event, "distance"), 400.0);
    assert_eq!(value(event, "path_length"), 400.0);
    assert_eq!(value(event, "average_velocity"), 1_000.0);
    assert_eq!(value(event, "axis_deviation_degrees"), 0.0);
    assert_eq!(value(event, "straightness"), 1.0);
    assert_eq!(value(event, "sample_points"), 3.0);
    assert_eq!(event.values.len(), 9);
    assert_eq!(label(event, "recognizer"), Some("session-v1"));
    assert_eq!(label(event, "recognize_on"), Some("touch-session-end"));
    assert_eq!(
        label(event, "recognition.rule_id"),
        Some("three-finger-swipe")
    );
}

#[test]
fn rejects_slow_move_even_when_distance_is_large() {
    let events = recognize(&[(100, 100, 100), (900, 230, 100), (1_700, 360, 100)]);
    assert!(events.is_empty());
}

#[test]
fn rejects_small_fast_move_even_when_velocity_is_high() {
    let events = recognize(&[(100, 100, 100), (250, 250, 100)]);
    assert!(events.is_empty());
}

#[test]
fn rejects_diagonal_motion_outside_axis_tolerance() {
    let events = recognize(&[(100, 100, 100), (500, 400, 400)]);
    assert!(events.is_empty());
}

#[test]
fn recognizes_stationary_three_finger_hold() {
    let events = recognize(&[(100, 500, 500), (500, 504, 497), (900, 506, 501)]);
    assert_eq!(events.len(), 1);
    assert_eq!(events[0].family, "touchpad.hold");
    assert_eq!(events[0].phase, "end");
    assert_eq!(events[0].direction, None);
    assert_eq!(
        label(&events[0], "recognition.rule_id"),
        Some("three-finger-hold")
    );
}

#[test]
fn ignores_shorter_transition_segment() {
    let mut recognizer = GestureRecognizer::new(RecognizerConfig::default()).unwrap();
    let update = TouchFramePhase::Update;
    push(
        &mut recognizer,
        &frame(1, 0, TouchFramePhase::Begin, 1, at(0, 0)),
    );
    push(&mut recognizer, &frame(2, 50, update, 3, at(0, 0)));
    push(&mut recognizer, &frame(3, 100, update, 3, at(20, 0)));
    push(&mut recognizer, &frame(4, 120, update, 2, at(20, 0)));
    push(&mut recognizer, &frame(5, 200, update, 3, at(0, 500)));
    push(&mut recognizer, &frame(6, 400, update, 3, at(250, 500)));
    let events = push(
        &mut recognizer,
        &frame(7, 420, TouchFramePhase::End, 0, None),
    );

    assert_eq!(events.len(), 1);
    assert_eq!(events[0].direction.as_deref(), Some("right"));
}

fn contact(tracking_id: i32) -> TouchContact {
    TouchContact {
        slot: 0,
        tracking_id,
        x: Some(1),
        y: Some(1),
    }
}

#[test]
fn a_change_of_contacts_breaks_a_segment() {
    let mut recognizer = GestureRecognizer::new(RecognizerConfig::default()).unwrap();
    let mut first = frame(1, 0, TouchFramePhase::Begin, 3, at(0, 0));
    first.contacts = vec![contact(1)];
    let mut second = frame(2, 200, TouchFramePhase::Update, 3, at(300, 0));
    second.contacts = vec![contact(2)];
    push(&mut recognizer, &first);
    push(&mut recognizer, &second);
    let end = frame(3, 300, TouchFramePhase::End, 0, None);
    assert!(push(&mut recognizer, &end).is_empty());

    push(&mut recognizer, &first);
    second.contacts = vec![contact(1)];
    push(&mut recognizer, &second);
    assert_eq!(push(&mut recognizer, &end).len(), 1);
}

#[test]
fn rules_may_require_complete_tracking() {
    let run = |complete: bool| {
        let mut config = RecognizerConfig::default();
        config.recognition.swipes = Some(vec![SwipeRule {
            require_complete_tracking: complete,
            ..swipe_rule("mine")
        }]);
        let mut recognizer = GestureRecognizer::new(config).unwrap();
        for (sequence, x) in [(1, 0), (2, 300)] {
            let mut partial = frame(
                sequence,
                u128::from(sequence) * 200,
                if sequence == 1 { TouchFramePhase::Begin } else { TouchFramePhase::Update },
                3,
                at(x, 0),
            );
            partial.tracking_complete = false;
            push(&mut recognizer, &partial);
        }
        push(
            &mut recognizer,
            &frame(3, 500, TouchFramePhase::End, 0, None),
        )
    };
    assert!(run(true).is_empty());
    let events = run(false);
    assert_eq!(label(&events[0], "recognition.rule_id"), Some("mine"));
}

#[test]
fn an_empty_list_turns_its_kind_off() {
    let mut config = RecognizerConfig::default();
    config.recognition.swipes = Some(Vec::new());
    let points = [(100, 500, 700), (300, 505, 500), (500, 510, 300)];
    assert!(recognize_with(config, &points).is_empty());
    let mut config = RecognizerConfig::default();
    config.recognition.three_finger_swipe.enabled = false;
    assert!(recognize_with(config, &points).is_empty());
}

#[test]
fn the_longest_fitting_segment_wins() {
    let mut config = RecognizerConfig::default();
    let mut two = swipe_rule("two");
    two.swipe.fingers = 2;
    config.recognition.swipes = Some(vec![two, swipe_rule("three")]);
    let mut recognizer = GestureRecognizer::new(config).unwrap();
    let update = TouchFramePhase::Update;
    push(
        &mut recognizer,
        &frame(1, 0, TouchFramePhase::Begin, 2, at(0, 0)),
    );
    push(&mut recognizer, &frame(2, 200, update, 2, at(300, 0)));
    push(&mut recognizer, &frame(3, 300, update, 3, at(0, 0)));
    push(&mut recognizer, &frame(4, 550, update, 3, at(0, 300)));
    let events = push(
        &mut recognizer,
        &frame(5, 600, TouchFramePhase::End, 0, None),
    );
    assert_eq!(label(&events[0], "recognition.rule_id"), Some("three"));
    assert_eq!(events[0].direction.as_deref(), Some("down"));
}

#[test]
fn directions_follow_the_nearest_axis() {
    let name = |dx: f64, dy: f64| direction(&metric(dx), &metric(dy));
    assert_eq!(name(3.0, -3.0), "right");
    assert_eq!(name(-3.0, 3.0), "left");
    assert_eq!(name(1.0, 2.0), "down");
    assert_eq!(name(1.0, -2.0), "up");
    assert_eq!(name(0.0, 0.0), "right");
    assert_eq!(name(-0.0, 0.0), "right");
    let samples = vec![
        Sample { timestamp_micros: 0, point: at(0, 0).unwrap() },
        Sample { timestamp_micros: 1_000, point: at(3, 4).unwrap() },
    ];
    let metrics = GestureSessionMetrics::new(4, 2, &measure_segment(&samples));
    assert_eq!(number(metrics.distance), 5.0);
    assert_eq!((metrics.fingers, metrics.points), (4, 2));
    assert_eq!(metrics.direction, "down");
}

fn dragging() -> GestureRecognizer {
    let mut config = RecognizerConfig::default();
    config.recognition.drags = vec![drag_rule("drag")];
    GestureRecognizer::new(config).unwrap()
}

/// Holds for 250 milliseconds, moves 11 units, and returns the event of that.
fn begin_drag(recognizer: &mut GestureRecognizer) -> InputEvent {
    let update = TouchFramePhase::Update;
    let begin = frame(1, 0, TouchFramePhase::Begin, 3, at(100, 100));
    assert!(push(recognizer, &begin).is_empty());
    assert!(push(recognizer, &frame(2, 100, update, 3, at(102, 100))).is_empty());
    assert!(push(recognizer, &frame(3, 250, update, 3, at(104, 100))).is_empty());
    assert!(push(recognizer, &frame(4, 300, update, 3, at(114, 100))).is_empty());
    let mut events = push(recognizer, &frame(5, 350, update, 3, at(115, 100)));
    assert_eq!(events.len(), 1);
    events.remove(0)
}

#[test]
fn a_drag_begins_after_a_hold_and_ends_with_the_session() {
    let mut recognizer = dragging();
    let begin = begin_drag(&mut recognizer);
    assert_eq!((begin.family.as_str(), begin.phase.as_str()), ("touchpad.drag", "begin"));
    assert_eq!(begin.fingers, Some(3));
    assert_eq!(value(&begin, "dx"), 11.0);
    assert_eq!(value(&begin, "total_dx"), 11.0);
    assert_eq!(value(&begin, "distance"), 11.0);
    assert_eq!(value(&begin, "path_length"), 11.0);
    assert_eq!(value(&begin, "duration_ms"), 350.0);
    assert_eq!(value(&begin, "hold_duration_ms"), 250.0);
    assert_eq!(label(&begin, "recognition.rule_id"), Some("drag"));
    let stream = begin.stream_id().unwrap().to_owned();
    assert_eq!(
        uuid::Uuid::parse_str(&stream).unwrap().hyphenated().to_string(),
        stream
    );

    let update = frame(6, 400, TouchFramePhase::Update, 3, at(115, 104));
    let events = push(&mut recognizer, &update);
    assert_eq!(events[0].phase, "update");
    assert_eq!(events[0].stream_id(), Some(stream.as_str()));
    assert_eq!(value(&events[0], "dx"), 0.0);
    assert_eq!(value(&events[0], "dy"), 4.0);
    assert_eq!(value(&events[0], "total_dx"), 11.0);
    assert_eq!(value(&events[0], "path_length"), 15.0);

    let events = push(
        &mut recognizer,
        &frame(7, 410, TouchFramePhase::End, 0, None),
    );
    assert_eq!(events.len(), 1);
    assert_eq!(events[0].phase, "end");
    assert_eq!(events[0].stream_id(), Some(stream.as_str()));
    assert_eq!(events[0].values.len(), 0);
    let next = begin_drag(&mut recognizer);
    assert_ne!(next.stream_id(), Some(stream.as_str()));
}

#[test]
fn a_recognized_drag_moves_the_pointer() {
    let mut recognizer = dragging();
    let begin = begin_drag(&mut recognizer);
    let params = DragParams::default();
    let plan = PointerDragState::default().plan(&begin, &params).unwrap();
    assert_eq!(plan.movement.unwrap().dx, metric(11.0));
    let state = plan.finish(11, metric(0.0), 0, metric(0.0)).next_state;
    assert_eq!(state.active_stream_id.as_deref(), begin.stream_id());
    let end = recognizer.cancel().unwrap();
    let plan = state.plan(&end, &params).unwrap();
    assert_eq!(plan.commands.len(), 1);
    assert!(plan.next_state.active_button.is_none());
}

#[test]
fn a_drag_that_begins_takes_the_stream_that_it_is_given() {
    let mut recognizer = dragging();
    let update = TouchFramePhase::Update;
    push(
        &mut recognizer,
        &frame(1, 0, TouchFramePhase::Begin, 3, at(100, 100)),
    );
    push(&mut recognizer, &frame(2, 250, update, 3, at(100, 100)));
    let step = recognizer.push(&frame(3, 300, update, 3, at(120, 100)));
    let measures: Vec<DragMeasures> = step.probes.iter().map(measure_drag).collect();
    let begin = recognizer
        .measured_in(&step.probes, &measures, "mine".to_owned())
        .unwrap();
    assert_eq!(begin.phase, "begin");
    assert_eq!(begin.stream_id(), Some("mine"));
    let step = recognizer.push(&frame(4, 350, update, 3, at(130, 100)));
    let measures: Vec<DragMeasures> = step.probes.iter().map(measure_drag).collect();
    let update = recognizer
        .measured_in(&step.probes, &measures, "other".to_owned())
        .unwrap();
    assert_eq!(update.phase, "update");
    assert_eq!(update.stream_id(), Some("mine"));
    assert_eq!(recognizer.cancel().unwrap().stream_id(), Some("mine"));
}

#[test]
fn identities_and_streams_are_random_uuids() {
    let mut recognizer = dragging();
    let begin = begin_drag(&mut recognizer);
    let stream = uuid::Uuid::parse_str(begin.stream_id().unwrap()).unwrap();
    let cancel = recognizer.cancel().unwrap();
    let swipe = recognize(&[(100, 500, 700), (500, 510, 300)]).remove(0);
    for id in [
        stream,
        uuid::Uuid::from_u128(begin.id),
        uuid::Uuid::from_u128(cancel.id),
        uuid::Uuid::from_u128(swipe.id),
    ] {
        assert_eq!(id.get_version_num(), 4);
        assert_eq!(id.get_variant(), uuid::Variant::RFC4122);
    }
    assert_ne!(begin.id, cancel.id);
}

#[test]
fn configurations_can_be_copied() {
    let mut config = RecognizerConfig::default();
    config.recognition.swipes = Some(vec![swipe_rule("a")]);
    config.recognition.drags = vec![drag_rule("b")];
    let copy = config.clone();
    assert_eq!(copy.recognition.swipes.unwrap()[0].id, "a");
    assert_eq!(copy.recognition.drags[0].id, "b");
    assert_eq!(
        copy.recognition.drags[0].min_drag_distance,
        config.recognition.drags[0].min_drag_distance
    );
}

#[test]
fn an_unstable_drag_is_cancelled_and_claims_its_session() {
    let mut recognizer = dragging();
    let begin = begin_drag(&mut recognizer);
    let events = push(
        &mut recognizer,
        &frame(6, 400, TouchFramePhase::Update, 2, at(115, 100)),
    );
    assert_eq!(events.len(), 1);
    assert_eq!(events[0].phase, "cancel");
    assert_eq!(events[0].stream_id(), begin.stream_id());
    for x in [200, 900] {
        let more = frame(7, 400 + x as u128, TouchFramePhase::Update, 3, at(x, 100));
        assert!(push(&mut recognizer, &more).is_empty());
    }
    let end = frame(9, 2_000, TouchFramePhase::End, 0, None);
    assert!(push(&mut recognizer, &end).is_empty());
}

#[test]
fn a_drag_is_cancelled_on_request_or_by_another_session() {
    let mut recognizer = dragging();
    let begin = begin_drag(&mut recognizer);
    let cancelled = recognizer.cancel().unwrap();
    assert_eq!(cancelled.phase, "cancel");
    assert_eq!(cancelled.stream_id(), begin.stream_id());
    assert!(recognizer.cancel().is_none());

    let begin = begin_drag(&mut recognizer);
    let events = push(
        &mut recognizer,
        &frame(1, 900, TouchFramePhase::Begin, 1, at(0, 0)),
    );
    assert_eq!(events[0].phase, "cancel");
    assert_eq!(events[0].stream_id(), begin.stream_id());
}

#[test]
fn a_hold_that_moves_too_far_arms_nothing() {
    let mut recognizer = dragging();
    let update = TouchFramePhase::Update;
    push(
        &mut recognizer,
        &frame(1, 0, TouchFramePhase::Begin, 3, at(100, 100)),
    );
    for (timestamp, x) in [(100, 121), (300, 100), (500, 100), (600, 200)] {
        let next = frame(2, timestamp, update, 3, at(x, 100));
        assert!(push(&mut recognizer, &next).is_empty());
    }
}

#[test]
fn an_armed_session_without_a_drag_is_classified() {
    let mut recognizer = dragging();
    let update = TouchFramePhase::Update;
    push(
        &mut recognizer,
        &frame(1, 0, TouchFramePhase::Begin, 3, at(100, 100)),
    );
    for timestamp in [300, 700] {
        let still = frame(2, timestamp, update, 3, at(101, 100));
        assert!(push(&mut recognizer, &still).is_empty());
    }
    let events = push(
        &mut recognizer,
        &frame(3, 800, TouchFramePhase::End, 0, None),
    );
    assert_eq!(events[0].family, "touchpad.hold");
}

#[test]
fn frames_without_fingers_begin_no_session() {
    let mut recognizer = dragging();
    let step = recognizer.push(&frame(1, 0, TouchFramePhase::End, 0, None));
    assert!(step.ended.is_none() && step.completed.is_none() && step.probes.is_empty());
}
