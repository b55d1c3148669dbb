use gesture_forge::codes::{
    ABS_MT_POSITION_X, ABS_MT_POSITION_Y, ABS_MT_SLOT, ABS_MT_TRACKING_ID, BTN_TOOL_DOUBLETAP,
    BTN_TOOL_FINGER, BTN_TOOL_QUADTAP, BTN_TOOL_TRIPLETAP, SYN_REPORT,
};
use gesture_forge::raw_event::RawInputEvent;
use gesture_forge::touch_frame::{
    elapsed_micros, TouchContact, TouchFramePhase, TouchFrameTracker, TouchPoint, TouchVelocity,
};

fn point(point: Option<TouchPoint>) -> Option<(f64, f64)> {
    point.map(|point| {
        let contacts = f64::from(point.contacts);
        (point.x_total as f64 / contacts, point.y_total as f64 / contacts)
    })
}

fn per_second(velocity: Option<TouchVelocity>) -> Option<(f64, f64)> {
    velocity.map(|velocity| {
        let (x, y) = point(Some(velocity.displacement)).unwrap();
        let scale = 1_000_000.0 / velocity.interval_micros as f64;
        (x * scale, y * scale)
    })
}

fn event(timestamp_micros: u128, event_type: &str, code: u16, value: i32) -> RawInputEvent {
    RawInputEvent {
        timestamp_micros: Some(timestamp_micros),
        event_type: event_type.to_owned(),
        code,
        value,
        summary: String::new(),
    }
}

fn absolute(timestamp_micros: u128, code: u16, value: i32) -> RawInputEvent {
    event(timestamp_micros, "ABSOLUTE", code, value)
}

fn key(timestamp_micros: u128, code: u16, value: i32) -> RawInputEvent {
    event(timestamp_micros, "KEY", code, value)
}

fn sync(timestamp_micros: u128) -> RawInputEvent {
    event(timestamp_micros, "SYNCHRONIZATION", SYN_REPORT, 0)
}

fn begin_contact(
    tracker: &mut TouchFrameTracker,
    timestamp_micros: u128,
    slot: i32,
    tracking_id: i32,
    x: i32,
    y: i32,
) {
    tracker.push(&absolute(timestamp_micros, ABS_MT_SLOT, slot));
    tracker.push(&absolute(timestamp_micros, ABS_MT_TRACKING_ID, tracking_id));
    tracker.push(&absolute(timestamp_micros, ABS_MT_POSITION_X, x));
    tracker.push(&absolute(timestamp_micros, ABS_MT_POSITION_Y, y));
}

#[test]
fn builds_begin_update_and_end_frames() {
    let mut tracker = TouchFrameTracker::new();
    begin_contact(&mut tracker, 1_000_000, 0, 10, 100, 200);
    tracker.push(&key(1_000_000, BTN_TOOL_FINGER, 1));

    let begin = tracker.push(&sync(1_000_000)).unwrap();
    assert_eq!(begin.phase, TouchFramePhase::Begin);
    assert_eq!(begin.fingers, 1);
    assert_eq!(point(begin.centroid), Some((100.0, 200.0)));
    assert_eq!(begin.delta, None);

    tracker.push(&absolute(1_010_000, ABS_MT_POSITION_X, 110));
    tracker.push(&absolute(1_010_000, ABS_MT_POSITION_Y, 220));
    let update = tracker.push(&sync(1_010_000)).unwrap();
    assert_eq!(update.phase, TouchFramePhase::Update);
    assert_eq!(point(update.delta), Some((10.0, 20.0)));
    assert_eq!(update.frame_interval_micros, Some(10_000));
    assert_eq!(
        per_second(update.velocity_per_second),
        Some((1_000.0, 2_000.0))
    );

    tracker.push(&absolute(1_020_000, ABS_MT_TRACKING_ID, -1));
    tracker.push(&key(1_020_000, BTN_TOOL_FINGER, 0));
    let end = tracker.push(&sync(1_020_000)).unwrap();
    assert_eq!(end.phase, TouchFramePhase::End);
    assert_eq!(end.fingers, 0);
    assert!(end.contacts.is_empty());
}

#[test]
fn tracks_multiple_protocol_b_slots() {
    let mut tracker = TouchFrameTracker::new();
    begin_contact(&mut tracker, 1_000, 0, 20, 100, 100);
    begin_contact(&mut tracker, 1_000, 1, 21, 200, 200);
    begin_contact(&mut tracker, 1_000, 2, 22, 300, 300);
    tracker.push(&key(1_000, BTN_TOOL_TRIPLETAP, 1));

    let frame = tracker.push(&sync(1_000)).unwrap();
    assert_eq!(frame.fingers, 3);
    assert_eq!(frame.tracked_contacts, 3);
    assert_eq!(frame.reported_fingers, Some(3));
    assert!(frame.tracking_complete);
    assert_eq!(frame.contacts[0].slot, 0);
    assert_eq!(frame.contacts[2].slot, 2);
    assert_eq!(point(frame.centroid), Some((200.0, 200.0)));
}

#[test]
fn tracks_four_independent_slots() {
    let mut tracker = TouchFrameTracker::new();
    begin_contact(&mut tracker, 1_000, 0, 50, 100, 100);
    begin_contact(&mut tracker, 1_000, 1, 51, 200, 100);
    begin_contact(&mut tracker, 1_000, 2, 52, 100, 200);
    begin_contact(&mut tracker, 1_000, 3, 53, 200, 200);
    tracker.push(&key(1_000, BTN_TOOL_QUADTAP, 1));

    let frame = tracker.push(&sync(1_000)).unwrap();
    assert_eq!(frame.fingers, 4);
    assert_eq!(frame.tracked_contacts, 4);
    assert!(frame.tracking_complete);
    assert_eq!(frame.contacts[3].slot, 3);
    assert_eq!(point(frame.centroid), Some((150.0, 150.0)));
}

#[test]
fn preserves_tool_count_when_hardware_tracks_fewer_contacts() {
    let mut tracker = TouchFrameTracker::new();
    begin_contact(&mut tracker, 1_000, 0, 30, 100, 100);
    begin_contact(&mut tracker, 1_000, 1, 31, 200, 200);
    tracker.push(&key(1_000, BTN_TOOL_QUADTAP, 1));

    let frame = tracker.push(&sync(1_000)).unwrap();
    assert_eq!(frame.fingers, 4);
    assert_eq!(frame.tracked_contacts, 2);
    assert_eq!(frame.reported_fingers, Some(4));
    assert!(!frame.tracking_complete);
}

#[test]
fn incomplete_coordinates_are_not_complete_tracking() {
    let mut tracker = TouchFrameTracker::new();
    tracker.push(&absolute(1_000, ABS_MT_SLOT, 0));
    tracker.push(&absolute(1_000, ABS_MT_TRACKING_ID, 60));
    tracker.push(&absolute(1_000, ABS_MT_POSITION_X, 100));
    tracker.push(&key(1_000, BTN_TOOL_FINGER, 1));

    let frame = tracker.push(&sync(1_000)).unwrap();
    assert_eq!(frame.tracked_contacts, 1);
    assert!(!frame.tracking_complete);
    assert_eq!(frame.centroid, None);
}

#[test]
fn resets_motion_when_coordinate_contact_membership_changes() {
    let mut tracker = TouchFrameTracker::new();
    begin_contact(&mut tracker, 1_000, 0, 70, 100, 100);
    tracker.push(&key(1_000, BTN_TOOL_DOUBLETAP, 1));
    tracker.push(&sync(1_000));

    tracker.push(&absolute(2_000, ABS_MT_SLOT, 1));
    tracker.push(&absolute(2_000, ABS_MT_TRACKING_ID, 71));
    tracker.push(&absolute(2_000, ABS_MT_POSITION_X, 400));
    tracker.push(&absolute(2_000, ABS_MT_POSITION_Y, 400));
    let frame = tracker.push(&sync(2_000)).unwrap();

    assert_eq!(frame.fingers, 2);
    assert!(frame.tracking_complete);
    assert_eq!(frame.delta, None);
    assert_eq!(frame.velocity_per_second, None);
}

#[test]
fn resets_motion_when_finger_count_changes() {
    let mut tracker = TouchFrameTracker::new();
    begin_contact(&mut tracker, 1_000, 0, 40, 100, 100);
    tracker.push(&key(1_000, BTN_TOOL_FINGER, 1));
    tracker.push(&sync(1_000));

    begin_contact(&mut tracker, 2_000, 1, 41, 400, 400);
    tracker.push(&key(2_000, BTN_TOOL_FINGER, 0));
    tracker.push(&key(2_000, BTN_TOOL_DOUBLETAP, 1));
    let frame = tracker.push(&sync(2_000)).unwrap();

    assert_eq!(frame.fingers, 2);
    assert_eq!(frame.delta, None);
    assert_eq!(frame.velocity_per_second, None);
}

#[test]
fn ignores_timestamp_only_reports() {
    let mut tracker = TouchFrameTracker::new();
    assert_eq!(tracker.push(&sync(1_000)), None);
}

#[test]
fn active_contacts_are_sorted_and_need_a_tracking_id() {
    let mut tracker = TouchFrameTracker::new();
    begin_contact(&mut tracker, 1_000, 4, 9, 40, 41);
    begin_contact(&mut tracker, 1_000, 2, 8, 20, 21);
    tracker.push(&absolute(1_000, ABS_MT_SLOT, 7));
    tracker.push(&absolute(1_000, ABS_MT_POSITION_X, 70));
    assert_eq!(
        tracker.active_contacts(),
        vec![
            TouchContact {
                slot: 2,
                tracking_id: 8,
                x: Some(20),
                y: Some(21)
            },
            TouchContact {
                slot: 4,
                tracking_id: 9,
                x: Some(40),
                y: Some(41)
            },
        ]
    );
}

#[test]
fn a_mean_that_is_no_whole_number_is_exact() {
    let mut tracker = TouchFrameTracker::new();
    begin_contact(&mut tracker, 1_000, 0, 1, 1, -2);
    begin_contact(&mut tracker, 1_000, 1, 2, 2, -3);
    begin_contact(&mut tracker, 1_000, 2, 3, 2, -3);
    let frame = tracker.push(&sync(1_000)).unwrap();
    assert_eq!(
        frame.centroid,
        Some(TouchPoint {
            x_total: 5,
            y_total: -8,
            contacts: 3
        })
    );
}

#[test]
fn a_report_without_news_is_silent() {
    let mut tracker = TouchFrameTracker::new();
    begin_contact(&mut tracker, 1_000, 0, 1, 1, 2);
    assert_eq!(tracker.push(&sync(1_000)).unwrap().sequence, 1);
    assert!(tracker.push(&sync(2_000)).is_none());
    tracker.push(&absolute(3_000, ABS_MT_POSITION_X, 5));
    let frame = tracker.push(&sync(3_000)).unwrap();
    assert_eq!(frame.sequence, 2);
    assert_eq!(frame.frame_interval_micros, Some(2_000));
}

#[test]
fn time_that_runs_backwards_gives_no_interval() {
    assert_eq!(elapsed_micros(Some(5), Some(3)), None);
    assert_eq!(elapsed_micros(Some(3), Some(5)), Some(2));
    assert_eq!(elapsed_micros(None, Some(5)), None);
    assert_eq!(elapsed_micros(Some(5), None), None);
    let mut tracker = TouchFrameTracker::new();
    begin_contact(&mut tracker, 5_000, 0, 1, 1, 2);
    tracker.push(&sync(5_000));
    tracker.push(&absolute(4_000, ABS_MT_POSITION_X, 5));
    let frame = tracker.push(&sync(4_000)).unwrap();
    assert_eq!(point(frame.delta), Some((4.0, 0.0)));
    assert_eq!(frame.velocity_per_second, None);
    assert_eq!(frame.frame_interval_micros, None);
}

#[test]
fn a_negative_slot_selects_nothing() {
    let mut tracker = TouchFrameTracker::new();
    tracker.push(&absolute(1, ABS_MT_SLOT, 3));
    tracker.push(&absolute(1, ABS_MT_SLOT, -1));
    tracker.push(&absolute(1, ABS_MT_TRACKING_ID, 5));
    assert_eq!(tracker.active_contacts()[0].slot, 3);
}
