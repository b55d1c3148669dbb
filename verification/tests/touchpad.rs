use std::collections::BTreeMap;

use gesture_forge::codes::{
    tool_fingers, tool_key, ABS_MT_POSITION_X, ABS_MT_POSITION_Y, ABS_MT_SLOT, ABS_MT_TRACKING_ID,
    ABS_X, ABS_Y, BTN_LEFT, BTN_TOOL_DOUBLETAP, BTN_TOOL_FINGER, BTN_TOOL_TRIPLETAP, BTN_TOUCH,
    EV_ABS, EV_KEY, SYN_REPORT,
};
use gesture_forge::output::{absolute_event, key_event, OutputError, OutputValidator};
use gesture_forge::passthrough::{missing_axis, TouchpadPassthrough};
use gesture_forge::raw_event::RawInputEvent;
use gesture_forge::router::{RouteOutcome, RoutedPacket, RoutingMode, TouchpadRouter};

fn event(timestamp_micros: u128, event_type: &str, code: u16, value: i32) -> RawInputEvent {
    RawInputEvent {
        timestamp_micros: Some(timestamp_micros),
        event_type: event_type.to_owned(),
        code,
        value,
        summary: String::new(),
    }
}

fn absolute(timestamp_micros: u128, code: u16, value: i32) -> RawInputEvent {
    event(timestamp_micros, "ABSOLUTE", code, value)
}

fn key(timestamp_micros: u128, code: u16, value: i32) -> RawInputEvent {
    event(timestamp_micros, "KEY", code, value)
}

fn sync(timestamp_micros: u128) -> RawInputEvent {
    event(timestamp_micros, "SYNCHRONIZATION", SYN_REPORT, 0)
}

fn begin_contact(
    router: &mut TouchpadRouter,
    timestamp_micros: u128,
    slot: Option<u16>,
    tracking_id: i32,
    x: i32,
    y: i32,
) {
    if let Some(slot) = slot {
        assert!(router
            .push(&absolute(timestamp_micros, ABS_MT_SLOT, i32::from(slot)))
            .is_none());
    }
    assert!(router
        .push(&absolute(timestamp_micros, ABS_MT_TRACKING_ID, tracking_id))
        .is_none());
    assert!(router
        .push(&absolute(timestamp_micros, ABS_MT_POSITION_X, x))
        .is_none());
    assert!(router
        .push(&absolute(timestamp_micros, ABS_MT_POSITION_Y, y))
        .is_none());
}

fn finish(router: &mut TouchpadRouter, timestamp_micros: u128) -> RoutedPacket {
    router.push(&sync(timestamp_micros)).unwrap()
}

fn validate_all(validator: &mut OutputValidator, packet: &RoutedPacket) {
    validator.validate(&packet.events).unwrap();
}

fn tracking_events(packet: &RoutedPacket) -> Vec<(u16, i32)> {
    let mut slot = 0;
    let mut output = Vec::new();
    for event in &packet.events {
        if event.event_type != EV_ABS {
            continue;
        }
        if event.code == ABS_MT_SLOT {
            slot = event.value as u16;
        } else if event.code == ABS_MT_TRACKING_ID {
            output.push((slot, event.value));
        }
    }
    output
}

#[test]
fn one_finger_is_synthesized_with_explicit_slot_and_virtual_tracking_id() {
    let mut router = TouchpadRouter::new();
    begin_contact(&mut router, 1_000, Some(0), 329, 100, 200);
    router.push(&key(1_000, BTN_TOOL_FINGER, 1));
    let packet = finish(&mut router, 1_000);

    assert_eq!(packet.outcome, RouteOutcome::Forwarded);
    assert_eq!(tracking_events(&packet), vec![(0, 1)]);
    assert_ne!(tracking_events(&packet)[0].1, 329);
}

#[test]
fn second_finger_waits_and_third_finger_suppresses_without_exposing_two_contacts() {
    let mut router = TouchpadRouter::new();
    let mut validator = OutputValidator::new();

    begin_contact(&mut router, 1_000, Some(0), 10, 100, 200);
    router.push(&key(1_000, BTN_TOOL_FINGER, 1));
    validate_all(&mut validator, &finish(&mut router, 1_000));

    router.push(&key(20_000, BTN_TOOL_FINGER, 0));
    begin_contact(&mut router, 20_000, Some(1), 11, 300, 400);
    router.push(&key(20_000, BTN_TOOL_DOUBLETAP, 1));
    let pending = finish(&mut router, 20_000);
    assert_eq!(pending.outcome, RouteOutcome::PendingTwo);
    assert!(tracking_events(&pending).is_empty());
    validate_all(&mut validator, &pending);

    router.push(&key(60_000, BTN_TOOL_DOUBLETAP, 0));
    begin_contact(&mut router, 60_000, Some(2), 12, 500, 600);
    router.push(&key(60_000, BTN_TOOL_TRIPLETAP, 1));
    let suppressed = finish(&mut router, 60_000);
    assert_eq!(suppressed.outcome, RouteOutcome::ReleasedAndSuppressed);
    assert_eq!(tracking_events(&suppressed), vec![(0, -1)]);
    validate_all(&mut validator, &suppressed);
    assert!(validator.active_tracking_ids.is_empty());
}

#[test]
fn two_fingers_commit_after_arbitration_window() {
    let mut router = TouchpadRouter::new();
    let mut validator = OutputValidator::new();

    begin_contact(&mut router, 1_000, Some(0), 10, 100, 200);
    router.push(&key(1_000, BTN_TOOL_FINGER, 1));
    validate_all(&mut validator, &finish(&mut router, 1_000));

    router.push(&key(10_000, BTN_TOOL_FINGER, 0));
    begin_contact(&mut router, 10_000, Some(1), 11, 300, 400);
    router.push(&key(10_000, BTN_TOOL_DOUBLETAP, 1));
    let pending = finish(&mut router, 10_000);
    assert_eq!(pending.outcome, RouteOutcome::PendingTwo);
    validate_all(&mut validator, &pending);

    router.push(&absolute(120_000, ABS_MT_SLOT, 1));
    router.push(&absolute(120_000, ABS_MT_POSITION_X, 320));
    let committed = finish(&mut router, 120_000);
    assert_eq!(committed.outcome, RouteOutcome::Forwarded);
    // Slot 0 stayed active throughout the arbitration window, so the
    // commit packet only allocates the newly accepted second contact.
    assert_eq!(tracking_events(&committed).len(), 1);
    assert_eq!(tracking_events(&committed)[0].0, 1);
    validate_all(&mut validator, &committed);
    assert_eq!(validator.active_tracking_ids.len(), 2);
}

#[test]
fn no_slot_prefix_after_synthetic_release_cannot_target_the_wrong_virtual_slot() {
    let mut router = TouchpadRouter::new();
    let mut validator = OutputValidator::new();

    begin_contact(&mut router, 1_000, Some(0), 100, 100, 100);
    router.push(&key(1_000, BTN_TOOL_FINGER, 1));
    validate_all(&mut validator, &finish(&mut router, 1_000));

    router.push(&key(2_000, BTN_TOOL_FINGER, 0));
    begin_contact(&mut router, 2_000, Some(1), 101, 200, 200);
    router.push(&key(2_000, BTN_TOOL_DOUBLETAP, 1));
    validate_all(&mut validator, &finish(&mut router, 2_000));

    router.push(&key(3_000, BTN_TOOL_DOUBLETAP, 0));
    begin_contact(&mut router, 3_000, Some(2), 102, 300, 300);
    router.push(&key(3_000, BTN_TOOL_TRIPLETAP, 1));
    validate_all(&mut validator, &finish(&mut router, 3_000));

    for slot in [2, 1, 0] {
        router.push(&absolute(4_000, ABS_MT_SLOT, slot));
        router.push(&absolute(4_000, ABS_MT_TRACKING_ID, -1));
    }
    router.push(&key(4_000, BTN_TOOL_TRIPLETAP, 0));
    validate_all(&mut validator, &finish(&mut router, 4_000));

    // The physical device retains slot 0 as its current slot and legally
    // starts the next contact without repeating ABS_MT_SLOT. The virtual
    // synthesizer must still emit an explicit slot selector.
    begin_contact(&mut router, 5_000, None, 200, 400, 400);
    router.push(&key(5_000, BTN_TOOL_FINGER, 1));
    let next = finish(&mut router, 5_000);
    assert_eq!(tracking_events(&next).len(), 1);
    assert_eq!(tracking_events(&next)[0].0, 0);
    assert_eq!(
        next.events.first().map(|event| event.code),
        Some(ABS_MT_SLOT)
    );
    validate_all(&mut validator, &next);
}

#[test]
fn replacing_an_active_physical_tracking_id_releases_before_reallocating() {
    let mut router = TouchpadRouter::new();
    let mut validator = OutputValidator::new();

    begin_contact(&mut router, 1_000, Some(0), 10, 100, 100);
    router.push(&key(1_000, BTN_TOOL_FINGER, 1));
    validate_all(&mut validator, &finish(&mut router, 1_000));

    begin_contact(&mut router, 2_000, Some(0), 20, 200, 200);
    let replacement = finish(&mut router, 2_000);
    let tracking = tracking_events(&replacement);
    assert_eq!(tracking.len(), 2);
    assert_eq!(tracking[0], (0, -1));
    assert_eq!(tracking[1].0, 0);
    assert!(tracking[1].1 > 0);
    validate_all(&mut validator, &replacement);
}

#[test]
fn suppression_continues_until_all_physical_contacts_are_lifted() {
    let mut router = TouchpadRouter::new();

    begin_contact(&mut router, 1_000, Some(0), 10, 100, 100);
    begin_contact(&mut router, 1_000, Some(1), 11, 200, 200);
    begin_contact(&mut router, 1_000, Some(2), 12, 300, 300);
    router.push(&key(1_000, BTN_TOOL_TRIPLETAP, 1));
    assert_eq!(
        finish(&mut router, 1_000).outcome,
        RouteOutcome::ReleasedAndSuppressed
    );

    router.push(&absolute(2_000, ABS_MT_SLOT, 2));
    router.push(&absolute(2_000, ABS_MT_TRACKING_ID, -1));
    router.push(&key(2_000, BTN_TOOL_TRIPLETAP, 0));
    router.push(&key(2_000, BTN_TOOL_DOUBLETAP, 1));
    assert_eq!(finish(&mut router, 2_000).outcome, RouteOutcome::Suppressed);
    assert_eq!(router.mode, RoutingMode::Suppressing);

    for slot in [1, 0] {
        router.push(&absolute(3_000, ABS_MT_SLOT, slot));
        router.push(&absolute(3_000, ABS_MT_TRACKING_ID, -1));
    }
    router.push(&key(3_000, BTN_TOOL_DOUBLETAP, 0));
    assert_eq!(finish(&mut router, 3_000).outcome, RouteOutcome::Suppressed);
    assert_eq!(router.mode, RoutingMode::Forwarding);
}

#[test]
fn output_validator_rejects_double_tracking_ids() {
    let mut validator = OutputValidator::new();
    let invalid = vec![
        absolute_event(ABS_MT_SLOT, 1),
        absolute_event(ABS_MT_TRACKING_ID, 10),
        absolute_event(ABS_MT_SLOT, 1),
        absolute_event(ABS_MT_TRACKING_ID, 11),
    ];
    let error = validator.validate(&invalid).unwrap_err().message();
    assert!(error.contains("still active"));

    let duplicate_across_slots = vec![
        absolute_event(ABS_MT_SLOT, 0),
        absolute_event(ABS_MT_TRACKING_ID, 20),
        absolute_event(ABS_MT_SLOT, 1),
        absolute_event(ABS_MT_TRACKING_ID, 20),
    ];
    let error = OutputValidator::new()
        .validate(&duplicate_across_slots)
        .unwrap_err()
        .message();
    assert!(error.contains("another slot"));
}

#[test]
fn release_packet_is_idempotent_and_valid() {
    let mut router = TouchpadRouter::new();
    let mut validator = OutputValidator::new();

    begin_contact(&mut router, 1_000, Some(0), 10, 100, 100);
    router.push(&key(1_000, BTN_TOOL_FINGER, 1));
    validate_all(&mut validator, &finish(&mut router, 1_000));

    let first = router.release_packet();
    assert!(!first.is_empty());
    validator.validate(&first).unwrap();
    assert!(router.release_packet().is_empty());
}

fn set_reported_fingers(
    router: &mut TouchpadRouter,
    timestamp_micros: u128,
    previous: usize,
    next: usize,
) {
    if previous == next {
        return;
    }
    if let Some(code) = tool_key(previous) {
        assert!(router.push(&key(timestamp_micros, code, 0)).is_none());
    }
    if let Some(code) = tool_key(next) {
        assert!(router.push(&key(timestamp_micros, code, 1)).is_none());
    }
}

#[test]
fn captured_no_slot_prefix_sequence_replays_without_double_tracking_ids() {
    let mut router = TouchpadRouter::new();
    let mut validator = OutputValidator::new();

    // Captured physical sequence: one contact begins and ends on slot 0.
    begin_contact(&mut router, 1_000, Some(0), 441, 735, 432);
    router.push(&key(1_000, BTN_TOUCH, 1));
    router.push(&key(1_000, BTN_TOOL_FINGER, 1));
    validate_all(&mut validator, &finish(&mut router, 1_000));

    router.push(&absolute(900_000, ABS_MT_TRACKING_ID, -1));
    router.push(&key(900_000, BTN_TOUCH, 0));
    router.push(&key(900_000, BTN_TOOL_FINGER, 0));
    validate_all(&mut validator, &finish(&mut router, 900_000));

    // The next physical frame legally starts slot 0 without repeating
    // ABS_MT_SLOT, then selects slot 1 for the second contact.
    begin_contact(&mut router, 1_000_000, None, 442, 700, 420);
    begin_contact(&mut router, 1_000_000, Some(1), 443, 760, 440);
    router.push(&key(1_000_000, BTN_TOUCH, 1));
    router.push(&key(1_000_000, BTN_TOOL_DOUBLETAP, 1));
    validate_all(&mut validator, &finish(&mut router, 1_000_000));

    // Commit the pending two-finger session after the arbitration window.
    router.push(&absolute(1_120_000, ABS_MT_SLOT, 1));
    router.push(&absolute(1_120_000, ABS_MT_POSITION_X, 770));
    let committed = finish(&mut router, 1_120_000);
    validate_all(&mut validator, &committed);
    assert_eq!(validator.active_tracking_ids.len(), 2);
    assert_eq!(tracking_events(&committed).len(), 2);
    assert_eq!(tracking_events(&committed)[0].0, 0);
    assert_eq!(tracking_events(&committed)[1].0, 1);

    for slot in [1, 0] {
        router.push(&absolute(1_200_000, ABS_MT_SLOT, slot));
        router.push(&absolute(1_200_000, ABS_MT_TRACKING_ID, -1));
    }
    router.push(&key(1_200_000, BTN_TOUCH, 0));
    router.push(&key(1_200_000, BTN_TOOL_DOUBLETAP, 0));
    validate_all(&mut validator, &finish(&mut router, 1_200_000));
    assert!(validator.active_tracking_ids.is_empty());
}

fn next_random(seed: &mut u64) -> u64 {
    *seed = seed
        .wrapping_mul(6_364_136_223_846_793_005)
        .wrapping_add(1_442_695_040_888_963_407);
    *seed
}

#[test]
fn deterministic_state_stress_never_emits_an_invalid_mt_stream() {
    let mut router = TouchpadRouter::new();
    let mut validator = OutputValidator::new();
    let mut active = BTreeMap::<u16, i32>::new();
    let mut current_slot = 0_u16;
    let mut next_physical_tracking_id = 1_000_i32;
    let mut reported_fingers = 0_usize;
    let mut seed = 0x6a09_e667_f3bc_c909_u64;

    for frame_index in 0..10_000_u128 {
        let timestamp_micros = 10_000 + frame_index * 7_000;
        let random = next_random(&mut seed);
        let operation = (random & 3) as u8;
        let requested_slot = ((random >> 8) % 5) as u16;
        let slot = if (random >> 16) & 1 == 0 {
            current_slot
        } else {
            requested_slot
        };
        let emit_slot = slot != current_slot || ((random >> 17) & 3 == 0);
        if emit_slot {
            assert!(router
                .push(&absolute(timestamp_micros, ABS_MT_SLOT, i32::from(slot)))
                .is_none());
            current_slot = slot;
        }

        match operation {
            0 if !active.contains_key(&slot) => {
                let tracking_id = next_physical_tracking_id;
                next_physical_tracking_id += 1;
                active.insert(slot, tracking_id);
                assert!(router
                    .push(&absolute(timestamp_micros, ABS_MT_TRACKING_ID, tracking_id,))
                    .is_none());
                assert!(router
                    .push(&absolute(
                        timestamp_micros,
                        ABS_MT_POSITION_X,
                        ((random >> 24) % 1405) as i32,
                    ))
                    .is_none());
                assert!(router
                    .push(&absolute(
                        timestamp_micros,
                        ABS_MT_POSITION_Y,
                        ((random >> 40) % 865) as i32,
                    ))
                    .is_none());
            }
            1 if active.remove(&slot).is_some() => {
                assert!(router
                    .push(&absolute(timestamp_micros, ABS_MT_TRACKING_ID, -1))
                    .is_none());
            }
            2 if active.contains_key(&slot) => {
                assert!(router
                    .push(&absolute(
                        timestamp_micros,
                        ABS_MT_POSITION_X,
                        ((random >> 24) % 1405) as i32,
                    ))
                    .is_none());
                assert!(router
                    .push(&absolute(
                        timestamp_micros,
                        ABS_MT_POSITION_Y,
                        ((random >> 40) % 865) as i32,
                    ))
                    .is_none());
            }
            3 if active.contains_key(&slot) => {
                // Deliberately replace an active physical tracking ID.
                // The virtual synthesizer must release before reallocating.
                let tracking_id = next_physical_tracking_id;
                next_physical_tracking_id += 1;
                active.insert(slot, tracking_id);
                assert!(router
                    .push(&absolute(timestamp_micros, ABS_MT_TRACKING_ID, tracking_id,))
                    .is_none());
            }
            _ => {}
        }

        let next_reported_fingers = active.len();
        set_reported_fingers(
            &mut router,
            timestamp_micros,
            reported_fingers,
            next_reported_fingers,
        );
        reported_fingers = next_reported_fingers;
        router.push(&key(
            timestamp_micros,
            BTN_TOUCH,
            i32::from(!active.is_empty()),
        ));

        let packet = finish(&mut router, timestamp_micros);
        validate_all(&mut validator, &packet);
    }

    for slot in active.keys().copied().collect::<Vec<_>>() {
        let timestamp_micros = 80_000_000 + u128::from(slot);
        router.push(&absolute(timestamp_micros, ABS_MT_SLOT, i32::from(slot)));
        router.push(&absolute(timestamp_micros, ABS_MT_TRACKING_ID, -1));
    }
    set_reported_fingers(&mut router, 80_100_000, reported_fingers, 0);
    router.push(&key(80_100_000, BTN_TOUCH, 0));
    validate_all(&mut validator, &finish(&mut router, 80_100_000));
    let release = router.release_packet();
    validator.validate(&release).unwrap();
    assert!(validator.active_tracking_ids.is_empty());
}

#[test]
fn every_refusal_of_a_virtual_frame_has_its_reason() {
    let negative = [absolute_event(ABS_MT_SLOT, -1)];
    assert_eq!(
        OutputValidator::new().validate(&negative),
        Err(OutputError::NegativeSlot)
    );
    let unselected = [absolute_event(ABS_MT_TRACKING_ID, 4)];
    assert_eq!(
        OutputValidator::new().validate(&unselected),
        Err(OutputError::TrackingWithoutSlot)
    );
    let inactive = [
        absolute_event(ABS_MT_SLOT, 3),
        absolute_event(ABS_MT_TRACKING_ID, -1),
    ];
    let error = OutputValidator::new().validate(&inactive).unwrap_err();
    assert_eq!(error, OutputError::ReleasedInactive { slot: 3 });
    assert_eq!(
        error.message(),
        "virtual slot 3 was released while already inactive"
    );
    let unplaced = [absolute_event(ABS_MT_POSITION_X, 5)];
    assert_eq!(
        OutputValidator::new().validate(&unplaced),
        Err(OutputError::UpdateWithoutSlot)
    );
    let still_active = [
        absolute_event(ABS_MT_SLOT, 1),
        absolute_event(ABS_MT_TRACKING_ID, 10),
        absolute_event(ABS_MT_TRACKING_ID, 11),
    ];
    assert_eq!(
        OutputValidator::new()
            .validate(&still_active)
            .unwrap_err()
            .message(),
        "virtual slot 1 received tracking ID 11 while tracking ID 10 was still active"
    );
}

#[test]
fn a_refused_frame_leaves_the_validator_as_it_was() {
    let mut validator = OutputValidator::new();
    let invalid = [
        absolute_event(ABS_MT_SLOT, 0),
        absolute_event(ABS_MT_TRACKING_ID, 7),
        absolute_event(ABS_MT_SLOT, -3),
    ];
    assert!(validator.validate(&invalid).is_err());
    assert!(validator.active_tracking_ids.is_empty());
}

#[test]
fn the_proxy_emits_one_finger_and_hides_three() {
    let mut proxy = TouchpadPassthrough::new();
    for event in [
        absolute(1_000, ABS_MT_SLOT, 0),
        absolute(1_000, ABS_MT_TRACKING_ID, 77),
        absolute(1_000, ABS_MT_POSITION_X, 10),
        absolute(1_000, ABS_MT_POSITION_Y, 20),
        absolute(1_000, ABS_X, 10),
        absolute(1_000, ABS_Y, 20),
        key(1_000, BTN_TOOL_FINGER, 1),
        key(1_000, BTN_LEFT, 1),
    ] {
        assert!(proxy.push(&event).unwrap().is_empty());
    }
    let shown = proxy.push(&sync(1_000)).unwrap();
    assert!(shown.contains(&absolute_event(ABS_MT_TRACKING_ID, 1)));
    assert!(shown.contains(&key_event(BTN_LEFT, 1)));
    assert!(shown.contains(&key_event(BTN_TOUCH, 1)));
    assert!(shown
        .iter()
        .all(|event| event.event_type == EV_ABS || event.event_type == EV_KEY));
    // The same state again shows nothing new.
    assert!(proxy.push(&sync(2_000)).unwrap().is_empty());

    assert!(proxy.push(&key(3_000, BTN_TOOL_FINGER, 0)).unwrap().is_empty());
    assert!(proxy.push(&key(3_000, BTN_TOOL_TRIPLETAP, 1)).unwrap().is_empty());
    let hidden = proxy.push(&sync(3_000)).unwrap();
    assert!(hidden.contains(&absolute_event(ABS_MT_TRACKING_ID, -1)));
    assert!(hidden.contains(&key_event(BTN_TOUCH, 0)));
    // Nothing is left to release.
    assert!(proxy.release_all().unwrap().is_empty());
}

#[test]
fn releases_in_between_leave_the_stream_valid() {
    let mut proxy = TouchpadPassthrough::new();
    let mut seen = Vec::new();
    for round in 0..3_u128 {
        let now = 1_000 * (round + 1);
        proxy.push(&absolute(now, ABS_MT_SLOT, 0)).unwrap();
        proxy.push(&absolute(now, ABS_MT_TRACKING_ID, 50)).unwrap();
        proxy.push(&key(now, BTN_TOOL_FINGER, 1)).unwrap();
        let shown = proxy.push(&sync(now)).unwrap();
        let begun = shown
            .iter()
            .find(|event| event.code == ABS_MT_TRACKING_ID)
            .unwrap();
        seen.push(begun.value);
        let released = proxy.release_all().unwrap();
        assert!(released.contains(&absolute_event(ABS_MT_TRACKING_ID, -1)));
        assert!(proxy.validator.active_tracking_ids.is_empty());
    }
    assert_eq!(seen, [1, 2, 3]);
}

#[test]
fn a_proxied_touchpad_needs_its_axes() {
    assert_eq!(missing_axis(&vec![0, 1, 47, 53, 54, 57]), None);
    assert_eq!(missing_axis(&vec![0, 1, 47, 54, 57]), Some(53));
    assert_eq!(missing_axis(&vec![]), Some(0));
}

#[test]
fn tool_keys_report_one_to_five_fingers() {
    for fingers in 1..=5_usize {
        let code = tool_key(fingers).unwrap();
        assert_eq!(tool_fingers(code), Some(fingers));
    }
    assert_eq!(tool_key(0), None);
    assert_eq!(tool_key(6), None);
    assert_eq!(tool_fingers(BTN_TOUCH), None);
}

#[test]
fn event_types_are_named_by_the_kernel_interface() {
    let named = |event_type: u16| {
        RawInputEvent::new(Some(5), event_type, 1, 2, String::new()).event_type
    };
    assert_eq!(named(0), "SYNCHRONIZATION");
    assert_eq!(named(1), "KEY");
    assert_eq!(named(2), "RELATIVE");
    assert_eq!(named(3), "ABSOLUTE");
    assert_eq!(named(4), "MISC");
    assert_eq!(named(5), "SWITCH");
    assert_eq!(named(0x11), "LED");
    assert_eq!(named(0x12), "SOUND");
    assert_eq!(named(0x14), "REPEAT");
    assert_eq!(named(0x15), "FORCEFEEDBACK");
    assert_eq!(named(0x16), "POWER");
    assert_eq!(named(0x17), "FORCEFEEDBACKSTATUS");
    assert_eq!(named(0x101), "UINPUT");
    assert_eq!(named(0x1f), "unknown key: 31");
}
