use std::collections::BTreeMap;

use gesture_forge::codes::{
    event_kind, highest_tool_down, EventKind, ABS_MT_POSITION_X, ABS_MT_POSITION_Y, ABS_MT_SLOT,
    ABS_MT_TOOL_TYPE, ABS_MT_TRACKING_ID, BTN_LEFT, BTN_MIDDLE, BTN_RIGHT, BTN_TOOL_TRIPLETAP,
    BTN_TOUCH, EV_ABS, EV_KEY,
};
use gesture_forge::conditions::{core_condition, CoreCondition};
use gesture_forge::config::{validate_identifier, Identifier};
use gesture_forge::event::InputEvent;
use gesture_forge::metric::Metric;
use gesture_forge::output::VirtualEvent;
use gesture_forge::physical::{PhysicalContact, PhysicalSnapshot, PhysicalState};
use gesture_forge::pointer_drag::{command_events, MouseButton, PointerCommand};
use gesture_forge::raw_event::RawInputEvent;
use gesture_forge::recognizer_config::RecognitionSettings;
use gesture_forge::router::{RouteOutcome, TouchpadRouter};
use gesture_forge::segments::{best_segment, session_frame};
use gesture_forge::slots::sorted_slots;
use gesture_forge::synthesizer::VirtualSynthesizer;
use gesture_forge::text::{
    after_prefix, append, before_suffix, characters, lower_character, same_text, text_between,
    to_lowercase, upper_character,
};
use gesture_forge::touch_frame::{
    coordinate_contact_ids, same_contacts, TouchContact, TouchFrame, TouchFramePhase,
    TouchFrameTracker, TouchPoint,
};

#[test]
fn texts_are_taken_apart_and_put_together() {
    let mut text = "tou".to_owned();
    append(&mut text, "ché");
    assert_eq!(text, "touché");
    assert!(same_text(&text, "touché") && !same_text(&text, "touche"));
    let chars = characters("touché");
    assert_eq!(text_between(&chars, 3, 6), "ché");
    assert_eq!(text_between(&chars, 2, 2), "");
    assert_eq!(after_prefix("PPid:\t3", "PPid:").as_deref(), Some("\t3"));
    assert_eq!(after_prefix("PPi", "PPid:"), None);
    assert_eq!(before_suffix("touchpad.*", ".*").as_deref(), Some("touchpad"));
    assert_eq!(before_suffix("touchpad", ".*"), None);
    assert_eq!(to_lowercase("ÄBC-Ünd"), "ÄBC-Ünd".to_ascii_lowercase());
    for character in ['a', 'Z', '@', '[', '`', '{', 'é'] {
        assert_eq!(lower_character(character), character.to_ascii_lowercase());
        assert_eq!(upper_character(character), character.to_ascii_uppercase());
    }
}

#[test]
fn identifiers_are_plain_names() {
    assert!(validate_identifier(Identifier::ActionName, "key-chord_2.x").is_ok());
    let refused = validate_identifier(Identifier::ConditionProvider, "é");
    assert_eq!(
        refused.unwrap_err().message(),
        "condition provider contains unsupported characters: \"é\""
    );
    let refused = validate_identifier(Identifier::ActionProvider, "\t");
    assert_eq!(
        refused.unwrap_err().message(),
        "action provider must not be empty"
    );
    assert!(validate_identifier(Identifier::ConditionName, " a").is_err());
}

#[test]
fn conditions_have_names() {
    assert!(matches!(core_condition("app-id"), Some(CoreCondition::AppId)));
    assert!(matches!(core_condition("always"), Some(CoreCondition::Always)));
    assert!(core_condition("App-Id").is_none());
}

#[test]
fn labels_and_values_are_set_by_key() {
    let mut event = InputEvent::new("a", "b");
    event.set_label("k", "v");
    event.set_label("k", "w");
    event.set_value("x", Metric { bits: 7 });
    assert_eq!(event.labels.get("k").map(String::as_str), Some("w"));
    assert_eq!(event.values.get("x"), Some(&Metric { bits: 7 }));
    assert_eq!(event.stream_id(), None);
}

#[test]
fn kinds_of_events_go_by_name() {
    assert!(matches!(event_kind("KEY"), EventKind::Key));
    assert!(matches!(event_kind("ABSOLUTE"), EventKind::Absolute));
    assert!(matches!(event_kind("SYNCHRONIZATION"), EventKind::Synchronization));
    assert!(matches!(event_kind("key"), EventKind::Other));
    assert_eq!(highest_tool_down(&[true, false, true, true, false, false]), 3);
    assert_eq!(highest_tool_down(&[true, false, false, false, false, false]), 0);
}

#[test]
fn slots_are_walked_in_ascending_order() {
    let map: BTreeMap<u16, char> = [(9, 'a'), (0, 'b'), (4, 'c')].into_iter().collect();
    assert_eq!(sorted_slots(&map), [0, 4, 9]);
}

fn raw(event_type: u16, code: u16, value: i32) -> RawInputEvent {
    RawInputEvent::new(Some(1), event_type, code, value, String::new())
}

#[test]
fn the_physical_state_follows_the_kernel() {
    let mut state = PhysicalState::new();
    state.apply(&raw(EV_ABS, ABS_MT_POSITION_X, 5));
    assert!(state.snapshot().contacts.is_empty());
    for event in [
        raw(EV_ABS, ABS_MT_SLOT, 2),
        raw(EV_ABS, ABS_MT_TRACKING_ID, 40),
        raw(EV_ABS, ABS_MT_POSITION_X, 6),
        raw(EV_KEY, BTN_TOOL_TRIPLETAP, 1),
        raw(EV_KEY, BTN_LEFT, 1),
    ] {
        state.apply(&event);
    }
    let snapshot = state.snapshot();
    assert_eq!(
        snapshot.contacts.get(&2),
        Some(&PhysicalContact { tracking_id: 40, x: Some(6), y: None, tool_type: None })
    );
    assert!(snapshot.button_down);
    assert_eq!(snapshot.fingers(), 3);
    state.apply(&raw(EV_ABS, ABS_MT_TRACKING_ID, -1));
    assert!(state.snapshot().contacts.is_empty());
}

#[test]
fn a_snapshot_that_is_shown_calls_for_nothing_more() {
    let mut snapshot = PhysicalSnapshot::empty();
    snapshot.contacts.insert(
        1,
        PhysicalContact { tracking_id: 8, x: Some(3), y: Some(4), tool_type: None },
    );
    snapshot.reported_fingers = 1;
    let mut synthesizer = VirtualSynthesizer::new();
    let pending = synthesizer.pending_snapshot(&snapshot);
    assert!(pending.contacts.is_empty());
    let events = synthesizer.synthesize(&snapshot);
    assert_eq!((events[0].code, events[0].value), (ABS_MT_SLOT, 1));
    assert_eq!((events[1].code, events[1].value), (ABS_MT_TRACKING_ID, 1));
    assert!(synthesizer.synthesize(&snapshot).is_empty());
    assert_eq!(synthesizer.pending_snapshot(&snapshot).contacts.len(), 1);
}

#[test]
fn buttons_have_their_codes() {
    for (button, code) in [
        (MouseButton::Left, BTN_LEFT),
        (MouseButton::Middle, BTN_MIDDLE),
        (MouseButton::Right, BTN_RIGHT),
    ] {
        assert_eq!(button.key_code(), code);
        let events = command_events(&PointerCommand::Button { button, down: true });
        assert_eq!((events[0].code, events[0].value), (code, 1));
    }
    assert_eq!(BTN_LEFT, evdev::KeyCode::BTN_LEFT.code());
    assert_eq!(BTN_MIDDLE, evdev::KeyCode::BTN_MIDDLE.code());
    assert_eq!(BTN_RIGHT, evdev::KeyCode::BTN_RIGHT.code());
}

#[test]
fn three_finger_rules_stand_in_for_lists() {
    let mut settings = RecognitionSettings::default();
    let swipes = settings.effective_swipes();
    assert_eq!(swipes[0].id, "three-finger-swipe");
    assert!(swipes[0].require_complete_tracking);
    assert_eq!(settings.effective_holds()[0].id, "three-finger-hold");
    assert!(!settings.effective_holds()[0].require_complete_tracking);
    settings.swipe_table_given = true;
    assert!(!settings.effective_swipes()[0].require_complete_tracking);
    settings.swipes = Some(Vec::new());
    assert!(settings.effective_swipes().is_empty());
}

fn contact(slot: u16, tracking_id: i32, located: bool) -> TouchContact {
    TouchContact {
        slot,
        tracking_id,
        x: Some(1),
        y: if located { Some(2) } else { None },
    }
}

#[test]
fn contacts_with_coordinates_are_told_by_slot_and_identity() {
    let contacts = vec![contact(0, 5, true), contact(1, 6, false), contact(2, 7, true)];
    let ids = coordinate_contact_ids(&contacts);
    assert_eq!(ids, [(0, 5), (2, 7)]);
    assert!(same_contacts(&ids, &vec![(0, 5), (2, 7)]));
    assert!(!same_contacts(&ids, &vec![(0, 5), (2, 8)]));
    assert!(!same_contacts(&ids, &vec![(0, 5)]));
}

#[test]
fn of_equal_segments_the_later_is_taken() {
    let shot = |timestamp_micros: u128, fingers: u8, x: i64| {
        session_frame(&TouchFrame {
            sequence: 1,
            timestamp_micros: Some(timestamp_micros),
            phase: TouchFramePhase::Update,
            fingers,
            tracked_contacts: 1,
            reported_fingers: None,
            tracking_complete: true,
            contacts: Vec::new(),
            centroid: Some(TouchPoint { x_total: x, y_total: 0, contacts: 1 }),
            delta: None,
            velocity_per_second: None,
            frame_interval_micros: None,
        })
    };
    let session = vec![
        shot(0, 3, 0),
        shot(10, 3, 1),
        shot(20, 2, 2),
        shot(30, 3, 3),
        shot(40, 3, 4),
    ];
    let best = best_segment(&session, 3, true).unwrap();
    assert_eq!(best[0].point.x_total, 3);
    assert!(best_segment(&session, 2, true).is_none());
    assert!(best_segment(&session, 4, true).is_none());
}

/// A device that takes in events as the kernel does.
#[derive(Default)]
struct Device {
    slot: u16,
    active: BTreeMap<u16, i32>,
    places: BTreeMap<(u16, u16), i32>,
    keys: Vec<u16>,
}

impl Device {
    fn take(&mut self, events: &[VirtualEvent]) {
        for event in events {
            if event.event_type == EV_KEY {
                self.keys.retain(|code| *code != event.code);
                if event.value != 0 {
                    self.keys.push(event.code);
                }
            } else if event.code == ABS_MT_SLOT {
                self.slot = event.value as u16;
            } else if event.code == ABS_MT_TRACKING_ID && event.value < 0 {
                self.active.remove(&self.slot);
            } else if event.code == ABS_MT_TRACKING_ID {
                self.active.insert(self.slot, event.value);
            } else {
                self.places.insert((self.slot, event.code), event.value);
            }
        }
        self.keys.sort();
    }
}

#[test]
fn replayed_events_show_what_is_desired() {
    let placed = |tracking_id: i32, x: i32, tool_type: Option<i32>| PhysicalContact {
        tracking_id,
        x: Some(x),
        y: Some(x + 1),
        tool_type,
    };
    let snapshot = |contacts: &[(u16, PhysicalContact)], button_down: bool| PhysicalSnapshot {
        contacts: contacts.iter().copied().collect(),
        button_down,
        ..PhysicalSnapshot::empty()
    };
    let mut synthesizer = VirtualSynthesizer::new();
    let mut device = Device::default();
    for (contacts, button_down, tool) in [
        (vec![(0, placed(9, 10, None))], false, Some(325)),
        (vec![(0, placed(9, 12, Some(2))), (3, placed(4, 50, None))], true, Some(333)),
        (vec![(0, placed(8, 12, None))], true, Some(325)),
        (vec![], false, None),
        (vec![(3, placed(4, 50, Some(1)))], false, Some(325)),
    ] {
        let desired = snapshot(&contacts, button_down);
        device.take(&synthesizer.synthesize(&desired));
        let slots: Vec<u16> = device.active.keys().copied().collect();
        let wanted: Vec<u16> = contacts.iter().map(|(slot, _)| *slot).collect();
        assert_eq!(slots, wanted);
        for (slot, contact) in &contacts {
            assert_eq!(device.places.get(&(*slot, ABS_MT_POSITION_X)).copied(), contact.x);
            assert_eq!(device.places.get(&(*slot, ABS_MT_POSITION_Y)).copied(), contact.y);
            assert_eq!(
                device.places.get(&(*slot, ABS_MT_TOOL_TYPE)).copied(),
                Some(contact.tool_type.unwrap_or(0))
            );
        }
        let mut keys = Vec::new();
        if button_down {
            keys.push(BTN_LEFT);
        }
        keys.extend(tool);
        if !contacts.is_empty() {
            keys.push(BTN_TOUCH);
        }
        keys.sort();
        assert_eq!(device.keys, keys);
    }
}

#[test]
fn frames_can_be_finished_at_a_given_time() {
    let mut tracker = TouchFrameTracker::new();
    assert!(tracker.finish_frame(Some(1)).is_none());
    for event in [
        raw(EV_ABS, ABS_MT_TRACKING_ID, 4),
        raw(EV_ABS, ABS_MT_POSITION_X, 10),
        raw(EV_ABS, ABS_MT_POSITION_Y, 20),
    ] {
        assert!(tracker.push(&event).is_none());
    }
    let begin = tracker.finish_frame(Some(1_000)).unwrap();
    assert_eq!(begin.phase, TouchFramePhase::Begin);
    assert!(begin.delta.is_none() && begin.frame_interval_micros.is_none());
    tracker.push(&raw(EV_ABS, ABS_MT_POSITION_X, 13));
    let update = tracker.finish_frame(Some(1_000)).unwrap();
    assert_eq!(update.phase, TouchFramePhase::Update);
    assert_eq!(
        update.delta,
        Some(TouchPoint { x_total: 3, y_total: 0, contacts: 1 })
    );
    assert!(update.velocity_per_second.is_none());
    assert_eq!(update.frame_interval_micros, Some(0));
    tracker.push(&raw(EV_ABS, ABS_MT_TRACKING_ID, -1));
    assert_eq!(tracker.finish_frame(None).unwrap().phase, TouchFramePhase::End);

    let mut router = TouchpadRouter::new();
    router.push(&raw(EV_KEY, BTN_TOOL_TRIPLETAP, 1));
    assert_eq!(router.finish_frame(5).outcome, RouteOutcome::ReleasedAndSuppressed);
    assert_eq!(router.finish_frame(6).outcome, RouteOutcome::Suppressed);
    router.push(&raw(EV_KEY, BTN_TOOL_TRIPLETAP, 0));
    assert_eq!(router.finish_frame(7).outcome, RouteOutcome::Suppressed);
    assert_eq!(router.finish_frame(8).outcome, RouteOutcome::Forwarded);
}

#[test]
fn reports_with_news_give_numbered_frames() {
    let mut tracker = TouchFrameTracker::new();
    let report = raw(0, 0, 0);
    let mut numbers = Vec::new();
    for event in [
        report.clone(),
        raw(EV_ABS, ABS_MT_SLOT, 1),
        report.clone(),
        raw(EV_ABS, ABS_MT_TRACKING_ID, 3),
        raw(EV_ABS, ABS_MT_SLOT, 2),
        report.clone(),
        report.clone(),
        raw(EV_KEY, BTN_LEFT, 1),
        report.clone(),
        raw(EV_KEY, BTN_TOOL_TRIPLETAP, 1),
        report.clone(),
    ] {
        numbers.push(tracker.push(&event).map(|frame| frame.sequence));
    }
    let none = None;
    assert_eq!(
        numbers,
        [none, none, none, none, none, Some(1), none, none, none, none, Some(2)]
    );
}
