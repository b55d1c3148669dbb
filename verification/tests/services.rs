use gesture_forge::client::{
    binding_summary, check_parent, check_reply, delivery_mode, finish_with_secondary,
    first_cleanup, join_results, judge_reply, limit_reached, next_cleanup, parse_label,
    parse_parent_pid, split_pair, timeout_text, validate_dispatch_report,
    validate_exclusive_timeout, CleanupStep, PairError, ShutdownReason,
};
use gesture_forge::config::{ActionSpec, Binding, ErrorPolicy, SecurityConfig, TriggerPattern};
use gesture_forge::device::{
    classify_device, describe_device, AxisPair, BackendCapabilities, DeviceCapabilities,
    DeviceClass, DeviceFacts, NullInputBackend, OutputBackend,
};
use gesture_forge::dispatch::{BindingReport, DispatchReport};
use gesture_forge::drag_stream::{
    dispatch_failure, drag_cancel_event, track_client_drag, ClientConnection, ReplyKind,
};
use gesture_forge::event::InputEvent;
use gesture_forge::metric::Metric;
use gesture_forge::number_text::{decimal_text, parse_number, signed_text};
use gesture_forge::provider::ActionOutcome;
use gesture_forge::security::{
    fail_closed_security, nonempty_path, reload_decision, security_became_more_restrictive,
    ReloadDecision,
};
use gesture_forge::text::{
    comes_before, has_part, is_blank, same_text_ignoring_case, to_uppercase, trimmed,
};
use gesture_forge::text_map::TextMap;

fn metric(value: f64) -> Metric {
    Metric {
        bits: value.to_bits(),
    }
}

fn outcome(success: bool, message: Option<&str>) -> ActionOutcome {
    ActionOutcome {
        provider: "uinput".to_owned(),
        action: "drag".to_owned(),
        success,
        message: message.map(str::to_owned),
    }
}

#[test]
fn rejects_failed_daemon_actions() {
    let event = InputEvent::new("test", "end");
    let report = DispatchReport {
        event_id: event.id,
        bindings: vec![BindingReport {
            id: "drag".to_owned(),
            outcomes: vec![outcome(false, Some("permission denied"))],
        }],
    };
    let error = validate_dispatch_report(&event, &report).unwrap_err();
    assert!(error.message().contains("permission denied"));
    assert_eq!(
        error.message(),
        "daemon action failed for test end: binding \"drag\", action uinput.drag: permission denied"
    );
}

#[test]
fn rejects_a_response_for_a_different_event() {
    let event = InputEvent::new("test", "end");
    let report = DispatchReport {
        event_id: InputEvent::new("other", "end").id,
        bindings: Vec::new(),
    };
    let error = validate_dispatch_report(&event, &report).unwrap_err();
    assert!(error.message().contains("does not match"));
}

#[test]
fn mismatched_identities_are_written_out() {
    let event = InputEvent::with_id(0xa1a2a3a4b1b2c1c2d1d2d3d4d5d6d7d8, "test", "end");
    let report = DispatchReport {
        event_id: 0x1f,
        bindings: Vec::new(),
    };
    assert_eq!(
        validate_dispatch_report(&event, &report).unwrap_err().message(),
        "daemon response event id 00000000-0000-0000-0000-00000000001f does not match \
         dispatched event a1a2a3a4-b1b2-c1c2-d1d2-d3d4d5d6d7d8"
    );
}

#[test]
fn the_first_failure_of_a_report_is_described() {
    let report = DispatchReport {
        event_id: 1,
        bindings: vec![
            BindingReport {
                id: "fine".to_owned(),
                outcomes: vec![outcome(true, Some("ok"))],
            },
            BindingReport {
                id: "a\"b".to_owned(),
                outcomes: vec![outcome(true, None), outcome(false, None), outcome(false, Some("x"))],
            },
        ],
    };
    assert_eq!(
        dispatch_failure(&report).as_deref(),
        Some("binding \"a\\\"b\", action uinput.drag: unknown failure")
    );
    let clean = DispatchReport {
        event_id: 1,
        bindings: Vec::new(),
    };
    assert_eq!(dispatch_failure(&clean), None);
    let event = InputEvent::with_id(1, "a", "b");
    assert!(validate_dispatch_report(&event, &clean).is_ok());
}

#[test]
fn replies_are_judged() {
    let event = InputEvent::new("touchpad.swipe", "end");
    assert!(check_reply(&event, "{\"event_id\": 1, \"bindings\": []}\n").is_ok());
    assert_eq!(
        check_reply(&event, " \n").unwrap_err().message(),
        "daemon closed the dispatch socket without a response"
    );
    assert_eq!(
        check_reply(&event, "{oops").unwrap_err().message(),
        "daemon returned invalid response JSON"
    );
    assert_eq!(
        check_reply(&event, "{\"error\": \"no \\\"such\\\" thing\"}")
            .unwrap_err()
            .message(),
        "daemon rejected touchpad.swipe end: no \"such\" thing"
    );
    // An error that is no string is left to the report's own reader.
    assert!(check_reply(&event, "{\"error\": 4}").is_ok());
    assert!(judge_reply(&event, "x", true, None).is_ok());
    assert!(judge_reply(&event, "x", false, None).is_err());
    assert_eq!(
        timeout_text(&event, 2),
        "daemon did not acknowledge touchpad.swipe end within 2 seconds"
    );
}

#[test]
fn parses_parent_pid_from_proc_status() {
    let status = "Name:\tgesture-forge\nState:\tS (sleeping)\nPPid:\t4321\n";
    assert_eq!(parse_parent_pid(status), Some(4321));
    assert_eq!(parse_parent_pid("PPid:\t0\n"), None);
    assert_eq!(parse_parent_pid("Name:\ttest\n"), None);
}

#[test]
fn odd_process_statuses_are_read_too() {
    assert_eq!(parse_parent_pid(""), None);
    assert_eq!(parse_parent_pid("PPid: +17\r\n"), Some(17));
    assert_eq!(parse_parent_pid("PPid:x\nPPid:\u{3000}8"), Some(8));
    assert_eq!(parse_parent_pid(" PPid: 5\n"), None);
    assert_eq!(parse_parent_pid("PPid:4294967296\n"), None);
    assert_eq!(parse_parent_pid("PPid:4294967295"), Some(4294967295));
    assert_eq!(parse_parent_pid("PPid:-3"), None);
}

#[test]
fn numbers_are_written_and_read() {
    for number in [0_u32, 9, 10, 4321, u32::MAX] {
        assert_eq!(parse_number(&decimal_text(u64::from(number))), Some(number));
    }
    assert_eq!(decimal_text(u64::MAX), "18446744073709551615");
    assert_eq!(signed_text(i32::MIN), "-2147483648");
    assert_eq!(signed_text(70), "70");
    assert_eq!(parse_number("+"), None);
    assert_eq!(parse_number(""), None);
    assert_eq!(parse_number("007"), Some(7));
    assert_eq!(parse_number("1 "), None);
}

#[test]
fn validates_exclusive_grab_timeout() {
    validate_exclusive_timeout(false, 0).unwrap();
    validate_exclusive_timeout(true, 1).unwrap();
    validate_exclusive_timeout(true, 3600).unwrap();
    assert!(validate_exclusive_timeout(true, 0).is_err());
    assert!(validate_exclusive_timeout(true, 3601).is_err());
    assert_eq!(
        validate_exclusive_timeout(true, 0).unwrap_err().message(),
        "--exclusive-timeout must be between 1 and 3600 seconds"
    );
}

fn drag_event(stream_id: &str, phase: &str) -> InputEvent {
    let mut event = InputEvent::new("touchpad.drag", phase);
    event.fingers = Some(3);
    event.values.insert("dx".to_owned(), metric(4.0));
    event.values.insert("dy".to_owned(), metric(-2.0));
    event
        .labels
        .insert("recognition.stream_id".to_owned(), stream_id.to_owned());
    event
}

fn stream(event: &Option<InputEvent>) -> Option<&str> {
    event.as_ref().and_then(|event| event.stream_id())
}

#[test]
fn tracks_only_the_matching_client_drag_stream() {
    let mut active = None;
    track_client_drag(&mut active, &drag_event("stream-a", "begin"));
    track_client_drag(&mut active, &drag_event("stream-b", "update"));
    assert_eq!(stream(&active), Some("stream-a"));
    track_client_drag(&mut active, &drag_event("stream-b", "cancel"));
    assert!(active.is_some());
    track_client_drag(&mut active, &drag_event("stream-a", "end"));
    assert!(active.is_none());
}

#[test]
fn only_drags_with_a_stream_are_followed() {
    let mut active = None;
    track_client_drag(&mut active, &drag_event("", "begin"));
    assert!(active.is_none());
    let mut swipe = drag_event("stream-a", "begin");
    swipe.family = "touchpad.swipe".to_owned();
    track_client_drag(&mut active, &swipe);
    assert!(active.is_none());
    track_client_drag(&mut active, &drag_event("stream-a", "update"));
    assert!(active.is_none());
    track_client_drag(&mut active, &drag_event("stream-a", "begin"));
    let update = drag_event("stream-a", "update");
    track_client_drag(&mut active, &update);
    assert_eq!(active.as_ref().map(|event| event.id), Some(update.id));
    track_client_drag(&mut active, &drag_event("stream-b", "begin"));
    assert_eq!(stream(&active), Some("stream-b"));
    track_client_drag(&mut active, &drag_event("stream-b", "pause"));
    assert!(active.is_some());
}

#[test]
fn a_connection_follows_only_what_was_dispatched() {
    let mut connection = ClientConnection::new();
    let begin = drag_event("stream-a", "begin");
    assert_eq!(connection.take(None, false), ReplyKind::Unreadable);
    assert_eq!(connection.take(Some(&begin), false), ReplyKind::Refusal);
    assert!(connection.close().is_none());

    let mut connection = ClientConnection::new();
    assert_eq!(connection.take(Some(&begin), true), ReplyKind::Report);
    let end = drag_event("stream-a", "end");
    assert_eq!(connection.take(Some(&end), false), ReplyKind::Refusal);
    let stale = drag_event("stream-b", "end");
    assert_eq!(connection.take(Some(&stale), true), ReplyKind::Report);
    let cancel = connection.close().unwrap();
    assert_eq!(cancel.phase, "cancel");
    assert_eq!(cancel.stream_id(), Some("stream-a"));
    assert_eq!(cancel.values.get("dx"), Some(&metric(0.0)));

    let mut connection = ClientConnection::new();
    connection.take(Some(&begin), true);
    connection.take(Some(&end), true);
    assert!(connection.close().is_none());
}

#[test]
fn errors_are_answered_with_their_cause() {
    assert_eq!(ReplyKind::Report.error("x"), None);
    assert_eq!(ReplyKind::Refusal.error("x").as_deref(), Some("x"));
    assert_eq!(
        ReplyKind::Unreadable.error("x").as_deref(),
        Some("invalid event JSON: x")
    );
}

#[test]
fn the_touchpad_is_given_back_before_a_drag_is_cancelled() {
    let mut steps = vec![first_cleanup()];
    while steps[steps.len() - 1] != CleanupStep::Done {
        steps.push(next_cleanup(steps[steps.len() - 1]));
    }
    assert_eq!(
        steps,
        [
            CleanupStep::ReleaseContacts,
            CleanupStep::ReleaseGrab,
            CleanupStep::CancelDrag,
            CleanupStep::Done,
        ]
    );
    assert_eq!(next_cleanup(CleanupStep::Done), CleanupStep::Done);
}

#[test]
fn detects_security_restrictions_that_must_apply_fail_closed() {
    let previous = SecurityConfig {
        allow_command_actions: true,
        allow_uinput_actions: true,
    };
    let commands_disabled = SecurityConfig {
        allow_command_actions: false,
        allow_uinput_actions: true,
    };
    let uinput_disabled = SecurityConfig {
        allow_command_actions: true,
        allow_uinput_actions: false,
    };
    let unchanged = previous.clone();
    let mixed_change = SecurityConfig {
        allow_command_actions: false,
        allow_uinput_actions: true,
    };
    let mixed_previous = SecurityConfig {
        allow_command_actions: true,
        allow_uinput_actions: false,
    };

    assert!(security_became_more_restrictive(
        &previous,
        &commands_disabled
    ));
    assert!(security_became_more_restrictive(
        &previous,
        &uinput_disabled
    ));
    assert!(!security_became_more_restrictive(&previous, &unchanged));

    let effective = fail_closed_security(&mixed_previous, &mixed_change);
    assert!(!effective.allow_command_actions);
    assert!(!effective.allow_uinput_actions);
}

#[test]
fn reloads_never_grant_what_was_not_validated() {
    let none = SecurityConfig::default();
    let all = SecurityConfig {
        allow_command_actions: true,
        allow_uinput_actions: true,
    };
    assert_eq!(reload_decision(&none, &all, false), ReloadDecision::Keep);
    assert_eq!(reload_decision(&none, &all, true), ReloadDecision::Replace);
    assert_eq!(
        reload_decision(&all, &none, false),
        ReloadDecision::FailClosed { security: none }
    );
}

#[test]
fn disconnect_cancel_preserves_stream_and_clears_motion_delta() {
    let active = drag_event("stream-a", "update");
    let cancel = drag_cancel_event(&active);
    assert_eq!(cancel.phase, "cancel");
    assert_eq!(cancel.stream_id(), Some("stream-a"));
    assert_eq!(cancel.values.get("dx"), Some(&metric(0.0)));
    assert_eq!(cancel.values.get("dy"), Some(&metric(0.0)));
    assert_ne!(cancel.id, active.id);
    assert_eq!(cancel.fingers, Some(3));
}

#[test]
fn blank_socket_paths_count_as_none() {
    assert_eq!(nonempty_path("  "), None);
    assert_eq!(nonempty_path(" /run/x ").as_deref(), Some(" /run/x "));
}

fn capabilities() -> DeviceCapabilities {
    DeviceCapabilities::default()
}

#[test]
fn explicit_touchpad_name_wins() {
    assert_eq!(
        classify_device("example touchpad", &capabilities(), false),
        DeviceClass::Touchpad
    );
}

#[test]
fn pointer_multitouch_is_a_touchpad_candidate() {
    let capabilities = DeviceCapabilities {
        multitouch_positions: true,
        pointer_property: true,
        ..DeviceCapabilities::default()
    };
    assert_eq!(
        classify_device("unknown", &capabilities, false),
        DeviceClass::Touchpad
    );
}

#[test]
fn direct_multitouch_is_a_touchscreen_candidate() {
    let capabilities = DeviceCapabilities {
        multitouch_positions: true,
        direct_property: true,
        ..DeviceCapabilities::default()
    };
    assert_eq!(
        classify_device("unknown", &capabilities, false),
        DeviceClass::Touchscreen
    );
}

#[test]
fn relative_xy_is_a_pointer() {
    assert_eq!(
        classify_device("unknown", &capabilities(), true),
        DeviceClass::RelativePointer
    );
}

#[test]
fn devices_are_described_from_their_facts() {
    let facts = DeviceFacts {
        name: Some("SYNA TrackPad".to_owned()),
        physical_path: Some("usb-1".to_owned()),
        unique_name: None,
        keys: true,
        relative_axes: None,
        absolute_axes: Some(AxisPair { x: true, y: false }),
        pointer_property: true,
        direct_property: false,
        buttonpad_property: true,
        semi_mt_property: false,
    };
    let info = describe_device("/dev/input/event8".into(), facts.clone());
    assert!(info.is_touchpad_candidate());
    assert_eq!(info.name, "SYNA TrackPad");
    assert_eq!(info.path, std::path::PathBuf::from("/dev/input/event8"));
    assert!(info.capabilities.absolute_axes && !info.capabilities.multitouch_positions);
    assert_eq!(info.physical_path.as_deref(), Some("usb-1"));

    assert_eq!(info.clone(), info);

    let nameless = DeviceFacts {
        name: None,
        absolute_axes: Some(AxisPair { x: true, y: true }),
        ..facts
    };
    let info = describe_device("x".into(), nameless);
    assert_eq!(info.name, "Unnamed input device");
    assert_eq!(info.class, DeviceClass::Touchpad);
    assert_eq!(
        classify_device("a touch screen", &capabilities(), true),
        DeviceClass::Touchscreen
    );
    let absolute = DeviceCapabilities {
        absolute_axes: true,
        ..capabilities()
    };
    assert_eq!(
        classify_device("tablet", &absolute, false),
        DeviceClass::AbsolutePointer
    );
    assert_eq!(classify_device("keyboard", &capabilities(), false), DeviceClass::Other);
}

struct Sink;

impl OutputBackend for Sink {
    fn name(&self) -> &'static str {
        "sink"
    }

    fn capabilities(&self) -> BackendCapabilities {
        BackendCapabilities {
            synthetic_pointer: true,
            ..BackendCapabilities::default()
        }
    }
}

#[test]
fn backends_have_a_name_and_capabilities() {
    assert_eq!(NullInputBackend.name(), "null");
    assert_eq!(NullInputBackend.capabilities(), BackendCapabilities::default());
    let sink: &dyn OutputBackend = &Sink;
    assert_eq!(sink.name(), "sink");
    assert!(sink.capabilities().synthetic_pointer && !sink.capabilities().exclusive_grab);
}

#[test]
fn results_are_joined_without_losing_an_error() {
    let finish = |primary: Result<(), u8>, secondary: Result<(), u8>| {
        finish_with_secondary(primary, secondary, "late", "work", "cleanup")
    };
    assert!(finish(Ok(()), Ok(())).is_ok());
    let failure = finish(Err(1), Ok(())).unwrap_err();
    assert_eq!((failure.error, failure.context), (1, None));
    let failure = finish(Ok(()), Err(2)).unwrap_err();
    assert_eq!(failure.error, 2);
    assert_eq!(failure.context.as_deref(), Some("work cleanup failed"));
    let failure = finish(Err(1), Err(2)).unwrap_err();
    assert_eq!(failure.error, 1);
    assert_eq!(
        failure.context.as_deref(),
        Some("work failed; cleanup also failed: late")
    );
    let joined = join_results(Err("a"), Err("b"), "both".to_owned(), "second".to_owned());
    assert_eq!(joined.unwrap_err().context.as_deref(), Some("both"));
}

#[test]
fn shutdown_reasons_are_explained() {
    assert_eq!(check_parent(5, Some(5)), None);
    assert_eq!(check_parent(5, Some(1)), Some(ShutdownReason::ParentExited));
    assert_eq!(check_parent(5, None), Some(ShutdownReason::ParentUnavailable));
    assert_eq!(ShutdownReason::Interrupt.message(), "SIGINT received");
    assert_eq!(ShutdownReason::Terminate.message(), "SIGTERM received");
    assert_eq!(ShutdownReason::Hangup.message(), "terminal hangup received");
    assert_eq!(ShutdownReason::ParentExited.message(), "launching process exited");
    assert_eq!(
        ShutdownReason::ParentUnavailable.message(),
        "launching process could no longer be inspected"
    );
    assert_eq!(
        ShutdownReason::ExclusiveTimeout.message(),
        "exclusive-grab safety timeout reached"
    );
    assert!(!limit_reached(0, 1_000));
    assert!(limit_reached(3, 3) && !limit_reached(3, 2));
}

#[test]
fn arguments_are_split_at_the_first_sign() {
    assert_eq!(
        split_pair("a=b=c").unwrap(),
        ("a".to_owned(), "b=c".to_owned())
    );
    assert_eq!(parse_label("k=").unwrap(), ("k".to_owned(), String::new()));
    assert_eq!(parse_label(" =v").unwrap_err(), PairError::EmptyKey);
    assert_eq!(split_pair("abc").unwrap_err(), PairError::NoSeparator);
    assert_eq!(PairError::NoSeparator.message(), "expected key=value");
    assert_eq!(PairError::EmptyKey.message(), "key must not be empty");
}

#[test]
fn bindings_are_summed_up_in_a_line() {
    let action = |action: &str| ActionSpec {
        provider: "core".to_owned(),
        action: action.to_owned(),
        params: "null".to_owned(),
        on_error: ErrorPolicy::Continue,
    };
    let binding = Binding {
        id: "swipe".to_owned(),
        enabled: true,
        priority: -10,
        consume: false,
        trigger: TriggerPattern {
            family: "touchpad.*".to_owned(),
            phases: Vec::new(),
            fingers: Vec::new(),
            directions: Vec::new(),
            min_values: TextMap::new(),
            max_values: TextMap::new(),
            labels: TextMap::new(),
        },
        conditions: Vec::new(),
        actions: vec![action("log"), action("noop")],
    };
    assert_eq!(
        binding_summary(&binding),
        "- swipe [enabled] priority=-10 consume=false trigger=touchpad.* actions=core.log, core.noop"
    );
    assert_eq!(delivery_mode(false, false), "shared mode; desktop gestures may still run");
    assert_eq!(
        delivery_mode(false, true),
        "exclusive mode; desktop gestures are temporarily blocked"
    );
    assert_eq!(
        delivery_mode(true, true),
        "exclusive proxy mode; one/two fingers are forwarded and three-or-more are consumed"
    );
}

#[test]
fn text_operations_agree_with_the_standard_library() {
    let samples = [
        "", " ", "a", "Ab c", "\u{85}x\u{2003}", "\u{200b}", "ẞß", "zz\u{feff}", "\u{1680}\u{2029}",
        "touch Screen", "\u{180e}", "a\u{0}", "\u{10ffff}",
    ];
    for left in samples {
        assert_eq!(is_blank(left), left.trim().is_empty());
        assert_eq!(trimmed(left), left.trim());
        assert_eq!(to_uppercase(left), left.to_ascii_uppercase());
        for right in samples {
            assert_eq!(comes_before(left, right), left < right);
            assert_eq!(has_part(left, right), left.contains(right));
            assert_eq!(
                same_text_ignoring_case(left, right),
                left.eq_ignore_ascii_case(right)
            );
        }
    }
}

#[test]
fn white_space_is_what_the_standard_library_says() {
    for code in 0..=0x3100_u32 {
        if let Some(character) = char::from_u32(code) {
            assert_eq!(
                gesture_forge::text::whitespace(character),
                character.is_whitespace()
            );
        }
    }
}
