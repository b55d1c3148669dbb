use gesture_forge::actions::{
    default_action_registry, default_action_registry_with_security, default_condition_registry,
    ActionError, BuiltinAction, BuiltinCondition, CoreActionProvider, LogLevel, LogParams,
    ProcessActionProvider, ProcessRun, RunParams,
};
use gesture_forge::codes::{BTN_LEFT, BTN_MIDDLE, BTN_RIGHT, EV_KEY, EV_REL};
use gesture_forge::conditions::{
    check_condition, decide_condition, read_params, ConditionError, ConditionParams,
    CoreConditionProvider,
};
use gesture_forge::config::{ActionSpec, ConditionSpec, ErrorPolicy};
use gesture_forge::event::InputEvent;
use gesture_forge::key_chord::{
    join_key, key_event_packets, parse_key_chord, press_packets, release_packets, ChordError,
    KeyChord, KeyChordParams, KeyboardTap, TapOutcome, TapStage, TapWork, DEFAULT_HOLD_MS,
    MAX_HOLD_MS,
};
use gesture_forge::metric::Metric;
use gesture_forge::pointer_drag::{
    command_event_packets, release_all_buttons, DragError, DragParams, MouseButton,
    PointerCommand, PointerDragState, PointerTransition, UinputError, UinputPointerProvider,
};

fn metric(value: f64) -> Metric {
    Metric {
        bits: value.to_bits(),
    }
}

fn number(metric: Metric) -> f64 {
    f64::from_bits(metric.bits)
}

fn spec(provider: &str, action: &str) -> ActionSpec {
    ActionSpec {
        provider: provider.to_owned(),
        action: action.to_owned(),
        params: "{}".to_owned(),
        on_error: ErrorPolicy::Continue,
    }
}

fn chord_params(keys: &[&str]) -> Option<KeyChordParams> {
    Some(KeyChordParams {
        keys: keys.iter().map(|key| (*key).to_owned()).collect(),
        hold_ms: DEFAULT_HOLD_MS,
    })
}

#[test]
fn uinput_provider_requires_explicit_registry_opt_in() {
    let drag = spec("uinput", "drag");
    let chord = spec("uinput", "key-chord");
    let disabled = default_action_registry_with_security(false, false).unwrap();
    assert!(disabled.provider(&drag.provider).is_err());
    assert!(disabled.provider(&chord.provider).is_err());

    let enabled = default_action_registry_with_security(false, true).unwrap();
    assert_eq!(enabled.provider(&drag.provider).unwrap(), &BuiltinAction::Uinput);
    let keys = chord_params(&["KEY_LEFTMETA", "KEY_PAGEUP"]);
    UinputPointerProvider
        .validate(&drag, &Some(DragParams::default()), &None)
        .unwrap();
    UinputPointerProvider.validate(&chord, &None, &keys).unwrap();
}

#[test]
fn commands_require_their_own_permission() {
    assert!(default_action_registry(false).unwrap().provider("process").is_err());
    let registry = default_action_registry(true).unwrap();
    assert_eq!(registry.provider("process").unwrap(), &BuiltinAction::Process);
    assert_eq!(registry.provider("core").unwrap(), &BuiltinAction::Core);
    assert!(registry.provider("uinput").is_err());
    assert_eq!(
        default_condition_registry().unwrap().provider("core").unwrap(),
        &BuiltinCondition::Core
    );
    assert_eq!(CoreActionProvider.name(), "core");
    assert_eq!(ProcessActionProvider.name(), "process");
    assert_eq!(UinputPointerProvider.name(), "uinput");
    assert_eq!(CoreConditionProvider.name(), "core");
}

fn log(message: &str, level: &str) -> Option<LogParams> {
    Some(LogParams {
        message: message.to_owned(),
        level: level.to_owned(),
    })
}

#[test]
fn core_actions_log_or_do_nothing() {
    let provider = CoreActionProvider;
    let effect = provider.execute(&spec("core", "noop"), &None).unwrap();
    assert!(effect.log.is_none());
    assert_eq!(effect.outcome.message.as_deref(), Some("no operation"));
    assert!(effect.outcome.success);

    let spec_log = spec("core", "log");
    for (name, level) in [
        ("debug", LogLevel::Debug),
        ("info", LogLevel::Info),
        ("warn", LogLevel::Warn),
        ("error", LogLevel::Error),
    ] {
        let effect = provider.execute(&spec_log, &log("hello", name)).unwrap();
        assert_eq!(effect.log, Some((level, "hello".to_owned())));
        assert_eq!(effect.outcome.message.as_deref(), Some("hello"));
        assert_eq!(effect.outcome.action, "log");
    }
    assert!(matches!(provider.validate(&spec_log, &None), Err(ActionError::LogParams)));
    assert_eq!(
        provider.validate(&spec_log, &None).unwrap_err().message(),
        "core.log expects { message, level? }"
    );
    assert!(matches!(
        provider.validate(&spec_log, &log(" \u{a0}", "info")),
        Err(ActionError::EmptyLogMessage)
    ));
    assert_eq!(
        provider
            .validate(&spec_log, &log("x", "loud"))
            .unwrap_err()
            .message(),
        "unsupported core.log level \"loud\""
    );
    assert_eq!(
        provider
            .validate(&spec("core", "jump"), &None)
            .unwrap_err()
            .message(),
        "unknown core action \"jump\""
    );
}

#[test]
fn process_actions_need_a_program_and_report_how_it_went() {
    let provider = ProcessActionProvider;
    let run = spec("process", "run");
    let params = RunParams {
        program: "true".to_owned(),
        args: Vec::new(),
        wait: false,
    };
    assert!(provider.validate(&run, &Some(params.clone())).is_ok());
    assert_eq!(
        provider.validate(&run, &None).unwrap_err().message(),
        "process.run expects { program, args?, wait? }"
    );
    let blank = RunParams {
        program: "  ".to_owned(),
        ..params.clone()
    };
    assert_eq!(
        provider.validate(&run, &Some(blank)).unwrap_err().message(),
        "process.run program must not be empty"
    );
    assert_eq!(
        provider
            .validate(&spec("process", "kill"), &None)
            .unwrap_err()
            .message(),
        "unknown process action \"kill\""
    );
    let started = provider.outcome(&run, &params, ProcessRun::Started).unwrap();
    assert_eq!(started.message.as_deref(), Some("program started: true"));
    let waited = provider.outcome(&run, &params, ProcessRun::Succeeded).unwrap();
    assert_eq!(
        waited.message.as_deref(),
        Some("program exited successfully: true")
    );
    assert_eq!(
        provider
            .outcome(&run, &params, ProcessRun::NotLaunched)
            .unwrap_err()
            .message(),
        "failed to launch \"true\""
    );
    let failed = ProcessRun::Failed {
        status: "exit status: 3".to_owned(),
    };
    assert_eq!(
        provider.outcome(&run, &params, failed).unwrap_err().message(),
        "program \"true\" exited with exit status: 3"
    );
}

fn condition(name: &str, params: &str) -> ConditionSpec {
    ConditionSpec {
        provider: "core".to_owned(),
        condition: name.to_owned(),
        negate: false,
        params: params.to_owned(),
    }
}

fn context_event() -> InputEvent {
    let mut event = InputEvent::new("a", "b");
    event.context.app_id = Some("org.mozilla.firefox".to_owned());
    event.labels.insert("k".to_owned(), "v".to_owned());
    event
        .context
        .extra
        .insert("zoom".to_owned(), "{\"x\": 1, \"y\": [2, 3]}".to_owned());
    event
}

#[test]
fn conditions_read_the_event() {
    let provider = CoreConditionProvider;
    let event = context_event();
    let holds = |name: &str, params: &str| {
        provider.evaluate(&condition(name, params), &event).unwrap()
    };
    assert!(holds("always", "null"));
    assert!(holds("app-id", "{\"value\": \"org.mozilla.firefox\"}"));
    assert!(!holds("app-id", "{\"value\": \"org.gnome.Maps\"}"));
    assert!(!holds("app-id", "{\"value\": 3}"));
    assert!(!holds("window-title", "{\"value\": \"x\"}"));
    // No title, and a value that is no string: both are absent.
    assert!(holds("window-title", "{\"value\": 3}"));
    assert!(holds("label", "{\"key\": \"k\", \"value\": \"v\"}"));
    assert!(!holds("label", "{\"key\": \"k\", \"value\": \"w\"}"));
    assert!(!holds("label", "{\"key\": \"z\", \"value\": \"v\"}"));
    assert!(holds("context", "{\"key\": \"zoom\", \"value\": {\"y\": [2, 3], \"x\": 1}}"));
    assert!(!holds("context", "{\"key\": \"zoom\", \"value\": {\"y\": [3, 2], \"x\": 1}}"));
    assert!(!holds("context", "{\"key\": \"pan\", \"value\": null}"));
}

#[test]
fn conditions_are_refused_with_their_reason() {
    let provider = CoreConditionProvider;
    let reason = |name: &str, params: &str| {
        provider.validate(&condition(name, params)).unwrap_err().message()
    };
    assert_eq!(reason("sometimes", "{}"), "unknown core condition \"sometimes\"");
    assert_eq!(reason("app-id", "null"), "condition parameters must be a table");
    assert_eq!(reason("app-id", "not json"), "condition parameters must be a table");
    assert_eq!(reason("app-id", "{\"key\": \"k\"}"), "condition requires a value parameter");
    assert_eq!(
        reason("label", "{\"value\": \"v\"}"),
        "label/context condition requires a string key parameter"
    );
    assert_eq!(
        reason("context", "{\"value\": \"v\", \"key\": 4}"),
        "label/context condition requires a string key parameter"
    );
    assert!(provider.validate(&condition("always", "null")).is_ok());
    assert!(matches!(
        provider.evaluate(&condition("app-id", "{}"), &context_event()),
        Err(ConditionError::NoValue)
    ));
}

#[test]
fn condition_parameters_are_read_from_json() {
    let params = read_params("{\"value\": \"a\\u0062\", \"key\": \"k\"}");
    assert!(params.table);
    assert_eq!(params.value.as_deref(), Some("\"ab\""));
    assert_eq!(params.value_string.as_deref(), Some("ab"));
    assert_eq!(params.key.as_deref(), Some("k"));
    let params = read_params("[1]");
    assert!(!params.table && params.value.is_none() && params.key.is_none());

    let given = ConditionParams {
        table: true,
        value: Some("1".to_owned()),
        value_string: None,
        key: Some("zoom".to_owned()),
    };
    assert!(check_condition("context", &given).is_ok());
    let event = context_event();
    assert!(decide_condition("context", &given, &event, true).unwrap());
    assert!(!decide_condition("context", &given, &event, false).unwrap());
}

#[test]
fn parses_workspace_shortcuts_without_opening_uinput() {
    let chord = parse_key_chord(&chord_params(&["key_leftmeta", " KEY_PAGEDOWN "])).unwrap();
    assert_eq!(
        chord.keys,
        vec![
            evdev::KeyCode::KEY_LEFTMETA.code(),
            evdev::KeyCode::KEY_PAGEDOWN.code()
        ]
    );
    assert_eq!(chord.hold_ms, DEFAULT_HOLD_MS);
    assert_eq!(DEFAULT_HOLD_MS, 50);
}

#[test]
fn rejects_empty_duplicate_and_button_chords() {
    assert!(parse_key_chord(&chord_params(&[])).is_err());
    assert!(parse_key_chord(&chord_params(&["KEY_LEFTMETA", "KEY_LEFTMETA"])).is_err());
    assert!(parse_key_chord(&chord_params(&["BTN_LEFT"])).is_err());
}

#[test]
fn chords_are_refused_with_their_reason() {
    let reason =
        |keys: &[&str]| parse_key_chord(&chord_params(keys)).unwrap_err().message();
    assert_eq!(reason(&[]), "uinput.key-chord keys must not be empty");
    assert_eq!(
        reason(&["KEY_A", "key_a"]),
        "uinput.key-chord contains duplicate key \"KEY_A\""
    );
    assert_eq!(
        reason(&["BTN_LEFT"]),
        "uinput.key-chord key \"BTN_LEFT\" is not a standard keyboard key"
    );
    assert_eq!(
        reason(&["KEY_FOOBAR"]),
        "unsupported uinput key name \"KEY_FOOBAR\": failed to parse Key from string"
    );
    assert_eq!(
        reason(&["KEY_RESERVED"]),
        "uinput.key-chord key \"KEY_RESERVED\" is not a standard keyboard key"
    );
    assert_eq!(reason(&["  "]), "uinput.key-chord key names must not be empty");
    let nine = ["KEY_A", "KEY_B", "KEY_C", "KEY_D", "KEY_E", "KEY_F", "KEY_G", "KEY_H", "KEY_I"];
    assert_eq!(
        reason(&nine),
        "uinput.key-chord supports at most 8 simultaneous keys"
    );
    assert!(parse_key_chord(&chord_params(&nine[..8])).is_ok());
    assert_eq!(
        parse_key_chord(&None).unwrap_err().message(),
        "uinput.key-chord expects { keys = [\"KEY_LEFTMETA\", ...], hold_ms? }"
    );
    assert_eq!(join_key(&vec![30], "KEY_X", Some(45)).unwrap(), 45);
    assert!(matches!(
        join_key(&vec![30], "KEY_X", Some(30)),
        Err(ChordError::DuplicateKey { .. })
    ));
}

#[test]
fn presses_in_order_and_releases_in_reverse_order_as_separate_frames() {
    let meta = evdev::KeyCode::KEY_LEFTMETA.code();
    let page_up = evdev::KeyCode::KEY_PAGEUP.code();
    let keys = vec![meta, page_up];
    let down = key_event_packets(&keys, 1);
    let up = key_event_packets(&keys.iter().rev().copied().collect(), 0);

    assert_eq!(down.len(), 2);
    assert!(down.iter().all(|packet| packet.len() == 1));
    assert_eq!(down[0][0].code, meta);
    assert_eq!(down[1][0].code, page_up);
    assert!(down.iter().flatten().all(|event| event.value == 1));
    assert_eq!(up[0][0].code, page_up);
    assert_eq!(up[1][0].code, meta);
    assert!(up.iter().flatten().all(|event| event.value == 0));
    assert_eq!(press_packets(&keys), down);
    assert_eq!(release_packets(&keys), up);
}

#[test]
fn parses_and_validates_hold_duration() {
    let held = |hold_ms: u64| {
        let mut params = chord_params(&["KEY_LEFTMETA", "KEY_PAGEDOWN"]).unwrap();
        params.hold_ms = hold_ms;
        parse_key_chord(&Some(params))
    };
    assert_eq!(held(80).unwrap().hold_ms, 80);
    assert!(held(0).is_err());
    assert!(held(MAX_HOLD_MS + 1).is_err());
    assert_eq!(
        held(0).unwrap_err().message(),
        "uinput.key-chord hold_ms must be between 1 and 1000"
    );
}

fn tap(pressed: Vec<u16>) -> KeyboardTap {
    let chord = KeyChord {
        keys: vec![125, 104],
        hold_ms: 60,
    };
    KeyboardTap::new(chord, pressed)
}

fn codes(work: TapWork) -> Vec<(u16, i32)> {
    match work {
        TapWork::Emit(packets) => packets
            .into_iter()
            .flatten()
            .map(|event| (event.code, event.value))
            .collect(),
        _ => panic!("nothing to emit"),
    }
}

#[test]
fn a_tap_presses_holds_and_releases() {
    let mut tap = tap(vec![30]);
    assert_eq!(codes(tap.work()), [(30, 0)]);
    tap.advance(true);
    assert!(matches!(tap.work(), TapWork::Open));
    tap.advance(true);
    assert_eq!(codes(tap.work()), [(125, 1), (104, 1)]);
    assert_eq!(tap.pressed(), &vec![125, 104]);
    tap.advance(true);
    assert!(matches!(tap.work(), TapWork::Sleep { milliseconds: 60 }));
    tap.advance(true);
    assert_eq!(codes(tap.work()), [(104, 0), (125, 0)]);
    tap.advance(true);
    assert_eq!(tap.stage(), TapStage::Finished(TapOutcome::Sent));
    assert!(tap.pressed().is_empty());
    assert!(matches!(tap.work(), TapWork::Nothing));
}

#[test]
fn a_tap_that_fails_releases_what_it_pressed() {
    let mut failing = tap(Vec::new());
    failing.advance(true);
    failing.advance(true);
    failing.advance(false);
    assert_eq!(failing.stage(), TapStage::EmergencyAfterPress);
    assert_eq!(codes(failing.work()), [(104, 0), (125, 0)]);
    failing.advance(true);
    let outcome = TapOutcome::NotPressed {
        emergency_failed: false,
    };
    assert_eq!(failing.stage(), TapStage::Finished(outcome));
    assert_eq!(
        outcome.message(""),
        "failed to press virtual key chord; emergency release was attempted"
    );

    let mut failing = tap(Vec::new());
    for succeeded in [true, true, true, true, false, false] {
        failing.advance(succeeded);
    }
    let outcome = TapOutcome::NotReleased {
        emergency_failed: true,
    };
    assert_eq!(failing.stage(), TapStage::Finished(outcome));
    assert!(failing.pressed().is_empty());
    assert_eq!(
        outcome.message("gone"),
        "failed to release virtual key chord; emergency release also failed: gone"
    );

    let mut stale = tap(vec![9]);
    stale.advance(false);
    assert_eq!(
        stale.stage(),
        TapStage::Finished(TapOutcome::StaleKeysNotReleased)
    );
    let mut closed = tap(Vec::new());
    closed.advance(true);
    closed.advance(false);
    assert_eq!(closed.stage(), TapStage::Finished(TapOutcome::NoDevice));
    assert_eq!(TapOutcome::NoDevice.message("no node"), "no node");
}

fn drag_event(phase: &str, dx: f64, dy: f64) -> InputEvent {
    drag_event_for_stream("stream-a", phase, dx, dy)
}

fn drag_event_for_stream(stream_id: &str, phase: &str, dx: f64, dy: f64) -> InputEvent {
    let mut event = InputEvent::new("touchpad.drag", phase);
    event.values.insert("dx".to_owned(), metric(dx));
    event.values.insert("dy".to_owned(), metric(dy));
    event
        .labels
        .insert("recognition.stream_id".to_owned(), stream_id.to_owned());
    event
}

fn scale_axis(value: f64, scale: f64, residual: f64, max_delta: i32) -> (i32, f64) {
    let scaled = value * scale + residual;
    let rounded = scaled.round();
    let clamped = rounded.clamp(f64::from(-max_delta), f64::from(max_delta)) as i32;
    let next_residual = if rounded == f64::from(clamped) {
        scaled - rounded
    } else {
        0.0
    };
    (clamped, next_residual)
}

fn planned(
    state: &PointerDragState,
    event: &InputEvent,
    params: &DragParams,
) -> Result<PointerTransition, DragError> {
    let plan = state.plan(event, params)?;
    let (x, residual_x, y, residual_y) = match plan.movement {
        Some(movement) => {
            let scale = number(movement.scale);
            let (x, residual_x) = scale_axis(
                number(movement.dx),
                scale,
                number(movement.residual_x),
                movement.max_delta,
            );
            let (y, residual_y) = scale_axis(
                number(movement.dy),
                scale,
                number(movement.residual_y),
                movement.max_delta,
            );
            (x, metric(residual_x), y, metric(residual_y))
        }
        None => (0, metric(0.0), 0, metric(0.0)),
    };
    Ok(plan.finish(x, residual_x, y, residual_y))
}

fn button(button: MouseButton, down: bool) -> PointerCommand {
    PointerCommand::Button { button, down }
}

#[test]
fn button_press_and_initial_motion_are_separate_uinput_frames() {
    let commands = vec![
        button(MouseButton::Left, true),
        PointerCommand::Move { x: 5, y: -2 },
    ];
    let packets = command_event_packets(&commands);

    assert_eq!(packets.len(), 2);
    assert_eq!(packets[0].len(), 1);
    assert_eq!(packets[0][0].event_type, EV_KEY);
    assert_eq!(packets[0][0].code, evdev::KeyCode::BTN_LEFT.code());
    assert_eq!(packets[0][0].value, 1);
    assert_eq!(packets[1].len(), 2);
    assert!(packets[1].iter().all(|event| event.event_type == EV_REL));
}

#[test]
fn movements_along_one_axis_or_none_give_as_many_events() {
    let packets = command_event_packets(&vec![
        PointerCommand::Move { x: 0, y: 0 },
        PointerCommand::Move { x: 0, y: 7 },
        button(MouseButton::Right, false),
        button(MouseButton::Middle, true),
    ]);
    assert_eq!(packets.len(), 3);
    assert_eq!((packets[0][0].code, packets[0][0].value), (1, 7));
    assert_eq!((packets[1][0].code, packets[1][0].value), (BTN_RIGHT, 0));
    assert_eq!((packets[2][0].code, packets[2][0].value), (BTN_MIDDLE, 1));
    let released: Vec<u16> = release_all_buttons().iter().map(|event| event.code).collect();
    assert_eq!(released, [BTN_LEFT, BTN_MIDDLE, BTN_RIGHT]);
    assert!(release_all_buttons().iter().all(|event| event.value == 0));
}

#[test]
fn plans_press_move_update_and_release() {
    let params = DragParams {
        scale: metric(0.5),
        ..DragParams::default()
    };
    let begin = planned(
        &PointerDragState::default(),
        &drag_event("begin", 10.0, -4.0),
        &params,
    )
    .unwrap();
    assert_eq!(
        begin.commands,
        vec![
            button(MouseButton::Left, true),
            PointerCommand::Move { x: 5, y: -2 },
        ]
    );

    let update = planned(&begin.next_state, &drag_event("update", 6.0, 8.0), &params).unwrap();
    assert_eq!(update.commands, vec![PointerCommand::Move { x: 3, y: 4 }]);

    let end = planned(&update.next_state, &drag_event("end", 0.0, 0.0), &params).unwrap();
    assert_eq!(end.commands, vec![button(MouseButton::Left, false)]);
    assert!(end.next_state.active_button.is_none());
}

#[test]
fn cancel_is_an_idempotent_release() {
    let params = DragParams::default();
    let inactive = PointerDragState::default();
    assert!(planned(&inactive, &drag_event("cancel", 0.0, 0.0), &params)
        .unwrap()
        .commands
        .is_empty());

    let active = planned(&inactive, &drag_event("begin", 0.0, 0.0), &params)
        .unwrap()
        .next_state;
    assert_eq!(
        planned(&active, &drag_event("cancel", 0.0, 0.0), &params)
            .unwrap()
            .commands,
        vec![button(MouseButton::Left, false)]
    );
}

#[test]
fn update_before_begin_is_rejected() {
    assert!(planned(
        &PointerDragState::default(),
        &drag_event("update", 1.0, 1.0),
        &DragParams::default()
    )
    .is_err());
}

#[test]
fn fractional_movement_is_preserved_as_residual() {
    let params = DragParams {
        scale: metric(0.25),
        ..DragParams::default()
    };
    let begin = planned(
        &PointerDragState::default(),
        &drag_event("begin", 1.0, 0.0),
        &params,
    )
    .unwrap();
    assert_eq!(begin.commands.len(), 1);
    let update = planned(&begin.next_state, &drag_event("update", 1.0, 0.0), &params).unwrap();
    assert_eq!(update.commands, vec![PointerCommand::Move { x: 1, y: 0 }]);
}

#[test]
fn movement_is_clamped_without_backlog() {
    let params = DragParams {
        max_delta: 100,
        ..DragParams::default()
    };
    let begin = planned(
        &PointerDragState::default(),
        &drag_event("begin", 500.0, -500.0),
        &params,
    )
    .unwrap();
    assert_eq!(
        begin.commands.last(),
        Some(&PointerCommand::Move { x: 100, y: -100 })
    );
    assert_eq!(number(begin.next_state.residual_x), 0.0);
    assert_eq!(number(begin.next_state.residual_y), 0.0);
}

#[test]
fn duplicate_events_are_idempotent() {
    let params = DragParams::default();
    let begin_event = drag_event("begin", 10.0, 0.0);
    let begin = planned(&PointerDragState::default(), &begin_event, &params).unwrap();
    let duplicate = planned(&begin.next_state, &begin_event, &params).unwrap();
    assert!(duplicate.commands.is_empty());
    assert_eq!(
        duplicate.next_state.active_stream_id.as_deref(),
        Some("stream-a")
    );
}

#[test]
fn stale_cancel_does_not_release_a_newer_stream() {
    let params = DragParams::default();
    let active = planned(
        &PointerDragState::default(),
        &drag_event_for_stream("stream-b", "begin", 0.0, 0.0),
        &params,
    )
    .unwrap()
    .next_state;
    let stale = planned(
        &active,
        &drag_event_for_stream("stream-a", "cancel", 0.0, 0.0),
        &params,
    )
    .unwrap();
    assert!(stale.commands.is_empty());
    assert_eq!(
        stale.next_state.active_stream_id.as_deref(),
        Some("stream-b")
    );
}

#[test]
fn a_new_drag_replaces_the_one_under_way() {
    let params = DragParams::default();
    let active = planned(
        &PointerDragState::default(),
        &drag_event("begin", 0.0, 0.0),
        &params,
    )
    .unwrap()
    .next_state;
    let right = DragParams {
        button: MouseButton::Right,
        ..params
    };
    let replaced = planned(
        &active,
        &drag_event_for_stream("stream-b", "begin", 2.0, 0.0),
        &right,
    )
    .unwrap();
    assert_eq!(
        replaced.commands,
        vec![
            button(MouseButton::Left, false),
            button(MouseButton::Right, true),
            PointerCommand::Move { x: 2, y: 0 },
        ]
    );
    // The same stream may begin again without effect.
    let again = planned(&active, &drag_event("begin", 5.0, 5.0), &params).unwrap();
    assert!(again.commands.is_empty());
}

#[test]
fn drag_events_are_refused_with_their_reason() {
    let params = DragParams::default();
    let idle = PointerDragState::default();
    let active = planned(&idle, &drag_event("begin", 0.0, 0.0), &params)
        .unwrap()
        .next_state;
    let reason = |state: &PointerDragState, event: &InputEvent, params: &DragParams| {
        UinputPointerProvider
            .plan_drag(state, event, params)
            .unwrap_err()
            .message()
    };
    assert_eq!(
        reason(&idle, &InputEvent::new("touchpad.swipe", "end"), &params),
        "uinput.drag requires touchpad.drag events, received \"touchpad.swipe\""
    );
    assert_eq!(
        reason(&idle, &drag_event("pause", 0.0, 0.0), &params),
        "uinput.drag does not support phase \"pause\""
    );
    assert_eq!(
        reason(&idle, &drag_event_for_stream(" ", "begin", 0.0, 0.0), &params),
        "touchpad.drag event is missing recognition.stream_id"
    );
    assert_eq!(
        reason(&idle, &drag_event("update", 0.0, 0.0), &params),
        "uinput.drag received update before begin"
    );
    assert_eq!(
        reason(&active, &drag_event_for_stream("b", "update", 0.0, 0.0), &params),
        "uinput.drag update belongs to stream \"b\", but \"stream-a\" is active"
    );
    let middle = DragParams {
        button: MouseButton::Middle,
        ..params
    };
    assert_eq!(
        reason(&active, &drag_event("update", 0.0, 0.0), &middle),
        "uinput.drag button cannot change during an active drag"
    );
    assert_eq!(
        reason(&active, &drag_event("update", f64::NAN, 0.0), &params),
        "touchpad.drag dx and dy must be finite"
    );
    let mut still = InputEvent::new("touchpad.drag", "update");
    still
        .labels
        .insert("recognition.stream_id".to_owned(), "stream-a".to_owned());
    assert_eq!(
        reason(&active, &still, &params),
        "touchpad.drag event is missing dx"
    );
    still.values.insert("dx".to_owned(), metric(1.0));
    assert_eq!(
        reason(&active, &still, &params),
        "touchpad.drag event is missing dy"
    );
    let odd = PointerDragState {
        active_stream_id: None,
        ..active.clone()
    };
    assert_eq!(
        reason(&odd, &drag_event("update", 0.0, 0.0), &params),
        "uinput.drag active state is missing its stream id"
    );
}

#[test]
fn a_failed_emission_forgets_the_drag() {
    let params = DragParams::default();
    let begin = || {
        planned(
            &PointerDragState::default(),
            &drag_event("begin", 0.0, 0.0),
            &params,
        )
        .unwrap()
    };
    assert!(begin().settle(true).active_button.is_some());
    assert!(begin().settle(false).active_button.is_none());
    let event = drag_event("begin", 0.0, 0.0);
    let outcome = UinputPointerProvider.drag_outcome(&spec("uinput", "drag"), &event);
    assert_eq!(
        outcome.message.as_deref(),
        Some("virtual pointer handled drag phase begin")
    );
    let outcome = UinputPointerProvider.chord_outcome(&spec("uinput", "key-chord"));
    assert_eq!(
        outcome.message.as_deref(),
        Some("virtual keyboard sent key chord")
    );
}

#[test]
fn validates_action_parameters_without_opening_uinput() {
    let provider = UinputPointerProvider;
    let drag = spec("uinput", "drag");
    let valid = DragParams {
        button: MouseButton::Left,
        scale: metric(0.5),
        max_delta: 100,
    };
    provider.validate(&drag, &Some(valid), &None).unwrap();

    let invalid = DragParams {
        scale: metric(0.0),
        ..DragParams::default()
    };
    assert!(provider.validate(&drag, &Some(invalid), &None).is_err());
}

#[test]
fn drag_parameters_have_their_ranges() {
    let with_scale = |scale: f64| DragParams {
        scale: metric(scale),
        ..DragParams::default()
    };
    assert!(with_scale(100.0).validate().is_ok());
    assert!(with_scale(5e-324).validate().is_ok());
    for scale in [100.00000000000001, -1.0, f64::INFINITY, f64::NAN, -0.0] {
        assert_eq!(
            with_scale(scale).validate().unwrap_err().message(),
            "uinput.drag scale must be finite, greater than 0, and at most 100"
        );
    }
    let with_delta = |max_delta: i32| DragParams {
        max_delta,
        ..DragParams::default()
    };
    assert!(with_delta(1).validate().is_ok() && with_delta(10_000).validate().is_ok());
    for max_delta in [0, 10_001, -5] {
        assert_eq!(
            with_delta(max_delta).validate().unwrap_err().message(),
            "uinput.drag max_delta must be between 1 and 10000"
        );
    }
    assert_eq!(number(DragParams::default().scale), 1.0);
    let refused = UinputPointerProvider.validate(&spec("uinput", "drag"), &None, &None);
    assert_eq!(
        refused.unwrap_err().message(),
        "uinput.drag expects { button?, scale?, max_delta? }"
    );
    assert!(matches!(
        UinputPointerProvider.validate(&spec("uinput", "fly"), &None, &None),
        Err(UinputError::UnknownAction { .. })
    ));
}
