use gesture_forge::config::{
    ActionSpec, Binding, BindingError, ConditionSpec, Config, ConfigError, ErrorPolicy,
    IdentifierError, RuntimeConfig, SecurityConfig, TriggerError, TriggerPattern,
};
use gesture_forge::dispatch::{DispatchReport, DispatchState};
use gesture_forge::engine::{DispatchPlan, Engine, PlanError, ProviderCheck};
use gesture_forge::event::{EventContext, InputEvent};
use gesture_forge::metric::Metric;
use gesture_forge::provider::{
    action_failure_text, condition_result, ActionOutcome, ActionRegistry, ConditionRegistry,
};
use gesture_forge::text_map::TextMap;
use gesture_forge::trigger::{family_matches, trigger_matches};

fn metric(value: f64) -> Metric {
    Metric {
        bits: value.to_bits(),
    }
}

fn metrics(entries: &[(&str, f64)]) -> TextMap<Metric> {
    let mut map = TextMap::new();
    for (key, value) in entries {
        map.insert((*key).to_owned(), metric(*value));
    }
    map
}

fn pattern() -> TriggerPattern {
    TriggerPattern {
        family: "touchpad.swipe".into(),
        phases: vec!["end".into()],
        fingers: vec![3],
        directions: vec!["up".into()],
        min_values: metrics(&[("distance", 100.0)]),
        max_values: TextMap::new(),
        labels: TextMap::new(),
    }
}

fn any(family: &str) -> TriggerPattern {
    TriggerPattern {
        family: family.to_owned(),
        phases: Vec::new(),
        fingers: Vec::new(),
        directions: Vec::new(),
        min_values: TextMap::new(),
        max_values: TextMap::new(),
        labels: TextMap::new(),
    }
}

fn action(name: &str, on_error: ErrorPolicy) -> ActionSpec {
    ActionSpec {
        provider: "core".to_owned(),
        action: name.to_owned(),
        params: "null".to_owned(),
        on_error,
    }
}

fn condition(name: &str) -> ConditionSpec {
    ConditionSpec {
        provider: "core".to_owned(),
        condition: name.to_owned(),
        negate: false,
        params: "null".to_owned(),
    }
}

fn binding(id: &str, priority: i32, consume: bool, conditions: &[&str]) -> Binding {
    Binding {
        id: id.to_owned(),
        enabled: true,
        priority,
        consume,
        trigger: any("test.event"),
        conditions: conditions.iter().map(|name| condition(name)).collect(),
        actions: vec![action("noop", ErrorPolicy::Continue)],
    }
}

fn config(bindings: Vec<Binding>) -> Config {
    Config {
        version: 1,
        runtime: RuntimeConfig::default(),
        security: SecurityConfig::default(),
        bindings,
    }
}

fn plan(engine: &Engine, event: &InputEvent, holds: &dyn Fn(&str) -> bool) -> DispatchPlan {
    let mut state = engine.plan(event).unwrap();
    loop {
        let held = match engine.next_condition(&state) {
            Some(condition) => holds(&condition.condition),
            None => break,
        };
        engine.answer(&mut state, held);
    }
    engine.finish_plan(state)
}

fn planned_ids(plan: &DispatchPlan) -> Vec<String> {
    plan.bindings.iter().map(|binding| binding.id.clone()).collect()
}

#[test]
fn matches_a_configurable_swipe() {
    let mut event = InputEvent::new("touchpad.swipe", "end");
    event.fingers = Some(3);
    event.direction = Some("up".into());
    event.values.insert("distance".into(), metric(120.0));
    assert!(trigger_matches(&pattern(), &event));
}

#[test]
fn rejects_insufficient_distance() {
    let mut event = InputEvent::new("touchpad.swipe", "end");
    event.fingers = Some(3);
    event.direction = Some("up".into());
    event.values.insert("distance".into(), metric(80.0));
    assert!(!trigger_matches(&pattern(), &event));
}

#[test]
fn supports_namespaced_wildcards() {
    assert!(family_matches("touchpad.*", "touchpad.pinch"));
    assert!(!family_matches("touchpad.*", "mouse.stroke"));
}

#[test]
fn wildcards_stop_at_name_boundaries() {
    assert!(family_matches("*", "anything"));
    assert!(family_matches("touchpad.*", "touchpad"));
    assert!(!family_matches("touchpad.*", "touchpads.pinch"));
    assert!(family_matches("touchpad.*", "touchpad.pinch.in"));
    assert!(!family_matches("touchpad", "touchpad.pinch"));
    assert!(family_matches(".*", ""));
}

#[test]
fn every_part_of_a_trigger_counts() {
    let mut event = InputEvent::new("touchpad.swipe", "end");
    event.fingers = Some(3);
    event.direction = Some("UP".into());
    event.values.insert("distance".into(), metric(100.0));
    assert!(trigger_matches(&pattern(), &event));

    let mut other = event.clone();
    other.phase = "begin".into();
    assert!(!trigger_matches(&pattern(), &other));

    let mut other = event.clone();
    other.fingers = None;
    assert!(!trigger_matches(&pattern(), &other));

    let mut other = event.clone();
    other.direction = Some("down".into());
    assert!(!trigger_matches(&pattern(), &other));

    let mut limited = pattern();
    limited.max_values = metrics(&[("distance", 100.0)]);
    assert!(trigger_matches(&limited, &event));
    let mut far = event.clone();
    far.values.insert("distance".into(), metric(100.5));
    assert!(!trigger_matches(&limited, &far));
    limited.max_values = metrics(&[("speed", 5.0)]);
    assert!(!trigger_matches(&limited, &event));

    let mut labelled = pattern();
    labelled.labels.insert("rule".into(), "a".into());
    assert!(!trigger_matches(&labelled, &event));
    let mut named = event.clone();
    named.labels.insert("rule".into(), "a".into());
    assert!(trigger_matches(&labelled, &named));
    named.labels.insert("rule".into(), "b".into());
    assert!(!trigger_matches(&labelled, &named));
}

#[test]
fn what_is_not_a_number_is_within_no_limit_and_beyond_none() {
    let mut event = InputEvent::new("touchpad.swipe", "end");
    event.fingers = Some(3);
    event.direction = Some("up".into());
    event.values.insert("distance".into(), metric(f64::NAN));
    // Neither `NaN < 100` nor `NaN > 100` holds.
    assert!(trigger_matches(&pattern(), &event));
}

#[test]
fn metrics_compare_as_numbers_do() {
    let samples = [
        f64::NEG_INFINITY,
        -400.0,
        -1.5,
        -f64::MIN_POSITIVE,
        -0.0,
        0.0,
        5e-324,
        1.0,
        1.0000000000000002,
        900.0,
        f64::MAX,
        f64::INFINITY,
        f64::NAN,
    ];
    for left in samples {
        assert_eq!(metric(left).is_finite(), left.is_finite());
        for right in samples {
            assert_eq!(metric(left).is_below(&metric(right)), left < right);
            assert_eq!(metric(left).is_at_most(&metric(right)), left <= right);
        }
    }
}

#[test]
fn duplicate_binding_ids_are_rejected() {
    let config = config(vec![
        binding("same", 0, false, &[]),
        binding("same", 0, false, &[]),
    ]);
    let error = config.validate().unwrap_err();
    assert!(matches!(&error, ConfigError::DuplicateId { id } if id == "same"));
    assert_eq!(error.message(), "duplicate binding id \"same\"");
    assert!(Engine::new(config).is_err());
}

#[test]
fn configurations_are_refused_with_their_reason() {
    let mut wrong = config(Vec::new());
    wrong.version = 2;
    assert_eq!(
        wrong.validate().unwrap_err().message(),
        "unsupported configuration version 2; expected 1"
    );
    assert!(Config::default().validate().is_ok());

    let nameless = binding(" \t", 0, false, &[]);
    assert!(matches!(nameless.validate(), Err(BindingError::EmptyId)));

    let mut idle = binding("a", 0, false, &[]);
    idle.actions.clear();
    assert_eq!(
        idle.validate().unwrap_err().message(),
        "binding \"a\" must define at least one action"
    );

    let mut blank = binding("a", 0, false, &[]);
    blank.trigger.family = "  ".into();
    let error = blank.validate().unwrap_err();
    assert_eq!(error.message(), "binding \"a\" has an invalid trigger");
    assert!(matches!(
        error,
        BindingError::Trigger {
            cause: TriggerError::EmptyFamily,
            ..
        }
    ));

    let mut crossed = any("x");
    crossed.min_values = metrics(&[("b", 2.0), ("a", 2.0), ("c", 0.0)]);
    crossed.max_values = metrics(&[("b", 1.0), ("a", 1.0), ("c", 1.0)]);
    let error = crossed.validate().unwrap_err();
    assert_eq!(error.message(), "minimum value for \"a\" exceeds maximum value");

    let mut odd = binding("a", 0, false, &[]);
    odd.actions[0].action = "no op".into();
    let error = odd.validate().unwrap_err();
    assert_eq!(error.message(), "binding \"a\" has an invalid action");
    match error {
        BindingError::Action { cause, .. } => assert_eq!(
            cause.message(),
            "action name contains unsupported characters: \"no op\""
        ),
        _ => panic!("unexpected error"),
    }

    let odd = binding("a", 0, false, &[""]);
    match odd.validate().unwrap_err() {
        BindingError::Condition {
            cause: IdentifierError::Empty { .. },
            ..
        } => {}
        _ => panic!("unexpected error"),
    }
}

#[test]
fn bindings_are_considered_by_priority_and_then_by_identity() {
    let mut disabled = binding("z", 900, false, &[]);
    disabled.enabled = false;
    let mut other = binding("y", 900, false, &[]);
    other.trigger = any("other.event");
    let engine = Engine::new(config(vec![
        binding("b", 5, false, &[]),
        binding("c", 10, false, &[]),
        disabled,
        binding("a", 5, false, &[]),
        other,
        binding("d", -1, false, &[]),
    ]))
    .unwrap();
    let event = InputEvent::new("test.event", "end");
    let plan = plan(&engine, &event, &|_| true);
    assert_eq!(planned_ids(&plan), ["c", "a", "b", "d"]);
    assert_eq!(plan.event_id, event.id);
}

#[test]
fn a_consuming_binding_ends_the_plan_once_its_conditions_hold() {
    let engine = Engine::new(config(vec![
        binding("a", 3, true, &["never"]),
        binding("b", 2, false, &["yes", "yes"]),
        binding("c", 1, true, &["yes"]),
        binding("d", 0, false, &[]),
    ]))
    .unwrap();
    let event = InputEvent::new("test.event", "end");
    let plan_ids = planned_ids(&plan(&engine, &event, &|name| name == "yes"));
    assert_eq!(plan_ids, ["b", "c"]);
    let all = planned_ids(&plan(&engine, &event, &|_| true));
    assert_eq!(all, ["a"]);
}

#[test]
fn events_of_another_schema_are_refused() {
    let engine = Engine::new(config(Vec::new())).unwrap();
    let mut event = InputEvent::new("test.event", "end");
    event.schema_version = 2;
    let error = engine.plan(&event).unwrap_err();
    assert_eq!(error, PlanError::UnsupportedSchema { version: 2 });
    assert_eq!(
        error.message(),
        "unsupported event schema version 2; expected 1"
    );
}

#[test]
fn every_action_and_condition_is_checked_with_its_provider() {
    let engine = Engine::new(config(vec![
        binding("a", 0, false, &["first"]),
        binding("b", 9, false, &["second"]),
    ]))
    .unwrap();
    let names: Vec<String> = engine
        .validate_providers()
        .into_iter()
        .map(|check| match check {
            ProviderCheck::Action(action) => action.action,
            ProviderCheck::Condition(condition) => condition.condition,
        })
        .collect();
    assert_eq!(names, ["noop", "first", "noop", "second"]);
    assert_eq!(engine.config().bindings.len(), 2);
}

fn run(actions: Vec<Vec<(&str, ErrorPolicy)>>) -> (DispatchReport, Vec<String>) {
    let bindings = actions
        .into_iter()
        .enumerate()
        .map(|(index, actions)| {
            let mut made = binding(&format!("b{index}"), -(index as i32), false, &[]);
            made.actions = actions
                .into_iter()
                .map(|(name, policy)| action(name, policy))
                .collect();
            made
        })
        .collect();
    let engine = Engine::new(config(bindings)).unwrap();
    let event = InputEvent::new("test.event", "end");
    let mut state = DispatchState::new(plan(&engine, &event, &|_| true));
    let mut executed = Vec::new();
    loop {
        let spec = match state.next_action() {
            Some(spec) => spec.clone(),
            None => break,
        };
        executed.push(spec.action.clone());
        if spec.action.starts_with("bad") {
            state.record(Err("broken".to_owned()));
        } else {
            state.record(Ok(ActionOutcome::success(&spec, None)));
        }
    }
    let report = state.finish();
    assert_eq!(report.event_id, event.id);
    (report, executed)
}

#[test]
fn failures_stop_what_their_policy_says() {
    let go_on = ErrorPolicy::Continue;
    let (report, executed) = run(vec![
        vec![("bad1", go_on), ("good1", go_on)],
        vec![("bad2", ErrorPolicy::StopBinding), ("good2", go_on)],
        vec![("good3", go_on), ("bad3", ErrorPolicy::StopDispatch), ("good4", go_on)],
        vec![("good5", go_on)],
    ]);
    assert_eq!(executed, ["bad1", "good1", "bad2", "good3", "bad3"]);
    let ids: Vec<&str> = report.bindings.iter().map(|binding| binding.id.as_str()).collect();
    assert_eq!(ids, ["b0", "b1", "b2"]);
    let successes: Vec<Vec<bool>> = report
        .bindings
        .iter()
        .map(|binding| binding.outcomes.iter().map(|outcome| outcome.success).collect())
        .collect();
    assert_eq!(successes, vec![vec![false, true], vec![false], vec![true, false]]);
    assert_eq!(
        report.bindings[0].outcomes[0].message.as_deref(),
        Some("broken")
    );
}

#[test]
fn success_runs_everything_whatever_the_policy() {
    let (report, executed) = run(vec![
        vec![("good1", ErrorPolicy::StopDispatch), ("good2", ErrorPolicy::StopBinding)],
        vec![("good3", ErrorPolicy::Continue)],
    ]);
    assert_eq!(executed, ["good1", "good2", "good3"]);
    assert_eq!(report.bindings.len(), 2);
    assert_eq!(report.bindings[0].outcomes.len(), 2);
}

#[test]
fn registering_a_name_twice_replaces_and_is_reported() {
    let mut actions: ActionRegistry<u32> = ActionRegistry::new();
    assert!(actions.register("core", 1).is_ok());
    assert_eq!(
        actions.register("core", 2).unwrap_err().message(),
        "action provider \"core\" is already registered"
    );
    assert_eq!(actions.provider("core").unwrap(), &2);
    assert_eq!(
        actions.provider("other").unwrap_err().message(),
        "unknown action provider \"other\""
    );

    let mut conditions: ConditionRegistry<u32> = ConditionRegistry::new();
    assert!(conditions.register("core", 1).is_ok());
    assert_eq!(
        conditions.register("core", 2).unwrap_err().message(),
        "condition provider \"core\" is already registered"
    );
    assert_eq!(
        conditions.provider("x\n").unwrap_err().message(),
        "unknown condition provider \"x\\n\""
    );
    assert_eq!(conditions.provider("core").unwrap(), &2);
}

#[test]
fn conditions_can_be_negated() {
    assert!(condition_result(false, true));
    assert!(!condition_result(true, true));
    assert!(condition_result(true, false));
    assert!(!condition_result(false, false));
}

#[test]
fn failed_actions_are_named() {
    let spec = action("log", ErrorPolicy::Continue);
    assert_eq!(action_failure_text(&spec), "action core.log failed");
}

#[test]
fn events_have_an_identity_of_their_own() {
    let first = InputEvent::new("a", "b");
    let second = InputEvent::new("a", "b");
    assert_ne!(first.id, second.id);
    for event in [&first, &second] {
        let id = uuid::Uuid::from_u128(event.id);
        assert_eq!(id.get_version_num(), 4);
        assert_eq!(id.get_variant(), uuid::Variant::RFC4122);
    }
    assert_eq!(first.schema_version, 1);
    assert!(first.context.extra.get("x").is_none());
    let given = InputEvent::with_id(7, "a", "b");
    assert_eq!(given.id, 7);
    let context = EventContext::default();
    assert!(context.app_id.is_none() && context.workspace.is_none());
}

#[test]
fn text_maps_keep_one_entry_for_a_key_in_order() {
    let mut map: TextMap<u8> = TextMap::new();
    for (key, value) in [("b", 1), ("a", 2), ("", 3), ("ab", 4), ("b", 5), ("é", 6)] {
        map.insert(key.to_owned(), value);
    }
    let entries: Vec<(String, u8)> = (0..map.len())
        .map(|index| {
            let (key, value) = map.entry(index);
            (key.clone(), *value)
        })
        .collect();
    let expected: Vec<(String, u8)> = [("", 3), ("a", 2), ("ab", 4), ("b", 5), ("é", 6)]
        .into_iter()
        .map(|(key, value)| (key.to_owned(), value))
        .collect();
    assert_eq!(entries, expected);
    let copy = map.clone();
    assert_eq!(copy.get("ab"), Some(&4));
    assert_eq!(copy.get("c"), None);
}
