//! Planning which bindings run for an event.
//!
//! Conditions are evaluated by providers outside this module. A plan therefore
//! advances step by step: it asks for one condition at a time and takes in
//! whether it held.

use vstd::prelude::*;

use crate::config::{ActionSpec, Binding, ConditionSpec, Config, ConfigError};
use crate::event::InputEvent;
use crate::number_text::decimal_text;
use crate::text::{append, comes_before};
use crate::trigger::trigger_matches;

verus! {

/// What a [`PlannedBinding`] holds.
#[verifier::ext_equal]
pub struct PlannedView {
    pub id: Seq<char>,
    pub priority: i32,
    pub consume: bool,
    pub actions: Seq<ActionSpec>,
}

/// A binding whose trigger and conditions hold.
#[derive(Debug, Clone)]
pub struct PlannedBinding {
    pub id: String,
    pub priority: i32,
    pub consume: bool,
    pub actions: Vec<ActionSpec>,
}

impl View for PlannedBinding {
    type V = PlannedView;

    open spec fn view(&self) -> PlannedView {
        PlannedView {
            id: self.id@,
            priority: self.priority,
            consume: self.consume,
            actions: self.actions@,
        }
    }
}

/// A binding as it goes into a plan.
pub open spec fn as_planned(binding: Binding) -> PlannedView {
    PlannedView {
        id: binding.id@,
        priority: binding.priority,
        consume: binding.consume,
        actions: binding.actions@,
    }
}

/// The bindings of a list, as they are planned.
pub open spec fn planned_views(bindings: Seq<PlannedBinding>) -> Seq<PlannedView> {
    bindings.map_values(|binding: PlannedBinding| binding@)
}

/// The bindings to run for an event, in order.
#[derive(Debug, Clone)]
pub struct DispatchPlan {
    pub event_id: u128,
    pub bindings: Vec<PlannedBinding>,
}

/// Why an event cannot be planned for.
#[derive(Debug, Clone, Copy, PartialEq, Eq, Structural)]
pub enum PlanError {
    UnsupportedSchema { version: u32 },
}

impl PlanError {
    pub open spec fn text(self) -> Seq<char> {
        match self {
            PlanError::UnsupportedSchema { version } => "unsupported event schema version "@
                + crate::number_text::decimal(version as nat) + "; expected 1"@,
        }
    }

    pub fn message(&self) -> (text: String)
        ensures
            text@ == self.text(),
    {
        match self {
            PlanError::UnsupportedSchema { version } => {
                let mut text = "unsupported event schema version ".to_owned();
                append(&mut text, decimal_text(*version as u64).as_str());
                append(&mut text, "; expected 1");
                text
            },
        }
    }
}

/// Whether one binding is considered before another: the higher priority goes
/// first, then the identity that comes first.
pub open spec fn goes_before(left: Binding, right: Binding) -> bool {
    left.priority > right.priority || (left.priority == right.priority && crate::text::precedes(
        left.id@,
        right.id@,
    ))
}

/// Whether a binding is enabled and its trigger matches an event.
pub open spec fn selected(binding: Binding, event: crate::event::EventView) -> bool {
    binding.enabled && crate::trigger::trigger_match(binding.trigger, event)
}

/// Whether a list of places holds each selected binding once, and no other, in
/// the order in which they are considered.
pub open spec fn is_order(
    bindings: Seq<Binding>,
    event: crate::event::EventView,
    order: Seq<usize>,
) -> bool {
    &&& forall|i: int|
        0 <= i < order.len() ==> (#[trigger] order[i]) < bindings.len() && selected(
            bindings[order[i] as int],
            event,
        )
    &&& forall|place: usize|
        place < bindings.len() && selected(#[trigger] bindings[place as int], event)
            ==> order.contains(place)
    &&& forall|i: int, j: int|
        0 <= i < j < order.len() ==> goes_before(
            bindings[#[trigger] order[i] as int],
            bindings[#[trigger] order[j] as int],
        )
}

/// Whether the conditions of a binding hold, from one on, where `holds` says of
/// each condition of each binding whether it does.
pub open spec fn all_hold(
    bindings: Seq<Binding>,
    place: int,
    from: int,
    holds: spec_fn(int, int) -> bool,
) -> bool {
    forall|i: int| from <= i < bindings[place].conditions@.len() ==> #[trigger] holds(place, i)
}

/// The bindings that run, of those in `order` from `at` on: the ones whose
/// conditions all hold, up to the first of them that consumes the event.
pub open spec fn planned_from(
    bindings: Seq<Binding>,
    order: Seq<usize>,
    at: int,
    holds: spec_fn(int, int) -> bool,
) -> Seq<PlannedView>
    decreases order.len() - at,
{
    if at < 0 || at >= order.len() {
        Seq::empty()
    } else {
        let place = order[at] as int;
        let rest = planned_from(bindings, order, at + 1, holds);
        if all_hold(bindings, place, 0, holds) {
            settled(bindings[place], rest)
        } else {
            rest
        }
    }
}

/// The bindings that run once one is known to, where `rest` are those that
/// would run after it.
pub open spec fn settled(binding: Binding, rest: Seq<PlannedView>) -> Seq<PlannedView> {
    if binding.consume {
        seq![as_planned(binding)]
    } else {
        seq![as_planned(binding)] + rest
    }
}

/// What a [`PlanState`] holds.
#[verifier::ext_equal]
pub struct PlanView {
    pub event_id: u128,
    pub order: Seq<usize>,
    pub position: int,
    pub condition: int,
    pub planned: Seq<PlannedView>,
}

impl PlanView {
    pub open spec fn wf(self, bindings: Seq<Binding>) -> bool {
        &&& 0 <= self.position <= self.order.len()
        &&& forall|i: int| 0 <= i < self.order.len() ==> (#[trigger] self.order[i]) < bindings.len()
        &&& self.pending() ==> 0 <= self.condition
            < bindings[self.order[self.position] as int].conditions@.len()
    }

    /// Whether a condition is still to be evaluated.
    pub open spec fn pending(self) -> bool {
        self.position < self.order.len()
    }

    /// What the plan comes to.
    pub open spec fn outcome(
        self,
        bindings: Seq<Binding>,
        holds: spec_fn(int, int) -> bool,
    ) -> Seq<PlannedView> {
        let place = self.order[self.position] as int;
        let rest = planned_from(bindings, self.order, self.position + 1, holds);
        if !self.pending() {
            self.planned
        } else if all_hold(bindings, place, self.condition, holds) {
            self.planned + settled(bindings[place], rest)
        } else {
            self.planned + rest
        }
    }
}

/// A plan in the making.
#[derive(Debug)]
pub struct PlanState {
    event_id: u128,
    order: Vec<usize>,
    position: usize,
    condition: usize,
    planned: Vec<PlannedBinding>,
}

impl View for PlanState {
    type V = PlanView;

    closed spec fn view(&self) -> PlanView {
        PlanView {
            event_id: self.event_id,
            order: self.order@,
            position: self.position as int,
            condition: self.condition as int,
            planned: planned_views(self.planned@),
        }
    }
}

pub(crate) fn clone_actions(actions: &Vec<ActionSpec>) -> (copy: Vec<ActionSpec>)
    ensures
        copy@ == actions@,
{
    let mut copy: Vec<ActionSpec> = Vec::new();
    let mut index: usize = 0;
    while index < actions.len()
        invariant
            index <= actions@.len(),
            copy@ == actions@.take(index as int),
        decreases actions@.len() - index,
    {
        copy.push(actions[index].clone());
        assert(copy@ =~= actions@.take(index + 1));
        index = index + 1;
    }
    assert(copy@ =~= actions@);
    copy
}

fn comes_first(left: &Binding, right: &Binding) -> (result: bool)
    ensures
        result == goes_before(*left, *right),
{
    left.priority > right.priority || (left.priority == right.priority && comes_before(
        left.id.as_str(),
        right.id.as_str(),
    ))
}

proof fn lemma_goes_before(first: Binding, second: Binding, third: Binding)
    ensures
        goes_before(first, second) && goes_before(second, third) ==> goes_before(first, third),
        !(goes_before(first, second) && goes_before(second, first)),
        first.id@ != second.id@ ==> goes_before(first, second) || goes_before(second, first),
{
    crate::text::law_precedence_is_total(first.id@, second.id@);
    if crate::text::precedes(first.id@, second.id@) && crate::text::precedes(
        second.id@,
        third.id@,
    ) {
        crate::text::law_precedence_is_transitive(first.id@, second.id@, third.id@);
    }
}

/// Something that must be checked with its provider before a configuration is
/// used.
#[derive(Debug)]
pub enum ProviderCheck {
    Action(ActionSpec),
    Condition(ConditionSpec),
}

/// The checks of one binding: its actions, then its conditions.
pub open spec fn binding_checks(binding: Binding) -> Seq<ProviderCheck> {
    binding.actions@.map_values(|action: ActionSpec| ProviderCheck::Action(action))
        + binding.conditions@.map_values(
        |condition: ConditionSpec| ProviderCheck::Condition(condition),
    )
}

/// The checks of a list of bindings, in order.
pub open spec fn all_checks(bindings: Seq<Binding>) -> Seq<ProviderCheck>
    decreases bindings.len(),
{
    if bindings.len() == 0 {
        Seq::empty()
    } else {
        all_checks(bindings.drop_last()) + binding_checks(bindings.last())
    }
}

fn push_checks(checks: &mut Vec<ProviderCheck>, binding: &Binding)
    ensures
        final(checks)@ == old(checks)@ + binding_checks(*binding),
{
    let ghost before = checks@;
    let ghost actions = binding.actions@.map_values(
        |action: ActionSpec| ProviderCheck::Action(action),
    );
    let ghost conditions = binding.conditions@.map_values(
        |condition: ConditionSpec| ProviderCheck::Condition(condition),
    );
    let mut index: usize = 0;
    while index < binding.actions.len()
        invariant
            index <= binding.actions@.len(),
            actions == binding.actions@.map_values(
                |action: ActionSpec| ProviderCheck::Action(action),
            ),
            checks@ == before + actions.take(index as int),
        decreases binding.actions@.len() - index,
    {
        checks.push(ProviderCheck::Action(binding.actions[index].clone()));
        assert(checks@ =~= before + actions.take(index + 1));
        index = index + 1;
    }
    let ghost middle = checks@;
    assert(middle =~= before + actions);
    index = 0;
    while index < binding.conditions.len()
        invariant
            index <= binding.conditions@.len(),
            conditions == binding.conditions@.map_values(
                |condition: ConditionSpec| ProviderCheck::Condition(condition),
            ),
            checks@ == middle + conditions.take(index as int),
        decreases binding.conditions@.len() - index,
    {
        checks.push(ProviderCheck::Condition(binding.conditions[index].clone()));
        assert(checks@ =~= middle + conditions.take(index + 1));
        index = index + 1;
    }
    assert(checks@ =~= before + (actions + conditions));
}

/// Matches events against a valid configuration.
#[derive(Debug)]
pub struct Engine {
    config: Config,
}

impl View for Engine {
    type V = Config;

    closed spec fn view(&self) -> Config {
        self.config
    }
}

impl Engine {
    #[verifier::type_invariant]
    closed spec fn valid(self) -> bool {
        self.config.fault() is None
    }

    /// Takes a configuration, where it is valid.
    pub fn new(config: Config) -> (result: Result<Engine, ConfigError>)
        ensures
            result is Ok <==> config.fault() is None,
            result matches Ok(engine) ==> engine@ == config,
            result matches Err(error) ==> Some(error@) == config.fault(),
    {
        match config.validate() {
            Ok(()) => Ok(Engine { config }),
            Err(error) => Err(error),
        }
    }

    /// The configuration; it is valid.
    pub fn config(&self) -> (config: &Config)
        ensures
            *config == self@,
            config.fault() is None,
    {
        proof {
            use_type_invariant(self);
        }
        &self.config
    }

    /// What must be checked with the providers: the actions and conditions of
    /// each binding, in the order in which they are checked.
    pub fn validate_providers(&self) -> (checks: Vec<ProviderCheck>)
        ensures
            checks@ == all_checks(self@.bindings@),
    {
        let mut checks: Vec<ProviderCheck> = Vec::new();
        let ghost bindings = self.config.bindings@;
        let mut index: usize = 0;
        while index < self.config.bindings.len()
            invariant
                index <= self.config.bindings@.len(),
                bindings == self.config.bindings@,
                checks@ == all_checks(bindings.take(index as int)),
            decreases self.config.bindings@.len() - index,
        {
            push_checks(&mut checks, &self.config.bindings[index]);
            assert(bindings.take(index + 1).drop_last() =~= bindings.take(index as int));
            index = index + 1;
        }
        assert(bindings.take(index as int) =~= bindings);
        checks
    }

    /// The bindings that an event selects, in the order in which they are
    /// considered.
    fn candidates(&self, event: &InputEvent) -> (order: Vec<usize>)
        ensures
            is_order(self@.bindings@, event@, order@),
    {
        proof {
            use_type_invariant(self);
            crate::config::law_valid_bindings_are_distinct(self.config);
        }
        let ghost bindings = self.config.bindings@;
        let mut order: Vec<usize> = Vec::new();
        let mut index: usize = 0;
        while index < self.config.bindings.len()
            invariant
                index <= self.config.bindings@.len(),
                bindings == self.config.bindings@,
                forall|i: int, j: int|
                    0 <= i < j < bindings.len() ==> (#[trigger] bindings[i]).id@ != (
                    #[trigger] bindings[j]).id@,
                forall|i: int|
                    0 <= i < order@.len() ==> (#[trigger] order@[i]) < index && selected(
                        bindings[order@[i] as int],
                        event@,
                    ),
                forall|place: usize|
                    place < index && selected(#[trigger] bindings[place as int], event@)
                        ==> order@.contains(place),
                forall|i: int, j: int|
                    0 <= i < j < order@.len() ==> goes_before(
                        bindings[#[trigger] order@[i] as int],
                        bindings[#[trigger] order@[j] as int],
                    ),
            decreases self.config.bindings@.len() - index,
        {
            let binding = &self.config.bindings[index];
            let ghost before = order@;
            if binding.enabled && trigger_matches(&binding.trigger, event) {
                let mut at: usize = 0;
                while at < order.len() && comes_first(&self.config.bindings[order[at]], binding)
                    invariant
                        at <= order@.len(),
                        order@ == before,
                        index < self.config.bindings@.len(),
                        bindings == self.config.bindings@,
                        *binding == bindings[index as int],
                        forall|i: int| 0 <= i < order@.len() ==> (#[trigger] order@[i]) < index,
                        forall|i: int|
                            0 <= i < at ==> goes_before(
                                bindings[#[trigger] order@[i] as int],
                                *binding,
                            ),
                    decreases order@.len() - at,
                {
                    at = at + 1;
                }
                proof {
                    assert forall|i: int| at <= i < before.len() implies goes_before(
                        *binding,
                        bindings[#[trigger] before[i] as int],
                    ) by {
                        let pivot = bindings[before[at as int] as int];
                        lemma_goes_before(*binding, pivot, bindings[before[i] as int]);
                        if i > at {
                            assert(goes_before(pivot, bindings[before[i] as int]));
                        }
                    }
                }
                order.insert(at, index);
                proof {
                    let after = order@;
                    assert forall|i: int, j: int| 0 <= i < j < after.len() implies goes_before(
                        bindings[#[trigger] after[i] as int],
                        bindings[#[trigger] after[j] as int],
                    ) by {
                        if i < at && j < at {
                            assert(after[i] == before[i] && after[j] == before[j]);
                        } else if i < at && j == at {
                            assert(after[i] == before[i]);
                        } else if i < at {
                            assert(after[i] == before[i] && after[j] == before[j - 1]);
                        } else if i == at {
                            assert(after[j] == before[j - 1]);
                        } else {
                            assert(after[i] == before[i - 1] && after[j] == before[j - 1]);
                        }
                    }
                    assert forall|i: int| 0 <= i < after.len() implies (#[trigger] after[i]) < index
                        + 1 && selected(bindings[after[i] as int], event@) by {
                        if i < at {
                            assert(after[i] == before[i]);
                        } else if i > at {
                            assert(after[i] == before[i - 1]);
                        }
                    }
                    assert forall|place: usize|
                        place < index + 1 && selected(
                            #[trigger] bindings[place as int],
                            event@,
                        ) implies after.contains(place) by {
                        if place == index {
                            assert(after[at as int] == place);
                        } else {
                            assert(before.contains(place));
                            let i = choose|i: int| 0 <= i < before.len() && before[i] == place;
                            if i < at {
                                assert(after[i] == place);
                            } else {
                                assert(after[i + 1] == place);
                            }
                        }
                    }
                }
            }
            index = index + 1;
        }
        order
    }

    /// Starts a plan for an event.
    pub fn plan(&self, event: &InputEvent) -> (result: Result<PlanState, PlanError>)
        ensures
            result is Ok <==> event.schema_version == 1,
            result matches Err(error) ==> error == (PlanError::UnsupportedSchema {
                version: event.schema_version,
            }),
            result matches Ok(state) ==> {
                &&& state@.wf(self@.bindings@)
                &&& state@.event_id == event.id
                &&& is_order(self@.bindings@, event@, state@.order)
                &&& forall|holds: spec_fn(int, int) -> bool| #[trigger]
                    state@.outcome(self@.bindings@, holds) == planned_from(
                        self@.bindings@,
                        state@.order,
                        0,
                        holds,
                    )
            },
    {
        if event.schema_version != 1 {
            return Err(PlanError::UnsupportedSchema { version: event.schema_version });
        }
        let order = self.candidates(event);
        let mut state = PlanState {
            event_id: event.id,
            order,
            position: 0,
            condition: 0,
            planned: Vec::new(),
        };
        self.settle(&mut state);
        Ok(state)
    }

    /// Takes in bindings without a condition left to evaluate.
    fn settle(&self, state: &mut PlanState)
        requires
            0 <= old(state)@.position <= old(state)@.order.len(),
            forall|i: int|
                0 <= i < old(state)@.order.len() ==> (#[trigger] old(state)@.order[i])
                    < self@.bindings@.len(),
            old(state)@.pending() ==> old(state)@.condition <= self@.bindings@[old(
                state,
            )@.order[old(state)@.position] as int].conditions@.len(),
        ensures
            final(state)@.wf(self@.bindings@),
            final(state)@.event_id == old(state)@.event_id,
            final(state)@.order == old(state)@.order,
            forall|holds: spec_fn(int, int) -> bool| #[trigger]
                final(state)@.outcome(self@.bindings@, holds) == old(state)@.outcome(
                    self@.bindings@,
                    holds,
                ),
            final(state)@.position >= old(state)@.position,
            final(state)@.position == old(state)@.position ==> final(state)@.condition == old(
                state,
            )@.condition,
    {
        let ghost start = state@;
        let ghost bindings = self@.bindings@;
        while state.position < state.order.len() && state.condition
            == self.config.bindings[state.order[state.position]].conditions.len()
            invariant
                bindings == self.config.bindings@,
                bindings == self@.bindings@,
                state@.event_id == start.event_id,
                state@.order == start.order,
                state.position <= state.order@.len(),
                start.position <= state@.position,
                state@.position == start.position ==> state@.condition == start.condition,
                forall|i: int|
                    0 <= i < state.order@.len() ==> (#[trigger] state.order@[i]) < bindings.len(),
                state@.pending() ==> state.condition
                    <= bindings[state.order@[state.position as int] as int].conditions@.len(),
                forall|holds: spec_fn(int, int) -> bool| #[trigger]
                    state@.outcome(bindings, holds) == start.outcome(bindings, holds),
            decreases state.order@.len() - state.position,
        {
            let ghost before = state@;
            let binding = &self.config.bindings[state.order[state.position]];
            let planned = PlannedBinding {
                id: binding.id.clone(),
                priority: binding.priority,
                consume: binding.consume,
                actions: clone_actions(&binding.actions),
            };
            assert(planned@ == as_planned(*binding));
            let ghost views = planned_views(state.planned@);
            state.planned.push(planned);
            assert(planned_views(state.planned@) =~= views.push(as_planned(*binding)));
            if binding.consume {
                state.position = state.order.len();
            } else {
                state.position = state.position + 1;
            }
            state.condition = 0;
            proof {
                assert forall|holds: spec_fn(int, int) -> bool| #[trigger]
                    state@.outcome(bindings, holds) == before.outcome(bindings, holds) by {
                    assert(all_hold(
                        bindings,
                        before.order[before.position] as int,
                        before.condition,
                        holds,
                    ));
                    let rest = planned_from(bindings, before.order, before.position + 1, holds);
                    if binding.consume {
                        assert(views + seq![as_planned(*binding)] =~= views.push(
                            as_planned(*binding),
                        ));
                    } else {
                        assert(views + (seq![as_planned(*binding)] + rest) =~= views.push(
                            as_planned(*binding),
                        ) + rest);
                        assert(rest == planned_from(
                            bindings,
                            state@.order,
                            state@.position,
                            holds,
                        ));
                        assert(state@.planned + rest =~= state@.outcome(bindings, holds));
                    }
                }
            }
        }
    }

    /// The condition that a plan asks for next; `None` where it is complete.
    pub fn next_condition(&self, state: &PlanState) -> (condition: Option<&ConditionSpec>)
        requires
            state@.wf(self@.bindings@),
        ensures
            condition is Some <==> state@.pending(),
            condition matches Some(condition) ==> *condition
                == self@.bindings@[state@.order[state@.position] as int].conditions@[state@.condition],
    {
        if state.position < state.order.len() {
            let binding = &self.config.bindings[state.order[state.position]];
            Some(&binding.conditions[state.condition])
        } else {
            None
        }
    }

    /// Takes in whether the condition that was asked for holds. The plan comes
    /// to the same for every assignment of the conditions that agrees with the
    /// answer, and it moves on.
    pub fn answer(&self, state: &mut PlanState, held: bool)
        requires
            old(state)@.wf(self@.bindings@),
            old(state)@.pending(),
        ensures
            final(state)@.wf(self@.bindings@),
            final(state)@.event_id == old(state)@.event_id,
            final(state)@.order == old(state)@.order,
            forall|holds: spec_fn(int, int) -> bool|
                holds(old(state)@.order[old(state)@.position] as int, old(state)@.condition) == held
                    ==> #[trigger] final(state)@.outcome(self@.bindings@, holds) == old(
                    state,
                )@.outcome(self@.bindings@, holds),
            final(state)@.position > old(state)@.position || (final(state)@.position == old(
                state,
            )@.position && final(state)@.condition == old(state)@.condition + 1),
    {
        let ghost before = state@;
        let ghost bindings = self@.bindings@;
        let total: usize = state.order.len();
        let conditions: usize = self.config.bindings[state.order[state.position]].conditions.len();
        assert(state.position < total && state.condition < conditions);
        if held {
            state.condition = state.condition + 1;
        } else {
            state.position = state.position + 1;
            state.condition = 0;
        }
        proof {
            let place = before.order[before.position] as int;
            assert forall|holds: spec_fn(int, int) -> bool|
                holds(place, before.condition) == held implies #[trigger] state@.outcome(
                bindings,
                holds,
            ) == before.outcome(bindings, holds) by {
                if held {
                    assert(all_hold(bindings, place, before.condition, holds) == all_hold(
                        bindings,
                        place,
                        before.condition + 1,
                        holds,
                    ));
                } else {
                    assert(!all_hold(bindings, place, before.condition, holds));
                    assert(before.planned + Seq::<PlannedView>::empty() =~= before.planned);
                }
            }
        }
        self.settle(state);
    }

    /// The finished plan.
    pub fn finish_plan(&self, state: PlanState) -> (plan: DispatchPlan)
        requires
            !state@.pending(),
        ensures
            plan.event_id == state@.event_id,
            planned_views(plan.bindings@) == state@.planned,
    {
        DispatchPlan { event_id: state.event_id, bindings: state.planned }
    }
}

proof fn lemma_same_order(
    bindings: Seq<Binding>,
    left: Seq<usize>,
    right: Seq<usize>,
)
    requires
        forall|i: int, j: int|
            0 <= i < j < left.len() ==> goes_before(
                bindings[#[trigger] left[i] as int],
                bindings[#[trigger] left[j] as int],
            ),
        forall|i: int, j: int|
            0 <= i < j < right.len() ==> goes_before(
                bindings[#[trigger] right[i] as int],
                bindings[#[trigger] right[j] as int],
            ),
        forall|place: usize| #[trigger] left.contains(place) <==> right.contains(place),
    ensures
        left == right,
    decreases left.len(),
{
    if left.len() == 0 {
        if right.len() > 0 {
            assert(right.contains(right[0]));
            assert(left.contains(right[0]));
        }
        assert(left =~= right);
    } else {
        assert(left.contains(left[0]));
        let j = choose|j: int| 0 <= j < right.len() && right[j] == left[0];
        assert(right.contains(right[0]));
        assert(left.contains(right[0]));
        let i = choose|i: int| 0 <= i < left.len() && left[i] == right[0];
        if i > 0 && j > 0 {
            assert(goes_before(bindings[left[0] as int], bindings[left[i] as int]));
            assert(goes_before(bindings[right[0] as int], bindings[right[j] as int]));
            lemma_goes_before(
                bindings[left[0] as int],
                bindings[right[0] as int],
                bindings[left[0] as int],
            );
        }
        assert(left[0] == right[0]);
        let left_rest = left.drop_first();
        let right_rest = right.drop_first();
        assert forall|place: usize| #[trigger] left_rest.contains(place) implies right_rest.contains(
            place,
        ) by {
            let k = choose|k: int| 0 <= k < left_rest.len() && left_rest[k] == place;
            assert(left[k + 1] == place);
            assert(left.contains(place));
            let m = choose|m: int| 0 <= m < right.len() && right[m] == place;
            if m == 0 {
                assert(goes_before(bindings[left[0] as int], bindings[left[k + 1] as int]));
                lemma_goes_before(
                    bindings[place as int],
                    bindings[place as int],
                    bindings[place as int],
                );
            }
            assert(right_rest[m - 1] == place);
        }
        assert forall|place: usize| #[trigger] right_rest.contains(place) implies left_rest.contains(
            place,
        ) by {
            let k = choose|k: int| 0 <= k < right_rest.len() && right_rest[k] == place;
            assert(right[k + 1] == place);
            assert(right.contains(place));
            assert(left.contains(place));
            let m = choose|m: int| 0 <= m < left.len() && left[m] == place;
            if m == 0 {
                assert(goes_before(bindings[right[0] as int], bindings[right[k + 1] as int]));
                lemma_goes_before(
                    bindings[place as int],
                    bindings[place as int],
                    bindings[place as int],
                );
            }
            assert(left_rest[m - 1] == place);
        }
        lemma_same_order(bindings, left_rest, right_rest);
        assert(left =~= seq![left[0]] + left_rest);
        assert(right =~= seq![right[0]] + right_rest);
    }
}

/// There is one order in which the bindings that an event selects are
/// considered.
pub proof fn law_the_order_is_unique(
    bindings: Seq<Binding>,
    event: crate::event::EventView,
    left: Seq<usize>,
    right: Seq<usize>,
)
    requires
        bindings.len() <= usize::MAX,
        is_order(bindings, event, left),
        is_order(bindings, event, right),
    ensures
        left == right,
{
    assert forall|place: usize| #[trigger] left.contains(place) implies right.contains(place) by {
        let i = choose|i: int| 0 <= i < left.len() && left[i] == place;
        assert(selected(bindings[place as int], event));
    }
    assert forall|place: usize| right.contains(place) implies #[trigger] left.contains(place) by {
        let i = choose|i: int| 0 <= i < right.len() && right[i] == place;
        assert(selected(bindings[place as int], event));
    }
    lemma_same_order(bindings, left, right);
}

/// Whether a planned binding is one of those in `order` from `at` on, and its
/// conditions all hold.
pub open spec fn rightly_planned(
    bindings: Seq<Binding>,
    order: Seq<usize>,
    at: int,
    holds: spec_fn(int, int) -> bool,
    planned: PlannedView,
) -> bool {
    exists|k: int|
        at <= k < order.len() && all_hold(bindings, #[trigger] order[k] as int, 0, holds) && planned
            == as_planned(bindings[order[k] as int])
}

proof fn lemma_planned(
    bindings: Seq<Binding>,
    order: Seq<usize>,
    at: int,
    holds: spec_fn(int, int) -> bool,
)
    requires
        0 <= at <= order.len(),
    ensures
        forall|i: int|
            0 <= i < planned_from(bindings, order, at, holds).len() ==> rightly_planned(
                bindings,
                order,
                at,
                holds,
                #[trigger] planned_from(bindings, order, at, holds)[i],
            ),
        forall|i: int|
            0 <= i < planned_from(bindings, order, at, holds).len() - 1 ==> !(
            #[trigger] planned_from(bindings, order, at, holds)[i]).consume,
    decreases order.len() - at,
{
    if at < order.len() {
        lemma_planned(bindings, order, at + 1, holds);
        let whole = planned_from(bindings, order, at, holds);
        let rest = planned_from(bindings, order, at + 1, holds);
        let place = order[at] as int;
        let shift: int = if all_hold(bindings, place, 0, holds) {
            1
        } else {
            0
        };
        assert forall|i: int| 0 <= i < whole.len() implies rightly_planned(
            bindings,
            order,
            at,
            holds,
            #[trigger] whole[i],
        ) by {
            if i < shift {
                assert(whole[i] == as_planned(bindings[order[at] as int]));
            } else {
                assert(whole[i] == rest[i - shift]);
                assert(rightly_planned(bindings, order, at + 1, holds, rest[i - shift]));
            }
        }
        assert forall|i: int| 0 <= i < whole.len() - 1 implies !(#[trigger] whole[i]).consume by {
            if i >= shift {
                assert(whole[i] == rest[i - shift]);
            }
        }
    }
}

/// Only bindings whose conditions all hold are planned, and one that consumes
/// the event is the last.
pub proof fn law_consuming_ends_the_plan(
    bindings: Seq<Binding>,
    order: Seq<usize>,
    holds: spec_fn(int, int) -> bool,
)
    ensures
        forall|i: int|
            0 <= i < planned_from(bindings, order, 0, holds).len() ==> rightly_planned(
                bindings,
                order,
                0,
                holds,
                #[trigger] planned_from(bindings, order, 0, holds)[i],
            ),
        forall|i: int|
            0 <= i < planned_from(bindings, order, 0, holds).len() - 1 ==> !(
            #[trigger] planned_from(bindings, order, 0, holds)[i]).consume,
{
    lemma_planned(bindings, order, 0, holds);
}

} // verus!
