//! Which bindings an event runs and in which order, and what is reported of them, in
//! terms of the bindings, of the conditions that hold and of how each action goes.

use vstd::prelude::*;

use crate::config::{ActionSpec, Binding};
use crate::dispatch::{outcomes_from, reports_from, stops_dispatch, Attempt};
use crate::engine::{all_checks, all_hold, is_order, planned_from, PlannedView, ProviderCheck};
use crate::event::EventView;
use crate::provider::OutcomeView;
use crate::text::precedes;
use crate::trigger::trigger_match;

verus! {

/// Whether an event is to run the binding at a place: it is enabled, its trigger matches
/// and each of its conditions holds.
pub open spec fn is_due(
    bindings: Seq<Binding>,
    event: EventView,
    holds: spec_fn(int, int) -> bool,
    place: int,
) -> bool {
    &&& 0 <= place < bindings.len()
    &&& bindings[place].enabled
    &&& trigger_match(bindings[place].trigger, event)
    &&& forall|i: int| 0 <= i < bindings[place].conditions@.len() ==> #[trigger] holds(place, i)
}

/// Whether a planned binding is a given one, with all of its actions in their order.
pub open spec fn is_plan_of(planned: PlannedView, binding: Binding) -> bool {
    &&& planned.id == binding.id@
    &&& planned.priority == binding.priority
    &&& planned.consume == binding.consume
    &&& planned.actions == binding.actions@
}

/// Whether a planned binding runs before a binding: it has a higher priority, or the
/// same one and an identity that comes first.
pub open spec fn runs_before(planned: PlannedView, priority: i32, id: Seq<char>) -> bool {
    planned.priority > priority || (planned.priority == priority && precedes(planned.id, id))
}

/// Whether a due binding is accounted for in a plan: it is planned, or a planned binding
/// that runs before it consumes the event.
pub open spec fn is_accounted_for(plan: Seq<PlannedView>, binding: Binding) -> bool {
    (exists|i: int| 0 <= i < plan.len() && is_plan_of(#[trigger] plan[i], binding)) || (exists|
        i: int,
    |
        0 <= i < plan.len() && (#[trigger] plan[i]).consume && runs_before(
            plan[i],
            binding.priority,
            binding.id@,
        ))
}

/// Whether a planned binding is a due one, from a place of the order on.
spec fn is_planned_from(
    bindings: Seq<Binding>,
    event: EventView,
    order: Seq<usize>,
    at: int,
    holds: spec_fn(int, int) -> bool,
    planned: PlannedView,
) -> bool {
    exists|k: int|
        at <= k < order.len() && is_due(bindings, event, holds, #[trigger] order[k] as int)
            && is_plan_of(planned, bindings[order[k] as int])
}

proof fn lemma_plan_from(
    bindings: Seq<Binding>,
    event: EventView,
    order: Seq<usize>,
    at: int,
    holds: spec_fn(int, int) -> bool,
)
    requires
        is_order(bindings, event, order),
        0 <= at <= order.len(),
    ensures
        ({
            let plan = planned_from(bindings, order, at, holds);
            &&& forall|i: int|
                0 <= i < plan.len() ==> is_planned_from(
                    bindings,
                    event,
                    order,
                    at,
                    holds,
                    #[trigger] plan[i],
                )
            &&& forall|i: int, j: int|
                0 <= i < j < plan.len() ==> runs_before(
                    #[trigger] plan[i],
                    (#[trigger] plan[j]).priority,
                    plan[j].id,
                )
            &&& forall|i: int| 0 <= i < plan.len() - 1 ==> !(#[trigger] plan[i]).consume
            &&& forall|k: int|
                at <= k < order.len() && is_due(bindings, event, holds, #[trigger] order[k] as int)
                    ==> is_accounted_for(plan, bindings[order[k] as int])
        }),
    decreases order.len() - at,
{
    if at < order.len() {
        lemma_plan_from(bindings, event, order, at + 1, holds);
        let plan = planned_from(bindings, order, at, holds);
        let rest = planned_from(bindings, order, at + 1, holds);
        let place = order[at] as int;
        let binding = bindings[place];
        assert(is_due(bindings, event, holds, place) <==> all_hold(bindings, place, 0, holds));
        if all_hold(bindings, place, 0, holds) {
            assert(is_plan_of(plan[0], binding));
            assert forall|i: int| 0 <= i < plan.len() implies is_planned_from(
                bindings,
                event,
                order,
                at,
                holds,
                #[trigger] plan[i],
            ) by {
                if i == 0 {
                    assert(is_due(bindings, event, holds, order[at] as int));
                } else {
                    assert(plan[i] == rest[i - 1]);
                    assert(is_planned_from(bindings, event, order, at + 1, holds, rest[i - 1]));
                    let k = choose|k: int|
                        at + 1 <= k < order.len() && is_due(
                            bindings,
                            event,
                            holds,
                            #[trigger] order[k] as int,
                        ) && is_plan_of(rest[i - 1], bindings[order[k] as int]);
                    assert(is_due(bindings, event, holds, order[k] as int));
                }
            }
            assert forall|i: int, j: int| 0 <= i < j < plan.len() implies runs_before(
                #[trigger] plan[i],
                (#[trigger] plan[j]).priority,
                plan[j].id,
            ) by {
                assert(plan[j] == rest[j - 1]);
                if i == 0 {
                    assert(is_planned_from(bindings, event, order, at + 1, holds, rest[j - 1]));
                    let k = choose|k: int|
                        at + 1 <= k < order.len() && is_due(
                            bindings,
                            event,
                            holds,
                            #[trigger] order[k] as int,
                        ) && is_plan_of(rest[j - 1], bindings[order[k] as int]);
                    assert(crate::engine::goes_before(
                        bindings[order[at] as int],
                        bindings[order[k] as int],
                    ));
                } else {
                    assert(plan[i] == rest[i - 1]);
                }
            }
            assert forall|i: int| 0 <= i < plan.len() - 1 implies !(#[trigger] plan[i]).consume by {
                if i > 0 {
                    assert(plan[i] == rest[i - 1]);
                }
            }
            assert forall|k: int|
                at <= k < order.len() && is_due(
                    bindings,
                    event,
                    holds,
                    #[trigger] order[k] as int,
                ) implies is_accounted_for(plan, bindings[order[k] as int]) by {
                let other = bindings[order[k] as int];
                if k > at {
                    if binding.consume {
                        assert(crate::engine::goes_before(binding, other));
                        assert(plan[0].consume && runs_before(plan[0], other.priority, other.id@));
                    } else {
                        assert(is_accounted_for(rest, other));
                        if exists|i: int| 0 <= i < rest.len() && is_plan_of(#[trigger] rest[i], other) {
                            let i = choose|i: int|
                                0 <= i < rest.len() && is_plan_of(#[trigger] rest[i], other);
                            assert(is_plan_of(plan[i + 1], other));
                        } else {
                            let i = choose|i: int|
                                0 <= i < rest.len() && (#[trigger] rest[i]).consume && runs_before(
                                    rest[i],
                                    other.priority,
                                    other.id@,
                                );
                            assert(plan[i + 1].consume);
                        }
                    }
                }
            }
        } else {
            assert forall|i: int| 0 <= i < plan.len() implies is_planned_from(
                bindings,
                event,
                order,
                at,
                holds,
                #[trigger] plan[i],
            ) by {
                assert(is_planned_from(bindings, event, order, at + 1, holds, rest[i]));
                let k = choose|k: int|
                    at + 1 <= k < order.len() && is_due(
                        bindings,
                        event,
                        holds,
                        #[trigger] order[k] as int,
                    ) && is_plan_of(rest[i], bindings[order[k] as int]);
                assert(is_due(bindings, event, holds, order[k] as int));
            }
            assert forall|k: int|
                at <= k < order.len() && is_due(
                    bindings,
                    event,
                    holds,
                    #[trigger] order[k] as int,
                ) implies is_accounted_for(plan, bindings[order[k] as int]) by {
                assert(k != at);
                assert(is_accounted_for(rest, bindings[order[k] as int]));
            }
            assert(plan == rest);
        }
    }
}

/// An event runs exactly the bindings that are enabled, whose trigger matches it and
/// whose conditions all hold, by falling priority and, where that is equal, by rising
/// identity, up to and with the first that consumes the event.
pub proof fn law_plans(
    bindings: Seq<Binding>,
    event: EventView,
    order: Seq<usize>,
    holds: spec_fn(int, int) -> bool,
    place: int,
)
    requires
        bindings.len() <= usize::MAX,
        is_order(bindings, event, order),
    ensures
        ({
            let plan = planned_from(bindings, order, 0, holds);
            &&& forall|i: int|
                0 <= i < plan.len() ==> exists|from: int| #[trigger]
                    is_due(bindings, event, holds, from) && is_plan_of(
                        #[trigger] plan[i],
                        bindings[from],
                    )
            &&& forall|i: int, j: int|
                0 <= i < j < plan.len() ==> runs_before(
                    #[trigger] plan[i],
                    (#[trigger] plan[j]).priority,
                    plan[j].id,
                )
            &&& forall|i: int| 0 <= i < plan.len() - 1 ==> !(#[trigger] plan[i]).consume
            &&& is_due(bindings, event, holds, place) ==> is_accounted_for(plan, bindings[place])
        }),
{
    lemma_plan_from(bindings, event, order, 0, holds);
    let plan = planned_from(bindings, order, 0, holds);
    assert forall|i: int| 0 <= i < plan.len() implies exists|from: int| #[trigger]
        is_due(bindings, event, holds, from) && is_plan_of(#[trigger] plan[i], bindings[from]) by {
        assert(is_planned_from(bindings, event, order, 0, holds, plan[i]));
        let k = choose|k: int|
            0 <= k < order.len() && is_due(bindings, event, holds, #[trigger] order[k] as int)
                && is_plan_of(plan[i], bindings[order[k] as int]);
        assert(is_due(bindings, event, holds, order[k] as int));
    }
    if is_due(bindings, event, holds, place) {
        assert(crate::engine::selected(bindings[(place as usize) as int], event));
        assert(order.contains(place as usize));
        let k = choose|k: int| 0 <= k < order.len() && order[k] == place as usize;
        assert(is_due(bindings, event, holds, order[k] as int));
    }
}

/// The providers that a valid set of bindings is checked against are those of every
/// action and every condition of every binding, disabled ones too.
pub proof fn law_every_provider_is_checked(bindings: Seq<Binding>, place: int, i: int)
    requires
        0 <= place < bindings.len(),
    ensures
        0 <= i < bindings[place].actions@.len() ==> all_checks(bindings).contains(
            ProviderCheck::Action(bindings[place].actions@[i]),
        ),
        0 <= i < bindings[place].conditions@.len() ==> all_checks(bindings).contains(
            ProviderCheck::Condition(bindings[place].conditions@[i]),
        ),
    decreases bindings.len(),
{
    let earlier = all_checks(bindings.drop_last());
    let all = all_checks(bindings);
    if place < bindings.len() - 1 {
        law_every_provider_is_checked(bindings.drop_last(), place, i);
        assert forall|check: ProviderCheck| earlier.contains(check) implies all.contains(check) by {
            let k = choose|k: int| 0 <= k < earlier.len() && earlier[k] == check;
            assert(all[k] == check);
        }
    } else {
        let actions = bindings[place].actions@;
        if 0 <= i < actions.len() {
            assert(all[earlier.len() + i] == ProviderCheck::Action(actions[i]));
        }
        if 0 <= i < bindings[place].conditions@.len() {
            assert(all[earlier.len() + actions.len() + i] == ProviderCheck::Condition(
                bindings[place].conditions@[i],
            ));
        }
    }
}

/// Whether an attempt fails under a policy other than to continue.
pub open spec fn stops_binding(action: ActionSpec, attempt: Attempt) -> bool {
    attempt is Err && !(action.on_error is Continue)
}

/// Whether no action of a binding, from one on and before another, stops the binding.
pub open spec fn runs_on(
    actions: Seq<ActionSpec>,
    place: int,
    from: int,
    at: int,
    attempts: spec_fn(int, int) -> Attempt,
) -> bool {
    forall|k: int| from <= k < at ==> !stops_binding(#[trigger] actions[k], attempts(place, k))
}

/// Whether an outcome says how an action went: what its provider reports, or that it
/// failed and why.
pub open spec fn tells(outcome: OutcomeView, action: ActionSpec, attempt: Attempt) -> bool {
    match attempt {
        Ok(reported) => outcome == reported@,
        Err(message) => {
            &&& outcome.provider == action.provider@
            &&& outcome.action == action.action@
            &&& !outcome.success
            &&& outcome.message == Some(message@)
        },
    }
}

proof fn lemma_outcomes(
    actions: Seq<ActionSpec>,
    place: int,
    from: int,
    at: int,
    attempts: spec_fn(int, int) -> Attempt,
)
    requires
        0 <= from <= at,
    ensures
        ({
            let outcomes = outcomes_from(actions, place, from, attempts);
            &&& at - from < outcomes.len() <==> at < actions.len() && runs_on(
                actions,
                place,
                from,
                at,
                attempts,
            )
            &&& at - from < outcomes.len() ==> tells(
                outcomes[at - from],
                actions[at],
                attempts(place, at),
            )
        }),
    decreases actions.len() - from,
{
    if from < actions.len() && from < at {
        lemma_outcomes(actions, place, from + 1, at, attempts);
        let rest = outcomes_from(actions, place, from + 1, attempts);
        let outcomes = outcomes_from(actions, place, from, attempts);
        if stops_binding(actions[from], attempts(place, from)) {
            assert(outcomes.len() == 1);
            assert(!runs_on(actions, place, from, at, attempts));
        } else {
            assert(outcomes.len() == rest.len() + 1);
            assert(at - from < outcomes.len() ==> outcomes[at - from] == rest[at - from - 1]);
            assert(runs_on(actions, place, from, at, attempts) == runs_on(
                actions,
                place,
                from + 1,
                at,
                attempts,
            )) by {
                if runs_on(actions, place, from + 1, at, attempts) {
                    assert forall|k: int| from <= k < at implies !stops_binding(
                        #[trigger] actions[k],
                        attempts(place, k),
                    ) by {}
                }
            }
        }
    }
}

/// Whether an action of a binding is reached and stops the whole dispatch.
pub open spec fn stops_all_at(
    actions: Seq<ActionSpec>,
    place: int,
    at: int,
    attempts: spec_fn(int, int) -> Attempt,
) -> bool {
    &&& 0 <= at < actions.len()
    &&& runs_on(actions, place, 0, at, attempts)
    &&& attempts(place, at) is Err
    &&& actions[at].on_error is StopDispatch
}

proof fn lemma_stops_dispatch(
    actions: Seq<ActionSpec>,
    place: int,
    from: int,
    attempts: spec_fn(int, int) -> Attempt,
)
    requires
        0 <= from <= actions.len(),
        runs_on(actions, place, 0, from, attempts),
    ensures
        stops_dispatch(actions, place, from, attempts) <==> exists|at: int|
            from <= at && #[trigger] stops_all_at(actions, place, at, attempts),
    decreases actions.len() - from,
{
    if from < actions.len() {
        if stops_binding(actions[from], attempts(place, from)) {
            assert forall|at: int| from < at implies !#[trigger] stops_all_at(
                actions,
                place,
                at,
                attempts,
            ) by {
                assert(stops_binding(actions[from], attempts(place, from)));
            }
            if actions[from].on_error is StopDispatch {
                assert(stops_all_at(actions, place, from, attempts));
            }
        } else {
            assert(runs_on(actions, place, 0, from + 1, attempts));
            lemma_stops_dispatch(actions, place, from + 1, attempts);
            if stops_dispatch(actions, place, from + 1, attempts) {
                let at = choose|at: int|
                    from + 1 <= at && #[trigger] stops_all_at(actions, place, at, attempts);
                assert(stops_all_at(actions, place, at, attempts));
            }
            assert(!stops_all_at(actions, place, from, attempts));
        }
    }
}

/// Whether no binding, from one on and before another, stops the whole dispatch.
pub open spec fn dispatch_goes_on(
    bindings: Seq<PlannedView>,
    from: int,
    place: int,
    attempts: spec_fn(int, int) -> Attempt,
) -> bool {
    forall|p: int, at: int|
        from <= p < place ==> !#[trigger] stops_all_at(bindings[p].actions, p, at, attempts)
}

proof fn lemma_reports(
    bindings: Seq<PlannedView>,
    from: int,
    place: int,
    at: int,
    attempts: spec_fn(int, int) -> Attempt,
)
    requires
        0 <= from <= place,
        0 <= at,
    ensures
        ({
            let reports = reports_from(bindings, from, attempts);
            &&& place - from < reports.len() <==> place < bindings.len() && dispatch_goes_on(
                bindings,
                from,
                place,
                attempts,
            )
            &&& place - from < reports.len() ==> {
                let report = reports[place - from];
                let actions = bindings[place].actions;
                &&& report.id == bindings[place].id
                &&& at < report.outcomes.len() <==> at < actions.len() && runs_on(
                    actions,
                    place,
                    0,
                    at,
                    attempts,
                )
                &&& at < report.outcomes.len() ==> tells(
                    report.outcomes[at],
                    actions[at],
                    attempts(place, at),
                )
            }
        }),
    decreases bindings.len() - from,
{
    if from < bindings.len() {
        let actions = bindings[from].actions;
        lemma_stops_dispatch(actions, from, 0, attempts);
        let reports = reports_from(bindings, from, attempts);
        if from == place {
            lemma_outcomes(actions, place, 0, at, attempts);
        } else {
            lemma_reports(bindings, from + 1, place, at, attempts);
            let rest = reports_from(bindings, from + 1, attempts);
            if stops_dispatch(actions, from, 0, attempts) {
                assert(reports.len() == 1);
                let k = choose|k: int| 0 <= k && #[trigger] stops_all_at(actions, from, k, attempts);
                assert(stops_all_at(bindings[from].actions, from, k, attempts));
                assert(!dispatch_goes_on(bindings, from, place, attempts));
            } else {
                assert(reports.len() == rest.len() + 1);
                assert(place - from < reports.len() ==> reports[place - from] == rest[place - from
                    - 1]);
                assert(dispatch_goes_on(bindings, from, place, attempts) == dispatch_goes_on(
                    bindings,
                    from + 1,
                    place,
                    attempts,
                )) by {
                    if dispatch_goes_on(bindings, from + 1, place, attempts) {
                        assert forall|p: int, k: int|
                            from <= p < place implies !#[trigger] stops_all_at(
                            bindings[p].actions,
                            p,
                            k,
                            attempts,
                        ) by {
                            if p == from && k >= 0 {
                                assert(!stops_all_at(actions, from, k, attempts));
                            }
                        }
                    }
                }
            }
        }
    }
}

/// A dispatch reports its bindings in order, up to and with one in which an action that
/// was reached failed under the policy to stop the dispatch. Of a binding it reports the
/// actions in order, up to and with one that failed under a policy other than to
/// continue: of each what its provider reported, or that it failed and why.
pub proof fn law_dispatches(
    bindings: Seq<PlannedView>,
    place: int,
    at: int,
    attempts: spec_fn(int, int) -> Attempt,
)
    requires
        0 <= place,
        0 <= at,
    ensures
        ({
            let reports = reports_from(bindings, 0, attempts);
            &&& place < reports.len() <==> place < bindings.len() && dispatch_goes_on(
                bindings,
                0,
                place,
                attempts,
            )
            &&& place < reports.len() ==> {
                let actions = bindings[place].actions;
                &&& reports[place].id == bindings[place].id
                &&& at < reports[place].outcomes.len() <==> at < actions.len() && runs_on(
                    actions,
                    place,
                    0,
                    at,
                    attempts,
                )
                &&& at < reports[place].outcomes.len() ==> tells(
                    reports[place].outcomes[at],
                    actions[at],
                    attempts(place, at),
                )
            }
        }),
{
    lemma_reports(bindings, 0, place, at, attempts);
}

} // verus!
