//! Running a plan, and reporting what ran.
//!
//! Actions are executed by providers outside this module. A dispatch therefore
//! advances step by step: it names one action at a time and takes in how it
//! went.

use vstd::prelude::*;

use crate::config::{ActionSpec, ErrorPolicy};
use crate::engine::{DispatchPlan, PlannedBinding};
use crate::provider::ActionOutcome;

verus! {

/// What a [`BindingReport`] says.
#[verifier::ext_equal]
pub struct ReportView {
    pub id: Seq<char>,
    pub outcomes: Seq<crate::provider::OutcomeView>,
}

/// How the actions of one binding went.
#[derive(Debug, Clone)]
pub struct BindingReport {
    pub id: String,
    pub outcomes: Vec<ActionOutcome>,
}

/// The outcomes of a list, as they are reported.
pub open spec fn outcome_views(outcomes: Seq<ActionOutcome>) -> Seq<crate::provider::OutcomeView> {
    outcomes.map_values(|outcome: ActionOutcome| outcome@)
}

impl View for BindingReport {
    type V = ReportView;

    open spec fn view(&self) -> ReportView {
        ReportView { id: self.id@, outcomes: outcome_views(self.outcomes@) }
    }
}

/// The reports of a list.
pub open spec fn report_views(reports: Seq<BindingReport>) -> Seq<ReportView> {
    reports.map_values(|report: BindingReport| report@)
}

/// How the bindings of a plan went.
#[derive(Debug, Clone)]
pub struct DispatchReport {
    pub event_id: u128,
    pub bindings: Vec<BindingReport>,
}

/// How an attempt to execute an action went: what its provider reports, or the
/// error that it failed with.
pub type Attempt = Result<ActionOutcome, String>;

/// What is reported of an attempt.
pub open spec fn reported(action: ActionSpec, attempt: Attempt) -> crate::provider::OutcomeView {
    match attempt {
        Ok(outcome) => outcome@,
        Err(message) => crate::provider::failed(action, message@),
    }
}

/// What an attempt stops: nothing, unless it failed.
pub open spec fn stops(action: ActionSpec, attempt: Attempt) -> ErrorPolicy {
    match attempt {
        Ok(_) => ErrorPolicy::Continue,
        Err(_) => action.on_error,
    }
}

/// What is reported of the actions of the binding at `place`, from `at` on,
/// where `attempts` says how each action goes.
pub open spec fn outcomes_from(
    actions: Seq<ActionSpec>,
    place: int,
    at: int,
    attempts: spec_fn(int, int) -> Attempt,
) -> Seq<crate::provider::OutcomeView>
    decreases actions.len() - at,
{
    if at < 0 || at >= actions.len() {
        Seq::empty()
    } else {
        let attempt = attempts(place, at);
        let first = seq![reported(actions[at], attempt)];
        if stops(actions[at], attempt) is Continue {
            first + outcomes_from(actions, place, at + 1, attempts)
        } else {
            first
        }
    }
}

/// Whether an action of the binding at `place`, from `at` on, is reached and
/// stops the whole dispatch.
pub open spec fn stops_dispatch(
    actions: Seq<ActionSpec>,
    place: int,
    at: int,
    attempts: spec_fn(int, int) -> Attempt,
) -> bool
    decreases actions.len() - at,
{
    if at < 0 || at >= actions.len() {
        false
    } else {
        match stops(actions[at], attempts(place, at)) {
            ErrorPolicy::Continue => stops_dispatch(actions, place, at + 1, attempts),
            ErrorPolicy::StopBinding => false,
            ErrorPolicy::StopDispatch => true,
        }
    }
}

/// The reports of the bindings of a plan, from the one at `place` on: up to one
/// that stops the dispatch, or all.
pub open spec fn reports_from(
    bindings: Seq<crate::engine::PlannedView>,
    place: int,
    attempts: spec_fn(int, int) -> Attempt,
) -> Seq<ReportView>
    decreases bindings.len() - place,
{
    if place < 0 || place >= bindings.len() {
        Seq::empty()
    } else {
        let binding = bindings[place];
        let report = ReportView {
            id: binding.id,
            outcomes: outcomes_from(binding.actions, place, 0, attempts),
        };
        if stops_dispatch(binding.actions, place, 0, attempts) {
            seq![report]
        } else {
            seq![report] + reports_from(bindings, place + 1, attempts)
        }
    }
}

/// What a [`DispatchState`] holds.
#[verifier::ext_equal]
pub struct DispatchView {
    pub event_id: u128,
    pub bindings: Seq<crate::engine::PlannedView>,
    pub place: int,
    pub action: int,
    pub outcomes: Seq<crate::provider::OutcomeView>,
    pub reports: Seq<ReportView>,
}

impl DispatchView {
    pub open spec fn wf(self) -> bool {
        &&& 0 <= self.place <= self.bindings.len()
        &&& self.pending() ==> 0 <= self.action < self.bindings[self.place].actions.len()
    }

    /// Whether an action is still to be executed.
    pub open spec fn pending(self) -> bool {
        self.place < self.bindings.len()
    }

    /// The reports that the dispatch comes to.
    pub open spec fn outcome(self, attempts: spec_fn(int, int) -> Attempt) -> Seq<ReportView> {
        if !self.pending() {
            self.reports
        } else {
            let binding = self.bindings[self.place];
            let report = ReportView {
                id: binding.id,
                outcomes: self.outcomes + outcomes_from(
                    binding.actions,
                    self.place,
                    self.action,
                    attempts,
                ),
            };
            if stops_dispatch(binding.actions, self.place, self.action, attempts) {
                self.reports + seq![report]
            } else {
                self.reports + (seq![report] + reports_from(
                    self.bindings,
                    self.place + 1,
                    attempts,
                ))
            }
        }
    }
}

/// A dispatch under way.
#[derive(Debug)]
pub struct DispatchState {
    event_id: u128,
    bindings: Vec<PlannedBinding>,
    place: usize,
    action: usize,
    outcomes: Vec<ActionOutcome>,
    reports: Vec<BindingReport>,
}

impl View for DispatchState {
    type V = DispatchView;

    closed spec fn view(&self) -> DispatchView {
        DispatchView {
            event_id: self.event_id,
            bindings: crate::engine::planned_views(self.bindings@),
            place: self.place as int,
            action: self.action as int,
            outcomes: outcome_views(self.outcomes@),
            reports: report_views(self.reports@),
        }
    }
}

impl DispatchState {
    /// Starts to run a plan.
    pub fn new(plan: DispatchPlan) -> (state: DispatchState)
        ensures
            state@.wf(),
            state@.event_id == plan.event_id,
            state@.bindings == crate::engine::planned_views(plan.bindings@),
            forall|attempts: spec_fn(int, int) -> Attempt| #[trigger]
                state@.outcome(attempts) == reports_from(
                    crate::engine::planned_views(plan.bindings@),
                    0,
                    attempts,
                ),
    {
        let mut state = DispatchState {
            event_id: plan.event_id,
            bindings: plan.bindings,
            place: 0,
            action: 0,
            outcomes: Vec::new(),
            reports: Vec::new(),
        };
        proof {
            assert forall|attempts: spec_fn(int, int) -> Attempt| #[trigger]
                state@.outcome(attempts) == reports_from(
                crate::engine::planned_views(plan.bindings@),
                0,
                attempts,
            ) by {
                let view = state@;
                assert(view.outcomes =~= Seq::empty());
                assert(view.reports =~= Seq::empty());
                if view.pending() {
                    let binding = view.bindings[0];
                    let outcomes = outcomes_from(binding.actions, 0, 0, attempts);
                    assert(view.outcomes + outcomes =~= outcomes);
                    let report = ReportView { id: binding.id, outcomes };
                    let rest = seq![report] + reports_from(view.bindings, 1, attempts);
                    assert(view.reports + rest =~= rest);
                    assert(view.reports + seq![report] =~= seq![report]);
                }
            }
        }
        state.settle();
        state
    }

    /// Reports the current binding and moves to the next.
    fn close_binding(&mut self)
        requires
            old(self)@.pending(),
        ensures
            final(self)@ == (DispatchView {
                place: old(self)@.place + 1,
                action: 0,
                outcomes: Seq::empty(),
                reports: old(self)@.reports.push(
                    ReportView {
                        id: old(self)@.bindings[old(self)@.place].id,
                        outcomes: old(self)@.outcomes,
                    },
                ),
                ..old(self)@
            }),
    {
        let ghost before = self@;
        let total: usize = self.bindings.len();
        assert(self.place < total);
        let id = self.bindings[self.place].id.clone();
        assert(id@ == before.bindings[before.place].id);
        let mut outcomes: Vec<ActionOutcome> = Vec::new();
        std::mem::swap(&mut outcomes, &mut self.outcomes);
        let report = BindingReport { id, outcomes };
        let ghost views = report_views(self.reports@);
        self.reports.push(report);
        assert(report_views(self.reports@) =~= views.push(report@));
        assert(outcome_views(self.outcomes@) =~= Seq::empty());
        self.place = self.place + 1;
        self.action = 0;
    }

    /// Closes bindings that have no action left.
    fn settle(&mut self)
        requires
            0 <= old(self)@.place <= old(self)@.bindings.len(),
            old(self)@.pending() ==> 0 <= old(self)@.action <= old(self)@.bindings[old(
                self,
            )@.place].actions.len(),
        ensures
            final(self)@.wf(),
            final(self)@.event_id == old(self)@.event_id,
            final(self)@.bindings == old(self)@.bindings,
            forall|attempts: spec_fn(int, int) -> Attempt| #[trigger]
                final(self)@.outcome(attempts) == old(self)@.outcome(attempts),
            final(self)@.place >= old(self)@.place,
            final(self)@.place == old(self)@.place ==> final(self)@.action == old(self)@.action,
    {
        let ghost start = self@;
        while self.place < self.bindings.len() && self.action == self.bindings[self.place].actions.len()
            invariant
                self@.event_id == start.event_id,
                self@.bindings == start.bindings,
                self.place <= self.bindings@.len(),
                self@.place >= start.place,
                self@.place == start.place ==> self@.action == start.action,
                self@.pending() ==> self.action <= self@.bindings[self@.place].actions.len(),
                forall|attempts: spec_fn(int, int) -> Attempt| #[trigger]
                    self@.outcome(attempts) == start.outcome(attempts),
            decreases self.bindings@.len() - self.place,
        {
            let ghost before = self@;
            self.close_binding();
            proof {
                assert forall|attempts: spec_fn(int, int) -> Attempt| #[trigger]
                    self@.outcome(attempts) == before.outcome(attempts) by {
                    lemma_closed(before, self@, attempts);
                }
            }
        }
    }

    /// The action to execute next; `None` where the dispatch is complete.
    pub fn next_action(&self) -> (action: Option<&ActionSpec>)
        requires
            self@.wf(),
        ensures
            action is Some <==> self@.pending(),
            action matches Some(action) ==> *action
                == self@.bindings[self@.place].actions[self@.action],
    {
        if self.place < self.bindings.len() {
            Some(&self.bindings[self.place].actions[self.action])
        } else {
            None
        }
    }

    /// Takes in how the action that was named went. The dispatch comes to the
    /// same for every course of events that agrees with it, and it moves on.
    pub fn record(&mut self, attempt: Attempt)
        requires
            old(self)@.wf(),
            old(self)@.pending(),
        ensures
            final(self)@.wf(),
            final(self)@.event_id == old(self)@.event_id,
            final(self)@.bindings == old(self)@.bindings,
            forall|attempts: spec_fn(int, int) -> Attempt|
                attempts(old(self)@.place, old(self)@.action) == attempt
                    ==> #[trigger] final(self)@.outcome(attempts) == old(self)@.outcome(attempts),
            final(self)@.place > old(self)@.place || (final(self)@.place == old(self)@.place
                && final(self)@.action == old(self)@.action + 1),
    {
        let ghost before = self@;
        let total: usize = self.bindings.len();
        let actions: usize = self.bindings[self.place].actions.len();
        assert(self.place < total && self.action < actions);
        let action = self.bindings[self.place].actions[self.action].clone();
        assert(action == before.bindings[before.place].actions[before.action]);
        let policy = match &attempt {
            Ok(_) => ErrorPolicy::Continue,
            Err(_) => action.on_error,
        };
        assert(policy == stops(action, attempt));
        let ghost views = outcome_views(self.outcomes@);
        let outcome = match attempt {
            Ok(outcome) => outcome,
            Err(message) => ActionOutcome::failure(&action, message),
        };
        assert(outcome@ == reported(action, attempt));
        self.outcomes.push(outcome);
        assert(outcome_views(self.outcomes@) =~= views.push(outcome@));
        let ghost recorded = self@;
        match policy {
            ErrorPolicy::Continue => {
                self.action = self.action + 1;
                proof {
                    assert forall|attempts: spec_fn(int, int) -> Attempt|
                        attempts(before.place, before.action) == attempt implies #[trigger]
                    self@.outcome(attempts) == before.outcome(attempts) by {
                        lemma_continued(before, self@, attempts);
                    }
                }
                self.settle();
            },
            ErrorPolicy::StopBinding => {
                self.close_binding();
                proof {
                    assert forall|attempts: spec_fn(int, int) -> Attempt|
                        attempts(before.place, before.action) == attempt implies #[trigger]
                    self@.outcome(attempts) == before.outcome(attempts) by {
                        lemma_stopped(before, recorded, self@, attempts);
                    }
                }
                self.settle();
            },
            ErrorPolicy::StopDispatch => {
                self.close_binding();
                self.place = self.bindings.len();
                proof {
                    assert forall|attempts: spec_fn(int, int) -> Attempt|
                        attempts(before.place, before.action) == attempt implies #[trigger]
                    self@.outcome(attempts) == before.outcome(attempts) by {
                        let binding = before.bindings[before.place];
                        let first = seq![reported(action, attempt)];
                        assert(outcomes_from(
                            binding.actions,
                            before.place,
                            before.action,
                            attempts,
                        ) == first);
                        assert(before.outcomes + first =~= recorded.outcomes);
                        let report = ReportView { id: binding.id, outcomes: recorded.outcomes };
                        assert(before.reports + seq![report] =~= before.reports.push(report));
                    }
                }
            },
        }
    }

    /// The finished report.
    pub fn finish(self) -> (report: DispatchReport)
        requires
            !self@.pending(),
        ensures
            report.event_id == self@.event_id,
            report_views(report.bindings@) == self@.reports,
    {
        DispatchReport { event_id: self.event_id, bindings: self.reports }
    }
}

/// Moving on from a binding that has no action left changes nothing.
proof fn lemma_closed(
    before: DispatchView,
    after: DispatchView,
    attempts: spec_fn(int, int) -> Attempt,
)
    requires
        0 <= before.place,
        before.pending(),
        before.action == before.bindings[before.place].actions.len(),
        after == (DispatchView {
            place: before.place + 1,
            action: 0,
            outcomes: Seq::empty(),
            reports: before.reports.push(
                ReportView { id: before.bindings[before.place].id, outcomes: before.outcomes },
            ),
            ..before
        }),
    ensures
        after.outcome(attempts) == before.outcome(attempts),
{
    let binding = before.bindings[before.place];
    let none = outcomes_from(binding.actions, before.place, before.action, attempts);
    assert(before.outcomes + none =~= before.outcomes);
    let report = ReportView { id: binding.id, outcomes: before.outcomes };
    let rest = reports_from(before.bindings, before.place + 1, attempts);
    assert(before.reports + (seq![report] + rest) =~= before.reports.push(report) + rest);
    lemma_fresh(after, attempts);
}

/// A dispatch at the first action of a binding comes to its reports so far and
/// those from that binding on.
proof fn lemma_fresh(state: DispatchView, attempts: spec_fn(int, int) -> Attempt)
    requires
        0 <= state.place,
        state.action == 0,
        state.outcomes.len() == 0,
    ensures
        state.outcome(attempts) == state.reports + reports_from(
            state.bindings,
            state.place,
            attempts,
        ),
{
    if state.pending() {
        let binding = state.bindings[state.place];
        let outcomes = outcomes_from(binding.actions, state.place, 0, attempts);
        assert(state.outcomes + outcomes =~= outcomes);
    } else {
        assert(state.reports + Seq::<ReportView>::empty() =~= state.reports);
    }
}

/// Recording an attempt that stops nothing changes nothing.
proof fn lemma_continued(
    before: DispatchView,
    after: DispatchView,
    attempts: spec_fn(int, int) -> Attempt,
)
    requires
        before.wf(),
        before.pending(),
        ({
            let action = before.bindings[before.place].actions[before.action];
            let attempt = attempts(before.place, before.action);
            &&& stops(action, attempt) is Continue
            &&& after == (DispatchView {
                action: before.action + 1,
                outcomes: before.outcomes.push(reported(action, attempt)),
                ..before
            })
        }),
    ensures
        after.outcome(attempts) == before.outcome(attempts),
{
    let binding = before.bindings[before.place];
    let action = binding.actions[before.action];
    let attempt = attempts(before.place, before.action);
    let rest = outcomes_from(binding.actions, before.place, before.action + 1, attempts);
    assert(before.outcomes + (seq![reported(action, attempt)] + rest) =~= before.outcomes.push(
        reported(action, attempt),
    ) + rest);
}

/// Recording an attempt that stops its binding changes nothing.
proof fn lemma_stopped(
    before: DispatchView,
    recorded: DispatchView,
    after: DispatchView,
    attempts: spec_fn(int, int) -> Attempt,
)
    requires
        before.wf(),
        before.pending(),
        ({
            let action = before.bindings[before.place].actions[before.action];
            let attempt = attempts(before.place, before.action);
            &&& stops(action, attempt) is StopBinding
            &&& recorded == (DispatchView {
                outcomes: before.outcomes.push(reported(action, attempt)),
                ..before
            })
            &&& after == (DispatchView {
                place: before.place + 1,
                action: 0,
                outcomes: Seq::empty(),
                reports: before.reports.push(
                    ReportView {
                        id: before.bindings[before.place].id,
                        outcomes: recorded.outcomes,
                    },
                ),
                ..before
            })
        }),
    ensures
        after.outcome(attempts) == before.outcome(attempts),
{
    let binding = before.bindings[before.place];
    let action = binding.actions[before.action];
    let attempt = attempts(before.place, before.action);
    let first = seq![reported(action, attempt)];
    assert(before.outcomes + first =~= recorded.outcomes);
    let report = ReportView { id: binding.id, outcomes: recorded.outcomes };
    let rest = reports_from(before.bindings, before.place + 1, attempts);
    assert(before.reports + (seq![report] + rest) =~= before.reports.push(report) + rest);
    lemma_fresh(after, attempts);
}

/// A dispatch in which every attempt succeeds reports every binding, each with
/// an outcome for every action.
pub proof fn law_success_runs_everything(
    bindings: Seq<crate::engine::PlannedView>,
    place: int,
    attempts: spec_fn(int, int) -> Attempt,
)
    requires
        0 <= place <= bindings.len(),
        forall|i: int, j: int| #[trigger] attempts(i, j) is Ok,
    ensures
        reports_from(bindings, place, attempts).len() == bindings.len() - place,
        forall|i: int|
            0 <= i < bindings.len() - place ==> (#[trigger] reports_from(
                bindings,
                place,
                attempts,
            )[i]).id == bindings[place + i].id && reports_from(
                bindings,
                place,
                attempts,
            )[i].outcomes.len() == bindings[place + i].actions.len(),
    decreases bindings.len() - place,
{
    if place < bindings.len() {
        law_success_runs_everything(bindings, place + 1, attempts);
        lemma_all_succeed(bindings[place].actions, place, 0, attempts);
        let whole = reports_from(bindings, place, attempts);
        let rest = reports_from(bindings, place + 1, attempts);
        assert forall|i: int| 0 <= i < bindings.len() - place implies (#[trigger] whole[i]).id
            == bindings[place + i].id && whole[i].outcomes.len() == bindings[place
            + i].actions.len() by {
            if i > 0 {
                assert(whole[i] == rest[i - 1]);
                assert(rest[i - 1].id == bindings[place + 1 + (i - 1)].id);
            }
        }
    }
}

proof fn lemma_all_succeed(
    actions: Seq<ActionSpec>,
    place: int,
    at: int,
    attempts: spec_fn(int, int) -> Attempt,
)
    requires
        0 <= at <= actions.len(),
        forall|i: int, j: int| #[trigger] attempts(i, j) is Ok,
    ensures
        outcomes_from(actions, place, at, attempts).len() == actions.len() - at,
        !stops_dispatch(actions, place, at, attempts),
    decreases actions.len() - at,
{
    if at < actions.len() {
        lemma_all_succeed(actions, place, at + 1, attempts);
        assert(attempts(place, at) is Ok);
    }
}

/// Whether an action of the binding at `place` is reached: nothing before it
/// stops the binding.
pub open spec fn reached(
    actions: Seq<ActionSpec>,
    place: int,
    at: int,
    attempts: spec_fn(int, int) -> Attempt,
) -> bool {
    forall|k: int|
        0 <= k < at ==> stops(#[trigger] actions[k], attempts(place, k)) is Continue
}

proof fn lemma_reached(
    actions: Seq<ActionSpec>,
    place: int,
    from: int,
    at: int,
    attempts: spec_fn(int, int) -> Attempt,
)
    requires
        0 <= from <= at <= actions.len(),
        reached(actions, place, at, attempts),
    ensures
        outcomes_from(actions, place, from, attempts).len() == at - from + outcomes_from(
            actions,
            place,
            at,
            attempts,
        ).len(),
        outcomes_from(actions, place, from, attempts).skip(at - from) == outcomes_from(
            actions,
            place,
            at,
            attempts,
        ),
        stops_dispatch(actions, place, from, attempts) == stops_dispatch(
            actions,
            place,
            at,
            attempts,
        ),
    decreases at - from,
{
    if from < at {
        lemma_reached(actions, place, from + 1, at, attempts);
        assert(stops(actions[from], attempts(place, from)) is Continue);
        let rest = outcomes_from(actions, place, from + 1, attempts);
        assert(outcomes_from(actions, place, from, attempts).skip(at - from) =~= rest.skip(
            at - (from + 1),
        ));
    } else {
        let whole = outcomes_from(actions, place, from, attempts);
        assert(whole.skip(0) =~= whole);
    }
}

/// An action that is reached and fails is reported as a failure. With policy
/// `continue` the actions after it run; with either other policy it is the last
/// of its binding; with `stop-binding` the next bindings run, and with
/// `stop-dispatch` its binding is the last of all.
pub proof fn law_error_policies(
    bindings: Seq<crate::engine::PlannedView>,
    place: int,
    at: int,
    attempts: spec_fn(int, int) -> Attempt,
)
    requires
        0 <= place < bindings.len(),
        0 <= at < bindings[place].actions.len(),
        reached(bindings[place].actions, place, at, attempts),
        attempts(place, at) is Err,
    ensures
        ({
            let actions = bindings[place].actions;
            let reports = reports_from(bindings, place, attempts);
            let outcomes = reports[0].outcomes;
            &&& outcomes.len() > at
            &&& outcomes[at] == crate::provider::failed(actions[at], attempts(place, at)->Err_0@)
            &&& !outcomes[at].success
            &&& actions[at].on_error is Continue ==> outcomes.skip(at + 1) == outcomes_from(
                actions,
                place,
                at + 1,
                attempts,
            )
            &&& !(actions[at].on_error is Continue) ==> outcomes.len() == at + 1
            &&& actions[at].on_error is StopBinding ==> reports.drop_first() == reports_from(
                bindings,
                place + 1,
                attempts,
            )
            &&& actions[at].on_error is StopDispatch ==> reports.len() == 1
        }),
{
    let actions = bindings[place].actions;
    let reports = reports_from(bindings, place, attempts);
    let outcomes = outcomes_from(actions, place, 0, attempts);
    lemma_reached(actions, place, 0, at, attempts);
    assert(outcomes[at] == outcomes.skip(at)[0]);
    if actions[at].on_error is Continue {
        assert(outcomes.skip(at + 1) =~= outcomes.skip(at).drop_first());
        assert(outcomes.skip(at).drop_first() =~= outcomes_from(actions, place, at + 1, attempts));
    } else if actions[at].on_error is StopBinding {
        assert(reports.drop_first() =~= reports_from(bindings, place + 1, attempts));
    }
}

} // verus!
