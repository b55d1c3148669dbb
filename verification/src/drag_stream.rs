//! Drag ownership per client: which drag a client has under way, and the
//! cancellation that ends it when the client is gone.

use vstd::prelude::*;

use crate::dispatch::{BindingReport, DispatchReport};
use crate::event::InputEvent;
use crate::metric::Metric;
use crate::provider::ActionOutcome;
use crate::text::{append, quote, same_text};

verus! {

/// Whether two events name the same stream; two events without one do, too.
fn same_stream(left: &InputEvent, right: &InputEvent) -> (result: bool)
    ensures
        result == (left@.stream_id() == right@.stream_id()),
{
    match (left.stream_id(), right.stream_id()) {
        (Some(left), Some(right)) => same_text(left, right),
        (None, None) => true,
        _ => false,
    }
}

/// The drag that a client has under way after an event of its own was
/// dispatched: a begin opens it, an update of the same stream renews it, and an
/// end or cancel of the same stream closes it.
pub open spec fn tracked_after(
    active: Option<crate::event::EventView>,
    event: crate::event::EventView,
) -> Option<crate::event::EventView> {
    let same = active matches Some(active) && active.stream_id() == event.stream_id();
    if event.family != "touchpad.drag"@ || event.stream_id() is None {
        active
    } else if event.phase == "begin"@ {
        Some(event)
    } else if event.phase == "update"@ && same {
        Some(event)
    } else if (event.phase == "end"@ || event.phase == "cancel"@) && same {
        None
    } else {
        active
    }
}

/// An optional event, as it is seen.
pub open spec fn optional_event(event: Option<InputEvent>) -> Option<crate::event::EventView> {
    match event {
        Some(event) => Some(event@),
        None => None,
    }
}

/// Follows the drag that a client has under way.
pub fn track_client_drag(active: &mut Option<InputEvent>, event: &InputEvent)
    ensures
        optional_event(*final(active)) == tracked_after(optional_event(*old(active)), event@),
{
    if !same_text(event.family.as_str(), "touchpad.drag") || event.stream_id().is_none() {
        return;
    }
    let same: bool = match active {
        Some(current) => same_stream(current, event),
        None => false,
    };
    proof {
        reveal_strlit("begin");
        reveal_strlit("update");
        reveal_strlit("end");
        reveal_strlit("cancel");
        assert("begin"@.len() == 5 && "update"@.len() == 6);
    }
    let phase = event.phase.as_str();
    if same_text(phase, "begin") {
        *active = Some(event.clone());
    } else if same_text(phase, "update") {
        if same {
            *active = Some(event.clone());
        }
    } else if same_text(phase, "end") || same_text(phase, "cancel") {
        if same {
            *active = None;
        }
    }
}

/// The event that cancels a drag: it keeps the drag's stream, fingers and
/// context, and moves nothing.
pub open spec fn cancellation(
    id: u128,
    active: crate::event::EventView,
) -> crate::event::EventView {
    crate::event::EventView {
        fingers: active.fingers,
        direction: active.direction,
        values: active.values.insert("dx"@, Metric::zero()).insert("dy"@, Metric::zero()),
        labels: active.labels,
        context: active.context,
        ..crate::event::EventView::blank(id, "touchpad.drag"@, "cancel"@)
    }
}

/// Makes the event that cancels a drag.
pub fn drag_cancel_event(active: &InputEvent) -> (cancel: InputEvent)
    ensures
        cancel@ == cancellation(cancel.id, active@),
        crate::ids::is_random_identity(cancel.id),
{
    let copy = active.clone();
    let mut cancel = InputEvent::new("touchpad.drag", "cancel");
    cancel.fingers = copy.fingers;
    cancel.direction = copy.direction;
    cancel.values = copy.values;
    cancel.labels = copy.labels;
    cancel.context = copy.context;
    cancel.set_value("dx", Metric { bits: 0 });
    cancel.set_value("dy", Metric { bits: 0 });
    cancel
}

/// The first outcome of a list that is a failure.
pub open spec fn first_failed(
    outcomes: Seq<crate::provider::OutcomeView>,
) -> Option<crate::provider::OutcomeView>
    decreases outcomes.len(),
{
    if outcomes.len() == 0 {
        None
    } else if !outcomes[0].success {
        Some(outcomes[0])
    } else {
        first_failed(outcomes.drop_first())
    }
}

/// How a failed outcome of a binding is described.
pub open spec fn failure_text(
    id: Seq<char>,
    outcome: crate::provider::OutcomeView,
) -> Seq<char> {
    "binding "@ + crate::text::quoted(id) + ", action "@ + outcome.provider + "."@ + outcome.action
        + ": "@ + match outcome.message {
        Some(message) => message,
        None => "unknown failure"@,
    }
}

/// The description of the first failure in a report, if there is one.
pub open spec fn first_failure(reports: Seq<crate::dispatch::ReportView>) -> Option<Seq<char>>
    decreases reports.len(),
{
    if reports.len() == 0 {
        None
    } else {
        match first_failed(reports[0].outcomes) {
            Some(outcome) => Some(failure_text(reports[0].id, outcome)),
            None => first_failure(reports.drop_first()),
        }
    }
}

fn describe_failure(id: &String, outcome: &ActionOutcome) -> (text: String)
    ensures
        text@ == failure_text(id@, outcome@),
{
    let mut text = "binding ".to_owned();
    append(&mut text, quote(id.as_str()).as_str());
    append(&mut text, ", action ");
    append(&mut text, outcome.provider.as_str());
    append(&mut text, ".");
    append(&mut text, outcome.action.as_str());
    append(&mut text, ": ");
    match &outcome.message {
        Some(message) => append(&mut text, message.as_str()),
        None => append(&mut text, "unknown failure"),
    }
    text
}

fn binding_failure(report: &BindingReport) -> (failure: Option<String>)
    ensures
        failure is Some <==> first_failed(report@.outcomes) is Some,
        failure matches Some(text) ==> text@ == failure_text(
            report.id@,
            first_failed(report@.outcomes)->0,
        ),
{
    let ghost views = report@.outcomes;
    let mut index: usize = 0;
    assert(views.skip(0) =~= views);
    while index < report.outcomes.len()
        invariant
            index <= report.outcomes@.len(),
            views == report@.outcomes,
            views.len() == report.outcomes@.len(),
            first_failed(views) == first_failed(views.skip(index as int)),
        decreases report.outcomes@.len() - index,
    {
        let outcome = &report.outcomes[index];
        assert(views.skip(index as int)[0] == outcome@);
        assert(views.skip(index as int).drop_first() =~= views.skip(index + 1));
        if !outcome.success {
            return Some(describe_failure(&report.id, outcome));
        }
        index = index + 1;
    }
    None
}

/// Looks for the first action that failed.
pub fn dispatch_failure(report: &DispatchReport) -> (failure: Option<String>)
    ensures
        crate::text::optional_text(failure) == first_failure(
            crate::dispatch::report_views(report.bindings@),
        ),
{
    let ghost views = crate::dispatch::report_views(report.bindings@);
    let mut index: usize = 0;
    assert(views.skip(0) =~= views);
    while index < report.bindings.len()
        invariant
            index <= report.bindings@.len(),
            views == crate::dispatch::report_views(report.bindings@),
            views.len() == report.bindings@.len(),
            first_failure(views) == first_failure(views.skip(index as int)),
        decreases report.bindings@.len() - index,
    {
        let binding = &report.bindings[index];
        assert(views.skip(index as int)[0] == binding@);
        assert(views.skip(index as int).drop_first() =~= views.skip(index + 1));
        let failure = binding_failure(binding);
        if failure.is_some() {
            return failure;
        }
        index = index + 1;
    }
    None
}

/// Events of another stream, or of no stream, do not touch the drag under way.
pub proof fn law_other_streams_do_not_interfere(
    active: crate::event::EventView,
    event: crate::event::EventView,
)
    requires
        event.phase != "begin"@,
        event.stream_id() is None || event.stream_id() != active.stream_id(),
    ensures
        tracked_after(Some(active), event) == Some(active),
{
}

/// A drag that is begun, and updated any number of times, is cancelled under
/// its own stream, without motion; and once it has ended, nothing is left to
/// cancel.
pub proof fn law_the_drag_under_way_is_cancelled(
    before: Option<crate::event::EventView>,
    begin: crate::event::EventView,
    update: crate::event::EventView,
    last: crate::event::EventView,
    id: u128,
)
    requires
        begin.family == "touchpad.drag"@,
        update.family == "touchpad.drag"@,
        last.family == "touchpad.drag"@,
        begin.phase == "begin"@,
        update.phase == "update"@,
        last.phase == "end"@ || last.phase == "cancel"@,
        begin.stream_id() is Some,
        update.stream_id() == begin.stream_id(),
        last.stream_id() == begin.stream_id(),
    ensures
        tracked_after(before, begin) == Some(begin),
        tracked_after(Some(begin), update) == Some(update),
        cancellation(id, update).stream_id() == begin.stream_id(),
        cancellation(id, update).values["dx"@] == Metric::zero(),
        cancellation(id, update).values["dy"@] == Metric::zero(),
        tracked_after(Some(update), cancellation(id, update)) is None,
        tracked_after(Some(update), last) is None,
{
    reveal_strlit("begin");
    reveal_strlit("update");
    reveal_strlit("end");
    reveal_strlit("cancel");
    reveal_strlit("dx");
    reveal_strlit("dy");
    assert("begin"@.len() == 5 && "update"@.len() == 6 && "end"@.len() == 3 && "cancel"@.len() == 6);
    assert("update"@[0] != "cancel"@[0]);
    assert("dx"@[1] != "dy"@[1]);
}

/// How a line of a client is answered.
#[derive(Debug, Clone, Copy, PartialEq, Eq, Structural)]
pub enum ReplyKind {
    /// With the report of the dispatch.
    Report,
    /// With the error for which the dispatch was refused.
    Refusal,
    /// With the error for which the line could not be read.
    Unreadable,
}

impl ReplyKind {
    /// The error that is sent, where one is.
    pub open spec fn error_text(self, cause: Seq<char>) -> Option<Seq<char>> {
        match self {
            ReplyKind::Report => None,
            ReplyKind::Refusal => Some(cause),
            ReplyKind::Unreadable => Some("invalid event JSON: "@ + cause),
        }
    }

    /// The error that is sent, where one is, given what caused it.
    pub fn error(&self, cause: &str) -> (text: Option<String>)
        ensures
            crate::text::optional_text(text) == self.error_text(cause@),
    {
        match self {
            ReplyKind::Report => None,
            ReplyKind::Refusal => Some(cause.to_owned()),
            ReplyKind::Unreadable => {
                let mut text = "invalid event JSON: ".to_owned();
                append(&mut text, cause);
                Some(text)
            },
        }
    }
}

/// A line that a client sent, and what became of it.
#[verifier::ext_equal]
pub enum ClientLine {
    /// It holds no event.
    Unreadable,
    /// Its event was not dispatched.
    Refused { event: crate::event::EventView },
    /// Its event was dispatched.
    Accepted { event: crate::event::EventView },
}

impl ClientLine {
    /// The line with a given event, if any, and whether it was dispatched.
    pub open spec fn of(
        event: Option<crate::event::EventView>,
        accepted: bool,
    ) -> ClientLine {
        match event {
            Some(event) => if accepted {
                ClientLine::Accepted { event }
            } else {
                ClientLine::Refused { event }
            },
            None => ClientLine::Unreadable,
        }
    }

    pub open spec fn reply(self) -> ReplyKind {
        match self {
            ClientLine::Unreadable => ReplyKind::Unreadable,
            ClientLine::Refused { .. } => ReplyKind::Refusal,
            ClientLine::Accepted { .. } => ReplyKind::Report,
        }
    }

    /// The drag under way after the line; only an event that was dispatched
    /// counts.
    pub open spec fn drag_after(
        self,
        active: Option<crate::event::EventView>,
    ) -> Option<crate::event::EventView> {
        match self {
            ClientLine::Accepted { event } => tracked_after(active, event),
            _ => active,
        }
    }

    /// Whether the line began a drag of a stream.
    pub open spec fn begins(self, stream: Seq<char>) -> bool {
        self matches ClientLine::Accepted { event } && event.family == "touchpad.drag"@
            && event.phase == "begin"@ && event.stream_id() == Some(stream)
    }

    /// Whether the line ended or cancelled a drag of a stream.
    pub open spec fn ends(self, stream: Seq<char>) -> bool {
        self matches ClientLine::Accepted { event } && event.family == "touchpad.drag"@ && (
        event.phase == "end"@ || event.phase == "cancel"@) && event.stream_id() == Some(stream)
    }
}

/// The connection of one client.
#[derive(Debug)]
pub struct ClientConnection {
    active: Option<InputEvent>,
}

impl View for ClientConnection {
    type V = Option<crate::event::EventView>;

    /// The drag that the client has under way.
    closed spec fn view(&self) -> Option<crate::event::EventView> {
        optional_event(self.active)
    }
}

impl ClientConnection {
    /// A connection over which nothing came yet.
    pub fn new() -> (connection: ClientConnection)
        ensures
            connection@ is None,
    {
        ClientConnection { active: None }
    }

    /// Takes in a line: its event, where it holds one, and whether the event was
    /// dispatched. Says how to answer.
    pub fn take(&mut self, event: Option<&InputEvent>, accepted: bool) -> (reply: ReplyKind)
        ensures
            ({
                let line = ClientLine::of(
                    match event {
                        Some(event) => Some(event@),
                        None => None,
                    },
                    accepted,
                );
                reply == line.reply() && final(self)@ == line.drag_after(old(self)@)
            }),
    {
        match event {
            Some(event) => if accepted {
                track_client_drag(&mut self.active, event);
                ReplyKind::Report
            } else {
                ReplyKind::Refusal
            },
            None => ReplyKind::Unreadable,
        }
    }

    /// Ends the connection. A drag under way is to be cancelled with the event
    /// that is returned.
    pub fn close(self) -> (cancel: Option<InputEvent>)
        ensures
            cancel is Some <==> self@ is Some,
            cancel matches Some(cancel) ==> cancel@ == cancellation(cancel.id, self@->0)
                && crate::ids::is_random_identity(cancel.id),
    {
        match &self.active {
            Some(active) => Some(drag_cancel_event(active)),
            None => None,
        }
    }
}

/// The drag under way after the lines of a connection.
pub open spec fn drag_after_all(lines: Seq<ClientLine>) -> Option<crate::event::EventView>
    decreases lines.len(),
{
    if lines.len() == 0 {
        None
    } else {
        lines.last().drag_after(drag_after_all(lines.drop_last()))
    }
}

/// The answers to the lines of a connection.
pub open spec fn replies(lines: Seq<ClientLine>) -> Seq<ReplyKind> {
    lines.map_values(|line: ClientLine| line.reply())
}

/// The lines whose event was dispatched.
pub open spec fn accepted_lines(lines: Seq<ClientLine>) -> Seq<ClientLine>
    decreases lines.len(),
{
    if lines.len() == 0 {
        Seq::empty()
    } else if lines.last() is Accepted {
        accepted_lines(lines.drop_last()).push(lines.last())
    } else {
        accepted_lines(lines.drop_last())
    }
}

/// Whether the line at a place began the drag of a stream that is still open
/// after all lines: no line after it began a drag, or ended the drag of that
/// stream.
pub open spec fn left_open(lines: Seq<ClientLine>, place: int, stream: Seq<char>) -> bool {
    &&& 0 <= place < lines.len()
    &&& lines[place].begins(stream)
    &&& forall|later: int, other: Seq<char>|
        place < later < lines.len() ==> !(#[trigger] lines[later].begins(other))
    &&& forall|later: int| place < later < lines.len() ==> !(#[trigger] lines[later].ends(stream))
}

proof fn lemma_drag_has_stream(lines: Seq<ClientLine>)
    ensures
        drag_after_all(lines) matches Some(active) ==> active.stream_id() is Some,
    decreases lines.len(),
{
    if lines.len() > 0 {
        lemma_drag_has_stream(lines.drop_last());
    }
}

proof fn lemma_open_drag(lines: Seq<ClientLine>) -> (place: int)
    requires
        drag_after_all(lines) is Some,
    ensures
        drag_after_all(lines)->0.stream_id() is Some,
        left_open(lines, place, drag_after_all(lines)->0.stream_id()->0),
    decreases lines.len(),
{
    reveal_strlit("begin");
    reveal_strlit("update");
    reveal_strlit("end");
    reveal_strlit("cancel");
    assert("begin"@.len() == 5 && "update"@.len() == 6 && "end"@.len() == 3 && "cancel"@.len() == 6);
    assert("update"@[0] != "cancel"@[0]);
    lemma_drag_has_stream(lines);
    let stream = drag_after_all(lines)->0.stream_id()->0;
    let earlier = lines.drop_last();
    if lines.last().begins(stream) {
        lines.len() - 1
    } else {
        lemma_drag_has_stream(earlier);
        assert(drag_after_all(earlier) is Some);
        assert(drag_after_all(earlier)->0.stream_id() == Some(stream));
        let place = lemma_open_drag(earlier);
        assert forall|later: int, other: Seq<char>| place < later < lines.len() implies !(
        #[trigger] lines[later].begins(other)) by {
            if later < earlier.len() {
                assert(lines[later] == earlier[later]);
                assert(!earlier[later].begins(other));
            }
        }
        assert forall|later: int| place < later < lines.len() implies !(
        #[trigger] lines[later].ends(stream)) by {
            if later < earlier.len() {
                assert(lines[later] == earlier[later]);
                assert(!earlier[later].ends(stream));
            }
        }
        place
    }
}

proof fn lemma_left_open(lines: Seq<ClientLine>, place: int, stream: Seq<char>)
    requires
        left_open(lines, place, stream),
    ensures
        drag_after_all(lines) matches Some(active) && active.stream_id() == Some(stream),
    decreases lines.len(),
{
    reveal_strlit("begin");
    reveal_strlit("update");
    reveal_strlit("end");
    reveal_strlit("cancel");
    assert("begin"@.len() == 5 && "update"@.len() == 6 && "end"@.len() == 3 && "cancel"@.len() == 6);
    assert("update"@[0] != "cancel"@[0]);
    let earlier = lines.drop_last();
    if place < lines.len() - 1 {
        let last = lines.len() - 1;
        assert forall|later: int, other: Seq<char>| place < later < earlier.len() implies !(
        #[trigger] earlier[later].begins(other)) by {
            assert(!lines[later].begins(other));
        }
        assert forall|later: int| place < later < earlier.len() implies !(
        #[trigger] earlier[later].ends(stream)) by {
            assert(!lines[later].ends(stream));
        }
        lemma_left_open(earlier, place, stream);
        assert(!lines[last].ends(stream));
        match lines.last() {
            ClientLine::Accepted { event } => {
                if event.stream_id() is Some {
                    assert(!lines[last].begins(event.stream_id()->0));
                }
            },
            _ => {},
        }
    }
}

/// Each line of a connection is answered once: a report where its event was
/// dispatched, an error otherwise. Only events that were dispatched count for
/// the drag under way. One is left exactly where a line began it and no later
/// line began another or ended it; closing the connection then cancels it, once,
/// under its own stream and without motion, and otherwise cancels nothing.
pub proof fn law_connections_own_their_drag(lines: Seq<ClientLine>, id: u128)
    ensures
        replies(lines).len() == lines.len(),
        forall|i: int|
            0 <= i < lines.len() ==> ((#[trigger] replies(lines)[i]) is Report
                <==> lines[i] is Accepted),
        drag_after_all(lines) == drag_after_all(accepted_lines(lines)),
        drag_after_all(lines) is Some <==> exists|place: int, stream: Seq<char>|
            left_open(lines, place, stream),
        forall|place: int, stream: Seq<char>| #[trigger]
            left_open(lines, place, stream) ==> cancellation(
                id,
                drag_after_all(lines)->0,
            ).stream_id() == Some(stream),
        drag_after_all(lines) matches Some(active) ==> cancellation(id, active).values["dx"@]
            == Metric::zero() && cancellation(id, active).values["dy"@] == Metric::zero(),
        drag_after_all(lines) matches Some(active) ==> tracked_after(
            Some(active),
            cancellation(id, active),
        ) is None,
{
    reveal_strlit("begin");
    reveal_strlit("update");
    reveal_strlit("end");
    reveal_strlit("cancel");
    reveal_strlit("dx");
    reveal_strlit("dy");
    assert("begin"@.len() == 5 && "update"@.len() == 6 && "end"@.len() == 3 && "cancel"@.len() == 6);
    assert("update"@[0] != "cancel"@[0]);
    assert("dx"@[1] != "dy"@[1]);
    lemma_accepted_lines(lines);
    if drag_after_all(lines) is Some {
        let place = lemma_open_drag(lines);
        assert(left_open(lines, place, drag_after_all(lines)->0.stream_id()->0));
    }
    assert forall|place: int, stream: Seq<char>| #[trigger]
        left_open(lines, place, stream) implies drag_after_all(lines) is Some && cancellation(
        id,
        drag_after_all(lines)->0,
    ).stream_id() == Some(stream) by {
        lemma_left_open(lines, place, stream);
    }
}

proof fn lemma_accepted_lines(lines: Seq<ClientLine>)
    ensures
        drag_after_all(lines) == drag_after_all(accepted_lines(lines)),
    decreases lines.len(),
{
    if lines.len() > 0 {
        lemma_accepted_lines(lines.drop_last());
        if lines.last() is Accepted {
            let earlier = accepted_lines(lines.drop_last());
            assert(accepted_lines(lines).drop_last() =~= earlier);
        }
    }
}

/// Whether an outcome is the first failure of some reports: none before it in its binding
/// and none in a binding before its own is a failure.
pub open spec fn is_first_failure(
    reports: Seq<crate::dispatch::ReportView>,
    place: int,
    at: int,
) -> bool {
    &&& 0 <= place < reports.len()
    &&& 0 <= at < reports[place].outcomes.len()
    &&& !reports[place].outcomes[at].success
    &&& forall|k: int|
        0 <= k < at ==> (#[trigger] reports[place].outcomes[k]).success
    &&& forall|p: int, k: int|
        0 <= p < place && 0 <= k < reports[p].outcomes.len() ==> (
        #[trigger] reports[p].outcomes[k]).success
}

proof fn lemma_first_failed(outcomes: Seq<crate::provider::OutcomeView>) -> (at: int)
    ensures
        first_failed(outcomes) is None ==> forall|k: int|
            0 <= k < outcomes.len() ==> (#[trigger] outcomes[k]).success,
        first_failed(outcomes) matches Some(outcome) ==> {
            &&& 0 <= at < outcomes.len()
            &&& outcome == outcomes[at]
            &&& !outcomes[at].success
            &&& forall|k: int| 0 <= k < at ==> (#[trigger] outcomes[k]).success
        },
    decreases outcomes.len(),
{
    if outcomes.len() == 0 || !outcomes[0].success {
        0
    } else {
        let rest = outcomes.drop_first();
        let at = lemma_first_failed(rest);
        assert forall|k: int|
            0 <= k < outcomes.len() && (first_failed(rest) is None || k < at + 1) implies (
        #[trigger] outcomes[k]).success by {
            if k > 0 {
                assert(outcomes[k] == rest[k - 1]);
            }
        }
        at + 1
    }
}

/// A report speaks of a failure exactly when an outcome in it is one, and it speaks of the
/// first: by its binding, its provider and action, and its message where it has one.
pub proof fn law_the_first_failure_is_described(reports: Seq<crate::dispatch::ReportView>) -> (found:
    (int, int))
    ensures
        first_failure(reports) is None <==> forall|p: int, k: int|
            0 <= p < reports.len() && 0 <= k < reports[p].outcomes.len() ==> (
            #[trigger] reports[p].outcomes[k]).success,
        first_failure(reports) matches Some(text) ==> {
            let outcome = reports[found.0].outcomes[found.1];
            &&& is_first_failure(reports, found.0, found.1)
            &&& text == "binding "@ + crate::text::quoted(reports[found.0].id) + ", action "@
                + outcome.provider + "."@ + outcome.action + ": "@ + (match outcome.message {
                Some(message) => message,
                None => "unknown failure"@,
            })
        },
    decreases reports.len(),
{
    if reports.len() == 0 {
        (0, 0)
    } else {
        let at = lemma_first_failed(reports[0].outcomes);
        if first_failed(reports[0].outcomes) is Some {
            (0, at)
        } else {
            let rest = reports.drop_first();
            let (place, inner) = law_the_first_failure_is_described(rest);
            assert forall|p: int, k: int|
                0 <= p < reports.len() && 0 <= k < reports[p].outcomes.len() && (first_failure(
                    rest,
                ) is None || p < place + 1) implies (#[trigger] reports[p].outcomes[k]).success by {
                if p > 0 {
                    assert(reports[p] == rest[p - 1]);
                    assert(rest[p - 1].outcomes[k].success);
                }
            }
            if first_failure(rest) is Some {
                assert(reports[place + 1] == rest[place]);
                assert(!rest[place].outcomes[inner].success);
                assert(!reports[place + 1].outcomes[inner].success);
                assert forall|k: int| 0 <= k < inner implies (
                #[trigger] reports[place + 1].outcomes[k]).success by {
                    assert(rest[place].outcomes[k].success);
                }
            }
            (place + 1, inner)
        }
    }
}

/// What cancels a drag has its stream, fingers, direction, labels and context, is a cancel
/// of the drag family under the given identity, moves by nothing, and carries every other
/// value of the drag.
pub proof fn law_cancellations_keep_the_drag(
    id: u128,
    active: crate::event::EventView,
    name: Seq<char>,
)
    ensures
        ({
            let cancel = cancellation(id, active);
            &&& cancel.id == id && cancel.schema_version == 1
            &&& cancel.family == "touchpad.drag"@ && cancel.phase == "cancel"@
            &&& cancel.fingers == active.fingers && cancel.direction == active.direction
            &&& cancel.labels == active.labels && cancel.context == active.context
            &&& cancel.stream_id() == active.stream_id()
            &&& cancel.values.contains_key("dx"@) && cancel.values["dx"@] == Metric::zero()
            &&& cancel.values.contains_key("dy"@) && cancel.values["dy"@] == Metric::zero()
            &&& name != "dx"@ && name != "dy"@ ==> (cancel.values.contains_key(name)
                <==> active.values.contains_key(name)) && (cancel.values.contains_key(name)
                ==> cancel.values[name] == active.values[name])
        }),
{
    reveal_strlit("dx");
    reveal_strlit("dy");
    assert("dx"@[1] != "dy"@[1]);
}

/// Each dispatched begin or update of a drag is what is cancelled should nothing follow;
/// whatever else is dispatched leaves the drag as it was or ends it.
pub proof fn law_the_latest_event_of_a_drag_counts(
    active: Option<crate::event::EventView>,
    event: crate::event::EventView,
)
    ensures
        ({
            let next = tracked_after(active, event);
            let drag = event.family == "touchpad.drag"@ && event.stream_id() is Some;
            let same = active is Some && active->0.stream_id() == event.stream_id();
            &&& drag && (event.phase == "begin"@ || (event.phase == "update"@ && same)) ==> next
                == Some(event)
            &&& drag && (event.phase == "end"@ || event.phase == "cancel"@) && same ==> next is None
            &&& !drag || (event.phase != "begin"@ && !same) ==> next == active
            &&& event.phase != "begin"@ && event.phase != "update"@ && event.phase != "end"@
                && event.phase != "cancel"@ ==> next == active
        }),
{
    reveal_strlit("begin");
    reveal_strlit("update");
    reveal_strlit("end");
    reveal_strlit("cancel");
    assert("begin"@.len() == 5 && "update"@.len() == 6 && "end"@.len() == 3 && "cancel"@.len() == 6);
    assert("update"@[0] != "cancel"@[0]);
}

/// A line is answered with a report where its event was dispatched, with a refusal where
/// it was not, and as unreadable where it holds none.
pub proof fn law_lines_are_answered(event: Option<crate::event::EventView>, accepted: bool)
    ensures
        ClientLine::of(event, accepted).reply() is Report <==> event is Some && accepted,
        ClientLine::of(event, accepted).reply() is Refusal <==> event is Some && !accepted,
        ClientLine::of(event, accepted).reply() is Unreadable <==> event is None,
{
}

} // verus!
