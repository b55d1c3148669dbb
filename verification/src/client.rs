//! The rules of the command-line client: arguments, watchdog, and what a
//! daemon's reply means.

use vstd::prelude::*;

use crate::config::{ActionSpec, Binding};
use crate::dispatch::DispatchReport;
use crate::drag_stream::dispatch_failure;
use crate::event::InputEvent;
use crate::ids::id_text;
use crate::json::{json_is_valid, json_member, json_string};
use crate::number_text::{decimal_text, parse_number, signed_text};
use crate::text::{after_prefix, append, characters, is_blank, text_between, trimmed};

verus! {

/// Why a report does not confirm that an event was dispatched.
#[derive(Debug)]
pub enum ReportError {
    OtherEvent { reported: u128, dispatched: u128 },
    ActionFailed { family: String, phase: String, failure: String },
}

/// What a [`ReportError`] says.
#[verifier::ext_equal]
pub enum ReportFault {
    OtherEvent { reported: u128, dispatched: u128 },
    ActionFailed { family: Seq<char>, phase: Seq<char>, failure: Seq<char> },
}

impl View for ReportError {
    type V = ReportFault;

    open spec fn view(&self) -> ReportFault {
        match *self {
            ReportError::OtherEvent { reported, dispatched } => ReportFault::OtherEvent {
                reported,
                dispatched,
            },
            ReportError::ActionFailed { family, phase, failure } => ReportFault::ActionFailed {
                family: family@,
                phase: phase@,
                failure: failure@,
            },
        }
    }
}

impl ReportFault {
    pub open spec fn text(self) -> Seq<char> {
        match self {
            ReportFault::OtherEvent { reported, dispatched } => "daemon response event id "@
                + crate::ids::hyphenated(reported) + " does not match dispatched event "@
                + crate::ids::hyphenated(dispatched),
            ReportFault::ActionFailed { family, phase, failure } => "daemon action failed for "@
                + family + " "@ + phase + ": "@ + failure,
        }
    }
}

impl ReportError {
    pub fn message(&self) -> (text: String)
        ensures
            text@ == self@.text(),
    {
        match self {
            ReportError::OtherEvent { reported, dispatched } => {
                let mut text = "daemon response event id ".to_owned();
                append(&mut text, id_text(*reported).as_str());
                append(&mut text, " does not match dispatched event ");
                append(&mut text, id_text(*dispatched).as_str());
                text
            },
            ReportError::ActionFailed { family, phase, failure } => {
                let mut text = "daemon action failed for ".to_owned();
                append(&mut text, family.as_str());
                append(&mut text, " ");
                append(&mut text, phase.as_str());
                append(&mut text, ": ");
                append(&mut text, failure.as_str());
                text
            },
        }
    }
}

/// What is wrong with a report on an event, if anything.
pub open spec fn report_fault(
    event: crate::event::EventView,
    event_id: u128,
    reports: Seq<crate::dispatch::ReportView>,
) -> Option<ReportFault> {
    if event_id != event.id {
        Some(ReportFault::OtherEvent { reported: event_id, dispatched: event.id })
    } else {
        match crate::drag_stream::first_failure(reports) {
            Some(failure) => Some(
                ReportFault::ActionFailed { family: event.family, phase: event.phase, failure },
            ),
            None => None,
        }
    }
}

/// Accepts a report that is about the event and lists no failure.
pub fn validate_dispatch_report(event: &InputEvent, report: &DispatchReport) -> (result: Result<
    (),
    ReportError,
>)
    ensures
        result is Ok <==> report_fault(
            event@,
            report.event_id,
            crate::dispatch::report_views(report.bindings@),
        ) is None,
        result matches Err(error) ==> Some(error@) == report_fault(
            event@,
            report.event_id,
            crate::dispatch::report_views(report.bindings@),
        ),
{
    if report.event_id != event.id {
        return Err(ReportError::OtherEvent { reported: report.event_id, dispatched: event.id });
    }
    match dispatch_failure(report) {
        Some(failure) => Err(
            ReportError::ActionFailed {
                family: event.family.clone(),
                phase: event.phase.clone(),
                failure,
            },
        ),
        None => Ok(()),
    }
}

/// Why a reply is no report.
#[derive(Debug)]
pub enum ReplyError {
    Closed,
    InvalidJson,
    Rejected { family: String, phase: String, error: String },
}

/// What a [`ReplyError`] says.
#[verifier::ext_equal]
pub enum ReplyFault {
    Closed,
    InvalidJson,
    Rejected { family: Seq<char>, phase: Seq<char>, error: Seq<char> },
}

impl View for ReplyError {
    type V = ReplyFault;

    open spec fn view(&self) -> ReplyFault {
        match *self {
            ReplyError::Closed => ReplyFault::Closed,
            ReplyError::InvalidJson => ReplyFault::InvalidJson,
            ReplyError::Rejected { family, phase, error } => ReplyFault::Rejected {
                family: family@,
                phase: phase@,
                error: error@,
            },
        }
    }
}

impl ReplyFault {
    pub open spec fn text(self) -> Seq<char> {
        match self {
            ReplyFault::Closed => "daemon closed the dispatch socket without a response"@,
            ReplyFault::InvalidJson => "daemon returned invalid response JSON"@,
            ReplyFault::Rejected { family, phase, error } => "daemon rejected "@ + family + " "@
                + phase + ": "@ + error,
        }
    }
}

impl ReplyError {
    pub fn message(&self) -> (text: String)
        ensures
            text@ == self@.text(),
    {
        match self {
            ReplyError::Closed => "daemon closed the dispatch socket without a response".to_owned(),
            ReplyError::InvalidJson => "daemon returned invalid response JSON".to_owned(),
            ReplyError::Rejected { family, phase, error } => {
                let mut text = "daemon rejected ".to_owned();
                append(&mut text, family.as_str());
                append(&mut text, " ");
                append(&mut text, phase.as_str());
                append(&mut text, ": ");
                append(&mut text, error.as_str());
                text
            },
        }
    }
}

/// The error that a reply carries: the string under `error`.
pub open spec fn carried_error(reply: Seq<char>) -> Option<Seq<char>> {
    match crate::json::member(reply, "error"@) {
        Some(member) => crate::json::string(member),
        None => None,
    }
}

/// Why a reply to an event cannot be a report, if there is a reason: `valid`
/// says whether it is JSON, and `error` is the error that it carries.
pub open spec fn reply_fault(
    event: crate::event::EventView,
    reply: Seq<char>,
    valid: bool,
    error: Option<Seq<char>>,
) -> Option<ReplyFault> {
    if crate::text::blank(reply) {
        Some(ReplyFault::Closed)
    } else if !valid {
        Some(ReplyFault::InvalidJson)
    } else {
        match error {
            Some(error) => Some(
                ReplyFault::Rejected { family: event.family, phase: event.phase, error },
            ),
            None => None,
        }
    }
}

/// Decides whether a reply may be a report, given whether it is JSON and the
/// error that it carries.
pub fn judge_reply(event: &InputEvent, reply: &str, valid: bool, error: Option<String>) -> (result:
    Result<(), ReplyError>)
    ensures
        result is Ok <==> reply_fault(
            event@,
            reply@,
            valid,
            crate::text::optional_text(error),
        ) is None,
        result matches Err(fault) ==> Some(fault@) == reply_fault(
            event@,
            reply@,
            valid,
            crate::text::optional_text(error),
        ),
{
    if is_blank(reply) {
        return Err(ReplyError::Closed);
    }
    if !valid {
        return Err(ReplyError::InvalidJson);
    }
    match error {
        Some(error) => Err(
            ReplyError::Rejected { family: event.family.clone(), phase: event.phase.clone(), error },
        ),
        None => Ok(()),
    }
}

/// Decides whether a reply may be a report.
pub fn check_reply(event: &InputEvent, reply: &str) -> (result: Result<(), ReplyError>)
    ensures
        result is Ok <==> reply_fault(
            event@,
            reply@,
            crate::json::valid(reply@),
            carried_error(reply@),
        ) is None,
        result matches Err(fault) ==> Some(fault@) == reply_fault(
            event@,
            reply@,
            crate::json::valid(reply@),
            carried_error(reply@),
        ),
{
    let valid: bool = json_is_valid(reply);
    let error: Option<String> = match json_member(reply, "error") {
        Some(member) => json_string(member.as_str()),
        None => None,
    };
    judge_reply(event, reply, valid, error)
}

/// An error and what is put before it.
#[derive(Debug)]
pub struct Failure<E> {
    pub error: E,
    pub context: Option<String>,
}

/// Joins the results of an operation and of what had to follow it: the
/// operation's error counts first, and a second error is never lost.
pub fn join_results<E>(
    primary: Result<(), E>,
    secondary: Result<(), E>,
    both_failed: String,
    secondary_failed: String,
) -> (result: Result<(), Failure<E>>)
    ensures
        result is Ok <==> primary is Ok && secondary is Ok,
        result matches Err(failure) ==> {
            &&& primary matches Err(error) ==> failure.error == error && (if secondary is Err {
                crate::text::optional_text(failure.context) == Some(both_failed@)
            } else {
                failure.context is None
            })
            &&& primary is Ok ==> Err::<(), E>(failure.error) == secondary
                && crate::text::optional_text(failure.context) == Some(secondary_failed@)
        },
{
    match (primary, secondary) {
        (Err(error), Err(_)) => Err(Failure { error, context: Some(both_failed) }),
        (Err(error), Ok(())) => Err(Failure { error, context: None }),
        (Ok(()), Err(error)) => Err(Failure { error, context: Some(secondary_failed) }),
        (Ok(()), Ok(())) => Ok(()),
    }
}

/// Joins the results of an operation and of a named cleanup. `secondary_error`
/// is the cleanup's error as it is shown; it counts only where both failed.
pub fn finish_with_secondary<E>(
    primary: Result<(), E>,
    secondary: Result<(), E>,
    secondary_error: &str,
    operation: &str,
    secondary_name: &str,
) -> (result: Result<(), Failure<E>>)
    ensures
        result is Ok <==> primary is Ok && secondary is Ok,
        result matches Err(failure) ==> {
            &&& primary matches Err(error) ==> failure.error == error && (if secondary is Err {
                crate::text::optional_text(failure.context) == Some(
                    operation@ + " failed; "@ + secondary_name@ + " also failed: "@
                        + secondary_error@,
                )
            } else {
                failure.context is None
            })
            &&& primary is Ok ==> Err::<(), E>(failure.error) == secondary
                && crate::text::optional_text(failure.context) == Some(
                operation@ + " "@ + secondary_name@ + " failed"@,
            )
        },
{
    let mut both_failed = operation.to_owned();
    append(&mut both_failed, " failed; ");
    append(&mut both_failed, secondary_name);
    append(&mut both_failed, " also failed: ");
    append(&mut both_failed, secondary_error);
    let mut secondary_failed = operation.to_owned();
    append(&mut secondary_failed, " ");
    append(&mut secondary_failed, secondary_name);
    append(&mut secondary_failed, " failed");
    join_results(primary, secondary, both_failed, secondary_failed)
}

/// An exclusive grab was asked for with a timeout out of range.
#[derive(Debug, Clone, Copy, PartialEq, Eq, Structural)]
pub struct TimeoutError;

impl TimeoutError {
    pub fn message(&self) -> (text: String)
        ensures
            text@ == "--exclusive-timeout must be between 1 and 3600 seconds"@,
    {
        "--exclusive-timeout must be between 1 and 3600 seconds".to_owned()
    }
}

/// Whether a timeout is one second to one hour, or none is needed.
pub open spec fn timeout_is_allowed(exclusive: bool, timeout: u64) -> bool {
    !exclusive || 1 <= timeout <= 3600
}

/// Accepts a timeout of one second to one hour for an exclusive grab, and any
/// without one.
pub fn validate_exclusive_timeout(exclusive: bool, timeout: u64) -> (result: Result<
    (),
    TimeoutError,
>)
    ensures
        result is Ok <==> timeout_is_allowed(exclusive, timeout),
{
    if exclusive && !(1 <= timeout && timeout <= 3600) {
        Err(TimeoutError)
    } else {
        Ok(())
    }
}

/// Whether a count is as many as asked for; zero asks for no limit.
pub open spec fn is_enough(limit: usize, count: usize) -> bool {
    limit > 0 && count >= limit
}

/// Whether as many items were handled as asked for; zero asks for no limit.
pub fn limit_reached(limit: usize, count: usize) -> (result: bool)
    ensures
        result == is_enough(limit, count),
{
    limit > 0 && count >= limit
}

/// Where the first line break stands, or the end of a text without one.
pub open spec fn line_end(text: Seq<char>) -> int
    decreases text.len(),
{
    if text.len() == 0 || text[0] == '\n' {
        0
    } else {
        1 + line_end(text.drop_first())
    }
}

/// The first line of a text, without its line break: a line feed, or a carriage
/// return and a line feed.
pub open spec fn first_line(text: Seq<char>) -> Seq<char> {
    let end = line_end(text);
    if end < text.len() && end > 0 && text[end - 1] == '\r' {
        text.take(end - 1)
    } else {
        text.take(end)
    }
}

/// The process that a line of a process status names as the parent.
pub open spec fn parent_in_line(line: Seq<char>) -> Option<u32> {
    if crate::text::stands_at(line, "PPid:"@, 0) {
        match crate::number_text::parsed(crate::text::trim(line.skip("PPid:"@.len() as int))) {
            Some(pid) => if pid > 0 {
                Some(pid)
            } else {
                None
            },
            None => None,
        }
    } else {
        None
    }
}

/// The parent that a process status names: the first line that names one counts.
pub open spec fn parent_pid(status: Seq<char>) -> Option<u32>
    decreases status.len(),
{
    if status.len() == 0 {
        None
    } else {
        let end = line_end(status);
        match parent_in_line(first_line(status)) {
            Some(pid) => Some(pid),
            None => if 0 <= end < status.len() {
                parent_pid(status.skip(end + 1))
            } else {
                None
            },
        }
    }
}

proof fn lemma_line_end(text: Seq<char>, end: int)
    requires
        0 <= end <= text.len(),
        forall|i: int| 0 <= i < end ==> text[i] != '\n',
        end < text.len() ==> text[end] == '\n',
    ensures
        line_end(text) == end,
    decreases end,
{
    if end > 0 {
        let rest = text.drop_first();
        assert(forall|i: int| 0 <= i < rest.len() ==> rest[i] == text[i + 1]);
        lemma_line_end(rest, end - 1);
    }
}

fn parent_named(line: &str) -> (pid: Option<u32>)
    ensures
        pid == parent_in_line(line@),
{
    match after_prefix(line, "PPid:") {
        Some(value) => match parse_number(trimmed(value.as_str()).as_str()) {
            Some(pid) => if pid > 0 {
                Some(pid)
            } else {
                None
            },
            None => None,
        },
        None => None,
    }
}

/// Reads the parent out of a process status.
pub fn parse_parent_pid(status: &str) -> (pid: Option<u32>)
    ensures
        pid == parent_pid(status@),
{
    let chars = characters(status);
    let mut start: usize = 0;
    assert(status@.skip(0) =~= status@);
    while start < chars.len()
        invariant
            start <= chars@.len(),
            chars@ == status@,
            parent_pid(status@) == parent_pid(status@.skip(start as int)),
        decreases chars@.len() - start,
    {
        let ghost rest = status@.skip(start as int);
        let mut end: usize = start;
        while end < chars.len() && chars[end] != '\n'
            invariant
                start <= end <= chars@.len(),
                chars@ == status@,
                forall|i: int| start <= i < end ==> chars@[i] != '\n',
            decreases chars@.len() - end,
        {
            end = end + 1;
        }
        proof {
            lemma_line_end(rest, end - start);
        }
        let stop: usize = if end < chars.len() && end > start && chars[end - 1] == '\r' {
            end - 1
        } else {
            end
        };
        let line = text_between(&chars, start, stop);
        assert(line@ =~= first_line(rest));
        if let Some(pid) = parent_named(line.as_str()) {
            return Some(pid);
        }
        if end == chars.len() {
            return None;
        }
        assert(rest.skip(end - start + 1) =~= status@.skip(end + 1));
        start = end + 1;
    }
    None
}

/// Why input capture stops before its work is done.
#[derive(Debug, Clone, Copy, PartialEq, Eq, Structural)]
pub enum ShutdownReason {
    Interrupt,
    Terminate,
    Hangup,
    ParentExited,
    ParentUnavailable,
    ExclusiveTimeout,
}

impl ShutdownReason {
    pub open spec fn text(self) -> Seq<char> {
        match self {
            ShutdownReason::Interrupt => "SIGINT received"@,
            ShutdownReason::Terminate => "SIGTERM received"@,
            ShutdownReason::Hangup => "terminal hangup received"@,
            ShutdownReason::ParentExited => "launching process exited"@,
            ShutdownReason::ParentUnavailable => "launching process could no longer be inspected"@,
            ShutdownReason::ExclusiveTimeout => "exclusive-grab safety timeout reached"@,
        }
    }

    pub fn message(&self) -> (text: &'static str)
        ensures
            text@ == self.text(),
    {
        match self {
            ShutdownReason::Interrupt => "SIGINT received",
            ShutdownReason::Terminate => "SIGTERM received",
            ShutdownReason::Hangup => "terminal hangup received",
            ShutdownReason::ParentExited => "launching process exited",
            ShutdownReason::ParentUnavailable => "launching process could no longer be inspected",
            ShutdownReason::ExclusiveTimeout => "exclusive-grab safety timeout reached",
        }
    }
}

/// Whether to stop after a look at the parent process: `current` is the parent
/// now, where it could be read.
pub fn check_parent(expected: u32, current: Option<u32>) -> (reason: Option<ShutdownReason>)
    ensures
        reason == (match current {
            Some(pid) => if pid == expected {
                None
            } else {
                Some(ShutdownReason::ParentExited)
            },
            None => Some(ShutdownReason::ParentUnavailable),
        }),
{
    match current {
        Some(pid) => if pid == expected {
            None
        } else {
            Some(ShutdownReason::ParentExited)
        },
        None => Some(ShutdownReason::ParentUnavailable),
    }
}

/// Why an argument is not of the form `key=value`.
#[derive(Debug, Clone, Copy, PartialEq, Eq, Structural)]
pub enum PairError {
    NoSeparator,
    EmptyKey,
}

impl PairError {
    pub open spec fn text(self) -> Seq<char> {
        match self {
            PairError::NoSeparator => "expected key=value"@,
            PairError::EmptyKey => "key must not be empty"@,
        }
    }

    pub fn message(&self) -> (text: String)
        ensures
            text@ == self.text(),
    {
        match self {
            PairError::NoSeparator => "expected key=value".to_owned(),
            PairError::EmptyKey => "key must not be empty".to_owned(),
        }
    }
}

/// Whether the first `=` of a text stands at `at`.
pub open spec fn separates(text: Seq<char>, at: int) -> bool {
    &&& 0 <= at < text.len()
    &&& text[at] == '='
    &&& forall|i: int| 0 <= i < at ==> text[i] != '='
}

/// Whether a result is what comes of splitting a text at its first `=`.
pub open spec fn is_split(text: Seq<char>, result: Result<(String, String), PairError>) -> bool {
    &&& (result matches Err(PairError::NoSeparator)) <==> !text.contains('=')
    &&& forall|at: int| #[trigger]
        separates(text, at) ==> if crate::text::blank(text.take(at)) {
            result == Err::<(String, String), PairError>(PairError::EmptyKey)
        } else {
            result matches Ok((key, rest)) && key@ == text.take(at) && rest@ == text.skip(at + 1)
        }
}

/// Splits an argument at its first `=`; the key must not be blank.
pub fn split_pair(value: &str) -> (result: Result<(String, String), PairError>)
    ensures
        is_split(value@, result),
{
    let chars = characters(value);
    let mut at: usize = 0;
    while at < chars.len() && chars[at] != '='
        invariant
            at <= chars@.len(),
            chars@ == value@,
            forall|i: int| 0 <= i < at ==> chars@[i] != '=',
        decreases chars@.len() - at,
    {
        at = at + 1;
    }
    if at == chars.len() {
        return Err(PairError::NoSeparator);
    }
    assert(value@[at as int] == '=');
    let key = text_between(&chars, 0, at);
    assert(key@ =~= value@.take(at as int));
    assert forall|other: int| #[trigger] separates(value@, other) implies other == at by {
        if other < at {
            assert(chars@[other] != '=');
        } else if other > at {
            assert(value@[at as int] != '=');
        }
    }
    if is_blank(key.as_str()) {
        return Err(PairError::EmptyKey);
    }
    let rest = text_between(&chars, at + 1, chars.len());
    assert(rest@ =~= value@.skip(at + 1));
    Ok((key, rest))
}

/// A label argument.
pub fn parse_label(value: &str) -> (result: Result<(String, String), PairError>)
    ensures
        is_split(value@, result),
{
    split_pair(value)
}

/// The actions of a binding, addressed and separated by commas.
pub open spec fn action_list(actions: Seq<ActionSpec>) -> Seq<char>
    decreases actions.len(),
{
    if actions.len() == 0 {
        ""@
    } else {
        let earlier = action_list(actions.drop_last());
        let separator = if actions.len() == 1 {
            ""@
        } else {
            ", "@
        };
        earlier + separator + actions.last().provider@ + "."@ + actions.last().action@
    }
}

fn append_action(text: &mut String, action: &ActionSpec)
    ensures
        final(text)@ == old(text)@ + action.provider@ + "."@ + action.action@,
{
    append(text, action.provider.as_str());
    append(text, ".");
    append(text, action.action.as_str());
}

fn list_actions(actions: &Vec<ActionSpec>) -> (text: String)
    ensures
        text@ == action_list(actions@),
{
    let mut text = "".to_owned();
    let mut index: usize = 0;
    while index < actions.len()
        invariant
            index <= actions@.len(),
            text@ == action_list(actions@.take(index as int)),
        decreases actions@.len() - index,
    {
        assert(actions@.take(index + 1).drop_last() =~= actions@.take(index as int));
        if index == 0 {
            append(&mut text, "");
        } else {
            append(&mut text, ", ");
        }
        append_action(&mut text, &actions[index]);
        index = index + 1;
    }
    assert(actions@.take(index as int) =~= actions@);
    text
}

/// How a binding is summed up.
pub open spec fn binding_line(binding: Binding) -> Seq<char> {
    "- "@ + binding.id@ + (if binding.enabled {
        " [enabled] priority="@
    } else {
        " [disabled] priority="@
    }) + crate::number_text::signed_decimal(binding.priority as int) + (if binding.consume {
        " consume=true trigger="@
    } else {
        " consume=false trigger="@
    }) + binding.trigger.family@ + " actions="@ + action_list(binding.actions@)
}

/// Sums a binding up.
pub fn binding_summary(binding: &Binding) -> (text: String)
    ensures
        text@ == binding_line(*binding),
{
    let mut text = "- ".to_owned();
    append(&mut text, binding.id.as_str());
    if binding.enabled {
        append(&mut text, " [enabled] priority=");
    } else {
        append(&mut text, " [disabled] priority=");
    }
    append(&mut text, signed_text(binding.priority).as_str());
    if binding.consume {
        append(&mut text, " consume=true trigger=");
    } else {
        append(&mut text, " consume=false trigger=");
    }
    append(&mut text, binding.trigger.family.as_str());
    append(&mut text, " actions=");
    append(&mut text, list_actions(&binding.actions).as_str());
    text
}

/// How events reach the desktop while input is captured.
pub fn delivery_mode(passthrough: bool, exclusive: bool) -> (text: &'static str)
    ensures
        text@ == if passthrough {
            "exclusive proxy mode; one/two fingers are forwarded and three-or-more are consumed"@
        } else if exclusive {
            "exclusive mode; desktop gestures are temporarily blocked"@
        } else {
            "shared mode; desktop gestures may still run"@
        },
{
    if passthrough {
        "exclusive proxy mode; one/two fingers are forwarded and three-or-more are consumed"
    } else if exclusive {
        "exclusive mode; desktop gestures are temporarily blocked"
    } else {
        "shared mode; desktop gestures may still run"
    }
}

/// What is said where the daemon takes too long.
pub fn timeout_text(event: &InputEvent, seconds: u64) -> (text: String)
    ensures
        text@ == "daemon did not acknowledge "@ + event.family@ + " "@ + event.phase@ + " within "@
            + crate::number_text::decimal(seconds as nat) + " seconds"@,
{
    let mut text = "daemon did not acknowledge ".to_owned();
    append(&mut text, event.family.as_str());
    append(&mut text, " ");
    append(&mut text, event.phase.as_str());
    append(&mut text, " within ");
    append(&mut text, decimal_text(seconds).as_str());
    append(&mut text, " seconds");
    text
}

/// What is done once a live capture is over.
#[derive(Debug, Clone, Copy, PartialEq, Eq, Structural)]
pub enum CleanupStep {
    /// The contacts of the virtual touchpad are ended.
    ReleaseContacts,
    /// The physical touchpad is given back.
    ReleaseGrab,
    /// A drag under way is cancelled, which may go over the socket.
    CancelDrag,
    Done,
}

/// What comes after a step. How the step went is not asked: the touchpad is
/// given back, and a drag is cancelled, also where something failed before.
pub open spec fn cleanup_after(step: CleanupStep) -> CleanupStep {
    match step {
        CleanupStep::ReleaseContacts => CleanupStep::ReleaseGrab,
        CleanupStep::ReleaseGrab => CleanupStep::CancelDrag,
        CleanupStep::CancelDrag => CleanupStep::Done,
        CleanupStep::Done => CleanupStep::Done,
    }
}

/// The step of a cleanup at a place.
pub open spec fn cleanup_at(place: nat) -> CleanupStep
    decreases place,
{
    if place == 0 {
        CleanupStep::ReleaseContacts
    } else {
        cleanup_after(cleanup_at((place - 1) as nat))
    }
}

/// The step that a cleanup starts with.
pub fn first_cleanup() -> (step: CleanupStep)
    ensures
        step == cleanup_at(0),
{
    CleanupStep::ReleaseContacts
}

/// The step that comes after another.
pub fn next_cleanup(step: CleanupStep) -> (next: CleanupStep)
    ensures
        next == cleanup_after(step),
{
    match step {
        CleanupStep::ReleaseContacts => CleanupStep::ReleaseGrab,
        CleanupStep::ReleaseGrab => CleanupStep::CancelDrag,
        CleanupStep::CancelDrag => CleanupStep::Done,
        CleanupStep::Done => CleanupStep::Done,
    }
}

/// A cleanup takes each of its steps exactly once and then is done; whatever
/// place they have, the virtual contacts are ended before the touchpad is given
/// back, and the touchpad is given back before a drag is cancelled.
pub proof fn law_the_grab_is_released_before_the_drag_is_cancelled(
    contacts: nat,
    grab: nat,
    cancel: nat,
    done: nat,
)
    ensures
        cleanup_at(contacts) is ReleaseContacts <==> contacts == 0,
        cleanup_at(grab) is ReleaseGrab <==> grab == 1,
        cleanup_at(cancel) is CancelDrag <==> cancel == 2,
        cleanup_at(done) is Done <==> done >= 3,
        cleanup_at(contacts) is ReleaseContacts && cleanup_at(grab) is ReleaseGrab ==> contacts
            < grab,
        cleanup_at(grab) is ReleaseGrab && cleanup_at(cancel) is CancelDrag ==> grab < cancel,
{
    lemma_cleanup_at(contacts);
    lemma_cleanup_at(grab);
    lemma_cleanup_at(cancel);
    lemma_cleanup_at(done);
}

proof fn lemma_cleanup_at(place: nat)
    ensures
        cleanup_at(place) == if place == 0 {
            CleanupStep::ReleaseContacts
        } else if place == 1 {
            CleanupStep::ReleaseGrab
        } else if place == 2 {
            CleanupStep::CancelDrag
        } else {
            CleanupStep::Done
        },
    decreases place,
{
    if place > 0 {
        lemma_cleanup_at((place - 1) as nat);
    }
}

/// A report is accepted exactly when it is about the event and every outcome in it is a
/// success.
pub proof fn law_reports_are_accepted(
    event: crate::event::EventView,
    event_id: u128,
    reports: Seq<crate::dispatch::ReportView>,
)
    ensures
        report_fault(event, event_id, reports) is None <==> event_id == event.id && forall|
            p: int,
            k: int,
        |
            0 <= p < reports.len() && 0 <= k < reports[p].outcomes.len() ==> (
            #[trigger] reports[p].outcomes[k]).success,
        report_fault(event, event_id, reports) is Some && event_id == event.id ==> (report_fault(
            event,
            event_id,
            reports,
        ) matches Some(ReportFault::ActionFailed { family, phase, .. }) && family == event.family
            && phase == event.phase),
{
    let found = crate::drag_stream::law_the_first_failure_is_described(reports);
}

/// A reply may be a report exactly when it is not blank, is JSON and carries no error.
pub proof fn law_replies_are_accepted(event: crate::event::EventView, reply: Seq<char>)
    ensures
        reply_fault(event, reply, crate::json::valid(reply), carried_error(reply)) is None
            <==> !crate::text::blank(reply) && crate::json::valid(reply) && !(crate::json::member(
            reply,
            "error"@,
        ) is Some && crate::json::string(crate::json::member(reply, "error"@)->0) is Some),
        reply_fault(event, reply, true, Some(reply)) matches Some(ReplyFault::Rejected {
            family,
            phase,
            error,
        }) ==> family == event.family && phase == event.phase && error == reply,
        crate::text::blank(reply) <==> reply_fault(event, reply, true, None) is Some,
{
}

/// Of a process status that begins with a line, that line counts where it names a parent,
/// and the rest where it does not. A line names a parent where a number above zero follows
/// `PPid:`, with white space around it or none.
pub proof fn law_the_first_named_parent_counts(line: Seq<char>, rest: Seq<char>, value: Seq<char>)
    requires
        forall|i: int| 0 <= i < line.len() ==> line[i] != '\n',
        line.len() > 0 ==> line.last() != '\r',
    ensures
        parent_pid(line + seq!['\n'] + rest) == if parent_in_line(line) is Some {
            parent_in_line(line)
        } else {
            parent_pid(rest)
        },
        parent_pid(line + seq!['\r', '\n'] + rest) == parent_pid(line + seq!['\n'] + rest),
        parent_in_line("PPid:"@ + value) == match crate::number_text::parsed(
            crate::text::trim(value),
        ) {
            Some(pid) => if pid == 0 {
                None
            } else {
                Some(pid)
            },
            None => None,
        },
        parent_in_line(line) is Some ==> line.len() >= 5 && line.take(5) == "PPid:"@,
        parent_pid(Seq::empty()) is None,
{
    reveal_strlit("PPid:");
    assert("PPid:"@.len() == 5);
    let status = line + seq!['\n'] + rest;
    let end = line.len() as int;
    lemma_line_end(status, end);
    assert(status.take(end) =~= line);
    assert(end > 0 ==> status[end - 1] == line.last());
    assert(first_line(status) == line);
    assert(status.skip(end + 1) =~= rest);
    let other = line + seq!['\r', '\n'] + rest;
    lemma_line_end(other, end + 1);
    assert(other[end] == '\r');
    assert(other.take(end) =~= line);
    assert(first_line(other) == line);
    assert(other.skip(end + 2) =~= rest);
    let named = "PPid:"@ + value;
    assert(named.subrange(0, 5) =~= "PPid:"@);
    assert(named.skip(5) =~= value);
    if parent_in_line(line) is Some {
        assert(line.take(5) =~= line.subrange(0, 5));
    }
}

/// The actions of a binding are listed one by one, each by its provider and its name, with
/// a comma between two.
pub proof fn law_actions_are_listed(actions: Seq<ActionSpec>, action: ActionSpec)
    ensures
        action_list(seq![action]) == action.provider@ + "."@ + action.action@,
        actions.len() > 0 ==> action_list(actions.push(action)) == action_list(actions) + ", "@
            + action.provider@ + "."@ + action.action@,
{
    reveal_strlit("");
    let one = seq![action];
    assert(one.drop_last() =~= Seq::empty());
    assert(action_list(Seq::empty()) =~= Seq::empty());
    assert(action_list(one) =~= action.provider@ + "."@ + action.action@);
    assert(actions.push(action).drop_last() =~= actions);
}

/// A key without `=` that is not blank, an `=` and any value are split into that key and
/// that value, which may hold `=` itself. With a blank key there is no pair, and neither is
/// there without an `=`.
pub proof fn law_pairs_are_split(
    key: Seq<char>,
    value: Seq<char>,
    result: Result<(String, String), PairError>,
)
    requires
        !key.contains('='),
        is_split(key + seq!['='] + value, result),
    ensures
        !crate::text::blank(key) ==> (result matches Ok((left, right)) && left@ == key && right@
            == value),
        crate::text::blank(key) ==> result == Err::<(String, String), PairError>(
            PairError::EmptyKey,
        ),
{
    let text = key + seq!['='] + value;
    let at = key.len() as int;
    assert forall|i: int| 0 <= i < at implies text[i] != '=' by {
        assert(key.contains(key[i]));
    }
    assert(separates(text, at));
    assert(text.take(at) =~= key);
    assert(text.skip(at + 1) =~= value);
}

/// A grab without a timeout of its own may take any; an exclusive one takes one second, one
/// hour and what lies between, and neither less nor more.
pub proof fn law_allowed_timeouts(timeout: u64)
    ensures
        timeout_is_allowed(false, timeout),
        timeout_is_allowed(true, timeout) <==> timeout != 0 && timeout < 3601,
{
}

/// Counting up from zero, a limit is reached with the item that makes the count equal to
/// it, stays reached, and is never reached where it is zero.
pub proof fn law_limits_are_reached_once(limit: usize, count: usize)
    ensures
        !is_enough(0, count),
        limit > 0 ==> !is_enough(limit, 0) && is_enough(limit, limit),
        count < limit ==> !is_enough(limit, count),
        limit > 0 && count > limit ==> is_enough(limit, count),
{
}

} // verus!
