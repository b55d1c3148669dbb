//! The normalized event schema.

use vstd::prelude::*;

use crate::ids::fresh_id;
use crate::metric::Metric;
use crate::text_map::TextMap;

verus! {

/// A map of texts, as characters.
pub open spec fn texts(map: Map<Seq<char>, String>) -> Map<Seq<char>, Seq<char>> {
    map.map_values(|text: String| text@)
}

/// What an [`EventContext`] holds.
#[verifier::ext_equal]
pub struct ContextView {
    pub app_id: Option<Seq<char>>,
    pub window_title: Option<Seq<char>>,
    pub workspace: Option<i64>,
    pub fullscreen: Option<bool>,
    pub extra: Map<Seq<char>, Seq<char>>,
}

impl ContextView {
    /// No context at all.
    pub open spec fn blank() -> ContextView {
        ContextView {
            app_id: None,
            window_title: None,
            workspace: None,
            fullscreen: None,
            extra: Map::empty(),
        }
    }
}

/// Desktop and session data attached by optional context adapters.
#[derive(Debug)]
pub struct EventContext {
    pub app_id: Option<String>,
    pub window_title: Option<String>,
    pub workspace: Option<i64>,
    pub fullscreen: Option<bool>,
    /// Further values, as JSON text.
    pub extra: TextMap<String>,
}

impl View for EventContext {
    type V = ContextView;

    open spec fn view(&self) -> ContextView {
        ContextView {
            app_id: crate::text::optional_text(self.app_id),
            window_title: crate::text::optional_text(self.window_title),
            workspace: self.workspace,
            fullscreen: self.fullscreen,
            extra: texts(self.extra@),
        }
    }
}

impl Default for EventContext {
    fn default() -> (context: EventContext)
        ensures
            context@ == ContextView::blank(),
    {
        let context = EventContext {
            app_id: None,
            window_title: None,
            workspace: None,
            fullscreen: None,
            extra: TextMap::new(),
        };
        assert(texts(context.extra@) =~= Map::empty());
        context
    }
}

impl Clone for EventContext {
    fn clone(&self) -> (context: EventContext)
        ensures
            context@ == self@,
    {
        let extra = clone_texts(&self.extra);
        EventContext {
            app_id: clone_optional(&self.app_id),
            window_title: clone_optional(&self.window_title),
            workspace: self.workspace,
            fullscreen: self.fullscreen,
            extra,
        }
    }
}

pub(crate) fn clone_optional(text: &Option<String>) -> (copy: Option<String>)
    ensures
        crate::text::optional_text(copy) == crate::text::optional_text(*text),
{
    match text {
        Some(text) => Some(text.clone()),
        None => None,
    }
}

pub(crate) fn clone_texts(map: &TextMap<String>) -> (copy: TextMap<String>)
    ensures
        texts(copy@) == texts(map@),
        copy@ == map@,
{
    let copy = map.clone();
    assert(copy@ =~= map@);
    copy
}

pub(crate) fn clone_metrics(map: &TextMap<Metric>) -> (copy: TextMap<Metric>)
    ensures
        copy@ == map@,
{
    let copy = map.clone();
    assert(copy@ =~= map@);
    copy
}

/// What an [`InputEvent`] holds.
#[verifier::ext_equal]
pub struct EventView {
    pub schema_version: u32,
    pub id: u128,
    pub family: Seq<char>,
    pub phase: Seq<char>,
    pub fingers: Option<u8>,
    pub direction: Option<Seq<char>>,
    pub values: Map<Seq<char>, Metric>,
    pub labels: Map<Seq<char>, Seq<char>>,
    pub context: ContextView,
}

impl EventView {
    /// An event of the current schema that carries nothing but its identity,
    /// family and phase.
    pub open spec fn blank(id: u128, family: Seq<char>, phase: Seq<char>) -> EventView {
        EventView {
            schema_version: 1,
            id,
            family,
            phase,
            fingers: None,
            direction: None,
            values: Map::empty(),
            labels: Map::empty(),
            context: ContextView::blank(),
        }
    }

    /// The stream that a drag event belongs to, where it names one.
    pub open spec fn stream_id(self) -> Option<Seq<char>> {
        if self.labels.contains_key("recognition.stream_id"@) && !crate::text::blank(
            self.labels["recognition.stream_id"@],
        ) {
            Some(self.labels["recognition.stream_id"@])
        } else {
            None
        }
    }
}

/// A normalized event published by any input backend or recognizer.
///
/// Namespaced strings deliberately avoid coupling the core to a fixed list of
/// gestures. New backends can add event families without changing this crate.
#[derive(Debug)]
pub struct InputEvent {
    pub schema_version: u32,
    pub id: u128,
    pub family: String,
    pub phase: String,
    pub fingers: Option<u8>,
    pub direction: Option<String>,
    pub values: TextMap<Metric>,
    pub labels: TextMap<String>,
    pub context: EventContext,
}

impl View for InputEvent {
    type V = EventView;

    open spec fn view(&self) -> EventView {
        EventView {
            schema_version: self.schema_version,
            id: self.id,
            family: self.family@,
            phase: self.phase@,
            fingers: self.fingers,
            direction: crate::text::optional_text(self.direction),
            values: self.values@,
            labels: texts(self.labels@),
            context: self.context@,
        }
    }
}

impl Clone for InputEvent {
    fn clone(&self) -> (event: InputEvent)
        ensures
            event@ == self@,
    {
        InputEvent {
            schema_version: self.schema_version,
            id: self.id,
            family: self.family.clone(),
            phase: self.phase.clone(),
            fingers: self.fingers,
            direction: clone_optional(&self.direction),
            values: clone_metrics(&self.values),
            labels: clone_texts(&self.labels),
            context: self.context.clone(),
        }
    }
}

impl InputEvent {
    /// A new event with an identity of its own.
    pub fn new(family: &str, phase: &str) -> (event: InputEvent)
        ensures
            event@ == EventView::blank(event.id, family@, phase@),
            crate::ids::is_random_identity(event.id),
    {
        InputEvent::with_id(fresh_id(), family, phase)
    }

    /// A new event with a given identity.
    pub fn with_id(id: u128, family: &str, phase: &str) -> (event: InputEvent)
        ensures
            event@ == EventView::blank(id, family@, phase@),
    {
        let labels: TextMap<String> = TextMap::new();
        assert(texts(labels@) =~= Map::empty());
        InputEvent {
            schema_version: 1,
            id,
            family: family.to_owned(),
            phase: phase.to_owned(),
            fingers: None,
            direction: None,
            values: TextMap::new(),
            labels,
            context: EventContext::default(),
        }
    }

    /// Sets a label.
    pub fn set_label(&mut self, key: &str, value: &str)
        ensures
            final(self)@ == (EventView {
                labels: old(self)@.labels.insert(key@, value@),
                ..old(self)@
            }),
    {
        let ghost before = self.labels@;
        self.labels.insert(key.to_owned(), value.to_owned());
        assert(texts(self.labels@) =~= texts(before).insert(key@, value@));
    }

    /// Sets a value.
    pub fn set_value(&mut self, key: &str, value: Metric)
        ensures
            final(self)@ == (EventView {
                values: old(self)@.values.insert(key@, value),
                ..old(self)@
            }),
    {
        self.values.insert(key.to_owned(), value);
    }

    /// The stream that a drag event belongs to, where it names one: the label
    /// `recognition.stream_id`, unless it is blank.
    pub fn stream_id(&self) -> (stream: Option<&str>)
        ensures
            stream is Some <==> self@.stream_id() is Some,
            stream matches Some(stream) ==> Some(stream@) == self@.stream_id(),
    {
        match self.labels.get("recognition.stream_id") {
            Some(stream) => {
                if crate::text::is_blank(stream.as_str()) {
                    None
                } else {
                    Some(stream.as_str())
                }
            },
            None => None,
        }
    }
}

/// An event belongs to the stream that its label names, unless the label is missing or
/// blank.
pub proof fn law_streams_are_named_by_a_label(event: EventView, stream: Seq<char>)
    ensures
        event.stream_id() == Some(stream) <==> event.labels.contains_key("recognition.stream_id"@)
            && event.labels["recognition.stream_id"@] == stream && !crate::text::blank(stream),
{
}

} // verus!
