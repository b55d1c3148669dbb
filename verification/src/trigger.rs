//! Matching events against trigger patterns.

use vstd::prelude::*;

use crate::config::TriggerPattern;
use crate::event::InputEvent;
use crate::metric::Metric;
use crate::text::{append, before_suffix, same_text, same_text_ignoring_case, starts_with};
use crate::text_map::TextMap;

verus! {

/// Whether a family pattern takes in a family: `*` takes in every family,
/// `name.*` takes in `name` and what lies below it, and any other pattern takes
/// in itself.
pub open spec fn family_match(pattern: Seq<char>, actual: Seq<char>) -> bool {
    if pattern == "*"@ {
        true
    } else if crate::text::stands_at(pattern, ".*"@, pattern.len() - ".*"@.len()) {
        let prefix = pattern.take(pattern.len() - ".*"@.len());
        actual == prefix || crate::text::stands_at(actual, prefix + "."@, 0)
    } else {
        pattern == actual
    }
}

/// Tests a family against a family pattern.
pub fn family_matches(pattern: &str, actual: &str) -> (result: bool)
    ensures
        result == family_match(pattern@, actual@),
{
    if same_text(pattern, "*") {
        return true;
    }
    if let Some(prefix) = before_suffix(pattern, ".*") {
        if same_text(actual, prefix.as_str()) {
            return true;
        }
        let mut below = prefix;
        append(&mut below, ".");
        return starts_with(actual, below.as_str());
    }
    same_text(pattern, actual)
}

/// Whether a list holds a text.
pub open spec fn lists(list: Seq<String>, text: Seq<char>) -> bool {
    exists|i: int| 0 <= i < list.len() && (#[trigger] list[i])@ == text
}

/// Whether a list holds a text, but for the case of ASCII letters.
pub open spec fn lists_ignoring_case(list: Seq<String>, text: Seq<char>) -> bool {
    exists|i: int|
        0 <= i < list.len() && crate::text::lowercase((#[trigger] list[i])@)
            == crate::text::lowercase(text)
}

/// Whether a trigger matches an event: every part of the pattern that is not
/// empty holds of it.
pub open spec fn trigger_match(pattern: TriggerPattern, event: crate::event::EventView) -> bool {
    &&& family_match(pattern.family@, event.family)
    &&& pattern.phases@.len() == 0 || lists(pattern.phases@, event.phase)
    &&& pattern.fingers@.len() == 0 || (event.fingers matches Some(fingers)
        && pattern.fingers@.contains(fingers))
    &&& pattern.directions@.len() == 0 || (event.direction matches Some(direction)
        && lists_ignoring_case(pattern.directions@, direction))
    &&& forall|key: Seq<char>| #[trigger]
        pattern.labels@.contains_key(key) ==> event.labels.contains_key(key) && event.labels[key]
            == pattern.labels@[key]@
    &&& forall|key: Seq<char>| #[trigger]
        pattern.min_values@.contains_key(key) ==> event.values.contains_key(key)
            && !event.values[key].below(pattern.min_values@[key])
    &&& forall|key: Seq<char>| #[trigger]
        pattern.max_values@.contains_key(key) ==> event.values.contains_key(key)
            && !pattern.max_values@[key].below(event.values[key])
}

fn holds_text(list: &Vec<String>, text: &str) -> (result: bool)
    ensures
        result == lists(list@, text@),
{
    let mut index: usize = 0;
    while index < list.len()
        invariant
            index <= list@.len(),
            forall|i: int| 0 <= i < index ==> (#[trigger] list@[i])@ != text@,
        decreases list@.len() - index,
    {
        if same_text(list[index].as_str(), text) {
            return true;
        }
        index = index + 1;
    }
    false
}

fn holds_text_ignoring_case(list: &Vec<String>, text: &str) -> (result: bool)
    ensures
        result == lists_ignoring_case(list@, text@),
{
    let mut index: usize = 0;
    while index < list.len()
        invariant
            index <= list@.len(),
            forall|i: int|
                0 <= i < index ==> crate::text::lowercase((#[trigger] list@[i])@)
                    != crate::text::lowercase(text@),
        decreases list@.len() - index,
    {
        if same_text_ignoring_case(list[index].as_str(), text) {
            return true;
        }
        index = index + 1;
    }
    false
}

fn holds_count(list: &Vec<u8>, count: u8) -> (result: bool)
    ensures
        result == list@.contains(count),
{
    let mut index: usize = 0;
    while index < list.len()
        invariant
            index <= list@.len(),
            forall|i: int| 0 <= i < index ==> list@[i] != count,
        decreases list@.len() - index,
    {
        if list[index] == count {
            return true;
        }
        index = index + 1;
    }
    false
}

fn labels_match(pattern: &TextMap<String>, labels: &TextMap<String>) -> (result: bool)
    ensures
        result == forall|key: Seq<char>| #[trigger]
            pattern@.contains_key(key) ==> labels@.contains_key(key) && labels@[key]@
                == pattern@[key]@,
{
    let count: usize = pattern.len();
    let mut index: usize = 0;
    while index < count
        invariant
            index <= count == pattern.keys().len(),
            forall|key: Seq<char>| #[trigger]
                pattern@.contains_key(key) ==> pattern.keys().contains(key),
            forall|i: int|
                0 <= i < index ==> labels@.contains_key(#[trigger] pattern.keys()[i])
                    && labels@[pattern.keys()[i]]@ == pattern@[pattern.keys()[i]]@,
        decreases count - index,
    {
        let (key, expected) = pattern.entry(index);
        match labels.get(key.as_str()) {
            Some(label) => {
                if !same_text(label.as_str(), expected.as_str()) {
                    assert(pattern@.contains_key(key@));
                    return false;
                }
            },
            None => {
                assert(pattern@.contains_key(key@));
                return false;
            },
        }
        index = index + 1;
    }
    proof {
        assert forall|key: Seq<char>| #[trigger]
            pattern@.contains_key(key) implies labels@.contains_key(key) && labels@[key]@
            == pattern@[key]@ by {
            let i = choose|i: int| 0 <= i < pattern.keys().len() && pattern.keys()[i] == key;
            assert(pattern.keys().contains(key));
            assert(labels@.contains_key(pattern.keys()[i]));
        }
    }
    true
}

fn reaches_minimums(minimums: &TextMap<Metric>, values: &TextMap<Metric>) -> (result: bool)
    ensures
        result == forall|key: Seq<char>| #[trigger]
            minimums@.contains_key(key) ==> values@.contains_key(key) && !values@[key].below(
                minimums@[key],
            ),
{
    let count: usize = minimums.len();
    let mut index: usize = 0;
    while index < count
        invariant
            index <= count == minimums.keys().len(),
            forall|key: Seq<char>| #[trigger]
                minimums@.contains_key(key) ==> minimums.keys().contains(key),
            forall|i: int|
                0 <= i < index ==> values@.contains_key(#[trigger] minimums.keys()[i])
                    && !values@[minimums.keys()[i]].below(minimums@[minimums.keys()[i]]),
        decreases count - index,
    {
        let (key, minimum) = minimums.entry(index);
        let reached: bool = match values.get(key.as_str()) {
            Some(actual) => !actual.is_below(minimum),
            None => false,
        };
        if !reached {
            assert(minimums@.contains_key(key@));
            return false;
        }
        index = index + 1;
    }
    proof {
        assert forall|key: Seq<char>| #[trigger]
            minimums@.contains_key(key) implies values@.contains_key(key) && !values@[key].below(
            minimums@[key],
        ) by {
            let i = choose|i: int| 0 <= i < minimums.keys().len() && minimums.keys()[i] == key;
            assert(minimums.keys().contains(key));
            assert(values@.contains_key(minimums.keys()[i]));
        }
    }
    true
}

fn keeps_maximums(maximums: &TextMap<Metric>, values: &TextMap<Metric>) -> (result: bool)
    ensures
        result == forall|key: Seq<char>| #[trigger]
            maximums@.contains_key(key) ==> values@.contains_key(key) && !maximums@[key].below(
                values@[key],
            ),
{
    let count: usize = maximums.len();
    let mut index: usize = 0;
    while index < count
        invariant
            index <= count == maximums.keys().len(),
            forall|key: Seq<char>| #[trigger]
                maximums@.contains_key(key) ==> maximums.keys().contains(key),
            forall|i: int|
                0 <= i < index ==> values@.contains_key(#[trigger] maximums.keys()[i])
                    && !maximums@[maximums.keys()[i]].below(values@[maximums.keys()[i]]),
        decreases count - index,
    {
        let (key, maximum) = maximums.entry(index);
        let kept: bool = match values.get(key.as_str()) {
            Some(actual) => !maximum.is_below(actual),
            None => false,
        };
        if !kept {
            assert(maximums@.contains_key(key@));
            return false;
        }
        index = index + 1;
    }
    proof {
        assert forall|key: Seq<char>| #[trigger]
            maximums@.contains_key(key) implies values@.contains_key(key) && !maximums@[key].below(
            values@[key],
        ) by {
            let i = choose|i: int| 0 <= i < maximums.keys().len() && maximums.keys()[i] == key;
            assert(maximums.keys().contains(key));
            assert(values@.contains_key(maximums.keys()[i]));
        }
    }
    true
}

/// Tests an event against a trigger.
pub fn trigger_matches(pattern: &TriggerPattern, event: &InputEvent) -> (result: bool)
    ensures
        result == trigger_match(*pattern, event@),
{
    if !family_matches(pattern.family.as_str(), event.family.as_str()) {
        return false;
    }
    if pattern.phases.len() > 0 && !holds_text(&pattern.phases, event.phase.as_str()) {
        return false;
    }
    if pattern.fingers.len() > 0 {
        let listed: bool = match event.fingers {
            Some(fingers) => holds_count(&pattern.fingers, fingers),
            None => false,
        };
        if !listed {
            return false;
        }
    }
    if pattern.directions.len() > 0 {
        let listed: bool = match &event.direction {
            Some(direction) => holds_text_ignoring_case(&pattern.directions, direction.as_str()),
            None => false,
        };
        if !listed {
            return false;
        }
    }
    if !labels_match(&pattern.labels, &event.labels) {
        proof {
            let key = choose|key: Seq<char>|
                pattern.labels@.contains_key(key) && !(event.labels@.contains_key(key)
                    && event.labels@[key]@ == pattern.labels@[key]@);
            assert(pattern.labels@.contains_key(key));
        }
        return false;
    }
    proof {
        assert forall|key: Seq<char>| #[trigger]
            pattern.labels@.contains_key(key) implies event@.labels.contains_key(key)
            && event@.labels[key] == pattern.labels@[key]@ by {
            assert(event.labels@.contains_key(key));
        }
    }
    reaches_minimums(&pattern.min_values, &event.values) && keeps_maximums(
        &pattern.max_values,
        &event.values,
    )
}

/// The parts of a trigger by their contents.
#[verifier::ext_equal]
pub struct PatternView {
    pub family: Seq<char>,
    pub phases: Seq<Seq<char>>,
    pub fingers: Seq<u8>,
    pub directions: Seq<Seq<char>>,
    pub labels: Map<Seq<char>, Seq<char>>,
    pub min_values: Map<Seq<char>, Metric>,
    pub max_values: Map<Seq<char>, Metric>,
}

impl View for TriggerPattern {
    type V = PatternView;

    open spec fn view(&self) -> PatternView {
        PatternView {
            family: self.family@,
            phases: self.phases@.map_values(|phase: String| phase@),
            fingers: self.fingers@,
            directions: self.directions@.map_values(|direction: String| direction@),
            labels: self.labels@.map_values(|label: String| label@),
            min_values: self.min_values@,
            max_values: self.max_values@,
        }
    }
}

/// Whether two texts are the same but for the case of ASCII letters: they have one
/// length, and at each place the same character or the two forms of one letter.
pub open spec fn same_letters(left: Seq<char>, right: Seq<char>) -> bool {
    left.len() == right.len() && forall|i: int|
        0 <= i < left.len() ==> #[trigger] left[i] == right[i] || ('A' <= left[i] <= 'Z'
            && right[i] as u32 == left[i] as u32 + 32) || ('A' <= right[i] <= 'Z' && left[i] as u32
            == right[i] as u32 + 32)
}

proof fn lemma_same_letters(left: Seq<char>, right: Seq<char>)
    ensures
        same_letters(left, right) <==> crate::text::lowercase(left) == crate::text::lowercase(
            right,
        ),
{
    let lower_left = crate::text::lowercase(left);
    let lower_right = crate::text::lowercase(right);
    if same_letters(left, right) {
        assert forall|i: int| 0 <= i < left.len() implies lower_left[i] == lower_right[i] by {
            assert(left[i] == right[i] || left[i] != right[i]);
        }
        assert(lower_left =~= lower_right);
    }
    if lower_left == lower_right {
        assert(lower_left.len() == lower_right.len());
        assert forall|i: int| 0 <= i < left.len() implies #[trigger] left[i] == right[i] || ('A'
            <= left[i] <= 'Z' && right[i] as u32 == left[i] as u32 + 32) || ('A' <= right[i] <= 'Z'
            && left[i] as u32 == right[i] as u32 + 32) by {
            assert(lower_left[i] == lower_right[i]);
        }
    }
}

proof fn lemma_parts(pattern: TriggerPattern, event: crate::event::EventView)
    ensures
        lists(pattern.phases@, event.phase) <==> pattern@.phases.contains(event.phase),
        event.direction matches Some(direction) ==> (lists_ignoring_case(
            pattern.directions@,
            direction,
        ) <==> exists|i: int|
            0 <= i < pattern@.directions.len() && same_letters(
                #[trigger] pattern@.directions[i],
                direction,
            )),
        (forall|key: Seq<char>| #[trigger]
            pattern.labels@.contains_key(key) ==> event.labels.contains_key(key)
                && event.labels[key] == pattern.labels@[key]@) <==> (forall|key: Seq<char>|
         #[trigger]
            pattern@.labels.contains_key(key) ==> event.labels.contains_key(key)
                && event.labels[key] == pattern@.labels[key]),
{
    if lists(pattern.phases@, event.phase) {
        let i = choose|i: int|
            0 <= i < pattern.phases@.len() && (#[trigger] pattern.phases@[i])@ == event.phase;
        assert(pattern@.phases[i] == event.phase);
    }
    if pattern@.phases.contains(event.phase) {
        let i = choose|i: int| 0 <= i < pattern@.phases.len() && pattern@.phases[i] == event.phase;
        assert(pattern.phases@[i]@ == event.phase);
    }
    if event.direction is Some {
        let direction = event.direction->0;
        if lists_ignoring_case(pattern.directions@, direction) {
            let i = choose|i: int|
                0 <= i < pattern.directions@.len() && crate::text::lowercase(
                    (#[trigger] pattern.directions@[i])@,
                ) == crate::text::lowercase(direction);
            lemma_same_letters(pattern.directions@[i]@, direction);
            assert(same_letters(pattern@.directions[i], direction));
        }
        if exists|i: int|
            0 <= i < pattern@.directions.len() && same_letters(
                #[trigger] pattern@.directions[i],
                direction,
            ) {
            let i = choose|i: int|
                0 <= i < pattern@.directions.len() && same_letters(
                    #[trigger] pattern@.directions[i],
                    direction,
                );
            lemma_same_letters(pattern@.directions[i], direction);
            assert(pattern.directions@[i]@ == pattern@.directions[i]);
        }
    }
    if forall|key: Seq<char>| #[trigger]
        pattern.labels@.contains_key(key) ==> event.labels.contains_key(key) && event.labels[key]
            == pattern.labels@[key]@ {
        assert forall|key: Seq<char>| #[trigger]
            pattern@.labels.contains_key(key) implies event.labels.contains_key(key)
            && event.labels[key] == pattern@.labels[key] by {
            assert(pattern.labels@.contains_key(key));
        }
    }
    if forall|key: Seq<char>| #[trigger]
        pattern@.labels.contains_key(key) ==> event.labels.contains_key(key) && event.labels[key]
            == pattern@.labels[key] {
        assert forall|key: Seq<char>| #[trigger]
            pattern.labels@.contains_key(key) implies event.labels.contains_key(key)
            && event.labels[key] == pattern.labels@[key]@ by {
            assert(pattern@.labels.contains_key(key));
        }
    }
}

/// A trigger that says nothing but a family matches the events of that family,
/// whatever else they hold.
pub proof fn law_triggers_may_leave_everything_open(
    pattern: TriggerPattern,
    event: crate::event::EventView,
)
    requires
        pattern@.phases.len() == 0,
        pattern@.fingers.len() == 0,
        pattern@.directions.len() == 0,
        pattern@.labels.dom() == Set::<Seq<char>>::empty(),
        pattern@.min_values.dom() == Set::<Seq<char>>::empty(),
        pattern@.max_values.dom() == Set::<Seq<char>>::empty(),
    ensures
        trigger_match(pattern, event) <==> family_match(pattern@.family, event.family),
{
    lemma_parts(pattern, event);
    assert(forall|key: Seq<char>| !pattern@.labels.dom().contains(key));
    assert(forall|key: Seq<char>| !pattern@.min_values.dom().contains(key));
    assert(forall|key: Seq<char>| !pattern@.max_values.dom().contains(key));
}

/// `*` takes in every family; `name.*` takes in `name` itself and whatever follows
/// `name` and a dot, and nothing else; any other pattern takes in itself only.
pub proof fn law_families(name: Seq<char>, rest: Seq<char>, actual: Seq<char>)
    ensures
        family_match("*"@, actual),
        family_match(name + ".*"@, name),
        family_match(name + ".*"@, name + "."@ + rest),
        family_match(name + ".*"@, actual) ==> actual == name || exists|tail: Seq<char>|
            actual == name + "."@ + tail,
        name != "*"@ && !(name.len() >= 2 && name[name.len() - 2] == '.' && name[name.len() - 1]
            == '*') ==> (family_match(name, actual) <==> actual == name),
{
    reveal_strlit("*");
    reveal_strlit(".*");
    reveal_strlit(".");
    let wild = name + ".*"@;
    assert(wild.len() >= 2);
    assert("*"@.len() == 1);
    assert(wild.subrange(wild.len() - 2, wild.len() as int) =~= ".*"@);
    assert(wild.take(wild.len() - 2) =~= name);
    let below = name + "."@;
    assert((below + rest).subrange(0, below.len() as int) =~= below);
    if family_match(wild, actual) && actual != name {
        let tail = actual.skip(below.len() as int);
        assert(actual =~= actual.subrange(0, below.len() as int) + tail);
        assert(actual == name + "."@ + tail);
    }
    if name.len() >= 2 && crate::text::stands_at(name, ".*"@, name.len() - 2) {
        let end = name.subrange(name.len() - 2, name.len() as int);
        assert(end[0] == '.' && end[1] == '*');
        assert(name[name.len() - 2] == end[0] && name[name.len() - 1] == end[1]);
    }
}

/// Finger counts restrict a trigger to the events with one of them, wherever in the
/// list it stands; where none is listed they restrict nothing.
pub proof fn law_any_listed_finger_count_matches(
    pattern: TriggerPattern,
    open: TriggerPattern,
    event: crate::event::EventView,
)
    requires
        open@ == (PatternView { fingers: Seq::empty(), ..pattern@ }),
    ensures
        trigger_match(pattern, event) <==> trigger_match(open, event) && (pattern@.fingers.len()
            == 0 || exists|i: int|
            0 <= i < pattern@.fingers.len() && event.fingers == Some(
                #[trigger] pattern@.fingers[i],
            )),
{
    lemma_parts(pattern, event);
    lemma_parts(open, event);
    assert(open.phases@.len() == open@.phases.len());
    assert(pattern.phases@.len() == pattern@.phases.len());
    assert(open.directions@.len() == open@.directions.len());
    assert(pattern.directions@.len() == pattern@.directions.len());
}

/// The order in which a trigger lists finger counts, and how often it lists one, do
/// not matter.
pub proof fn law_the_order_of_finger_counts_does_not_matter(
    pattern: TriggerPattern,
    other: TriggerPattern,
    event: crate::event::EventView,
)
    requires
        other@ == (PatternView { fingers: other@.fingers, ..pattern@ }),
        forall|count: u8| #[trigger]
            pattern@.fingers.contains(count) <==> other@.fingers.contains(count),
    ensures
        trigger_match(pattern, event) == trigger_match(other, event),
{
    lemma_parts(pattern, event);
    lemma_parts(other, event);
    assert(other.phases@.len() == other@.phases.len());
    assert(pattern.phases@.len() == pattern@.phases.len());
    assert(other.directions@.len() == other@.directions.len());
    assert(pattern.directions@.len() == pattern@.directions.len());
    assert(pattern@.directions == other@.directions && pattern@.labels == other@.labels);
    assert(pattern@.min_values == other@.min_values && pattern@.max_values == other@.max_values);
    let count = event.fingers->0;
    assert(pattern.fingers@.contains(count) <==> other.fingers@.contains(count)) by {
        assert(pattern@.fingers.contains(count) <==> other@.fingers.contains(count));
    }
    assert(pattern.fingers@.len() == 0 <==> other.fingers@.len() == 0) by {
        if pattern@.fingers.len() > 0 {
            assert(pattern@.fingers.contains(pattern@.fingers[0]));
        }
        if other@.fingers.len() > 0 {
            let first = other@.fingers[0];
            assert(other@.fingers.contains(first));
            assert(pattern@.fingers.contains(first));
        }
    }
}

/// Phases restrict a trigger to the events in one of them.
pub proof fn law_any_listed_phase_matches(
    pattern: TriggerPattern,
    open: TriggerPattern,
    event: crate::event::EventView,
)
    requires
        open@ == (PatternView { phases: Seq::empty(), ..pattern@ }),
    ensures
        trigger_match(pattern, event) <==> trigger_match(open, event) && (pattern@.phases.len() == 0
            || exists|i: int|
            0 <= i < pattern@.phases.len() && event.phase == #[trigger] pattern@.phases[i]),
{
    lemma_parts(pattern, event);
    lemma_parts(open, event);
    assert(open.phases@.len() == open@.phases.len());
    assert(pattern.phases@.len() == pattern@.phases.len());
    assert(open.directions@.len() == open@.directions.len());
    assert(pattern.directions@.len() == pattern@.directions.len());
}

/// Directions restrict a trigger to the events in one of them, but for the case of
/// ASCII letters.
pub proof fn law_any_listed_direction_matches(
    pattern: TriggerPattern,
    open: TriggerPattern,
    event: crate::event::EventView,
)
    requires
        open@ == (PatternView { directions: Seq::empty(), ..pattern@ }),
    ensures
        trigger_match(pattern, event) <==> trigger_match(open, event) && (pattern@.directions.len()
            == 0 || (event.direction is Some && exists|i: int|
            0 <= i < pattern@.directions.len() && same_letters(
                #[trigger] pattern@.directions[i],
                event.direction->0,
            ))),
{
    lemma_parts(pattern, event);
    lemma_parts(open, event);
    assert(open.phases@.len() == open@.phases.len());
    assert(pattern.phases@.len() == pattern@.phases.len());
    assert(open.directions@.len() == open@.directions.len());
    assert(pattern.directions@.len() == pattern@.directions.len());
}

/// A label restricts a trigger to the events that carry it with the same text.
pub proof fn law_each_label_restricts(
    pattern: TriggerPattern,
    open: TriggerPattern,
    event: crate::event::EventView,
    key: Seq<char>,
    label: Seq<char>,
)
    requires
        pattern@ == (PatternView { labels: open@.labels.insert(key, label), ..open@ }),
        !open@.labels.contains_key(key),
    ensures
        trigger_match(pattern, event) <==> trigger_match(open, event) && event.labels.contains_key(
            key,
        ) && event.labels[key] == label,
{
    lemma_parts(pattern, event);
    lemma_parts(open, event);
    assert(open.phases@.len() == open@.phases.len());
    assert(pattern.phases@.len() == pattern@.phases.len());
    assert(open.directions@.len() == open@.directions.len());
    assert(pattern.directions@.len() == pattern@.directions.len());
    assert(pattern@.labels.contains_key(key));
    assert forall|other: Seq<char>| #[trigger]
        open@.labels.contains_key(other) implies pattern@.labels.contains_key(other)
        && pattern@.labels[other] == open@.labels[other] by {}
    assert forall|other: Seq<char>| #[trigger]
        pattern@.labels.contains_key(other) && other != key implies open@.labels.contains_key(other)
        && pattern@.labels[other] == open@.labels[other] by {}
}

/// A minimum restricts a trigger to the events that carry a value which is not below
/// it.
pub proof fn law_each_minimum_restricts(
    pattern: TriggerPattern,
    open: TriggerPattern,
    event: crate::event::EventView,
    key: Seq<char>,
    minimum: Metric,
)
    requires
        pattern@ == (PatternView { min_values: open@.min_values.insert(key, minimum), ..open@ }),
        !open@.min_values.contains_key(key),
    ensures
        trigger_match(pattern, event) <==> trigger_match(open, event) && event.values.contains_key(
            key,
        ) && !event.values[key].below(minimum),
{
    lemma_parts(pattern, event);
    lemma_parts(open, event);
    assert(open.phases@.len() == open@.phases.len());
    assert(pattern.phases@.len() == pattern@.phases.len());
    assert(open.directions@.len() == open@.directions.len());
    assert(pattern.directions@.len() == pattern@.directions.len());
    assert(pattern@.min_values.contains_key(key));
    assert forall|other: Seq<char>| #[trigger]
        open@.min_values.contains_key(other) implies pattern@.min_values.contains_key(other)
        && pattern@.min_values[other] == open@.min_values[other] by {}
    assert forall|other: Seq<char>| #[trigger]
        pattern@.min_values.contains_key(other) && other
        != key implies open@.min_values.contains_key(other) && pattern@.min_values[other]
        == open@.min_values[other] by {}
}

/// A maximum restricts a trigger to the events that carry a value which is not above
/// it.
pub proof fn law_each_maximum_restricts(
    pattern: TriggerPattern,
    open: TriggerPattern,
    event: crate::event::EventView,
    key: Seq<char>,
    maximum: Metric,
)
    requires
        pattern@ == (PatternView { max_values: open@.max_values.insert(key, maximum), ..open@ }),
        !open@.max_values.contains_key(key),
    ensures
        trigger_match(pattern, event) <==> trigger_match(open, event) && event.values.contains_key(
            key,
        ) && !maximum.below(event.values[key]),
{
    lemma_parts(pattern, event);
    lemma_parts(open, event);
    assert(open.phases@.len() == open@.phases.len());
    assert(pattern.phases@.len() == pattern@.phases.len());
    assert(open.directions@.len() == open@.directions.len());
    assert(pattern.directions@.len() == pattern@.directions.len());
    assert(pattern@.max_values.contains_key(key));
    assert forall|other: Seq<char>| #[trigger]
        open@.max_values.contains_key(other) implies pattern@.max_values.contains_key(other)
        && pattern@.max_values[other] == open@.max_values[other] by {}
    assert forall|other: Seq<char>| #[trigger]
        pattern@.max_values.contains_key(other) && other
        != key implies open@.max_values.contains_key(other) && pattern@.max_values[other]
        == open@.max_values[other] by {}
}

} // verus!
