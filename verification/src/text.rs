//! Text operations, stated over the sequence of characters that a string holds.

use vstd::prelude::*;

verus! {

/// `<str as PartialEq>::eq`: two string slices are equal exactly when they
/// hold the same characters.
pub assume_specification[ <str as PartialEq<str>>::eq ](left: &str, right: &str) -> (same: bool)
    ensures
        same == (left@ == right@),
;

/// `String::push`: appends one character.
pub assume_specification[ String::push ](text: &mut String, character: char)
    ensures
        final(text)@ == old(text)@.push(character),
;

/// How `{:?}` shows a text: in double quotes, with escapes.
pub uninterp spec fn quoted(text: Seq<char>) -> Seq<char>;

/// Shows a text as `{:?}` does (`<str as Debug>::fmt`). The result is named,
/// not spelled out: which characters are escaped follows Unicode tables.
#[verifier::external_body]
pub(crate) fn quote(text: &str) -> (result: String)
    ensures
        result@ == quoted(text@),
{
    format!("{text:?}")
}

/// Appends a text to another.
pub fn append(text: &mut String, part: &str)
    ensures
        final(text)@ == old(text)@ + part@,
{
    let chars = characters(part);
    let ghost before = text@;
    let mut index: usize = 0;
    while index < chars.len()
        invariant
            index <= chars@.len(),
            chars@ == part@,
            text@ == before + part@.take(index as int),
        decreases chars@.len() - index,
    {
        text.push(chars[index]);
        assert(text@ =~= before + part@.take(index + 1));
        index = index + 1;
    }
    assert(text@ =~= before + part@);
}

/// Whether two texts hold the same characters.
pub fn same_text(left: &str, right: &str) -> (same: bool)
    ensures
        same == (left@ == right@),
{
    *left == *right
}

/// An optional text, as its characters.
pub open spec fn optional_text(text: Option<String>) -> Option<Seq<char>> {
    match text {
        Some(text) => Some(text@),
        None => None,
    }
}

/// The characters of a text.
pub fn characters(text: &str) -> (chars: Vec<char>)
    ensures
        chars@ == text@,
{
    let mut chars: Vec<char> = Vec::new();
    for character in walk: text.chars()
        invariant
            walk.seq() == text@,
            chars@ == text@.take(walk.index() as int),
    {
        chars.push(character);
        assert(chars@ =~= text@.take(walk.index() + 1));
    }
    assert(text@.take(text@.len() as int) =~= text@);
    chars
}

/// The text that holds the characters from `from` up to `to`.
pub fn text_between(chars: &Vec<char>, from: usize, to: usize) -> (text: String)
    requires
        from <= to <= chars@.len(),
    ensures
        text@ == chars@.subrange(from as int, to as int),
{
    let mut text = String::new();
    let mut index: usize = from;
    while index < to
        invariant
            from <= index <= to <= chars@.len(),
            text@ == chars@.subrange(from as int, index as int),
        decreases to - index,
    {
        text.push(chars[index]);
        assert(chars@.subrange(from as int, index + 1) =~= chars@.subrange(
            from as int,
            index as int,
        ).push(chars@[index as int]));
        index = index + 1;
    }
    text
}

/// The characters with the Unicode `White_Space` property.
pub open spec fn is_whitespace(character: char) -> bool {
    let code = character as u32;
    ||| 0x0009 <= code <= 0x000d
    ||| code == 0x0020
    ||| code == 0x0085
    ||| code == 0x00a0
    ||| code == 0x1680
    ||| 0x2000 <= code <= 0x200a
    ||| 0x2028 <= code <= 0x2029
    ||| code == 0x202f
    ||| code == 0x205f
    ||| code == 0x3000
}

/// Tests for white space.
pub fn whitespace(character: char) -> (white: bool)
    ensures
        white == is_whitespace(character),
{
    let code: u32 = character as u32;
    (0x0009 <= code && code <= 0x000d) || code == 0x0020 || code == 0x0085 || code == 0x00a0
        || code == 0x1680 || (0x2000 <= code && code <= 0x200a) || (0x2028 <= code && code
        <= 0x2029) || code == 0x202f || code == 0x205f || code == 0x3000
}

/// A text that holds white space only, or nothing.
pub open spec fn blank(text: Seq<char>) -> bool {
    forall|i: int| 0 <= i < text.len() ==> is_whitespace(#[trigger] text[i])
}

/// Tests whether nothing is left of a text once its white space is trimmed.
pub fn is_blank(text: &str) -> (result: bool)
    ensures
        result == blank(text@),
{
    let chars = characters(text);
    let mut index: usize = 0;
    while index < chars.len()
        invariant
            index <= chars@.len(),
            chars@ == text@,
            forall|i: int| 0 <= i < index ==> is_whitespace(#[trigger] text@[i]),
        decreases chars@.len() - index,
    {
        if !whitespace(chars[index]) {
            assert(!is_whitespace(text@[index as int]));
            return false;
        }
        index = index + 1;
    }
    true
}

/// A text without the white space at its start.
pub open spec fn trim_start(text: Seq<char>) -> Seq<char>
    decreases text.len(),
{
    if text.len() > 0 && is_whitespace(text[0]) {
        trim_start(text.drop_first())
    } else {
        text
    }
}

/// A text without the white space at its end.
pub open spec fn trim_end(text: Seq<char>) -> Seq<char>
    decreases text.len(),
{
    if text.len() > 0 && is_whitespace(text.last()) {
        trim_end(text.drop_last())
    } else {
        text
    }
}

/// A text without the white space at its two ends.
pub open spec fn trim(text: Seq<char>) -> Seq<char> {
    trim_end(trim_start(text))
}

/// Trims the white space off both ends.
pub fn trimmed(text: &str) -> (result: String)
    ensures
        result@ == trim(text@),
{
    let chars = characters(text);
    let mut from: usize = 0;
    assert(text@.skip(0) =~= text@);
    while from < chars.len() && whitespace(chars[from])
        invariant
            from <= chars@.len(),
            chars@ == text@,
            trim_start(text@.skip(from as int)) == trim_start(text@),
        decreases chars@.len() - from,
    {
        assert(text@.skip(from as int).drop_first() =~= text@.skip(from + 1));
        from = from + 1;
    }
    let ghost started = trim_start(text@);
    assert(started == text@.skip(from as int));
    let mut to: usize = chars.len();
    assert(text@.subrange(from as int, to as int) =~= started);
    while to > from && whitespace(chars[to - 1])
        invariant
            from <= to <= chars@.len(),
            chars@ == text@,
            trim_end(text@.subrange(from as int, to as int)) == trim_end(started),
        decreases to,
    {
        assert(text@.subrange(from as int, to as int).drop_last() =~= text@.subrange(
            from as int,
            to - 1,
        ));
        to = to - 1;
    }
    text_between(&chars, from, to)
}

/// Trimming leaves nothing exactly where a text is blank.
pub proof fn law_trim_of_blank_text(text: Seq<char>)
    ensures
        trim(text).len() == 0 <==> blank(text),
{
    lemma_trim_start(text);
    lemma_trim_end(trim_start(text));
}

proof fn lemma_trim_start(text: Seq<char>)
    ensures
        blank(text) ==> trim_start(text).len() == 0,
        !blank(text) ==> trim_start(text).len() > 0 && !is_whitespace(trim_start(text)[0]),
    decreases text.len(),
{
    if text.len() > 0 && is_whitespace(text[0]) {
        let rest = text.drop_first();
        lemma_trim_start(rest);
        if blank(text) {
            assert forall|i: int| 0 <= i < rest.len() implies is_whitespace(#[trigger] rest[i]) by {
                assert(rest[i] == text[i + 1]);
            }
        } else {
            let i = choose|i: int| 0 <= i < text.len() && !is_whitespace(#[trigger] text[i]);
            assert(rest[i - 1] == text[i]);
        }
    } else if text.len() > 0 {
        assert(!is_whitespace(text[0]));
    }
}

proof fn lemma_trim_end(text: Seq<char>)
    requires
        text.len() > 0 ==> !is_whitespace(text[0]),
    ensures
        text.len() > 0 ==> trim_end(text).len() > 0,
    decreases text.len(),
{
    if text.len() > 0 && is_whitespace(text.last()) {
        assert(text.len() > 1);
        assert(text.drop_last()[0] == text[0]);
        lemma_trim_end(text.drop_last());
    }
}

/// An ASCII capital letter as its small letter, any other character as it is.
pub open spec fn lower(character: char) -> char {
    if 'A' <= character && character <= 'Z' {
        (character as u32 + 32) as char
    } else {
        character
    }
}

/// An ASCII small letter as its capital letter, any other character as it is.
pub open spec fn upper(character: char) -> char {
    if 'a' <= character && character <= 'z' {
        (character as u32 - 32) as char
    } else {
        character
    }
}

pub open spec fn lowercase(text: Seq<char>) -> Seq<char> {
    Seq::new(text.len(), |i: int| lower(text[i]))
}

pub open spec fn uppercase(text: Seq<char>) -> Seq<char> {
    Seq::new(text.len(), |i: int| upper(text[i]))
}

pub fn lower_character(character: char) -> (result: char)
    ensures
        result == lower(character),
{
    if 'A' <= character && character <= 'Z' {
        ((character as u8) + 32) as char
    } else {
        character
    }
}

pub fn upper_character(character: char) -> (result: char)
    ensures
        result == upper(character),
{
    if 'a' <= character && character <= 'z' {
        ((character as u8) - 32) as char
    } else {
        character
    }
}

/// Puts every ASCII letter in lower case.
pub fn to_lowercase(text: &str) -> (result: String)
    ensures
        result@ == lowercase(text@),
{
    let chars = characters(text);
    let mut result = String::new();
    let mut index: usize = 0;
    while index < chars.len()
        invariant
            index <= chars@.len(),
            chars@ == text@,
            result@ == lowercase(text@).take(index as int),
        decreases chars@.len() - index,
    {
        result.push(lower_character(chars[index]));
        assert(result@ =~= lowercase(text@).take(index + 1));
        index = index + 1;
    }
    assert(result@ =~= lowercase(text@));
    result
}

/// Puts every ASCII letter in upper case.
pub fn to_uppercase(text: &str) -> (result: String)
    ensures
        result@ == uppercase(text@),
{
    let chars = characters(text);
    let mut result = String::new();
    let mut index: usize = 0;
    while index < chars.len()
        invariant
            index <= chars@.len(),
            chars@ == text@,
            result@ == uppercase(text@).take(index as int),
        decreases chars@.len() - index,
    {
        result.push(upper_character(chars[index]));
        assert(result@ =~= uppercase(text@).take(index + 1));
        index = index + 1;
    }
    assert(result@ =~= uppercase(text@));
    result
}

/// Whether two texts are the same but for the case of ASCII letters.
pub fn same_text_ignoring_case(left: &str, right: &str) -> (same: bool)
    ensures
        same == (lowercase(left@) == lowercase(right@)),
{
    let left_lower = to_lowercase(left);
    let right_lower = to_lowercase(right);
    left_lower == right_lower
}

/// Whether `part` stands in `text` from `at` on.
pub open spec fn stands_at(text: Seq<char>, part: Seq<char>, at: int) -> bool {
    0 <= at && at + part.len() <= text.len() && text.subrange(at, at + part.len()) == part
}

/// Whether `part` stands anywhere in `text`.
pub open spec fn contains_part(text: Seq<char>, part: Seq<char>) -> bool {
    exists|at: int| stands_at(text, part, at)
}

fn part_stands_at(text: &Vec<char>, part: &Vec<char>, at: usize) -> (result: bool)
    ensures
        result == stands_at(text@, part@, at as int),
{
    if part.len() > text.len() || at > text.len() - part.len() {
        return false;
    }
    assert(text@.len() == text.len());
    let mut index: usize = 0;
    while index < part.len()
        invariant
            index <= part@.len(),
            at + part@.len() <= text@.len() <= usize::MAX,
            forall|i: int| 0 <= i < index ==> text@[at + i] == part@[i],
        decreases part@.len() - index,
    {
        if text[at + index] != part[index] {
            assert(text@.subrange(at as int, at + part@.len())[index as int] != part@[index as int]);
            return false;
        }
        index = index + 1;
    }
    assert(text@.subrange(at as int, at + part@.len()) =~= part@);
    true
}

/// Searches a text for a part.
pub fn has_part(text: &str, part: &str) -> (result: bool)
    ensures
        result == contains_part(text@, part@),
{
    let text_chars = characters(text);
    let part_chars = characters(part);
    let mut at: usize = 0;
    while at < text_chars.len()
        invariant
            at <= text_chars@.len(),
            text_chars@ == text@,
            part_chars@ == part@,
            forall|i: int| 0 <= i < at ==> !stands_at(text@, part@, i),
        decreases text_chars@.len() - at,
    {
        if part_stands_at(&text_chars, &part_chars, at) {
            return true;
        }
        at = at + 1;
    }
    let result = part_stands_at(&text_chars, &part_chars, at);
    proof {
        if contains_part(text@, part@) {
            let found = choose|found: int| stands_at(text@, part@, found);
            assert(stands_at(text@, part@, found));
            assert(found == at);
        }
    }
    result
}

/// Whether a text starts with a part.
pub fn starts_with(text: &str, part: &str) -> (result: bool)
    ensures
        result == stands_at(text@, part@, 0),
{
    part_stands_at(&characters(text), &characters(part), 0)
}

/// What follows a prefix, where the text has it.
pub fn after_prefix(text: &str, prefix: &str) -> (rest: Option<String>)
    ensures
        rest is Some <==> stands_at(text@, prefix@, 0),
        rest matches Some(rest) ==> rest@ == text@.skip(prefix@.len() as int),
{
    let chars = characters(text);
    let prefix_chars = characters(prefix);
    if part_stands_at(&chars, &prefix_chars, 0) {
        let rest = text_between(&chars, prefix_chars.len(), chars.len());
        assert(rest@ =~= text@.skip(prefix@.len() as int));
        Some(rest)
    } else {
        None
    }
}

/// What precedes a suffix, where the text has it.
pub fn before_suffix(text: &str, suffix: &str) -> (rest: Option<String>)
    ensures
        rest is Some <==> stands_at(text@, suffix@, text@.len() - suffix@.len()),
        rest matches Some(rest) ==> rest@ == text@.take(text@.len() - suffix@.len()),
{
    let chars = characters(text);
    let suffix_chars = characters(suffix);
    if suffix_chars.len() > chars.len() {
        return None;
    }
    let at: usize = chars.len() - suffix_chars.len();
    if part_stands_at(&chars, &suffix_chars, at) {
        let rest = text_between(&chars, 0, at);
        assert(rest@ =~= text@.take(at as int));
        Some(rest)
    } else {
        None
    }
}

/// Whether one text comes before another: at the first place where they differ
/// it has the smaller character, or it ends.
pub open spec fn precedes(left: Seq<char>, right: Seq<char>) -> bool {
    exists|at: int| precedes_at(left, right, at)
}

pub open spec fn precedes_at(left: Seq<char>, right: Seq<char>, at: int) -> bool {
    &&& 0 <= at <= left.len()
    &&& at < right.len()
    &&& left.take(at) == right.take(at)
    &&& at == left.len() || left[at] < right[at]
}

/// Tests whether one text comes before another.
pub fn comes_before(left: &str, right: &str) -> (result: bool)
    ensures
        result == precedes(left@, right@),
{
    let left_chars = characters(left);
    let right_chars = characters(right);
    let mut at: usize = 0;
    assert(left@.take(0) =~= right@.take(0));
    while at < left_chars.len() && at < right_chars.len() && left_chars[at] == right_chars[at]
        invariant
            at <= left_chars@.len(),
            at <= right_chars@.len(),
            left_chars@ == left@,
            right_chars@ == right@,
            left@.take(at as int) == right@.take(at as int),
        decreases left_chars@.len() - at,
    {
        assert(left@.take(at + 1) =~= left@.take(at as int).push(left@[at as int]));
        assert(right@.take(at + 1) =~= right@.take(at as int).push(right@[at as int]));
        at = at + 1;
    }
    let result: bool = at < right_chars.len() && (at == left_chars.len() || left_chars[at]
        < right_chars[at]);
    proof {
        if result {
            assert(precedes_at(left@, right@, at as int));
        } else if precedes(left@, right@) {
            let other = choose|other: int| precedes_at(left@, right@, other);
            lemma_first_difference(left@, right@, at as int, other);
        }
    }
    result
}

proof fn lemma_first_difference(left: Seq<char>, right: Seq<char>, at: int, other: int)
    requires
        0 <= at <= left.len(),
        at <= right.len(),
        left.take(at) == right.take(at),
        at == left.len() || at == right.len() || left[at] != right[at],
        precedes_at(left, right, other),
    ensures
        at == other,
{
    if other < at {
        assert(left.take(at)[other] == right.take(at)[other]);
        assert(left.take(at)[other] == left[other]);
        assert(right.take(at)[other] == right[other]);
    } else if at < other {
        assert(left.take(other)[at] == right.take(other)[at]);
    }
}

/// Of two texts exactly one holds: the first precedes, they are the same, the
/// second precedes.
pub proof fn law_precedence_is_total(left: Seq<char>, right: Seq<char>)
    ensures
        !(precedes(left, right) && precedes(right, left)),
        !precedes(left, left),
        left == right || precedes(left, right) || precedes(right, left),
{
    let at = lemma_common_length(left, right);
    if precedes(left, right) {
        let p = choose|p: int| precedes_at(left, right, p);
        lemma_first_difference(left, right, at, p);
    }
    if precedes(right, left) {
        let p = choose|p: int| precedes_at(right, left, p);
        lemma_first_difference(right, left, at, p);
    }
    if precedes(left, left) {
        let p = choose|p: int| precedes_at(left, left, p);
        assert(left.take(left.len() as int) == left.take(left.len() as int));
        lemma_first_difference(left, left, left.len() as int, p);
    }
    if at == left.len() && at == right.len() {
        assert(left =~= left.take(at));
        assert(right =~= right.take(at));
    } else if at < right.len() && (at == left.len() || left[at] < right[at]) {
        assert(precedes_at(left, right, at));
    } else {
        assert(precedes_at(right, left, at));
    }
}

/// How long the common beginning of two texts is.
proof fn lemma_common_length(left: Seq<char>, right: Seq<char>) -> (at: int)
    ensures
        0 <= at <= left.len(),
        at <= right.len(),
        left.take(at) == right.take(at),
        at == left.len() || at == right.len() || left[at] != right[at],
    decreases left.len(),
{
    if left.len() == 0 {
        assert(left.take(0) =~= right.take(0));
        0
    } else {
        let shorter = left.drop_last();
        let at = lemma_common_length(shorter, right);
        assert(left.take(at) =~= shorter.take(at));
        if at == shorter.len() && at < right.len() && left[at] == right[at] {
            assert(left.take(at + 1) =~= left.take(at).push(left[at]));
            assert(right.take(at + 1) =~= right.take(at).push(right[at]));
            at + 1
        } else {
            at
        }
    }
}

/// Precedence chains.
pub proof fn law_precedence_is_transitive(first: Seq<char>, second: Seq<char>, third: Seq<char>)
    requires
        precedes(first, second),
        precedes(second, third),
    ensures
        precedes(first, third),
{
    let a = choose|a: int| precedes_at(first, second, a);
    let b = choose|b: int| precedes_at(second, third, b);
    let at = if a < b {
        a
    } else {
        b
    };
    assert(first.take(at) =~= first.take(a).take(at));
    assert(second.take(at) =~= second.take(a).take(at));
    assert(second.take(at) =~= second.take(b).take(at));
    assert(third.take(at) =~= third.take(b).take(at));
    if a < b {
        assert(second.take(b)[a] == third.take(b)[a]);
    } else if b < a {
        assert(first.take(a)[b] == second.take(a)[b]);
    }
    assert(precedes_at(first, third, at));
}

/// A text precedes every longer one that begins with it, and of two texts that differ
/// the one with the lower character at the first difference precedes, whatever follows.
pub proof fn law_the_first_difference_decides(
    common: Seq<char>,
    left: char,
    right: char,
    left_rest: Seq<char>,
    right_rest: Seq<char>,
)
    requires
        left < right,
    ensures
        precedes(common, common + seq![left] + left_rest),
        precedes(common + seq![left] + left_rest, common + seq![right] + right_rest),
        !precedes(common + seq![left] + left_rest, common),
        !precedes(common + seq![right] + right_rest, common + seq![left] + left_rest),
{
    let first = common + seq![left] + left_rest;
    let second = common + seq![right] + right_rest;
    let at = common.len() as int;
    assert(common.take(at) =~= common);
    assert(first.take(at) =~= common);
    assert(second.take(at) =~= common);
    assert(first[at] == left && second[at] == right);
    assert(precedes_at(common, first, at));
    assert(precedes_at(first, second, at));
    law_precedence_is_total(common, first);
    law_precedence_is_total(first, second);
}

proof fn lemma_trim_start_skips(text: Seq<char>) -> (from: int)
    ensures
        0 <= from <= text.len(),
        trim_start(text) == text.skip(from),
        blank(text.take(from)),
        from < text.len() ==> !is_whitespace(text[from]),
    decreases text.len(),
{
    if text.len() > 0 && is_whitespace(text[0]) {
        let rest = text.drop_first();
        let from = lemma_trim_start_skips(rest);
        assert(text.skip(from + 1) =~= rest.skip(from));
        assert forall|i: int| 0 <= i < from + 1 implies is_whitespace(
            #[trigger] text.take(from + 1)[i],
        ) by {
            if i > 0 {
                assert(rest.take(from)[i - 1] == text[i]);
            }
        }
        from + 1
    } else {
        assert(text.skip(0) =~= text);
        0
    }
}

proof fn lemma_trim_end_takes(text: Seq<char>) -> (to: int)
    ensures
        0 <= to <= text.len(),
        trim_end(text) == text.take(to),
        blank(text.skip(to)),
        to > 0 ==> !is_whitespace(text[to - 1]),
    decreases text.len(),
{
    if text.len() > 0 && is_whitespace(text.last()) {
        let rest = text.drop_last();
        let to = lemma_trim_end_takes(rest);
        assert(text.take(to) =~= rest.take(to));
        assert forall|i: int| 0 <= i < text.skip(to).len() implies is_whitespace(
            #[trigger] text.skip(to)[i],
        ) by {
            if to + i < rest.len() {
                assert(rest.skip(to)[i] == text[to + i]);
            }
        }
        to
    } else {
        assert(text.take(text.len() as int) =~= text);
        text.len() as int
    }
}

/// Trimming takes white space off the two ends and nothing else: what is left neither
/// begins nor ends with white space, and stood between white space only.
pub proof fn law_trimming_takes_white_space_off_the_ends(text: Seq<char>) -> (ends: (int, int))
    ensures
        0 <= ends.0 <= ends.1 <= text.len(),
        trim(text) == text.subrange(ends.0, ends.1),
        blank(text.take(ends.0)),
        blank(text.skip(ends.1)),
        ends.0 < ends.1 ==> !is_whitespace(text[ends.0]) && !is_whitespace(text[ends.1 - 1]),
{
    let from = lemma_trim_start_skips(text);
    let rest = text.skip(from);
    let to = lemma_trim_end_takes(rest);
    assert(rest.take(to) =~= text.subrange(from, from + to));
    assert(text.skip(from + to) =~= rest.skip(to));
    (from, from + to)
}

/// The two cases of a text differ from it in ASCII letters only; either leads to the
/// other, and neither changes again.
pub proof fn law_two_cases(text: Seq<char>, i: int)
    requires
        0 <= i < text.len(),
    ensures
        lowercase(text).len() == text.len(),
        uppercase(text).len() == text.len(),
        lowercase(uppercase(text)) == lowercase(text),
        uppercase(lowercase(text)) == uppercase(text),
        lowercase(lowercase(text)) == lowercase(text),
        uppercase(uppercase(text)) == uppercase(text),
        !('A' <= lowercase(text)[i] <= 'Z'),
        !('a' <= uppercase(text)[i] <= 'z'),
        lowercase(text)[i] == text[i] || ('A' <= text[i] <= 'Z' && lowercase(text)[i] as int
            - 'a' as int == text[i] as int - 'A' as int),
        uppercase(text)[i] == text[i] || ('a' <= text[i] <= 'z' && uppercase(text)[i] as int
            - 'A' as int == text[i] as int - 'a' as int),
{
    assert(lowercase(uppercase(text)) =~= lowercase(text));
    assert(uppercase(lowercase(text)) =~= uppercase(text));
    assert(lowercase(lowercase(text)) =~= lowercase(text));
    assert(uppercase(uppercase(text)) =~= uppercase(text));
}

} // verus!
