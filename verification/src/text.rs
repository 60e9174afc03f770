//! Text as sequences of characters: the searching, trimming, splitting and
//! number formatting that the rest of the library is stated with.
use vstd::prelude::*;
use vstd::string::*;

verus! {

// ---------------------------------------------------------------------------
// Characters
// ---------------------------------------------------------------------------

/// The characters with the Unicode property `White_Space`.
pub open spec fn is_space(c: char) -> bool {
    ||| '\u{9}' <= c <= '\u{d}'
    ||| c == '\u{20}'
    ||| c == '\u{85}'
    ||| c == '\u{a0}'
    ||| c == '\u{1680}'
    ||| '\u{2000}' <= c <= '\u{200a}'
    ||| c == '\u{2028}'
    ||| c == '\u{2029}'
    ||| c == '\u{202f}'
    ||| c == '\u{205f}'
    ||| c == '\u{3000}'
}

/// The control characters (Unicode general category `Cc`).
pub open spec fn is_control(c: char) -> bool {
    c <= '\u{1f}' || '\u{7f}' <= c <= '\u{9f}'
}

/// The ASCII decimal digits.
pub open spec fn is_digit(c: char) -> bool {
    '0' <= c <= '9'
}

/// `c` with an ASCII capital letter turned into its small letter.
pub open spec fn lower_char(c: char) -> char {
    if 'A' <= c <= 'Z' {
        (c as u32 + 32) as char
    } else {
        c
    }
}

/// `c` with an ASCII small letter turned into its capital letter.
pub open spec fn upper_char(c: char) -> char {
    if 'a' <= c <= 'z' {
        (c as u32 - 32) as char
    } else {
        c
    }
}

/// White space, control characters and digits by their code points.
pub proof fn characters_have_their_classes(c: char)
    ensures
        is_space(c) <==> (9 <= c as u32 <= 13 || c as u32 == 32 || c as u32 == 133 || c as u32 == 160 || c as u32 == 5760
            || 8192 <= c as u32 <= 8202 || c as u32 == 8232 || c as u32 == 8233 || c as u32 == 8239 || c as u32 == 8287
            || c as u32 == 12288),
        is_control(c) <==> (c as u32 <= 31 || 127 <= c as u32 <= 159),
        is_digit(c) <==> 48 <= c as u32 <= 57,
{
}

/// Tells whether `c` is white space.
pub fn space(c: char) -> (result: bool)
    ensures
        result == is_space(c),
{
    ('\u{9}' <= c && c <= '\u{d}') || c == '\u{20}' || c == '\u{85}' || c == '\u{a0}' || c == '\u{1680}'
        || ('\u{2000}' <= c && c <= '\u{200a}') || c == '\u{2028}' || c == '\u{2029}' || c == '\u{202f}'
        || c == '\u{205f}' || c == '\u{3000}'
}

/// Tells whether `c` is a control character.
pub fn control(c: char) -> (result: bool)
    ensures
        result == is_control(c),
{
    c <= '\u{1f}' || ('\u{7f}' <= c && c <= '\u{9f}')
}

/// Tells whether `c` is a decimal digit.
pub fn digit(c: char) -> (result: bool)
    ensures
        result == is_digit(c),
{
    '0' <= c && c <= '9'
}

// ---------------------------------------------------------------------------
// Text and characters
// ---------------------------------------------------------------------------

/// `String::push` appends one character.
pub assume_specification[ String::push ](target: &mut String, c: char)
    ensures
        final(target)@ == old(target)@.push(c),
;

/// The characters of a text.
pub fn chars_of(text: &str) -> (result: Vec<char>)
    ensures
        result@ == text@,
{
    let mut result: Vec<char> = Vec::new();
    for c in it: text.chars()
        invariant
            result@ == text@.take(it.index()),
            it.seq() == text@,
    {
        result.push(c);
    }
    result
}

/// Tells whether two texts are equal.
pub fn same(left: &str, right: &str) -> (result: bool)
    ensures
        result == (left@ == right@),
{
    left.to_owned() == right.to_owned()
}

/// The concatenation of two texts.
pub fn concat(left: &str, right: &str) -> (result: String)
    ensures
        result@ == left@ + right@,
{
    let mut result = left.to_owned();
    result.append(right);
    result
}

/// The texts of a list, as sequences of characters.
pub open spec fn texts(list: Seq<String>) -> Seq<Seq<char>> {
    Seq::new(list.len(), |i: int| list[i]@)
}

/// An optional text, as an optional sequence of characters.
pub open spec fn opt(text: Option<String>) -> Option<Seq<char>> {
    match text {
        Some(text) => Some(text@),
        None => None,
    }
}

/// An optional borrowed text, as an optional sequence of characters.
pub open spec fn opt_str(text: Option<&str>) -> Option<Seq<char>> {
    match text {
        Some(text) => Some(text@),
        None => None,
    }
}

/// A pair of texts that may be missing, mathematically.
pub open spec fn opt_pair(pair: Option<(String, String)>) -> Option<(Seq<char>, Seq<char>)> {
    match pair {
        Some((first, second)) => Some((first@, second@)),
        None => None,
    }
}

// ---------------------------------------------------------------------------
// Letter case
// ---------------------------------------------------------------------------

/// A text with every ASCII capital letter turned into its small letter.
pub open spec fn lowered(text: Seq<char>) -> Seq<char> {
    Seq::new(text.len(), |i: int| lower_char(text[i]))
}

/// A text with every ASCII small letter turned into its capital letter.
pub open spec fn raised(text: Seq<char>) -> Seq<char> {
    Seq::new(text.len(), |i: int| upper_char(text[i]))
}

/// Turns the ASCII capital letters of a text into small letters.
pub fn lower(text: &str) -> (result: String)
    ensures
        result@ == lowered(text@),
{
    let chars = chars_of(text);
    let mut result = String::new();
    let mut i: usize = 0;
    while i < chars.len()
        invariant
            i <= chars@.len(),
            chars@ == text@,
            result@ == lowered(text@).take(i as int),
        decreases chars.len() - i,
    {
        let c = chars[i];
        if 'A' <= c && c <= 'Z' {
            result.push(((c as u8) + 32) as char);
        } else {
            result.push(c);
        }
        assert(result@ =~= lowered(text@).take(i + 1));
        i += 1;
    }
    assert(lowered(text@).take(i as int) == lowered(text@));
    result
}

/// A text of ASCII characters alone.
pub open spec fn all_ascii(text: Seq<char>) -> bool {
    forall|i: int| 0 <= i < text.len() ==> ((#[trigger] text[i]) as u32) < 128
}

/// A text in capital letters. Beyond ASCII it goes by the Unicode tables.
pub open spec fn in_capitals(text: Seq<char>) -> Seq<char> {
    if all_ascii(text) {
        raised(text)
    } else {
        uppercased(text)
    }
}

/// A text in small letters. Beyond ASCII it goes by the Unicode tables.
pub open spec fn in_small_letters(text: Seq<char>) -> Seq<char> {
    if all_ascii(text) {
        lowered(text)
    } else {
        lowercased(text)
    }
}

/// Changing the case keeps the number of characters and changes letters alone:
/// a capital letter becomes the small letter as far behind `a` as it stood
/// behind `A`, and the other way round.
pub proof fn letters_alone_change_case(text: Seq<char>, i: int)
    requires
        0 <= i < text.len(),
    ensures
        lowered(text).len() == text.len(),
        raised(text).len() == text.len(),
        'A' <= text[i] <= 'Z' ==> lowered(text)[i] as u32 - 'a' as u32 == text[i] as u32 - 'A' as u32,
        !('A' <= text[i] <= 'Z') ==> lowered(text)[i] == text[i],
        'a' <= text[i] <= 'z' ==> raised(text)[i] as u32 - 'A' as u32 == text[i] as u32 - 'a' as u32,
        !('a' <= text[i] <= 'z') ==> raised(text)[i] == text[i],
{
}

/// In small letters nothing is left to be made small, and texts that differ in
/// the case of their letters alone become equal.
pub proof fn case_is_forgotten(text: Seq<char>)
    ensures
        lowered(lowered(text)) == lowered(text),
        lowered(raised(text)) == lowered(text),
        raised(lowered(text)) == raised(text),
        all_ascii(text) ==> in_capitals(text) == raised(text) && in_small_letters(text) == lowered(text),
{
    assert(lowered(lowered(text)) =~= lowered(text));
    assert(lowered(raised(text)) =~= lowered(text));
    assert(raised(lowered(text)) =~= raised(text));
}

/// What `str::to_uppercase` makes of a text.
pub uninterp spec fn uppercased(text: Seq<char>) -> Seq<char>;

/// Wraps `str::to_uppercase`. On a text of ASCII characters alone it raises the
/// letters; on any other text the result goes by the Unicode tables and is
/// only named.
#[verifier::external_body]
pub(crate) fn to_upper(text: &str) -> (result: String)
    ensures
        result@ == uppercased(text@),
        all_ascii(text@) ==> result@ == raised(text@),
{
    text.to_uppercase()
}

/// What `str::to_lowercase` makes of a text.
pub uninterp spec fn lowercased(text: Seq<char>) -> Seq<char>;

/// Wraps `str::to_lowercase`. On a text of ASCII characters alone it lowers the
/// letters; on any other text the result goes by the Unicode tables and is
/// only named.
#[verifier::external_body]
pub(crate) fn to_lower(text: &str) -> (result: String)
    ensures
        result@ == lowercased(text@),
        all_ascii(text@) ==> result@ == lowered(text@),
{
    text.to_lowercase()
}

// ---------------------------------------------------------------------------
// Trimming
// ---------------------------------------------------------------------------

/// A text without its leading white space.
pub open spec fn trimmed_start(text: Seq<char>) -> Seq<char>
    decreases text.len(),
{
    if text.len() > 0 && is_space(text[0]) {
        trimmed_start(text.drop_first())
    } else {
        text
    }
}

/// A text without its trailing white space.
pub open spec fn trimmed_end(text: Seq<char>) -> Seq<char>
    decreases text.len(),
{
    if text.len() > 0 && is_space(text.last()) {
        trimmed_end(text.drop_last())
    } else {
        text
    }
}

/// A text without its leading and trailing white space.
pub open spec fn trimmed(text: Seq<char>) -> Seq<char> {
    trimmed_end(trimmed_start(text))
}

/// A text with nothing but white space in it.
pub open spec fn is_blank(text: Seq<char>) -> bool {
    forall|i: int| 0 <= i < text.len() ==> is_space(#[trigger] text[i])
}

proof fn lemma_trimmed_start(text: Seq<char>, from: int)
    requires
        0 <= from <= text.len(),
        forall|i: int| 0 <= i < from ==> is_space(#[trigger] text[i]),
        from < text.len() ==> !is_space(text[from]),
    ensures
        trimmed_start(text) == text.skip(from),
    decreases from,
{
    if from > 0 {
        let rest = text.drop_first();
        assert forall|i: int| 0 <= i < from - 1 implies is_space(#[trigger] rest[i]) by {
            assert(rest[i] == text[i + 1]);
        }
        lemma_trimmed_start(rest, from - 1);
        assert(rest.skip(from - 1) =~= text.skip(from));
    } else {
        assert(text.skip(0) =~= text);
    }
}

proof fn lemma_trimmed_end(text: Seq<char>, to: int)
    requires
        0 <= to <= text.len(),
        forall|i: int| to <= i < text.len() ==> is_space(#[trigger] text[i]),
        to > 0 ==> !is_space(text[to - 1]),
    ensures
        trimmed_end(text) == text.take(to),
    decreases text.len(),
{
    if to < text.len() {
        let rest = text.drop_last();
        lemma_trimmed_end(rest, to);
        assert(rest.take(to) =~= text.take(to));
    } else {
        assert(text.take(to) =~= text);
    }
}

/// A text is blank exactly when nothing of it is left after trimming.
pub proof fn blank_iff_trimmed_empty(text: Seq<char>)
    ensures
        is_blank(text) <==> trimmed(text).len() == 0,
    decreases text.len(),
{
    if text.len() > 0 && is_space(text[0]) {
        let rest = text.drop_first();
        blank_iff_trimmed_empty(rest);
        if is_blank(text) {
            assert forall|i: int| 0 <= i < rest.len() implies is_space(#[trigger] rest[i]) by {
                assert(rest[i] == text[i + 1]);
            }
        }
        if is_blank(rest) {
            assert forall|i: int| 0 <= i < text.len() implies is_space(#[trigger] text[i]) by {
                if i > 0 {
                    assert(rest[i - 1] == text[i]);
                }
            }
        }
    } else if text.len() > 0 {
        lemma_trimmed_end_keeps_first(text);
        assert(!is_space(text[0]));
    }
}

proof fn lemma_trimmed_end_keeps_first(text: Seq<char>)
    requires
        text.len() > 0,
        !is_space(text[0]),
    ensures
        trimmed_end(text).len() > 0,
    decreases text.len(),
{
    if is_space(text.last()) {
        lemma_trimmed_end_keeps_first(text.drop_last());
    }
}

/// Trimming a text twice is trimming it once.
pub proof fn trimming_is_idempotent(text: Seq<char>)
    ensures
        trimmed(trimmed(text)) == trimmed(text),
{
    let start = trimmed_start(text);
    lemma_trimmed_start_stops(text);
    lemma_trimmed_end_stops(start);
    let done = trimmed(text);
    if done.len() > 0 {
        assert(done[0] == start[0]);
        assert(trimmed_start(done) == done);
    }
}

proof fn lemma_trimmed_start_stops(text: Seq<char>)
    ensures
        trimmed_start(text).len() > 0 ==> !is_space(trimmed_start(text)[0]),
    decreases text.len(),
{
    if text.len() > 0 && is_space(text[0]) {
        lemma_trimmed_start_stops(text.drop_first());
    }
}

proof fn lemma_trimmed_end_stops(text: Seq<char>)
    ensures
        trimmed_end(text).len() <= text.len(),
        trimmed_end(text) == text.take(trimmed_end(text).len() as int),
        trimmed_end(text).len() > 0 ==> !is_space(trimmed_end(text).last()),
    decreases text.len(),
{
    if text.len() > 0 && is_space(text.last()) {
        lemma_trimmed_end_stops(text.drop_last());
        let kept = trimmed_end(text).len() as int;
        assert(text.drop_last().take(kept) =~= text.take(kept));
    } else {
        assert(text.take(text.len() as int) =~= text);
    }
}

/// White space around a text goes, and nothing else: what stands between the
/// first and the last character that are no white space is kept as it is.
pub proof fn trimming_takes_white_space_alone(lead: Seq<char>, middle: Seq<char>, trail: Seq<char>)
    requires
        is_blank(lead),
        is_blank(trail),
        middle.len() > 0 ==> !is_space(middle[0]) && !is_space(middle.last()),
    ensures
        trimmed(lead + middle + trail) == middle,
{
    if middle.len() == 0 {
        let all = lead + middle + trail;
        assert forall|i: int| 0 <= i < all.len() implies is_space(#[trigger] all[i]) by {
            if i < lead.len() {
                assert(all[i] == lead[i]);
            } else {
                assert(all[i] == trail[i - lead.len()]);
            }
        }
        blank_iff_trimmed_empty(all);
        assert(trimmed(all) =~= middle);
    } else {
        lemma_lead_goes(lead, middle + trail);
        assert(lead + (middle + trail) =~= lead + middle + trail);
        lemma_trail_goes(middle, trail);
    }
}

proof fn lemma_lead_goes(lead: Seq<char>, rest: Seq<char>)
    requires
        is_blank(lead),
        rest.len() > 0,
        !is_space(rest[0]),
    ensures
        trimmed_start(lead + rest) == rest,
    decreases lead.len(),
{
    if lead.len() == 0 {
        assert(lead + rest =~= rest);
    } else {
        let less = lead.drop_first();
        assert forall|i: int| 0 <= i < less.len() implies is_space(#[trigger] less[i]) by {
            assert(less[i] == lead[i + 1]);
        }
        lemma_lead_goes(less, rest);
        assert((lead + rest).drop_first() =~= less + rest);
        assert((lead + rest)[0] == lead[0]);
    }
}

proof fn lemma_trail_goes(rest: Seq<char>, trail: Seq<char>)
    requires
        is_blank(trail),
        rest.len() > 0,
        !is_space(rest.last()),
    ensures
        trimmed_end(rest + trail) == rest,
    decreases trail.len(),
{
    if trail.len() == 0 {
        assert(rest + trail =~= rest);
    } else {
        let less = trail.drop_last();
        assert forall|i: int| 0 <= i < less.len() implies is_space(#[trigger] less[i]) by {
            assert(less[i] == trail[i]);
        }
        lemma_trail_goes(rest, less);
        assert((rest + trail).drop_last() =~= rest + less);
        assert((rest + trail).last() == trail.last());
        assert(is_space(trail[trail.len() - 1]));
    }
}

/// A text without its leading and trailing white space.
pub fn trim<'a>(text: &'a str) -> (result: &'a str)
    ensures
        result@ == trimmed(text@),
{
    let chars = chars_of(text);
    let mut from: usize = 0;
    while from < chars.len() && space(chars[from])
        invariant
            from <= chars@.len(),
            forall|i: int| 0 <= i < from ==> is_space(#[trigger] chars@[i]),
        decreases chars.len() - from,
    {
        from += 1;
    }
    let mut to: usize = chars.len();
    while to > from && space(chars[to - 1])
        invariant
            from <= to <= chars@.len(),
            forall|i: int| to <= i < chars@.len() ==> is_space(#[trigger] chars@[i]),
        decreases to,
    {
        to -= 1;
    }
    proof {
        lemma_trimmed_start(text@, from as int);
        let start = text@.skip(from as int);
        assert forall|i: int| to - from <= i < start.len() implies is_space(#[trigger] start[i]) by {
            assert(start[i] == text@[i + from]);
        }
        lemma_trimmed_end(start, to - from);
        assert(start.take(to - from) =~= text@.subrange(from as int, to as int));
    }
    text.substring_char(from, to)
}

/// Tells whether a text holds nothing but white space.
pub fn blank(text: &str) -> (result: bool)
    ensures
        result == is_blank(text@),
        result == (trimmed(text@).len() == 0),
{
    proof {
        blank_iff_trimmed_empty(text@);
    }
    trim(text).is_empty()
}

// ---------------------------------------------------------------------------
// Searching and splitting
// ---------------------------------------------------------------------------

/// `part` stands in `text` at position `at`.
pub open spec fn occurs_at(text: Seq<char>, part: Seq<char>, at: int) -> bool {
    0 <= at && at + part.len() <= text.len() && text.subrange(at, at + part.len()) == part
}

/// `part` stands somewhere in `text`.
pub open spec fn contains_text(text: Seq<char>, part: Seq<char>) -> bool {
    exists|at: int| occurs_at(text, part, at)
}

/// `at` is the first place of `part` in `text`.
pub open spec fn first_at(text: Seq<char>, part: Seq<char>, at: int) -> bool {
    occurs_at(text, part, at) && forall|before: int| before < at ==> !occurs_at(text, part, before)
}

/// `at` is the last place of `part` in `text`.
pub open spec fn last_at(text: Seq<char>, part: Seq<char>, at: int) -> bool {
    occurs_at(text, part, at) && forall|after: int| at < after ==> !occurs_at(text, part, after)
}

/// `text` begins with `part`.
pub open spec fn begins(text: Seq<char>, part: Seq<char>) -> bool {
    occurs_at(text, part, 0)
}

/// `text` ends with `part`.
pub open spec fn ends(text: Seq<char>, part: Seq<char>) -> bool {
    occurs_at(text, part, text.len() - part.len())
}

/// What follows a prefix, if `text` begins with it.
pub open spec fn without_prefix(text: Seq<char>, prefix: Seq<char>) -> Option<Seq<char>> {
    if begins(text, prefix) {
        Some(text.skip(prefix.len() as int))
    } else {
        None
    }
}

/// What precedes a suffix, if `text` ends with it.
pub open spec fn without_suffix(text: Seq<char>, suffix: Seq<char>) -> Option<Seq<char>> {
    if ends(text, suffix) {
        Some(text.take(text.len() - suffix.len()))
    } else {
        None
    }
}

/// The texts before and after the first place of `part`, if there is one.
pub open spec fn split_first(text: Seq<char>, part: Seq<char>) -> Option<(Seq<char>, Seq<char>)> {
    if contains_text(text, part) {
        let at = choose|at: int| first_at(text, part, at);
        Some((text.take(at), text.skip(at + part.len())))
    } else {
        None
    }
}

/// What precedes the first place of `part`, or all of `text`.
pub open spec fn before_first(text: Seq<char>, part: Seq<char>) -> Seq<char> {
    match split_first(text, part) {
        Some((before, _)) => before,
        None => text,
    }
}

/// What follows the last place of `part`, or all of `text`.
pub open spec fn after_last(text: Seq<char>, part: Seq<char>) -> Seq<char> {
    if contains_text(text, part) {
        let at = choose|at: int| last_at(text, part, at);
        text.skip(at + part.len())
    } else {
        text
    }
}

/// Tells whether `part` stands at position `at`.
fn matches_at(text: &Vec<char>, part: &Vec<char>, at: usize) -> (result: bool)
    requires
        at + part@.len() <= text@.len(),
    ensures
        result == occurs_at(text@, part@, at as int),
{
    let size: usize = text.len();
    let mut i: usize = 0;
    while i < part.len()
        invariant
            i <= part@.len(),
            size == text@.len(),
            at + part@.len() <= text@.len(),
            forall|j: int| 0 <= j < i ==> text@[at + j] == part@[j],
        decreases part.len() - i,
    {
        if text[at + i] != part[i] {
            assert(text@.subrange(at as int, at + part@.len())[i as int] != part@[i as int]);
            return false;
        }
        i += 1;
    }
    assert(text@.subrange(at as int, at + part@.len()) =~= part@);
    true
}

/// The first place of `part` in `text`.
fn find(text: &Vec<char>, part: &Vec<char>) -> (result: Option<usize>)
    ensures
        match result {
            Some(at) => first_at(text@, part@, at as int),
            None => !contains_text(text@, part@),
        },
{
    if part.len() > text.len() {
        return None;
    }
    let mut at: usize = 0;
    while at <= text.len() - part.len()
        invariant
            part@.len() <= text@.len(),
            at <= text@.len() - part@.len() + 1,
            forall|before: int| before < at ==> !occurs_at(text@, part@, before),
        decreases text.len() - part.len() + 1 - at,
    {
        if matches_at(text, part, at) {
            return Some(at);
        }
        if at == text.len() - part.len() {
            return None;
        }
        at += 1;
    }
    None
}

/// The last place of `part` in `text`.
fn find_last(text: &Vec<char>, part: &Vec<char>) -> (result: Option<usize>)
    ensures
        match result {
            Some(at) => last_at(text@, part@, at as int),
            None => !contains_text(text@, part@),
        },
{
    if part.len() > text.len() {
        return None;
    }
    let mut at: usize = text.len() - part.len();
    loop
        invariant
            at + part@.len() <= text@.len(),
            forall|after: int| at < after ==> !occurs_at(text@, part@, after),
        decreases at,
    {
        if matches_at(text, part, at) {
            return Some(at);
        }
        if at == 0 {
            return None;
        }
        at -= 1;
    }
}

/// Tells whether `part` stands somewhere in `text`.
pub fn contains(text: &str, part: &str) -> (result: bool)
    ensures
        result == contains_text(text@, part@),
{
    find(&chars_of(text), &chars_of(part)).is_some()
}

/// Tells whether `text` begins with `part`.
pub fn starts_with(text: &str, part: &str) -> (result: bool)
    ensures
        result == begins(text@, part@),
{
    let chars = chars_of(text);
    let wanted = chars_of(part);
    wanted.len() <= chars.len() && matches_at(&chars, &wanted, 0)
}

/// What follows a prefix, if `text` begins with it.
pub fn strip_prefix<'a>(text: &'a str, prefix: &str) -> (result: Option<&'a str>)
    ensures
        opt_str(result) == without_prefix(text@, prefix@),
{
    if starts_with(text, prefix) {
        let rest = text.substring_char(prefix.unicode_len(), text.unicode_len());
        assert(rest@ =~= text@.skip(prefix@.len() as int));
        Some(rest)
    } else {
        None
    }
}

/// What precedes a suffix, if `text` ends with it.
pub fn strip_suffix<'a>(text: &'a str, suffix: &str) -> (result: Option<&'a str>)
    ensures
        opt_str(result) == without_suffix(text@, suffix@),
{
    let chars = chars_of(text);
    let wanted = chars_of(suffix);
    if wanted.len() <= chars.len() && matches_at(&chars, &wanted, chars.len() - wanted.len()) {
        let rest = text.substring_char(0, chars.len() - wanted.len());
        assert(rest@ =~= text@.take(text@.len() - suffix@.len()));
        Some(rest)
    } else {
        None
    }
}

/// The texts before and after the first place of `part`, if there is one.
pub fn split_once<'a>(text: &'a str, part: &str) -> (result: Option<(&'a str, &'a str)>)
    ensures
        match result {
            Some((before, after)) => split_first(text@, part@) == Some((before@, after@)),
            None => split_first(text@, part@) is None,
        },
{
    let chars = chars_of(text);
    let wanted = chars_of(part);
    let size: usize = chars.len();
    match find(&chars, &wanted) {
        Some(at) => {
            let before = text.substring_char(0, at);
            let after = text.substring_char(at + wanted.len(), size);
            proof {
                assert(first_at(text@, part@, at as int));
                let chosen = choose|chosen: int| first_at(text@, part@, chosen);
                assert(chosen == at);
                assert(before@ =~= text@.take(at as int));
                assert(after@ =~= text@.skip(at + part@.len()));
            }
            Some((before, after))
        },
        None => None,
    }
}

/// What precedes the first place of `part`, or all of `text`.
pub fn head<'a>(text: &'a str, part: &str) -> (result: &'a str)
    ensures
        result@ == before_first(text@, part@),
{
    match split_once(text, part) {
        Some((before, _)) => before,
        None => text,
    }
}

/// What follows the last place of `part`, or all of `text`.
pub fn tail<'a>(text: &'a str, part: &str) -> (result: &'a str)
    ensures
        result@ == after_last(text@, part@),
{
    let chars = chars_of(text);
    let wanted = chars_of(part);
    let size: usize = chars.len();
    match find_last(&chars, &wanted) {
        Some(at) => {
            let after = text.substring_char(at + wanted.len(), size);
            proof {
                assert(last_at(text@, part@, at as int));
                let chosen = choose|chosen: int| last_at(text@, part@, chosen);
                assert(chosen == at);
                assert(after@ =~= text@.skip(at + part@.len()));
            }
            after
        },
        None => text,
    }
}

/// A text cut into what precedes and what follows the first place of `part`
/// is put together again around it, and `part` does not stand in what
/// precedes.
pub proof fn split_first_puts_together(text: Seq<char>, part: Seq<char>)
    ensures
        match split_first(text, part) {
            Some((before, after)) => text == before + part + after && (part.len() > 0 ==> !contains_text(before, part)),
            None => !contains_text(text, part),
        },
{
    if contains_text(text, part) {
        let some = choose|at: int| occurs_at(text, part, at);
        lemma_first_at_exists(text, part, some);
        let at = choose|at: int| first_at(text, part, at);
        let (before, after) = split_first(text, part)->0;
        assert(text =~= before + part + after) by {
            assert(text.subrange(at, at + part.len()) == part);
            assert forall|i: int| 0 <= i < text.len() implies text[i] == (before + part + after)[i] by {
                if at <= i < at + part.len() {
                    assert(text.subrange(at, at + part.len())[i - at] == part[i - at]);
                }
            }
        }
        if part.len() > 0 && contains_text(before, part) {
            let early = choose|early: int| occurs_at(before, part, early);
            assert(text.subrange(early, early + part.len()) =~= before.subrange(early, early + part.len()));
            assert(occurs_at(text, part, early));
        }
    }
}

/// A text begins with another exactly when something put behind the other makes
/// the text, and that is what is left of it without the other.
pub proof fn prefixes_are_taken_off(prefix: Seq<char>, rest: Seq<char>, text: Seq<char>)
    ensures
        begins(prefix + rest, prefix),
        without_prefix(prefix + rest, prefix) == Some(rest),
        begins(text, prefix) ==> (without_prefix(text, prefix) matches Some(left) && text == prefix + left),
        !begins(text, prefix) ==> without_prefix(text, prefix) is None && text != prefix + rest,
{
    let whole = prefix + rest;
    assert(whole.subrange(0, prefix.len() as int) =~= prefix);
    assert(whole.skip(prefix.len() as int) =~= rest);
    if begins(text, prefix) {
        let left = text.skip(prefix.len() as int);
        assert(text.subrange(0, prefix.len() as int) == prefix);
        assert forall|i: int| 0 <= i < text.len() implies text[i] == (prefix + left)[i] by {
            if i < prefix.len() {
                assert(text.subrange(0, prefix.len() as int)[i] == prefix[i]);
            }
        }
        assert(text =~= prefix + left);
    }
}

/// The same of what a text ends with.
pub proof fn suffixes_are_taken_off(rest: Seq<char>, suffix: Seq<char>, text: Seq<char>)
    ensures
        ends(rest + suffix, suffix),
        without_suffix(rest + suffix, suffix) == Some(rest),
        ends(text, suffix) ==> (without_suffix(text, suffix) matches Some(left) && text == left + suffix),
{
    let whole = rest + suffix;
    assert(whole.subrange(rest.len() as int, whole.len() as int) =~= suffix);
    assert(whole.take(rest.len() as int) =~= rest);
    if ends(text, suffix) {
        let at = text.len() - suffix.len();
        let left = text.take(at);
        assert forall|i: int| 0 <= i < text.len() implies text[i] == (left + suffix)[i] by {
            if i >= at {
                assert(text.subrange(at, text.len() as int)[i - at] == suffix[i - at]);
            }
        }
        assert(text =~= left + suffix);
    }
}

/// A text holds another wherever the other stands in it, whatever is around it.
pub proof fn parts_are_found(lead: Seq<char>, part: Seq<char>, trail: Seq<char>)
    ensures
        contains_text(lead + part + trail, part),
{
    let whole = lead + part + trail;
    assert(whole.subrange(lead.len() as int, lead.len() as int + part.len()) =~= part);
    assert(occurs_at(whole, part, lead.len() as int));
}

/// A text is cut at the first place of a mark of one character.
pub proof fn texts_are_cut_at_the_first_mark(lead: Seq<char>, mark: char, trail: Seq<char>)
    requires
        !lead.contains(mark),
    ensures
        split_first(lead + seq![mark] + trail, seq![mark]) == Some((lead, trail)),
        before_first(lead + seq![mark] + trail, seq![mark]) == lead,
        before_first(lead, seq![mark]) == lead,
        split_first(lead, seq![mark]) is None,
{
    let whole = lead + seq![mark] + trail;
    let at = lead.len() as int;
    assert(whole.subrange(at, at + 1) =~= seq![mark]);
    assert(occurs_at(whole, seq![mark], at));
    assert forall|early: int| early < at implies !occurs_at(whole, seq![mark], early) by {
        if occurs_at(whole, seq![mark], early) {
            assert(whole.subrange(early, early + 1)[0] == mark);
            assert(lead[early] == mark);
        }
    }
    assert(first_at(whole, seq![mark], at));
    let found = choose|found: int| first_at(whole, seq![mark], found);
    assert(found == at);
    assert(whole.take(at) =~= lead);
    assert(whole.skip(at + 1) =~= trail);
    if contains_text(lead, seq![mark]) {
        let early = choose|early: int| occurs_at(lead, seq![mark], early);
        assert(lead.subrange(early, early + 1)[0] == mark);
        assert(lead[early] == mark);
    }
}

/// What follows the last place of a mark of one character is what has no such
/// mark in it.
pub proof fn texts_are_cut_at_the_last_mark(lead: Seq<char>, mark: char, trail: Seq<char>)
    requires
        !trail.contains(mark),
    ensures
        after_last(lead + seq![mark] + trail, seq![mark]) == trail,
        after_last(trail, seq![mark]) == trail,
{
    let whole = lead + seq![mark] + trail;
    let at = lead.len() as int;
    assert(whole.subrange(at, at + 1) =~= seq![mark]);
    assert(occurs_at(whole, seq![mark], at));
    assert forall|late: int| at < late implies !occurs_at(whole, seq![mark], late) by {
        if occurs_at(whole, seq![mark], late) {
            assert(whole.subrange(late, late + 1)[0] == mark);
            assert(trail[late - at - 1] == mark);
        }
    }
    assert(last_at(whole, seq![mark], at));
    let found = choose|found: int| last_at(whole, seq![mark], found);
    assert(found == at);
    assert(whole.skip(at + 1) =~= trail);
    if contains_text(trail, seq![mark]) {
        let early = choose|early: int| occurs_at(trail, seq![mark], early);
        assert(trail.subrange(early, early + 1)[0] == mark);
        assert(trail[early] == mark);
    }
}

proof fn lemma_first_at_exists(text: Seq<char>, part: Seq<char>, at: int)
    requires
        occurs_at(text, part, at),
    ensures
        exists|first: int| first_at(text, part, first),
    decreases at,
{
    if forall|before: int| before < at ==> !occurs_at(text, part, before) {
        assert(first_at(text, part, at));
    } else {
        let before = choose|before: int| before < at && occurs_at(text, part, before);
        lemma_first_at_exists(text, part, before);
    }
}

// ---------------------------------------------------------------------------
// Numbers
// ---------------------------------------------------------------------------

/// The value of a row of decimal digits.
pub open spec fn digits_value(digits: Seq<char>) -> nat
    decreases digits.len(),
{
    if digits.len() == 0 {
        0
    } else {
        digits_value(digits.drop_last()) * 10 + (digits.last() as nat - '0' as nat) as nat
    }
}

/// A text of decimal digits alone.
pub open spec fn all_digits(text: Seq<char>) -> bool {
    forall|i: int| 0 <= i < text.len() ==> is_digit(#[trigger] text[i])
}

/// The number that a text spells: one or more decimal digits, with or without
/// a plus sign before them, that fit in 64 bits.
pub open spec fn number_of(text: Seq<char>) -> Option<u64> {
    let digits = if text.len() > 0 && text[0] == '+' {
        text.drop_first()
    } else {
        text
    };
    if digits.len() > 0 && all_digits(digits) && digits_value(digits) <= u64::MAX {
        Some(digits_value(digits) as u64)
    } else {
        None
    }
}

/// The decimal digit of a number below ten.
pub open spec fn digit_char(value: nat) -> char {
    ('0' as nat + value) as char
}

/// A number in decimal.
pub open spec fn decimal(value: nat) -> Seq<char>
    decreases value,
{
    if value < 10 {
        seq![digit_char(value)]
    } else {
        decimal(value / 10).push(digit_char(value % 10))
    }
}

/// Reads a number from a text.
pub fn parse_number(text: &str) -> (result: Option<u64>)
    ensures
        result == number_of(text@),
{
    let chars = chars_of(text);
    let from: usize = if chars.len() > 0 && chars[0] == '+' {
        1
    } else {
        0
    };
    let ghost digits = if text@.len() > 0 && text@[0] == '+' {
        text@.drop_first()
    } else {
        text@
    };
    if from == chars.len() {
        return None;
    }
    let mut value: Option<u64> = Some(0);
    let mut i: usize = from;
    assert(digits.take(0).len() == 0);
    while i < chars.len()
        invariant
            from <= i <= chars@.len(),
            chars@ == text@,
            digits == (if text@.len() > 0 && text@[0] == '+' {
                text@.drop_first()
            } else {
                text@
            }),
            digits == chars@.skip(from as int),
            forall|j: int| 0 <= j < i - from ==> is_digit(#[trigger] digits[j]),
            match value {
                Some(value) => value == digits_value(digits.take(i - from)),
                None => digits_value(digits.take(i - from)) > u64::MAX,
            },
        decreases chars.len() - i,
    {
        let c = chars[i];
        assert(digits[i - from] == c);
        if !digit(c) {
            assert(!all_digits(digits));
            return None;
        }
        assert(digits.take(i + 1 - from).drop_last() =~= digits.take(i - from));
        let unit: u64 = (c as u64) - 48;
        value = match value {
            Some(so_far) => match so_far.checked_mul(10) {
                Some(tens) => tens.checked_add(unit),
                None => None,
            },
            None => None,
        };
        i += 1;
    }
    assert(digits.take(i - from) =~= digits);
    value
}

/// Writes a number in decimal.
pub fn number_text(value: u64) -> (result: String)
    ensures
        result@ == decimal(value as nat),
    decreases value,
{
    let unit = (48 + (value % 10) as u8) as char;
    if value < 10 {
        let mut result = String::new();
        result.push(unit);
        assert(result@ =~= decimal(value as nat));
        result
    } else {
        let mut result = number_text(value / 10);
        result.push(unit);
        result
    }
}

proof fn lemma_decimal_digits(value: nat)
    ensures
        decimal(value).len() > 0,
        all_digits(decimal(value)),
        digits_value(decimal(value)) == value,
    decreases value,
{
    let text = decimal(value);
    if value < 10 {
        assert(text.drop_last() =~= Seq::<char>::empty());
        assert(digits_value(text.drop_last()) == 0);
    } else {
        lemma_decimal_digits(value / 10);
        assert(text.drop_last() =~= decimal(value / 10));
    }
}

/// A number written in decimal reads back as itself.
pub proof fn decimal_reads_back(value: u64)
    ensures
        number_of(decimal(value as nat)) == Some(value),
{
    lemma_decimal_digits(value as nat);
    assert(is_digit(decimal(value as nat)[0]));
}

/// A number is written with digits alone, and only zero begins with a zero.
pub proof fn decimal_starts_plainly(value: u64)
    ensures
        decimal(value as nat).len() > 0,
        forall|i: int| 0 <= i < decimal(value as nat).len() ==> '0' <= #[trigger] decimal(value as nat)[i] <= '9',
        decimal(value as nat)[0] == '0' ==> value == 0 && decimal(value as nat).len() == 1,
    decreases value,
{
    lemma_decimal_digits(value as nat);
    if value >= 10 {
        decimal_starts_plainly(value / 10);
        assert(decimal(value as nat)[0] == decimal((value / 10) as nat)[0]);
    }
}

/// Different numbers are written differently.
pub proof fn decimal_is_injective(left: u64, right: u64)
    ensures
        decimal(left as nat) == decimal(right as nat) <==> left == right,
{
    decimal_reads_back(left);
    decimal_reads_back(right);
}

/// A text with anything but digits in it, a plus sign at its beginning aside,
/// spells no number; neither does an empty one.
pub proof fn other_texts_are_no_numbers(text: Seq<char>, i: int)
    requires
        0 <= i < text.len(),
        !('0' <= text[i] <= '9'),
        i > 0 || text[0] != '+',
    ensures
        number_of(text) is None,
        number_of(Seq::empty()) is None,
{
    if text[0] == '+' {
        assert(text.drop_first()[i - 1] == text[i]);
        assert(!is_digit(text.drop_first()[i - 1]));
    } else {
        assert(!is_digit(text[i]));
    }
}

proof fn lemma_leading_zero(digits: Seq<char>)
    requires
        all_digits(digits),
    ensures
        all_digits(seq!['0'] + digits),
        digits_value(seq!['0'] + digits) == digits_value(digits),
    decreases digits.len(),
{
    let longer = seq!['0'] + digits;
    assert forall|i: int| 0 <= i < longer.len() implies is_digit(#[trigger] longer[i]) by {
        if i > 0 {
            assert(longer[i] == digits[i - 1]);
        }
    }
    if digits.len() > 0 {
        let less = digits.drop_last();
        assert forall|i: int| 0 <= i < less.len() implies is_digit(#[trigger] less[i]) by {
            assert(less[i] == digits[i]);
        }
        lemma_leading_zero(less);
        assert(longer.drop_last() =~= seq!['0'] + less);
        assert(longer.last() == digits.last());
    } else {
        assert(longer.drop_last() =~= Seq::<char>::empty());
        assert(digits_value(longer.drop_last()) == 0);
    }
}

/// A plus sign or zeros before a number make no difference, and a number that
/// does not fit in 64 bits is none.
pub proof fn numbers_are_read_as_they_are_written(value: u64, great: nat)
    requires
        great > u64::MAX,
    ensures
        number_of(seq!['+'] + decimal(value as nat)) == Some(value),
        number_of(seq!['0'] + decimal(value as nat)) == Some(value),
        number_of(decimal(great)) is None,
        number_of(seq!['-'] + decimal(value as nat)) is None,
{
    lemma_decimal_digits(value as nat);
    lemma_decimal_digits(great);
    lemma_leading_zero(decimal(value as nat));
    let plus = seq!['+'] + decimal(value as nat);
    assert(plus.drop_first() =~= decimal(value as nat));
    assert(is_digit(decimal(great)[0]));
    let minus = seq!['-'] + decimal(value as nat);
    assert(!is_digit(minus[0]));
}

/// The hexadecimal digit of a number below sixteen.
pub open spec fn hex_char(value: nat) -> char {
    if value < 10 {
        ('0' as nat + value) as char
    } else {
        ('a' as nat + value - 10) as char
    }
}

/// The last `width` hexadecimal digits of a number.
pub open spec fn hexadecimal(value: nat, width: nat) -> Seq<char>
    decreases width,
{
    if width == 0 {
        Seq::empty()
    } else {
        hexadecimal(value / 16, (width - 1) as nat).push(hex_char(value % 16))
    }
}

/// Writes the last `width` hexadecimal digits of a number.
pub fn hex_text(value: u64, width: usize) -> (result: String)
    ensures
        result@ == hexadecimal(value as nat, width as nat),
    decreases width,
{
    if width == 0 {
        String::new()
    } else {
        let mut result = hex_text(value / 16, width - 1);
        let unit: u8 = (value % 16) as u8;
        if unit < 10 {
            result.push((48 + unit) as char);
        } else {
            result.push((87 + unit) as char);
        }
        result
    }
}

/// As many hexadecimal digits are written as are asked for, and numbers that
/// are written alike leave the same remainder by sixteen.
pub proof fn hexadecimal_digits(value: nat, other: nat, width: nat)
    ensures
        hexadecimal(value, width).len() == width,
        forall|i: int|
            0 <= i < width ==> '0' <= #[trigger] hexadecimal(value, width)[i] <= '9' || 'a' <= hexadecimal(value, width)[i]
                <= 'f',
        hexadecimal(value, width) == hexadecimal(other, width) && width > 0 ==> value % 16 == other % 16,
    decreases width,
{
    if width > 0 {
        hexadecimal_digits(value / 16, other / 16, (width - 1) as nat);
        if hexadecimal(value, width) == hexadecimal(other, width) {
            assert(hexadecimal(value, width).last() == hex_char(value % 16));
            assert(hexadecimal(other, width).last() == hex_char(other % 16));
        }
    }
}

// ---------------------------------------------------------------------------
// Joining
// ---------------------------------------------------------------------------

/// The parts one after the other, with `between` between two of them.
pub open spec fn joined(parts: Seq<Seq<char>>, between: Seq<char>) -> Seq<char>
    decreases parts.len(),
{
    if parts.len() == 0 {
        Seq::empty()
    } else if parts.len() == 1 {
        parts[0]
    } else {
        joined(parts.drop_last(), between) + between + parts.last()
    }
}

/// Joins the parts with `between` between two of them.
pub fn join(parts: &Vec<String>, between: &str) -> (result: String)
    ensures
        result@ == joined(texts(parts@), between@),
{
    let mut result = String::new();
    let mut i: usize = 0;
    while i < parts.len()
        invariant
            i <= parts@.len(),
            result@ == joined(texts(parts@).take(i as int), between@),
        decreases parts.len() - i,
    {
        let ghost done = texts(parts@).take(i + 1);
        assert(done.drop_last() =~= texts(parts@).take(i as int));
        assert(done.last() == parts@[i as int]@);
        if i > 0 {
            result.append(between);
            result.append(parts[i].as_str());
        } else {
            result.append(parts[i].as_str());
            assert(result@ =~= parts@[0]@);
        }
        i += 1;
    }
    assert(texts(parts@).take(i as int) =~= texts(parts@));
    result
}

/// Joining puts every part behind what was joined before, with the separator in
/// between; one part alone stays as it is.
pub proof fn parts_are_joined_in_order(parts: Seq<Seq<char>>, part: Seq<char>, between: Seq<char>)
    ensures
        joined(Seq::empty(), between) == Seq::<char>::empty(),
        joined(seq![part], between) == part,
        parts.len() > 0 ==> joined(parts.push(part), between) == joined(parts, between) + between + part,
{
    assert(seq![part][0] == part);
    assert(parts.push(part).drop_last() =~= parts);
}

// ---------------------------------------------------------------------------
// Order
// ---------------------------------------------------------------------------

/// `left` comes before `right` in the order of their characters, or is equal
/// to it.
pub open spec fn not_after(left: Seq<char>, right: Seq<char>) -> bool
    decreases left.len(),
{
    if left.len() == 0 {
        true
    } else if right.len() == 0 {
        false
    } else if left[0] == right[0] {
        not_after(left.drop_first(), right.drop_first())
    } else {
        left[0] < right[0]
    }
}

/// Tells whether `left` comes before `right` or is equal to it.
pub fn ordered(left: &str, right: &str) -> (result: bool)
    ensures
        result == not_after(left@, right@),
{
    let first = chars_of(left);
    let second = chars_of(right);
    let mut i: usize = 0;
    assert(left@.skip(0) =~= left@ && right@.skip(0) =~= right@);
    while i < first.len() && i < second.len() && first[i] == second[i]
        invariant
            first@ == left@,
            second@ == right@,
            i <= first@.len(),
            i <= second@.len(),
            not_after(left@, right@) == not_after(left@.skip(i as int), right@.skip(i as int)),
        decreases first.len() - i,
    {
        assert(left@.skip(i as int).drop_first() =~= left@.skip(i + 1));
        assert(right@.skip(i as int).drop_first() =~= right@.skip(i + 1));
        i += 1;
    }
    if i == first.len() {
        true
    } else if i == second.len() {
        false
    } else {
        first[i] < second[i]
    }
}

/// Of two texts one is not after the other.
pub proof fn order_is_total(left: Seq<char>, right: Seq<char>)
    ensures
        not_after(left, right) || not_after(right, left),
    decreases left.len(),
{
    if left.len() > 0 && right.len() > 0 && left[0] == right[0] {
        order_is_total(left.drop_first(), right.drop_first());
    }
}

/// Texts of which neither comes before the other are equal; a text comes before
/// whatever it begins, and otherwise the first character that differs decides.
pub proof fn order_is_that_of_characters(
    common: Seq<char>,
    left: Seq<char>,
    right: Seq<char>,
)
    ensures
        not_after(left, right) && not_after(right, left) ==> left == right,
        not_after(common, common + right),
        left.len() > 0 && right.len() > 0 && left[0] < right[0] ==> not_after(common + left, common + right)
            && !not_after(common + right, common + left),
    decreases common.len() + left.len(),
{
    if common.len() > 0 {
        let less = common.drop_first();
        order_is_that_of_characters(less, left, right);
        assert((common + left).drop_first() =~= less + left);
        assert((common + right).drop_first() =~= less + right);
        assert((common + left)[0] == common[0] && (common + right)[0] == common[0]);
    } else {
        assert(common + left =~= left);
        assert(common + right =~= right);
        if left.len() > 0 && right.len() > 0 && left[0] == right[0] {
            order_is_that_of_characters(common, left.drop_first(), right.drop_first());
            if not_after(left, right) && not_after(right, left) {
                assert(left =~= seq![left[0]] + left.drop_first());
                assert(right =~= seq![right[0]] + right.drop_first());
            }
        } else if left.len() == 0 && right.len() == 0 {
            assert(left =~= right);
        }
    }
}

/// The order of texts is transitive.
pub proof fn order_is_transitive(first: Seq<char>, second: Seq<char>, third: Seq<char>)
    requires
        not_after(first, second),
        not_after(second, third),
    ensures
        not_after(first, third),
    decreases first.len(),
{
    if first.len() > 0 && second.len() > 0 && third.len() > 0 && first[0] == second[0] && second[0] == third[0] {
        order_is_transitive(first.drop_first(), second.drop_first(), third.drop_first());
    }
}

// ---------------------------------------------------------------------------
// Repeated marks and leading parts
// ---------------------------------------------------------------------------

/// A text without the repetitions of `mark` that it begins with.
pub open spec fn stripped_start(text: Seq<char>, mark: Seq<char>) -> Seq<char>
    decreases text.len(),
{
    if mark.len() > 0 && begins(text, mark) {
        stripped_start(text.skip(mark.len() as int), mark)
    } else {
        text
    }
}

/// A text without the repetitions of `mark` that it ends with.
pub open spec fn stripped_end(text: Seq<char>, mark: Seq<char>) -> Seq<char>
    decreases text.len(),
{
    if mark.len() > 0 && ends(text, mark) {
        stripped_end(text.take(text.len() - mark.len()), mark)
    } else {
        text
    }
}

/// A text without the repetitions of `mark` that it begins with.
pub fn strip_start<'a>(text: &'a str, mark: &str) -> (result: &'a str)
    ensures
        result@ == stripped_start(text@, mark@),
{
    let mut rest = text;
    if mark.is_empty() {
        return rest;
    }
    let mut size: usize = rest.unicode_len();
    loop
        invariant
            mark@.len() > 0,
            size == rest@.len(),
            stripped_start(rest@, mark@) == stripped_start(text@, mark@),
        decreases size,
    {
        match strip_prefix(rest, mark) {
            Some(shorter) => {
                rest = shorter;
                size = rest.unicode_len();
            },
            None => {
                return rest;
            },
        }
    }
}

/// A text without the repetitions of `mark` that it ends with.
pub fn strip_end<'a>(text: &'a str, mark: &str) -> (result: &'a str)
    ensures
        result@ == stripped_end(text@, mark@),
{
    let mut rest = text;
    if mark.is_empty() {
        return rest;
    }
    let mut size: usize = rest.unicode_len();
    loop
        invariant
            mark@.len() > 0,
            size == rest@.len(),
            stripped_end(rest@, mark@) == stripped_end(text@, mark@),
        decreases size,
    {
        match strip_suffix(rest, mark) {
            Some(shorter) => {
                rest = shorter;
                size = rest.unicode_len();
            },
            None => {
                return rest;
            },
        }
    }
}

/// A mark at the beginning or at the end goes, however often it stands there,
/// and a text without it stays as it is.
pub proof fn marks_are_stripped(mark: Seq<char>, text: Seq<char>)
    requires
        mark.len() > 0,
    ensures
        stripped_start(mark + text, mark) == stripped_start(text, mark),
        !begins(text, mark) ==> stripped_start(text, mark) == text,
        !begins(stripped_start(text, mark), mark),
        stripped_end(text + mark, mark) == stripped_end(text, mark),
        !ends(text, mark) ==> stripped_end(text, mark) == text,
        !ends(stripped_end(text, mark), mark),
{
    prefixes_are_taken_off(mark, text, text);
    assert((mark + text).skip(mark.len() as int) =~= text);
    suffixes_are_taken_off(text, mark, text);
    assert((text + mark).take((text + mark).len() - mark.len()) =~= text);
    lemma_no_mark_left(mark, text);
}

proof fn lemma_no_mark_left(mark: Seq<char>, text: Seq<char>)
    requires
        mark.len() > 0,
    ensures
        !begins(stripped_start(text, mark), mark),
        !ends(stripped_end(text, mark), mark),
    decreases text.len(),
{
    if begins(text, mark) {
        lemma_no_mark_left(mark, text.skip(mark.len() as int));
    }
    if ends(text, mark) {
        lemma_no_mark_left(mark, text.take(text.len() - mark.len()));
    }
}

/// At most so many characters are kept, and they are those that come first.
pub proof fn leading_characters_are_kept(text: Seq<char>, count: nat)
    ensures
        leading(text, count).len() <= count,
        leading(text, count).len() == text.len() || leading(text, count).len() == count,
        forall|i: int| 0 <= i < leading(text, count).len() ==> #[trigger] leading(text, count)[i] == text[i],
{
}

/// At most the first `count` characters of a text.
pub open spec fn leading(text: Seq<char>, count: nat) -> Seq<char> {
    if text.len() <= count {
        text
    } else {
        text.take(count as int)
    }
}

/// At most the first `count` characters of a text.
pub fn take_chars<'a>(text: &'a str, count: usize) -> (result: &'a str)
    ensures
        result@ == leading(text@, count as nat),
{
    if text.unicode_len() <= count {
        text
    } else {
        let result = text.substring_char(0, count);
        assert(result@ =~= text@.take(count as int));
        result
    }
}

/// Tells whether two texts are equal but for the case of ASCII letters.
pub fn same_ignoring_case(left: &str, right: &str) -> (result: bool)
    ensures
        result == (lowered(left@) == lowered(right@)),
{
    same(lower(left).as_str(), lower(right).as_str())
}

// ---------------------------------------------------------------------------
// Encodings
// ---------------------------------------------------------------------------

/// The message of the error for bytes that are not UTF-8.
pub uninterp spec fn utf8_complaint(bytes: Seq<u8>) -> Seq<char>;

/// Wraps `String::from_utf8`: the text that the bytes encode if they are valid
/// UTF-8, else an error whose message is only named.
#[verifier::external_body]
pub(crate) fn utf8_text(bytes: Vec<u8>) -> (result: Result<String, String>)
    ensures
        match result {
            Ok(decoded) => vstd::utf8::valid_utf8(bytes@) && decoded@ == vstd::utf8::decode_utf8(bytes@),
            Err(message) => !vstd::utf8::valid_utf8(bytes@) && message@ == utf8_complaint(bytes@),
        },
{
    String::from_utf8(bytes).map_err(|error| error.to_string())
}

/// The first half of a surrogate pair.
pub open spec fn is_high_surrogate(unit: u16) -> bool {
    0xd800 <= unit < 0xdc00
}

/// The second half of a surrogate pair.
pub open spec fn is_low_surrogate(unit: u16) -> bool {
    0xdc00 <= unit < 0xe000
}

/// The text that UTF-16 code units encode: every unit outside the surrogates is
/// a character, a high surrogate and the low one after it make one, and any
/// other surrogate is an error.
pub open spec fn utf16_decoded(units: Seq<u16>) -> Option<Seq<char>>
    decreases units.len(),
{
    if units.len() == 0 {
        Some(Seq::empty())
    } else if is_high_surrogate(units[0]) {
        if units.len() > 1 && is_low_surrogate(units[1]) {
            match utf16_decoded(units.skip(2)) {
                Some(rest) => Some(
                    seq![(0x10000 + (units[0] - 0xd800) * 0x400 + (units[1] - 0xdc00)) as char] + rest,
                ),
                None => None,
            }
        } else {
            None
        }
    } else if is_low_surrogate(units[0]) {
        None
    } else {
        match utf16_decoded(units.skip(1)) {
            Some(rest) => Some(seq![units[0] as char] + rest),
            None => None,
        }
    }
}

/// The message of the error for code units that are not UTF-16.
pub uninterp spec fn utf16_complaint(units: Seq<u16>) -> Seq<char>;

/// Wraps `String::from_utf16`: the text that the code units encode if they are
/// valid UTF-16, else an error whose message is only named.
#[verifier::external_body]
pub(crate) fn utf16_text(units: &Vec<u16>) -> (result: Result<String, String>)
    ensures
        match result {
            Ok(decoded) => utf16_decoded(units@) == Some(decoded@),
            Err(message) => utf16_decoded(units@) is None && message@ == utf16_complaint(units@),
        },
{
    String::from_utf16(units).map_err(|error| error.to_string())
}

} // verus!
