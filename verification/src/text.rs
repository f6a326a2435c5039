//! Text as sequences of characters.

use vstd::prelude::*;
use vstd::string::StringExecFns;
use vstd::utf8::encode_utf8;

verus! {

/// `String::push` appends one character to the end of a string.
pub assume_specification[ String::push ](text: &mut String, character: char)
    ensures
        final(text)@ == old(text)@.push(character),
;

/// The text that a text is shown as in messages, in quotes and with escapes.
pub uninterp spec fn quoted_text(text: Seq<char>) -> Seq<char>;

/// `format!` with `{:?}` shows a text in quotes, with escapes where needed.
#[verifier::external_body]
pub(crate) fn quoted(text: &str) -> (shown: String)
    ensures
        shown@ == quoted_text(text@),
{
    format!("{text:?}")
}

/// The characters of a text.
pub fn chars_of(text: &str) -> (chars: Vec<char>)
    ensures
        chars@ == text@,
{
    let mut chars: Vec<char> = Vec::new();
    for character in it: text.chars()
        invariant
            chars@ =~= it.seq().take(it.index() as int),
            it.seq() == text@,
    {
        chars.push(character);
    }
    chars
}

/// The text that characters make up.
pub fn string_of(chars: &[char]) -> (text: String)
    ensures
        text@ == chars@,
{
    let mut text = String::new();
    let mut i: usize = 0;
    while i < chars.len()
        invariant
            i <= chars@.len(),
            text@ == chars@.take(i as int),
        decreases chars@.len() - i,
    {
        text.push(chars[i]);
        assert(chars@.take(i as int).push(chars@[i as int]) =~= chars@.take(i + 1));
        i += 1;
    }
    assert(chars@.take(i as int) =~= chars@);
    text
}

/// How many bytes a text takes in UTF-8.
pub fn byte_length(text: &str) -> (length: usize)
    ensures
        length == encode_utf8(text@).len(),
{
    text.as_bytes().len()
}

/// Appends a text.
pub fn push_text(out: &mut String, text: &str)
    ensures
        final(out)@ == old(out)@ + text@,
{
    out.append(text);
}

/// Whether two character sequences are equal.
pub fn same_chars(left: &[char], right: &[char]) -> (same: bool)
    ensures
        same == (left@ == right@),
{
    if left.len() != right.len() {
        return false;
    }
    let mut i: usize = 0;
    while i < left.len()
        invariant
            left@.len() == right@.len(),
            i <= left@.len(),
            forall|k: int| 0 <= k < i ==> left@[k] == right@[k],
        decreases left@.len() - i,
    {
        if left[i] != right[i] {
            return false;
        }
        i += 1;
    }
    assert(left@ =~= right@);
    true
}

/// Whether two texts are equal.
pub fn same_text(left: &str, right: &str) -> (same: bool)
    ensures
        same == (left@ == right@),
{
    let left_chars = chars_of(left);
    let right_chars = chars_of(right);
    same_chars(left_chars.as_slice(), right_chars.as_slice())
}

/// The characters with the Unicode property `White_Space`.
pub open spec fn is_space(character: char) -> bool {
    let code = character as u32;
    ||| 0x09 <= code <= 0x0d
    ||| code == 0x20
    ||| code == 0x85
    ||| code == 0xa0
    ||| code == 0x1680
    ||| 0x2000 <= code <= 0x200a
    ||| code == 0x2028
    ||| code == 0x2029
    ||| code == 0x202f
    ||| code == 0x205f
    ||| code == 0x3000
}

pub fn space(character: char) -> (answer: bool)
    ensures
        answer == is_space(character),
{
    let code: u32 = character as u32;
    (0x09 <= code && code <= 0x0d) || code == 0x20 || code == 0x85 || code == 0xa0 || code == 0x1680
        || (0x2000 <= code && code <= 0x200a) || code == 0x2028 || code == 0x2029 || code == 0x202f
        || code == 0x205f || code == 0x3000
}

/// A text without white space at its ends.
pub open spec fn trimmed(text: Seq<char>) -> Seq<char>
    decreases text.len(),
{
    if text.len() > 0 && is_space(text.first()) {
        trimmed(text.drop_first())
    } else if text.len() > 0 && is_space(text.last()) {
        trimmed(text.drop_last())
    } else {
        text
    }
}

pub fn trim(chars: &[char]) -> (kept: Vec<char>)
    ensures
        kept@ == trimmed(chars@),
{
    let mut start: usize = 0;
    let mut end: usize = chars.len();
    assert(chars@.subrange(0, end as int) =~= chars@);
    while start < end && space(chars[start])
        invariant
            start <= end <= chars@.len(),
            trimmed(chars@.subrange(start as int, end as int)) == trimmed(chars@),
        decreases end - start,
    {
        assert(chars@.subrange(start as int, end as int).drop_first() =~= chars@.subrange(
            start + 1,
            end as int,
        ));
        start += 1;
    }
    while start < end && space(chars[end - 1])
        invariant
            start <= end <= chars@.len(),
            trimmed(chars@.subrange(start as int, end as int)) == trimmed(chars@),
            start < end ==> !is_space(chars@[start as int]),
        decreases end - start,
    {
        assert(chars@.subrange(start as int, end as int).drop_last() =~= chars@.subrange(
            start as int,
            end - 1,
        ));
        end -= 1;
    }
    let kept = vstd::slice::slice_to_vec(vstd::slice::slice_subrange(chars, start, end));
    assert(trimmed(kept@) == kept@);
    kept
}

/// A text trimmed as a `String`.
pub fn trim_text(text: &str) -> (kept: String)
    ensures
        kept@ == trimmed(text@),
{
    let chars = chars_of(text);
    let kept = trim(chars.as_slice());
    string_of(kept.as_slice())
}

/// Trimming twice is trimming once.
pub proof fn law_trim_idempotent(text: Seq<char>)
    ensures
        trimmed(trimmed(text)) == trimmed(text),
    decreases text.len(),
{
    if text.len() > 0 && is_space(text.first()) {
        law_trim_idempotent(text.drop_first());
    } else if text.len() > 0 && is_space(text.last()) {
        law_trim_idempotent(text.drop_last());
    }
}

/// A text without any number of one character at its end.
pub open spec fn without_trailing(text: Seq<char>, character: char) -> Seq<char>
    decreases text.len(),
{
    if text.len() > 0 && text.last() == character {
        without_trailing(text.drop_last(), character)
    } else {
        text
    }
}

pub fn strip_trailing(chars: &[char], character: char) -> (kept: Vec<char>)
    ensures
        kept@ == without_trailing(chars@, character),
{
    let mut end: usize = chars.len();
    assert(chars@.take(end as int) =~= chars@);
    while end > 0 && chars[end - 1] == character
        invariant
            end <= chars@.len(),
            without_trailing(chars@.take(end as int), character) == without_trailing(
                chars@,
                character,
            ),
        decreases end,
    {
        assert(chars@.take(end as int).drop_last() =~= chars@.take(end - 1));
        end -= 1;
    }
    let kept = vstd::slice::slice_to_vec(vstd::slice::slice_subrange(chars, 0, end));
    assert(kept@ =~= chars@.take(end as int));
    kept
}

/// The lower-case form of an ASCII letter; any other character is its own.
pub open spec fn lower_char(character: char) -> char {
    if 0x41 <= character as u32 <= 0x5a {
        ((character as u32) + 0x20) as char
    } else {
        character
    }
}

pub open spec fn lower(text: Seq<char>) -> Seq<char> {
    text.map_values(|character: char| lower_char(character))
}

/// The upper-case form of an ASCII letter; any other character is its own.
pub open spec fn upper_char(character: char) -> char {
    if 0x61 <= character as u32 <= 0x7a {
        ((character as u32) - 0x20) as char
    } else {
        character
    }
}

pub open spec fn upper(text: Seq<char>) -> Seq<char> {
    text.map_values(|character: char| upper_char(character))
}

pub fn to_lower_char(character: char) -> (result: char)
    ensures
        result == lower_char(character),
{
    let code: u32 = character as u32;
    if 0x41 <= code && code <= 0x5a {
        let byte: u8 = (code + 0x20) as u8;
        byte as char
    } else {
        character
    }
}

pub fn to_lower(chars: &[char]) -> (result: Vec<char>)
    ensures
        result@ == lower(chars@),
{
    let mut result: Vec<char> = Vec::new();
    let mut i: usize = 0;
    while i < chars.len()
        invariant
            i <= chars@.len(),
            result@ =~= lower(chars@).take(i as int),
        decreases chars@.len() - i,
    {
        result.push(to_lower_char(chars[i]));
        i += 1;
    }
    assert(lower(chars@).take(i as int) =~= lower(chars@));
    result
}

/// The lower-case form of a trimmed text.
pub fn trim_lower(text: &str) -> (result: String)
    ensures
        result@ == lower(trimmed(text@)),
{
    let chars = chars_of(text);
    let kept = trim(chars.as_slice());
    let lowered = to_lower(kept.as_slice());
    string_of(lowered.as_slice())
}

/// A text with each occurrence of one character replaced by another.
pub open spec fn replaced(text: Seq<char>, from: char, to: char) -> Seq<char> {
    text.map_values(|character: char| if character == from { to } else { character })
}

pub fn replace(text: &str, from: char, to: char) -> (result: String)
    ensures
        result@ == replaced(text@, from, to),
{
    let chars = chars_of(text);
    let mut result = String::new();
    let mut i: usize = 0;
    while i < chars.len()
        invariant
            chars@ == text@,
            i <= chars@.len(),
            result@ =~= replaced(text@, from, to).take(i as int),
        decreases chars@.len() - i,
    {
        if chars[i] == from {
            result.push(to);
        } else {
            result.push(chars[i]);
        }
        i += 1;
    }
    assert(replaced(text@, from, to).take(i as int) =~= replaced(text@, from, to));
    result
}

/// Whether a text ends with another.
pub open spec fn has_suffix(text: Seq<char>, suffix: Seq<char>) -> bool {
    suffix.len() <= text.len() && text.skip(text.len() - suffix.len()) == suffix
}

pub fn ends_with(chars: &[char], suffix: &[char]) -> (answer: bool)
    ensures
        answer == has_suffix(chars@, suffix@),
{
    if suffix.len() > chars.len() {
        return false;
    }
    let start: usize = chars.len() - suffix.len();
    let tail = vstd::slice::slice_subrange(chars, start, chars.len());
    assert(tail@ =~= chars@.skip(start as int));
    same_chars(tail, suffix)
}

/// Whether a text begins with another.
pub open spec fn has_prefix(text: Seq<char>, prefix: Seq<char>) -> bool {
    prefix.len() <= text.len() && text.take(prefix.len() as int) == prefix
}

/// What stands behind a prefix.
pub fn strip_prefix(chars: &[char], prefix: &str) -> (rest: Option<Vec<char>>)
    ensures
        match rest {
            Some(rest) => has_prefix(chars@, prefix@) && rest@ == chars@.skip(
                prefix@.len() as int,
            ),
            None => !has_prefix(chars@, prefix@),
        },
{
    let wanted = chars_of(prefix);
    let length: usize = wanted.len();
    if length > chars.len() {
        return None;
    }
    let head = vstd::slice::slice_subrange(chars, 0, length);
    assert(head@ =~= chars@.take(length as int));
    if !same_chars(head, wanted.as_slice()) {
        return None;
    }
    let tail = vstd::slice::slice_subrange(chars, length, chars.len());
    assert(tail@ =~= chars@.skip(length as int));
    Some(vstd::slice::slice_to_vec(tail))
}

/// Whether a text occurs inside another at a position.
pub open spec fn occurs_at(text: Seq<char>, needle: Seq<char>, at: int) -> bool {
    0 <= at && at + needle.len() <= text.len() && text.subrange(at, at + needle.len()) == needle
}

/// Whether a text occurs inside another.
pub open spec fn contains_text(text: Seq<char>, needle: Seq<char>) -> bool {
    exists|at: int| occurs_at(text, needle, at)
}

pub fn contains(chars: &[char], needle: &str) -> (answer: bool)
    ensures
        answer == contains_text(chars@, needle@),
{
    let wanted = chars_of(needle);
    if wanted.len() > chars.len() {
        return false;
    }
    let total: usize = chars.len();
    let last: usize = total - wanted.len();
    let mut at: usize = 0;
    loop
        invariant
            wanted@ == needle@,
            total == chars@.len(),
            last == chars@.len() - wanted@.len(),
            at <= last,
            forall|k: int| 0 <= k < at ==> !occurs_at(chars@, needle@, k),
        decreases last - at,
    {
        let window = vstd::slice::slice_subrange(chars, at, at + wanted.len());
        if same_chars(window, wanted.as_slice()) {
            assert(occurs_at(chars@, needle@, at as int));
            return true;
        }
        assert(!occurs_at(chars@, needle@, at as int));
        if at == last {
            return false;
        }
        at += 1;
    }
}

/// The pieces of a text between the occurrences of a separator.
pub open spec fn pieces(text: Seq<char>, separator: char) -> Seq<Seq<char>>
    decreases text.len(),
{
    if text.len() == 0 {
        seq![Seq::<char>::empty()]
    } else {
        let before = pieces(text.drop_last(), separator);
        if text.last() == separator {
            before.push(Seq::<char>::empty())
        } else {
            before.drop_last().push(before.last().push(text.last()))
        }
    }
}

/// The views of a list of character lists.
pub open spec fn views(lists: Seq<Vec<char>>) -> Seq<Seq<char>> {
    lists.map_values(|list: Vec<char>| list@)
}

/// The views of a list of texts.
pub open spec fn texts(list: Seq<String>) -> Seq<Seq<char>> {
    list.map_values(|text: String| text@)
}

pub proof fn lemma_pieces_nonempty(text: Seq<char>, separator: char)
    ensures
        pieces(text, separator).len() > 0,
    decreases text.len(),
{
    if text.len() > 0 {
        lemma_pieces_nonempty(text.drop_last(), separator);
    }
}

/// Behind a separator stands one more piece, where no separator stands in it.
pub proof fn lemma_last_piece(before: Seq<char>, separator: char, last: Seq<char>)
    requires
        !last.contains(separator),
    ensures
        pieces(before + seq![separator] + last, separator) == pieces(before, separator).push(last),
    decreases last.len(),
{
    let text = before + seq![separator] + last;
    if last.len() == 0 {
        assert(text.drop_last() =~= before);
        assert(last =~= Seq::<char>::empty());
    } else {
        let shorter = last.drop_last();
        assert forall|i: int| 0 <= i < shorter.len() implies shorter[i] != separator by {
            assert(last[i] == shorter[i]);
        }
        lemma_last_piece(before, separator, shorter);
        assert(last[last.len() - 1] != separator);
        assert(text.drop_last() =~= before + seq![separator] + shorter);
        let found = pieces(before, separator);
        assert(found.push(shorter).drop_last() =~= found);
        assert(shorter.push(last.last()) =~= last);
    }
}

/// A text without a separator is its only piece.
pub proof fn lemma_only_piece(text: Seq<char>, separator: char)
    requires
        !text.contains(separator),
    ensures
        pieces(text, separator) == seq![text],
    decreases text.len(),
{
    if text.len() == 0 {
        assert(text =~= Seq::<char>::empty());
    } else {
        let shorter = text.drop_last();
        assert forall|i: int| 0 <= i < shorter.len() implies shorter[i] != separator by {
            assert(text[i] == shorter[i]);
        }
        lemma_only_piece(shorter, separator);
        assert(text[text.len() - 1] != separator);
        assert(shorter.push(text.last()) =~= text);
        assert(seq![shorter].drop_last().push(text) =~= seq![text]);
    }
}

pub fn split(chars: &[char], separator: char) -> (parts: Vec<Vec<char>>)
    ensures
        views(parts@) == pieces(chars@, separator),
        parts@.len() > 0,
{
    let mut parts: Vec<Vec<char>> = Vec::new();
    let mut current: Vec<char> = Vec::new();
    let mut i: usize = 0;
    assert(chars@.take(0) =~= Seq::<char>::empty());
    assert(views(parts@).push(current@) =~= pieces(chars@.take(0), separator));
    while i < chars.len()
        invariant
            i <= chars@.len(),
            views(parts@).push(current@) == pieces(chars@.take(i as int), separator),
        decreases chars@.len() - i,
    {
        let ghost before = views(parts@);
        let ghost piece = current@;
        assert(chars@.take(i + 1).drop_last() =~= chars@.take(i as int));
        assert(before.push(piece).drop_last() =~= before);
        if chars[i] == separator {
            parts.push(current);
            current = Vec::new();
            assert(views(parts@) =~= before.push(piece));
        } else {
            current.push(chars[i]);
        }
        i += 1;
    }
    assert(chars@.take(i as int) =~= chars@);
    let ghost before = views(parts@);
    let ghost piece = current@;
    parts.push(current);
    assert(views(parts@) =~= before.push(piece));
    parts
}

pub open spec fn digit_char(digit: int) -> char {
    (0x30 + digit) as char
}

/// A number in decimal notation.
pub open spec fn decimal(value: nat) -> Seq<char>
    decreases value,
{
    if value < 10 {
        seq![digit_char(value as int)]
    } else {
        decimal(value / 10).push(digit_char((value % 10) as int))
    }
}

/// Appends a number in decimal notation.
pub fn push_decimal(out: &mut String, value: u64)
    ensures
        final(out)@ == old(out)@ + decimal(value as nat),
    decreases value,
{
    if value >= 10 {
        push_decimal(out, value / 10);
    }
    let digit: u8 = 0x30 + (value % 10) as u8;
    let ghost before = out@;
    out.push(digit as char);
    proof {
        if value >= 10 {
            assert(out@ =~= old(out)@ + decimal(value as nat));
        } else {
            assert(out@ =~= old(out)@ + decimal(value as nat));
        }
    }
}

/// A number in decimal notation as a `String`.
pub fn decimal_text(value: u64) -> (text: String)
    ensures
        text@ == decimal(value as nat),
{
    let mut text = String::new();
    push_decimal(&mut text, value);
    assert(text@ =~= decimal(value as nat));
    text
}

/// Joins two texts.
pub fn join2(first: &str, second: &str) -> (text: String)
    ensures
        text@ == first@ + second@,
{
    let mut text = first.to_owned();
    push_text(&mut text, second);
    text
}

/// Joins three texts.
pub fn join3(first: &str, second: &str, third: &str) -> (text: String)
    ensures
        text@ == first@ + second@ + third@,
{
    let mut text = String::new();
    push_text(&mut text, first);
    push_text(&mut text, second);
    push_text(&mut text, third);
    assert(text@ =~= first@ + second@ + third@);
    text
}

/// An ASCII letter or digit.
pub open spec fn is_alphanumeric(character: char) -> bool {
    let code = character as u32;
    0x30 <= code <= 0x39 || 0x41 <= code <= 0x5a || 0x61 <= code <= 0x7a
}

pub fn alphanumeric(character: char) -> (answer: bool)
    ensures
        answer == is_alphanumeric(character),
{
    let code: u32 = character as u32;
    (0x30 <= code && code <= 0x39) || (0x41 <= code && code <= 0x5a) || (0x61 <= code && code
        <= 0x7a)
}

/// Copies a list of texts.
pub fn copy_texts(list: &Vec<String>) -> (copy: Vec<String>)
    ensures
        texts(copy@) == texts(list@),
{
    let mut copy: Vec<String> = Vec::new();
    push_texts(&mut copy, list);
    assert(texts(copy@) =~= texts(list@));
    copy
}

/// Appends one list of texts to another.
pub fn push_texts(out: &mut Vec<String>, list: &Vec<String>)
    ensures
        texts(final(out)@) == texts(old(out)@) + texts(list@),
{
    let ghost start = texts(out@);
    let mut i: usize = 0;
    assert(start + texts(list@).take(0) =~= start);
    while i < list.len()
        invariant
            i <= list@.len(),
            texts(out@) == start + texts(list@).take(i as int),
        decreases list@.len() - i,
    {
        let ghost before = texts(out@);
        let text = list[i].clone();
        out.push(text);
        assert(texts(out@) =~= before.push(texts(list@)[i as int]));
        assert(start + texts(list@).take(i + 1) =~= before.push(texts(list@)[i as int]));
        i += 1;
    }
    assert(texts(list@).take(i as int) =~= texts(list@));
}

/// Appends one text to a list.
pub fn push_one(out: &mut Vec<String>, text: String)
    ensures
        texts(final(out)@) == texts(old(out)@).push(text@),
{
    let ghost before = texts(out@);
    let ghost chars = text@;
    out.push(text);
    assert(texts(out@) =~= before.push(chars));
}

/// A text occurs at a position and nowhere before it.
pub open spec fn first_occurrence(text: Seq<char>, needle: Seq<char>, at: int) -> bool {
    occurs_at(text, needle, at) && forall|k: int| 0 <= k < at ==> !occurs_at(text, needle, k)
}

/// What stands before and behind the first occurrence of a text in another.
pub open spec fn split_first(text: Seq<char>, needle: Seq<char>) -> Option<(Seq<char>, Seq<char>)> {
    if contains_text(text, needle) {
        let at = choose|at: int| first_occurrence(text, needle, at);
        Some((text.take(at), text.skip(at + needle.len())))
    } else {
        None
    }
}

/// Splits a text at the first occurrence of another.
pub fn split_once(chars: &[char], needle: &str) -> (parts: Option<(Vec<char>, Vec<char>)>)
    ensures
        match parts {
            Some(pair) => split_first(chars@, needle@) == Some((pair.0@, pair.1@)),
            None => split_first(chars@, needle@) is None,
        },
{
    let wanted = chars_of(needle);
    if wanted.len() > chars.len() {
        return None;
    }
    let total: usize = chars.len();
    let last: usize = total - wanted.len();
    let mut at: usize = 0;
    loop
        invariant
            wanted@ == needle@,
            total == chars@.len(),
            last == chars@.len() - wanted@.len(),
            at <= last,
            forall|k: int| 0 <= k < at ==> !occurs_at(chars@, needle@, k),
        decreases last - at,
    {
        let window = vstd::slice::slice_subrange(chars, at, at + wanted.len());
        if same_chars(window, wanted.as_slice()) {
            let head = vstd::slice::slice_to_vec(vstd::slice::slice_subrange(chars, 0, at));
            let tail = vstd::slice::slice_to_vec(
                vstd::slice::slice_subrange(chars, at + wanted.len(), total),
            );
            proof {
                assert(occurs_at(chars@, needle@, at as int));
                assert(first_occurrence(chars@, needle@, at as int));
                let chosen = choose|k: int| first_occurrence(chars@, needle@, k);
                assert(first_occurrence(chars@, needle@, chosen));
                assert(chosen == at);
                assert(head@ =~= chars@.take(at as int));
                assert(tail@ =~= chars@.skip(at + needle@.len()));
            }
            return Some((head, tail));
        }
        assert(!occurs_at(chars@, needle@, at as int));
        if at == last {
            return None;
        }
        at += 1;
    }
}

/// A decimal digit.
pub open spec fn is_digit(character: char) -> bool {
    0x30 <= character as u32 <= 0x39
}

/// The number that decimal digits write.
pub open spec fn digits_value(digits: Seq<char>) -> nat
    decreases digits.len(),
{
    if digits.len() == 0 {
        0
    } else {
        digits_value(digits.drop_last()) * 10 + (digits.last() as u32 - 0x30) as nat
    }
}

/// The digits of a number that may have a plus sign before it.
pub open spec fn unsigned_digits(text: Seq<char>) -> Seq<char> {
    if text.len() > 0 && text[0] == '+' {
        text.drop_first()
    } else {
        text
    }
}

/// The number of at most a given size that a text writes in decimal notation.
pub open spec fn number_of(text: Seq<char>, max: u64) -> Option<u64> {
    let digits = unsigned_digits(text);
    if digits.len() > 0 && (forall|i: int| 0 <= i < digits.len() ==> is_digit(#[trigger] digits[i]))
        && digits_value(digits) <= max {
        Some(digits_value(digits) as u64)
    } else {
        None
    }
}

/// Decimal notation is made of digits, begins with a zero only where it is no
/// longer, and writes the number that it was made of.
pub proof fn lemma_decimal_digits(value: nat)
    ensures
        decimal(value).len() > 0,
        forall|i: int| 0 <= i < decimal(value).len() ==> is_digit(#[trigger] decimal(value)[i]),
        decimal(value).len() == 1 || decimal(value)[0] != '0',
        value > 0 ==> decimal(value)[0] != '0',
        digits_value(decimal(value)) == value,
        value < 10 ==> decimal(value).len() == 1,
        value < 100 ==> decimal(value).len() <= 2,
        value < 1_000 ==> decimal(value).len() <= 3,
    decreases value,
{
    let digits = decimal(value);
    if value < 10 {
        assert(digits.drop_last() =~= Seq::<char>::empty());
        assert(digits_value(digits.drop_last()) == 0);
    } else {
        lemma_decimal_digits(value / 10);
        assert(digits.drop_last() =~= decimal(value / 10));
        assert(digits[0] == decimal(value / 10)[0]);
        assert forall|i: int| 0 <= i < digits.len() implies is_digit(#[trigger] digits[i]) by {
            if i < digits.len() - 1 {
                assert(digits[i] == decimal(value / 10)[i]);
            }
        }
    }
}

proof fn lemma_digits_grow(digits: Seq<char>, count: int)
    requires
        0 <= count <= digits.len(),
    ensures
        digits_value(digits.take(count)) <= digits_value(digits),
    decreases digits.len() - count,
{
    if count == digits.len() {
        assert(digits.take(count) =~= digits);
    } else {
        lemma_digits_grow(digits, count + 1);
        assert(digits.take(count + 1).drop_last() =~= digits.take(count));
    }
}

/// Reads a number of at most a given size.
pub fn parse_number(chars: &[char], max: u64) -> (value: Option<u64>)
    ensures
        value == number_of(chars@, max),
{
    let ghost digits = unsigned_digits(chars@);
    let start: usize = if chars.len() > 0 && chars[0] == '+' {
        1
    } else {
        0
    };
    assert(digits =~= chars@.skip(start as int));
    if chars.len() == start {
        return None;
    }
    let mut value: u64 = 0;
    let mut i: usize = start;
    assert(digits.take(0) =~= Seq::<char>::empty());
    while i < chars.len()
        invariant
            start <= i <= chars@.len(),
            start < chars@.len(),
            digits == unsigned_digits(chars@),
            digits == chars@.skip(start as int),
            forall|k: int| 0 <= k < i - start ==> is_digit(#[trigger] digits[k]),
            value == digits_value(digits.take(i - start)),
            value <= max,
        decreases chars@.len() - i,
    {
        let code: u32 = chars[i] as u32;
        assert(digits[i - start] == chars@[i as int]);
        if !(0x30 <= code && code <= 0x39) {
            assert(!is_digit(digits[i - start]));
            return None;
        }
        let digit: u64 = (code - 0x30) as u64;
        proof {
            assert(digits.take(i - start + 1).drop_last() =~= digits.take(i - start));
            lemma_digits_grow(digits, i - start + 1);
        }
        if digit > max || value > (max - digit) / 10 {
            return None;
        }
        value = value * 10 + digit;
        i += 1;
    }
    assert(digits.take(i - start) =~= digits);
    Some(value)
}

/// The order of texts: by the first character in which they differ, a text
/// before every longer one that it begins.
pub open spec fn precedes(left: Seq<char>, right: Seq<char>) -> bool
    decreases left.len(),
{
    if right.len() == 0 {
        false
    } else if left.len() == 0 {
        true
    } else if left[0] != right[0] {
        (left[0] as int) < (right[0] as int)
    } else {
        precedes(left.drop_first(), right.drop_first())
    }
}

pub proof fn lemma_precedes_total(left: Seq<char>, right: Seq<char>)
    ensures
        left == right || precedes(left, right) || precedes(right, left),
        !(precedes(left, right) && precedes(right, left)),
        left == right ==> !precedes(left, right),
    decreases left.len(),
{
    if left.len() > 0 && right.len() > 0 {
        lemma_precedes_total(left.drop_first(), right.drop_first());
        if left[0] == right[0] && left.drop_first() == right.drop_first() {
            assert forall|i: int| 0 <= i < left.len() implies left[i] == right[i] by {
                if i > 0 {
                    assert(left.drop_first()[i - 1] == right.drop_first()[i - 1]);
                }
            }
            assert(left =~= right);
        }
    } else {
        assert(left.len() == right.len() ==> left =~= right);
    }
}

pub proof fn lemma_precedes_transitive(first: Seq<char>, second: Seq<char>, third: Seq<char>)
    requires
        precedes(first, second),
        precedes(second, third),
    ensures
        precedes(first, third),
    decreases first.len(),
{
    if first.len() > 0 && first[0] == second[0] && second[0] == third[0] {
        lemma_precedes_transitive(first.drop_first(), second.drop_first(), third.drop_first());
    }
}

pub proof fn lemma_char_code(character: char)
    ensures
        (character as u32) as int == character as int,
{
}

/// Whether a text comes before another.
pub fn text_precedes(left: &str, right: &str) -> (answer: bool)
    ensures
        answer == precedes(left@, right@),
{
    let left_chars = chars_of(left);
    let right_chars = chars_of(right);
    let mut i: usize = 0;
    assert(left_chars@.skip(0) =~= left@);
    assert(right_chars@.skip(0) =~= right@);
    loop
        invariant
            i <= left_chars@.len(),
            i <= right_chars@.len(),
            precedes(left_chars@.skip(i as int), right_chars@.skip(i as int)) == precedes(
                left@,
                right@,
            ),
        decreases left_chars@.len() - i,
    {
        if i == right_chars.len() {
            return false;
        }
        if i == left_chars.len() {
            return true;
        }
        if left_chars[i] != right_chars[i] {
            let left_char: char = left_chars[i];
            let right_char: char = right_chars[i];
            proof {
                lemma_char_code(left_char);
                lemma_char_code(right_char);
            }
            return (left_char as u32) < (right_char as u32);
        }
        assert(left_chars@.skip(i as int).drop_first() =~= left_chars@.skip(i + 1));
        assert(right_chars@.skip(i as int).drop_first() =~= right_chars@.skip(i + 1));
        i += 1;
    }
}

/// Texts in ascending order, none of them twice.
pub open spec fn ascending(list: Seq<Seq<char>>) -> bool {
    forall|i: int, j: int| 0 <= i < j < list.len() ==> #[trigger] precedes(list[i], list[j])
}

/// Puts a text in its place in an ascending list, where it is not there yet.
fn insert_ascending(list: &mut Vec<String>, text: &str)
    requires
        ascending(texts(old(list)@)),
    ensures
        ascending(texts(final(list)@)),
        forall|other: Seq<char>| #[trigger]
            texts(final(list)@).contains(other) <==> texts(old(list)@).contains(other) || other
                == text@,
{
    let ghost before = texts(list@);
    let mut at: usize = 0;
    while at < list.len() && text_precedes(&list[at], text)
        invariant
            before == texts(list@),
            ascending(before),
            at <= list@.len(),
            forall|k: int| 0 <= k < at ==> precedes(#[trigger] before[k], text@),
        decreases list@.len() - at,
    {
        assert(before[at as int] == list@[at as int]@);
        at += 1;
    }
    if at < list.len() && same_text(&list[at], text) {
        assert(before[at as int] == text@);
        return;
    }
    let copy = text.to_owned();
    list.insert(at, copy);
    proof {
        let after = texts(list@);
        assert(after =~= before.insert(at as int, text@));
        if at < before.len() {
            assert(before[at as int] == list@[at + 1]@);
            lemma_precedes_total(before[at as int], text@);
        }
        assert forall|i: int, j: int| 0 <= i < j < after.len() implies #[trigger] precedes(
            after[i],
            after[j],
        ) by {
            if i == at {
                if j > at + 1 {
                    assert(precedes(before[at as int], before[j - 1]));
                    lemma_precedes_transitive(text@, before[at as int], before[j - 1]);
                }
            } else if j != at {
                let ii = if i < at { i } else { i - 1 };
                let jj = if j < at { j } else { j - 1 };
                assert(precedes(before[ii], before[jj]));
            }
        }
        assert forall|other: Seq<char>| #[trigger]
            after.contains(other) <==> before.contains(other) || other == text@ by {
            if before.contains(other) {
                let k = choose|k: int| 0 <= k < before.len() && before[k] == other;
                if k < at {
                    assert(after[k] == other);
                } else {
                    assert(after[k + 1] == other);
                }
            }
            if other == text@ {
                assert(after[at as int] == other);
            }
            if after.contains(other) && other != text@ {
                let k = choose|k: int| 0 <= k < after.len() && after[k] == other;
                if k < at {
                    assert(before[k] == other);
                } else {
                    assert(before[k - 1] == other);
                }
            }
        }
    }
}

/// The texts of a list in ascending order, each once.
pub fn sort_texts(list: &Vec<String>) -> (sorted: Vec<String>)
    ensures
        ascending(texts(sorted@)),
        forall|text: Seq<char>| #[trigger]
            texts(sorted@).contains(text) <==> texts(list@).contains(text),
{
    let mut sorted: Vec<String> = Vec::new();
    let mut i: usize = 0;
    while i < list.len()
        invariant
            i <= list@.len(),
            ascending(texts(sorted@)),
            forall|text: Seq<char>| #[trigger]
                texts(sorted@).contains(text) <==> texts(list@).take(i as int).contains(text),
        decreases list@.len() - i,
    {
        let ghost before = texts(sorted@);
        insert_ascending(&mut sorted, &list[i]);
        proof {
            let all = texts(list@);
            assert(all.take(i + 1) =~= all.take(i as int).push(all[i as int]));
            assert forall|text: Seq<char>| #[trigger]
                texts(sorted@).contains(text) <==> all.take(i + 1).contains(text) by {
                assert(before.contains(text) <==> all.take(i as int).contains(text));
                let grown = all.take(i as int).push(all[i as int]);
                if all.take(i as int).contains(text) {
                    let k = choose|k: int|
                        0 <= k < all.take(i as int).len() && all.take(i as int)[k] == text;
                    assert(grown[k] == text);
                }
                if text == all[i as int] {
                    assert(grown[i as int] == text);
                }
                if grown.contains(text) && text != all[i as int] {
                    let k = choose|k: int| 0 <= k < grown.len() && grown[k] == text;
                    assert(all.take(i as int)[k] == text);
                }
            }
        }
        i += 1;
    }
    assert(texts(list@).take(i as int) =~= texts(list@));
    sorted
}

/// What two lists hold together, either of them holds.
pub proof fn lemma_sum_contains<A>(left: Seq<A>, right: Seq<A>, item: A)
    ensures
        (left + right).contains(item) <==> left.contains(item) || right.contains(item),
{
    if left.contains(item) {
        let i = choose|i: int| 0 <= i < left.len() && left[i] == item;
        assert((left + right)[i] == item);
    }
    if right.contains(item) {
        let i = choose|i: int| 0 <= i < right.len() && right[i] == item;
        assert((left + right)[left.len() + i] == item);
    }
    if (left + right).contains(item) {
        let i = choose|i: int| 0 <= i < (left + right).len() && (left + right)[i] == item;
        if i < left.len() {
            assert(left[i] == item);
        } else {
            assert(right[i - left.len()] == item);
        }
    }
}

/// A filtered list holds what the list holds and the filter lets through.
pub proof fn lemma_filter_contains<A>(list: Seq<A>, wanted: spec_fn(A) -> bool, item: A)
    ensures
        list.filter(wanted).contains(item) <==> list.contains(item) && wanted(item),
    decreases list.len(),
{
    reveal(Seq::filter);
    if list.len() > 0 {
        let head = list.drop_last();
        lemma_filter_contains(head, wanted, item);
        assert(list =~= head + seq![list.last()]);
        lemma_sum_contains(head, seq![list.last()], item);
        assert(seq![list.last()].contains(item) <==> list.last() == item) by {
            assert(seq![list.last()][0] == list.last());
        }
        if wanted(list.last()) {
            assert(list.filter(wanted) =~= head.filter(wanted) + seq![list.last()]);
            lemma_sum_contains(head.filter(wanted), seq![list.last()], item);
        }
    }
}

/// A list of images holds the images of what the list holds.
pub proof fn lemma_map_contains<A, B>(list: Seq<A>, image: spec_fn(A) -> B, item: B)
    ensures
        list.map_values(image).contains(item) <==> exists|i: int|
            0 <= i < list.len() && image(#[trigger] list[i]) == item,
{
    if list.map_values(image).contains(item) {
        let i = choose|i: int| 0 <= i < list.len() && list.map_values(image)[i] == item;
        assert(image(list[i]) == item);
    }
    if exists|i: int| 0 <= i < list.len() && image(#[trigger] list[i]) == item {
        let i = choose|i: int| 0 <= i < list.len() && image(#[trigger] list[i]) == item;
        assert(list.map_values(image)[i] == item);
    }
}

/// A text is split where the separator occurs first.
pub proof fn lemma_split_first(text: Seq<char>, needle: Seq<char>, at: int)
    requires
        first_occurrence(text, needle, at),
    ensures
        split_first(text, needle) == Some((text.take(at), text.skip(at + needle.len()))),
{
    assert(contains_text(text, needle));
    let chosen = choose|k: int| first_occurrence(text, needle, k);
    assert(first_occurrence(text, needle, chosen));
    assert(chosen == at);
}

/// The characters that are taken for space: tab to carriage return, the blank and
/// the other spaces and separators of Unicode.
pub proof fn law_space(character: char, answer: bool)
    requires
        call_ensures(space, (character,), answer),
    ensures
        character == ' ' || character == '\t' || character == '\n' || character == '\r' ==> answer,
        (character as u32) < 0x80 ==> (answer <==> character as u32 == 32 || 9 <= character as u32
            <= 13),
        answer && character as u32 >= 0x80 ==> character as u32 == 0x85 || character as u32 == 0xa0
            || character as u32 == 0x1680 || 0x2000 <= character as u32 <= 0x3000,
{
}

/// What trimming keeps: a stretch of the text without space at its ends, outside of
/// which there is only space.
pub proof fn law_trim_keeps(text: Seq<char>) -> (ends: (int, int))
    ensures
        0 <= ends.0 <= ends.1 <= text.len(),
        trimmed(text) == text.subrange(ends.0, ends.1),
        forall|i: int| 0 <= i < ends.0 || ends.1 <= i < text.len() ==> is_space(#[trigger] text[i]),
        ends.0 < ends.1 ==> !is_space(text[ends.0]) && !is_space(text[ends.1 - 1]),
    decreases text.len(),
{
    if text.len() > 0 && is_space(text.first()) {
        let rest = text.drop_first();
        let inner = law_trim_keeps(rest);
        assert(rest.subrange(inner.0, inner.1) =~= text.subrange(inner.0 + 1, inner.1 + 1));
        assert forall|i: int| 0 <= i < inner.0 + 1 || inner.1 + 1 <= i < text.len() implies is_space(
            #[trigger] text[i],
        ) by {
            if i > 0 {
                assert(rest[i - 1] == text[i]);
            }
        }
        (inner.0 + 1, inner.1 + 1)
    } else if text.len() > 0 && is_space(text.last()) {
        let rest = text.drop_last();
        let inner = law_trim_keeps(rest);
        assert(rest.subrange(inner.0, inner.1) =~= text.subrange(inner.0, inner.1));
        assert forall|i: int| 0 <= i < inner.0 || inner.1 <= i < text.len() implies is_space(
            #[trigger] text[i],
        ) by {
            if i < rest.len() {
                assert(rest[i] == text[i]);
            }
        }
        inner
    } else {
        assert(text.subrange(0, text.len() as int) =~= text);
        (0, text.len() as int)
    }
}

/// Letters of ASCII change their case, and nothing else changes.
pub proof fn law_letter_case(text: Seq<char>, i: int)
    requires
        0 <= i < text.len(),
    ensures
        lower(text).len() == text.len() && upper(text).len() == text.len(),
        'A' <= text[i] <= 'Z' ==> lower(text)[i] as int == text[i] as int + 32,
        !('A' <= text[i] <= 'Z') ==> lower(text)[i] == text[i],
        'a' <= text[i] <= 'z' ==> upper(text)[i] as int == text[i] as int - 32,
        !('a' <= text[i] <= 'z') ==> upper(text)[i] == text[i],
{
    lemma_char_code(text[i]);
}

/// What stands in front, behind or in the middle is found there.
pub proof fn law_parts_are_found(before: Seq<char>, part: Seq<char>, after: Seq<char>)
    ensures
        has_prefix(part + after, part),
        has_suffix(before + part, part),
        contains_text(before + part + after, part),
{
    assert((part + after).take(part.len() as int) =~= part);
    assert((before + part).skip(before.len() as int) =~= part);
    let whole = before + part + after;
    assert(whole.subrange(before.len() as int, before.len() as int + part.len()) =~= part);
    assert(occurs_at(whole, part, before.len() as int));
}

/// What is found is there: a text with a prefix or a suffix is made of it and what
/// is left.
pub proof fn law_found_at_an_end(text: Seq<char>, part: Seq<char>)
    ensures
        has_prefix(text, part) ==> text == part + text.skip(part.len() as int),
        has_suffix(text, part) ==> text == text.take(text.len() - part.len()) + part,
{
    if has_prefix(text, part) {
        assert(text =~= text.take(part.len() as int) + text.skip(part.len() as int));
    }
    if has_suffix(text, part) {
        let n = text.len() - part.len();
        assert(text =~= text.take(n) + text.skip(n));
    }
}

/// A text that holds another is made of what comes before it, it, and the rest.
pub proof fn law_found_inside(text: Seq<char>, part: Seq<char>) -> (at: int)
    requires
        contains_text(text, part),
    ensures
        0 <= at <= text.len() - part.len(),
        text == text.take(at) + part + text.skip(at + part.len()),
{
    let at = choose|at: int| occurs_at(text, part, at);
    let end = at + part.len();
    assert(text.take(at) + part =~= text.take(end)) by {
        assert forall|i: int| at <= i < end implies part[i - at] == text[i] by {
            assert(text.subrange(at, end)[i - at] == text[i]);
        }
    }
    assert(text.take(end) + text.skip(end) =~= text);
    at
}

/// Digits are worth what they stand for, place by place.
pub proof fn law_digits(digits: Seq<char>, digit: char)
    requires
        '0' <= digit <= '9',
    ensures
        digits_value(Seq::empty()) == 0,
        digits_value(digits.push(digit)) == digits_value(digits) * 10 + (digit as int - 48),
        is_digit(digit),
{
    assert(digits.push(digit).drop_last() =~= digits);
    lemma_char_code(digit);
}

/// A number is read back from its notation, also behind a plus sign, where it is no
/// larger than it may be.
pub proof fn law_number_is_read(value: u64, max: u64)
    ensures
        number_of(decimal(value as nat), max) == if value <= max {
            Some(value)
        } else {
            None
        },
        number_of(seq!['+'] + decimal(value as nat), max) == number_of(decimal(value as nat), max),
        number_of(Seq::empty(), max) is None,
{
    lemma_decimal_digits(value as nat);
    let shown = decimal(value as nat);
    assert(is_digit(shown[0]));
    assert((seq!['+'] + shown).drop_first() =~= shown);
}

/// The first character in which two texts differ decides on their order; where one
/// ends first it comes first.
pub proof fn law_text_order(common: Seq<char>, left: Seq<char>, right: Seq<char>)
    requires
        left.len() > 0,
        right.len() > 0,
        left[0] != right[0],
    ensures
        precedes(common + left, common + right) <==> left[0] < right[0],
        precedes(common, common + right),
        !precedes(common + right, common),
    decreases common.len(),
{
    if common.len() > 0 {
        let rest = common.drop_first();
        law_text_order(rest, left, right);
        assert((common + left).drop_first() =~= rest + left);
        assert((common + right).drop_first() =~= rest + right);
    } else {
        assert(common + left =~= left);
        assert(common + right =~= right);
    }
}

/// One character takes the place of another, wherever that stands.
pub proof fn law_replace(text: &str, from: char, to: char, result: String, i: int)
    requires
        call_ensures(replace, (text, from, to), result),
        0 <= i < text@.len(),
    ensures
        result@.len() == text@.len(),
        text@[i] == from ==> result@[i] == to,
        text@[i] != from ==> result@[i] == text@[i],
{
}

} // verus!
