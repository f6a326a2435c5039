//! Bytes in hexadecimal notation.

use crate::error::{invalid_config, Error};
use crate::error::is_invalid_config;
use crate::text::{chars_of, decimal_text, join2};
use crate::text::decimal;
use vstd::prelude::*;
use vstd::utf8::{encode_utf8, is_ascii_chars, is_ascii_chars_encode_utf8};

verus! {

/// A character that hexadecimal input may hold between digits.
pub open spec fn is_hex_separator(character: char) -> bool {
    let code = character as u32;
    code == 0x20 || code == 0x09 || code == 0x0a || code == 0x0c || code == 0x0d || character == ':'
        || character == '-'
}

/// Hexadecimal input without separators.
pub open spec fn compact(text: Seq<char>) -> Seq<char> {
    text.filter(|character: char| !is_hex_separator(character))
}

/// The value of a hexadecimal digit, written as a byte.
pub open spec fn hex_digit(byte: u8) -> Option<u8> {
    if 0x30 <= byte <= 0x39 {
        Some((byte - 0x30) as u8)
    } else if 0x41 <= byte <= 0x46 {
        Some((byte - 0x37) as u8)
    } else if 0x61 <= byte <= 0x66 {
        Some((byte - 0x57) as u8)
    } else {
        None
    }
}

/// The value of two bytes of hexadecimal input: two digits, or a plus sign and
/// one digit.
pub open spec fn hex_pair(first: u8, second: u8) -> Option<u8> {
    match hex_digit(second) {
        Some(low) => if first == 0x2b {
            Some(low)
        } else {
            match hex_digit(first) {
                Some(high) => Some((high * 16 + low) as u8),
                None => None,
            }
        },
        None => None,
    }
}

/// The bytes that hexadecimal input writes, or the message on why it writes none.
pub open spec fn hex_bytes(input: Seq<u8>) -> Result<Seq<u8>, Seq<char>> {
    if input.len() % 2 != 0 {
        Err("hexadecimal input has an odd number of digits"@)
    } else {
        hex_pairs(input)
    }
}

pub open spec fn hex_pairs(input: Seq<u8>) -> Result<Seq<u8>, Seq<char>>
    decreases input.len(),
{
    if input.len() < 2 {
        Ok(Seq::empty())
    } else {
        let last = input.len() - 2;
        match hex_pairs(input.take(last)) {
            Ok(bytes) => match hex_pair(input[last], input[last + 1]) {
                Some(byte) => Ok(bytes.push(byte)),
                None => Err("invalid hex at digit "@ + decimal(last as nat)),
            },
            Err(message) => Err(message),
        }
    }
}

proof fn lemma_hex_error_stays(input: Seq<u8>, length: int)
    requires
        input.len() % 2 == 0,
        length % 2 == 0,
        0 <= length <= input.len(),
        hex_pairs(input.take(length)) is Err,
    ensures
        hex_pairs(input) == hex_pairs(input.take(length)),
    decreases input.len() - length,
{
    if length == input.len() {
        assert(input.take(length) =~= input);
    } else {
        assert(input.take(length + 2).take(length) =~= input.take(length));
        lemma_hex_error_stays(input, length + 2);
    }
}

fn read_hex_digit(byte: u8) -> (digit: Option<u8>)
    ensures
        digit == hex_digit(byte),
{
    if 0x30 <= byte && byte <= 0x39 {
        Some(byte - 0x30)
    } else if 0x41 <= byte && byte <= 0x46 {
        Some(byte - 0x37)
    } else if 0x61 <= byte && byte <= 0x66 {
        Some(byte - 0x57)
    } else {
        None
    }
}

fn read_hex_pair(first: u8, second: u8) -> (value: Option<u8>)
    ensures
        value == hex_pair(first, second),
{
    match read_hex_digit(second) {
        Some(low) => if first == 0x2b {
            Some(low)
        } else {
            match read_hex_digit(first) {
                Some(high) => Some(high * 16 + low),
                None => None,
            }
        },
        None => None,
    }
}

fn remove_separators(value: &str) -> (kept: String)
    ensures
        kept@ == compact(value@),
{
    let chars = chars_of(value);
    let mut kept = String::new();
    let mut i: usize = 0;
    let ghost wanted = |character: char| !is_hex_separator(character);
    assert(chars@.take(0).filter(wanted) =~= Seq::<char>::empty()) by {
        reveal(Seq::filter);
    }
    while i < chars.len()
        invariant
            i <= chars@.len(),
            wanted == (|character: char| !is_hex_separator(character)),
            kept@ == chars@.take(i as int).filter(wanted),
        decreases chars@.len() - i,
    {
        let character: char = chars[i];
        let code: u32 = character as u32;
        let separator = code == 0x20 || code == 0x09 || code == 0x0a || code == 0x0c || code == 0x0d
            || character == ':' || character == '-';
        proof {
            let head = chars@.take(i + 1);
            assert(head.drop_last() =~= chars@.take(i as int));
            assert(head.last() == character);
            reveal(Seq::filter);
        }
        if !separator {
            kept.push(character);
        }
        i += 1;
    }
    assert(chars@.take(i as int) =~= value@);
    kept
}

/// Reads bytes in hexadecimal notation, with white space, colons or hyphens
/// between digits.
pub fn decode_hex(value: &str) -> (result: Result<Vec<u8>, Error>)
    ensures
        match result {
            Ok(bytes) => hex_bytes(encode_utf8(compact(value@))) == Ok::<Seq<u8>, Seq<char>>(
                bytes@,
            ),
            Err(error) => hex_bytes(encode_utf8(compact(value@))) matches Err(message)
                && is_invalid_config(error, message),
        },
{
    let kept = remove_separators(value);
    let input: &[u8] = kept.as_str().as_bytes();
    let ghost all = input@;
    if input.len() % 2 != 0 {
        return Err(invalid_config("hexadecimal input has an odd number of digits"));
    }
    let mut bytes: Vec<u8> = Vec::new();
    let mut offset: usize = 0;
    while offset < input.len()
        invariant
            all == input@,
            all == encode_utf8(compact(value@)),
            all.len() % 2 == 0,
            offset % 2 == 0,
            offset <= all.len(),
            hex_pairs(all.take(offset as int)) == Ok::<Seq<u8>, Seq<char>>(bytes@),
        decreases all.len() - offset,
    {
        assert(all.take(offset + 2).take(offset as int) =~= all.take(offset as int));
        match read_hex_pair(input[offset], input[offset + 1]) {
            Some(byte) => bytes.push(byte),
            None => {
                proof {
                    lemma_hex_error_stays(all, offset + 2);
                }
                let shown = decimal_text(offset as u64);
                return Err(Error::InvalidConfig(join2("invalid hex at digit ", &shown)));
            },
        }
        offset += 2;
    }
    assert(all.take(offset as int) =~= all);
    Ok(bytes)
}

/// A hexadecimal digit in lower case.
pub open spec fn hex_char(digit: int) -> char {
    if digit < 10 {
        (0x30 + digit) as char
    } else {
        (0x57 + digit) as char
    }
}

/// Bytes in hexadecimal notation.
pub open spec fn hex_text(bytes: Seq<u8>) -> Seq<char>
    decreases bytes.len(),
{
    if bytes.len() == 0 {
        Seq::empty()
    } else {
        hex_text(bytes.drop_last()).push(hex_char((bytes.last() / 16) as int)).push(
            hex_char((bytes.last() % 16) as int),
        )
    }
}

/// A hexadecimal digit in lower case.
pub fn write_hex_digit(digit: u8) -> (character: char)
    requires
        digit < 16,
    ensures
        character == hex_char(digit as int),
{
    let code: u8 = if digit < 10 {
        0x30 + digit
    } else {
        0x57 + digit
    };
    code as char
}

/// Writes bytes in hexadecimal notation.
pub fn encode_hex(bytes: &[u8]) -> (text: String)
    ensures
        text@ == hex_text(bytes@),
{
    let mut text = String::new();
    let mut i: usize = 0;
    assert(bytes@.take(0) =~= Seq::<u8>::empty());
    while i < bytes.len()
        invariant
            i <= bytes@.len(),
            text@ == hex_text(bytes@.take(i as int)),
        decreases bytes@.len() - i,
    {
        let byte: u8 = bytes[i];
        assert(bytes@.take(i + 1).drop_last() =~= bytes@.take(i as int));
        text.push(write_hex_digit(byte / 16));
        text.push(write_hex_digit(byte % 16));
        i += 1;
    }
    assert(bytes@.take(i as int) =~= bytes@);
    text
}

proof fn lemma_hex_chars(bytes: Seq<u8>)
    ensures
        is_ascii_chars(hex_text(bytes)),
        hex_text(bytes).len() == 2 * bytes.len(),
        forall|i: int|
            0 <= i < hex_text(bytes).len() ==> !is_hex_separator(#[trigger] hex_text(bytes)[i]),
        forall|i: int|
            0 <= i < bytes.len() ==> #[trigger] bytes[i] / 16 < 16 && hex_text(bytes)[2 * i]
                == hex_char((bytes[i] / 16) as int) && hex_text(bytes)[2 * i + 1] == hex_char(
                (bytes[i] % 16) as int,
            ),
    decreases bytes.len(),
{
    if bytes.len() > 0 {
        lemma_hex_chars(bytes.drop_last());
        let text = hex_text(bytes);
        let before = hex_text(bytes.drop_last());
        assert forall|i: int| 0 <= i < text.len() implies '\0' <= #[trigger] text[i] <= '\u{7f}'
            && !is_hex_separator(text[i]) by {
            if i < before.len() {
                assert(text[i] == before[i]);
                assert('\0' <= before[i] <= '\u{7f}');
            }
        }
        assert forall|i: int| 0 <= i < bytes.len() implies #[trigger] bytes[i] / 16 < 16 && text[2
            * i] == hex_char((bytes[i] / 16) as int) && text[2 * i + 1] == hex_char(
            (bytes[i] % 16) as int,
        ) by {
            if i < bytes.len() - 1 {
                let head = bytes.drop_last();
                assert(head[i] == bytes[i]);
                assert(head[i] / 16 < 16);
                assert(text[2 * i] == before[2 * i]);
                assert(text[2 * i + 1] == before[2 * i + 1]);
            }
        }
    }
}

proof fn lemma_pairs_of_text(bytes: Seq<u8>, count: int)
    requires
        0 <= count <= bytes.len(),
    ensures
        hex_pairs(encode_utf8(hex_text(bytes)).take(2 * count)) == Ok::<Seq<u8>, Seq<char>>(
            bytes.take(count),
        ),
    decreases count,
{
    lemma_hex_chars(bytes);
    let text = hex_text(bytes);
    is_ascii_chars_encode_utf8(text);
    let input = encode_utf8(text);
    if count == 0 {
        assert(input.take(0) =~= Seq::<u8>::empty());
        assert(bytes.take(0) =~= Seq::<u8>::empty());
    } else {
        lemma_pairs_of_text(bytes, count - 1);
        let head = input.take(2 * count);
        assert(head.take(2 * (count - 1)) =~= input.take(2 * (count - 1)));
        let byte = bytes[count - 1];
        assert(byte / 16 < 16);
        assert(text[2 * (count - 1)] == hex_char((byte / 16) as int));
        assert(text[2 * (count - 1) + 1] == hex_char((byte % 16) as int));
        assert(input[2 * (count - 1)] == text[2 * (count - 1)] as u8);
        assert(input[2 * (count - 1) + 1] == text[2 * (count - 1) + 1] as u8);
        assert(hex_digit(input[2 * (count - 1)]) == Some((byte / 16) as u8));
        assert(hex_digit(input[2 * (count - 1) + 1]) == Some((byte % 16) as u8));
        assert(bytes.take(count) =~= bytes.take(count - 1).push(byte));
    }
}

proof fn lemma_compact_keeps(text: Seq<char>)
    requires
        forall|i: int| 0 <= i < text.len() ==> !is_hex_separator(#[trigger] text[i]),
    ensures
        compact(text) == text,
    decreases text.len(),
{
    reveal(Seq::filter);
    if text.len() > 0 {
        let head = text.drop_last();
        assert forall|i: int| 0 <= i < head.len() implies !is_hex_separator(#[trigger] head[i]) by {
            assert(head[i] == text[i]);
        }
        lemma_compact_keeps(head);
        assert(text =~= head.push(text.last()));
    } else {
        assert(compact(text) =~= text);
    }
}

/// Reading bytes written in hexadecimal notation gives them back.
pub proof fn law_hex_round_trip(bytes: Seq<u8>)
    ensures
        hex_bytes(encode_utf8(compact(hex_text(bytes)))) == Ok::<Seq<u8>, Seq<char>>(bytes),
{
    lemma_hex_chars(bytes);
    let text = hex_text(bytes);
    is_ascii_chars_encode_utf8(text);
    lemma_compact_keeps(text);
    lemma_pairs_of_text(bytes, bytes.len() as int);
    assert(encode_utf8(text).take((2 * bytes.len()) as int) =~= encode_utf8(text));
    assert(bytes.take(bytes.len() as int) =~= bytes);
}

/// A byte is written as two digits, the higher half first, with small letters.
pub proof fn law_hex_digits(bytes: &[u8], text: String, i: int)
    requires
        call_ensures(encode_hex, (bytes,), text),
        0 <= i < bytes@.len(),
    ensures
        ({
            let high = bytes@[i] / 16;
            let low = bytes@[i] % 16;
            &&& text@.len() == 2 * bytes@.len()
            &&& high < 10 ==> text@[2 * i] as int == 48 + high
            &&& high >= 10 ==> text@[2 * i] as int == 87 + high
            &&& low < 10 ==> text@[2 * i + 1] as int == 48 + low
            &&& low >= 10 ==> text@[2 * i + 1] as int == 87 + low
        }),
{
    lemma_hex_chars(bytes@);
    assert(bytes@[i] / 16 < 16);
}

/// Blanks, tabs, line ends, colons and hyphens between digits do not count, and
/// everything else does.
pub proof fn law_hex_separators(text: Seq<char>, character: char)
    ensures
        character == ' ' || character == '\t' || character == '\n' || character == '\r' || character
            == ':' || character == '-' ==> compact(text.push(character)) == compact(text),
        'a' <= character <= 'z' || 'A' <= character <= 'Z' || '0' <= character <= '9' ==> compact(
            text.push(character),
        ) == compact(text).push(character),
{
    let kept = |character: char| !is_hex_separator(character);
    crate::text::lemma_char_code(character);
    reveal(Seq::filter);
    assert(text.push(character).drop_last() =~= text);
}

/// A digit is worth what it stands for, in capital letters too.
pub proof fn law_hex_values(byte: u8)
    ensures
        48 <= byte <= 57 ==> hex_digit(byte) == Some((byte - 48) as u8),
        97 <= byte <= 102 ==> hex_digit(byte) == Some((byte - 87) as u8),
        65 <= byte <= 70 ==> hex_digit(byte) == Some((byte - 55) as u8),
        byte < 48 || 57 < byte < 65 || 70 < byte < 97 || byte > 102 ==> hex_digit(byte) is None,
{
}

/// An odd number of digits is refused.
pub proof fn law_odd_digits(value: &str, result: Result<Vec<u8>, Error>)
    requires
        call_ensures(decode_hex, (value,), result),
        encode_utf8(compact(value@)).len() % 2 == 1,
    ensures
        result is Err,
{
}

} // verus!
