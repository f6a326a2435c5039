//! Fixed-width integers in byte strings.

use vstd::prelude::*;

verus! {

/// The number that two bytes stand for, most significant first.
pub open spec fn be16_value(hi: u8, lo: u8) -> int {
    hi * 0x100 + lo
}

/// The number that four bytes stand for, least significant first.
pub open spec fn le32_value(b0: u8, b1: u8, b2: u8, b3: u8) -> int {
    b0 + b1 * 0x100 + b2 * 0x1_0000 + b3 * 0x100_0000
}

/// The number that four bytes stand for, most significant first.
pub open spec fn be32_value(b0: u8, b1: u8, b2: u8, b3: u8) -> int {
    le32_value(b3, b2, b1, b0)
}

/// The four bytes of a number, least significant first.
pub open spec fn le32_bytes(value: u32) -> Seq<u8> {
    seq![
        (value % 0x100) as u8,
        (value / 0x100 % 0x100) as u8,
        (value / 0x1_0000 % 0x100) as u8,
        (value / 0x100_0000) as u8,
    ]
}

/// The four bytes of a number, most significant first.
pub open spec fn be32_bytes(value: u32) -> Seq<u8> {
    seq![
        (value / 0x100_0000) as u8,
        (value / 0x1_0000 % 0x100) as u8,
        (value / 0x100 % 0x100) as u8,
        (value % 0x100) as u8,
    ]
}

/// The two bytes of a number, most significant first.
pub open spec fn be16_bytes(value: u16) -> Seq<u8> {
    seq![(value / 0x100) as u8, (value % 0x100) as u8]
}

/// Writing a number and reading it back gives the number, in either byte order.
pub proof fn law_word_round_trip(value: u32)
    ensures
        ({
            let le = le32_bytes(value);
            le32_value(le[0], le[1], le[2], le[3]) == value
        }),
        ({
            let be = be32_bytes(value);
            be32_value(be[0], be[1], be[2], be[3]) == value
        }),
{
}

pub proof fn law_half_word_round_trip(value: u16)
    ensures
        be16_value(be16_bytes(value)[0], be16_bytes(value)[1]) == value,
{
}

/// The base-256 digits of a number made of four of them.
proof fn lemma_digits(b0: int, b1: int, b2: int, b3: int)
    requires
        0 <= b0 < 0x100,
        0 <= b1 < 0x100,
        0 <= b2 < 0x100,
        0 <= b3 < 0x100,
    ensures
        ({
            let v = b0 + b1 * 0x100 + b2 * 0x1_0000 + b3 * 0x100_0000;
            &&& v % 0x100 == b0
            &&& v / 0x100 % 0x100 == b1
            &&& v / 0x1_0000 % 0x100 == b2
            &&& v / 0x100_0000 == b3
        }),
{
    let v = b0 + b1 * 0x100 + b2 * 0x1_0000 + b3 * 0x100_0000;
    let q1 = b1 + b2 * 0x100 + b3 * 0x1_0000;
    let q2 = b2 + b3 * 0x100;
    assert(v == q1 * 0x100 + b0);
    assert(v / 0x100 == q1);
    assert(q1 == q2 * 0x100 + b1);
    assert(v == q2 * 0x1_0000 + (b0 + b1 * 0x100));
    assert(v / 0x1_0000 == q2);
}

/// Reading four bytes and writing the number gives the bytes back.
pub proof fn lemma_bytes_of_value(b0: u8, b1: u8, b2: u8, b3: u8)
    ensures
        0 <= le32_value(b0, b1, b2, b3) <= u32::MAX,
        le32_bytes(le32_value(b0, b1, b2, b3) as u32) == seq![b0, b1, b2, b3],
        be32_bytes(le32_value(b0, b1, b2, b3) as u32) == seq![b3, b2, b1, b0],
{
    lemma_digits(b0 as int, b1 as int, b2 as int, b3 as int);
    let v = le32_value(b0, b1, b2, b3) as u32;
    assert(v % 0x100 == b0 && v / 0x100 % 0x100 == b1 && v / 0x1_0000 % 0x100 == b2 && v
        / 0x100_0000 == b3);
    assert(le32_bytes(v) =~= seq![b0, b1, b2, b3]);
    assert(be32_bytes(v) =~= seq![b3, b2, b1, b0]);
}

pub fn be16(hi: u8, lo: u8) -> (value: u16)
    ensures
        value == be16_value(hi, lo),
{
    (hi as u16) * 0x100 + (lo as u16)
}

pub fn le32(b0: u8, b1: u8, b2: u8, b3: u8) -> (value: u32)
    ensures
        value == le32_value(b0, b1, b2, b3),
{
    (b0 as u32) + (b1 as u32) * 0x100 + (b2 as u32) * 0x1_0000 + (b3 as u32) * 0x100_0000
}

pub fn push_le32(out: &mut Vec<u8>, value: u32)
    ensures
        final(out)@ == old(out)@ + le32_bytes(value),
{
    out.push((value % 0x100) as u8);
    out.push((value / 0x100 % 0x100) as u8);
    out.push((value / 0x1_0000 % 0x100) as u8);
    out.push((value / 0x100_0000) as u8);
    assert(out@ =~= old(out)@ + le32_bytes(value));
}

pub fn push_be32(out: &mut Vec<u8>, value: u32)
    ensures
        final(out)@ == old(out)@ + be32_bytes(value),
{
    out.push((value / 0x100_0000) as u8);
    out.push((value / 0x1_0000 % 0x100) as u8);
    out.push((value / 0x100 % 0x100) as u8);
    out.push((value % 0x100) as u8);
    assert(out@ =~= old(out)@ + be32_bytes(value));
}

pub fn push_be16(out: &mut Vec<u8>, value: u16)
    ensures
        final(out)@ == old(out)@ + be16_bytes(value),
{
    out.push((value / 0x100) as u8);
    out.push((value % 0x100) as u8);
    assert(out@ =~= old(out)@ + be16_bytes(value));
}

/// Appends a byte string.
pub fn push_all(out: &mut Vec<u8>, data: &[u8])
    ensures
        final(out)@ == old(out)@ + data@,
{
    out.extend_from_slice(data);
    assert(out@ =~= old(out)@ + data@);
}

/// Whether two byte strings are equal.
pub fn same_bytes(left: &[u8], right: &[u8]) -> (same: bool)
    ensures
        same == (left@ == right@),
{
    if left.len() != right.len() {
        return false;
    }
    let mut i: usize = 0;
    while i < left.len()
        invariant
            left@.len() == right@.len(),
            i <= left@.len(),
            forall|k: int| 0 <= k < i ==> left@[k] == right@[k],
        decreases left@.len() - i,
    {
        if left[i] != right[i] {
            return false;
        }
        i += 1;
    }
    assert(left@ =~= right@);
    true
}

} // verus!
