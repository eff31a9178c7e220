//! Framing of one field value.
//!
//! A value without a line break is written on the name's own line, after an
//! equals sign. A value with a line break is written in the binary-safe form:
//! a line break after the name, the value's length as eight little-endian
//! bytes, the value itself, and a closing line break.

use vstd::prelude::*;

verus! {

/// The line break, `\n`.
pub const NEWLINE: u8 = 0x0a;

/// The equals sign, `=`.
pub const EQUALS: u8 = 0x3d;

/// The eight bytes of `n`, least significant first: each is the remainder by
/// 256 of what the bytes before it left over.
pub open spec fn u64_le_bytes(n: u64) -> Seq<u8> {
    let r1 = n / 0x100;
    let r2 = r1 / 0x100;
    let r3 = r2 / 0x100;
    let r4 = r3 / 0x100;
    let r5 = r4 / 0x100;
    let r6 = r5 / 0x100;
    let r7 = r6 / 0x100;
    seq![
        (n % 0x100) as u8,
        (r1 % 0x100) as u8,
        (r2 % 0x100) as u8,
        (r3 % 0x100) as u8,
        (r4 % 0x100) as u8,
        (r5 % 0x100) as u8,
        (r6 % 0x100) as u8,
        (r7 % 0x100) as u8,
    ]
}

/// The number that eight bytes stand for, least significant first.
pub open spec fn u64_from_le_bytes(bytes: Seq<u8>) -> int
    recommends
        bytes.len() == 8,
{
    bytes[0] + bytes[1] * 0x100 + bytes[2] * 0x1_0000 + bytes[3] * 0x100_0000 + bytes[4]
        * 0x1_0000_0000 + bytes[5] * 0x100_0000_0000 + bytes[6] * 0x1_0000_0000_0000 + bytes[7]
        * 0x100_0000_0000_0000
}

/// Reading back the eight bytes of a number gives the number.
pub proof fn lemma_u64_le_bytes_value(n: u64)
    ensures
        u64_le_bytes(n).len() == 8,
        u64_from_le_bytes(u64_le_bytes(n)) == n,
{
    let r1 = n / 0x100;
    let r2 = r1 / 0x100;
    let r3 = r2 / 0x100;
    let r4 = r3 / 0x100;
    let r5 = r4 / 0x100;
    let r6 = r5 / 0x100;
    let r7 = r6 / 0x100;
    assert(n == r1 * 0x100 + n % 0x100);
    assert(r1 == r2 * 0x100 + r1 % 0x100);
    assert(r2 == r3 * 0x100 + r2 % 0x100);
    assert(r3 == r4 * 0x100 + r3 % 0x100);
    assert(r4 == r5 * 0x100 + r4 % 0x100);
    assert(r5 == r6 * 0x100 + r5 % 0x100);
    assert(r6 == r7 * 0x100 + r6 % 0x100);
    assert(r7 < 0x100);
}

/// Whether the value holds a line break.
pub open spec fn has_newline(value: Seq<u8>) -> bool {
    value.contains(NEWLINE)
}

/// What follows the field name for a value: the single-line form if the value
/// holds no line break, the length-prefixed form otherwise.
pub open spec fn framed_value(value: Seq<u8>) -> Seq<u8> {
    if has_newline(value) {
        seq![NEWLINE] + u64_le_bytes(value.len() as u64) + value + seq![NEWLINE]
    } else {
        seq![EQUALS] + value + seq![NEWLINE]
    }
}

/// Appends `n` as eight little-endian bytes, by `bytes::BufMut::put_u64_le`
/// on a `Vec<u8>`. That method hands the little-endian bytes of `n` to
/// `Vec::extend_from_slice`, so the buffer grows by exactly those eight bytes
/// and keeps what it held.
#[verifier::external_body]
fn put_u64_le(output: &mut Vec<u8>, n: u64)
    ensures
        final(output)@ == old(output)@ + u64_le_bytes(n),
{
    bytes::BufMut::put_u64_le(output, n);
}

/// Whether `value` holds a line break.
pub fn contains_newline(value: &[u8]) -> (found: bool)
    ensures
        found == has_newline(value@),
{
    let mut i: usize = 0;
    while i < value.len()
        invariant
            i <= value@.len(),
            forall|j: int| 0 <= j < i ==> value@[j] != NEWLINE,
        decreases value.len() - i,
    {
        if value[i] == NEWLINE {
            return true;
        }
        i += 1;
    }
    false
}

/// Appends `bytes` to `output`.
pub fn append_bytes(bytes: &[u8], output: &mut Vec<u8>)
    ensures
        final(output)@ == old(output)@ + bytes@,
{
    let mut i: usize = 0;
    while i < bytes.len()
        invariant
            i <= bytes@.len(),
            output@ == old(output)@ + bytes@.subrange(0, i as int),
        decreases bytes.len() - i,
    {
        output.push(bytes[i]);
        i += 1;
        assert(output@ =~= old(output)@ + bytes@.subrange(0, i as int));
    }
    assert(bytes@.subrange(0, i as int) =~= bytes@);
}

/// Appends the framing of `value` to `output`. Only `value` decides which
/// form is taken, never what `output` already holds.
pub fn write_framed(value: &[u8], output: &mut Vec<u8>)
    ensures
        final(output)@ == old(output)@ + framed_value(value@),
{
    if contains_newline(value) {
        output.push(NEWLINE);
        put_u64_le(output, value.len() as u64);
        append_bytes(value, output);
        output.push(NEWLINE);
        assert(output@ =~= old(output)@ + framed_value(value@));
    } else {
        output.push(EQUALS);
        append_bytes(value, output);
        output.push(NEWLINE);
        assert(output@ =~= old(output)@ + framed_value(value@));
    }
}

} // verus!
