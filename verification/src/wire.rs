//! The datagram as a sequence of fields, and how it is read back.
//!
//! A datagram is the encodings of its fields one after another, with nothing
//! between them and nothing around them. A reader takes the name up to the
//! first equals sign or line break; after an equals sign the value runs to the
//! next line break, and after a line break it is given by its length.

use crate::frame::{
    framed_value, has_newline, lemma_u64_le_bytes_value, u64_from_le_bytes, u64_le_bytes, EQUALS,
    NEWLINE,
};
use crate::name::is_field_name;
use vstd::prelude::*;

verus! {

/// A field on the wire: its name and the bytes of its value.
pub type WireField = (Seq<u8>, Seq<u8>);

/// The encoding of one field: the name, then the framed value.
pub open spec fn encoded_field(field: WireField) -> Seq<u8> {
    field.0 + framed_value(field.1)
}

/// The encoding of a sequence of fields: the encodings of the fields, in
/// order.
pub open spec fn encoded_fields(fields: Seq<WireField>) -> Seq<u8>
    decreases fields.len(),
{
    if fields.len() == 0 {
        Seq::empty()
    } else {
        encoded_fields(fields.drop_last()) + encoded_field(fields.last())
    }
}

/// A byte that ends a field name: an equals sign or a line break.
pub open spec fn is_separator(b: u8) -> bool {
    b == EQUALS || b == NEWLINE
}

/// The place of the first separator at or after `from`, or the length of
/// `data` if there is none.
pub open spec fn find_separator(data: Seq<u8>, from: int) -> int
    decreases data.len() - from,
{
    if from < 0 || from >= data.len() {
        data.len() as int
    } else if is_separator(data[from]) {
        from
    } else {
        find_separator(data, from + 1)
    }
}

/// The place of the first line break at or after `from`, or the length of
/// `data` if there is none.
pub open spec fn find_newline(data: Seq<u8>, from: int) -> int
    decreases data.len() - from,
{
    if from < 0 || from >= data.len() {
        data.len() as int
    } else if data[from] == NEWLINE {
        from
    } else {
        find_newline(data, from + 1)
    }
}

/// The first field of `data` and the place where the next one starts, or
/// `None` if `data` does not start with a whole field.
pub open spec fn first_field(data: Seq<u8>) -> Option<(WireField, int)> {
    let name_end = find_separator(data, 0);
    if name_end >= data.len() {
        None
    } else if data[name_end] == EQUALS {
        let value_end = find_newline(data, name_end + 1);
        if value_end >= data.len() {
            None
        } else {
            Some(
                ((data.subrange(0, name_end), data.subrange(name_end + 1, value_end)), value_end + 1),
            )
        }
    } else if name_end + 9 > data.len() {
        None
    } else {
        let value_end = name_end + 9 + u64_from_le_bytes(data.subrange(name_end + 1, name_end + 9));
        if value_end >= data.len() || data[value_end] != NEWLINE {
            None
        } else {
            Some(
                ((data.subrange(0, name_end), data.subrange(name_end + 9, value_end)), value_end + 1),
            )
        }
    }
}

/// The fields of a datagram, or `None` if it is not a sequence of whole
/// fields.
pub open spec fn decoded_fields(data: Seq<u8>) -> Option<Seq<WireField>>
    decreases data.len(),
{
    if data.len() == 0 {
        Some(Seq::empty())
    } else {
        match first_field(data) {
            None => None,
            Some((field, next)) => if 0 < next <= data.len() {
                match decoded_fields(data.subrange(next, data.len() as int)) {
                    None => None,
                    Some(rest) => Some(seq![field] + rest),
                }
            } else {
                None
            },
        }
    }
}

/// A field that can be written and read back: its name holds no separator,
/// and the length of its value fits in eight bytes.
pub open spec fn is_wire_field(field: WireField) -> bool {
    &&& forall|i: int| 0 <= i < field.0.len() ==> !is_separator(#[trigger] field.0[i])
    &&& field.1.len() <= u64::MAX
}

/// A legal field name holds no separator.
pub proof fn lemma_field_name_has_no_separator(name: Seq<u8>)
    requires
        is_field_name(name),
    ensures
        forall|i: int| 0 <= i < name.len() ==> !is_separator(#[trigger] name[i]),
{
}

/// `find_separator` gives the first separator at or after `from`.
pub proof fn lemma_find_separator(data: Seq<u8>, from: int)
    requires
        0 <= from <= data.len(),
    ensures
        from <= find_separator(data, from) <= data.len(),
        forall|i: int| from <= i < find_separator(data, from) ==> !is_separator(#[trigger] data[i]),
        find_separator(data, from) < data.len() ==> is_separator(data[find_separator(data, from)]),
    decreases data.len() - from,
{
    if from < data.len() && !is_separator(data[from]) {
        lemma_find_separator(data, from + 1);
    }
}

/// `find_newline` gives the first line break at or after `from`.
pub proof fn lemma_find_newline(data: Seq<u8>, from: int)
    requires
        0 <= from <= data.len(),
    ensures
        from <= find_newline(data, from) <= data.len(),
        forall|i: int| from <= i < find_newline(data, from) ==> #[trigger] data[i] != NEWLINE,
        find_newline(data, from) < data.len() ==> data[find_newline(data, from)] == NEWLINE,
    decreases data.len() - from,
{
    if from < data.len() && data[from] != NEWLINE {
        lemma_find_newline(data, from + 1);
    }
}

/// The encoding of a non-empty sequence of fields starts with the encoding
/// of its first field.
pub proof fn lemma_encoded_fields_front(fields: Seq<WireField>)
    requires
        fields.len() > 0,
    ensures
        encoded_fields(fields) == encoded_field(fields.first()) + encoded_fields(
            fields.drop_first(),
        ),
    decreases fields.len(),
{
    if fields.len() == 1 {
        assert(fields.drop_last() =~= Seq::empty());
        assert(fields.drop_first() =~= Seq::empty());
        assert(encoded_fields(fields.drop_last()) =~= Seq::empty());
        assert(encoded_fields(fields) =~= encoded_field(fields.first()) + encoded_fields(
            fields.drop_first(),
        ));
    } else {
        lemma_encoded_fields_front(fields.drop_last());
        assert(fields.drop_last().drop_first() =~= fields.drop_first().drop_last());
        assert(fields.drop_last().first() == fields.first());
        assert(fields.drop_first().last() == fields.last());
        assert(encoded_fields(fields) =~= encoded_field(fields.first()) + encoded_fields(
            fields.drop_first(),
        ));
    }
}

/// Writing one more field appends its encoding.
pub proof fn lemma_encoded_fields_push(fields: Seq<WireField>, field: WireField)
    ensures
        encoded_fields(fields.push(field)) == encoded_fields(fields) + encoded_field(field),
{
    assert(fields.push(field).drop_last() =~= fields);
}

/// A reader finds a written field at the start of what follows it, whatever
/// comes after.
pub proof fn lemma_first_field_of_encoding(field: WireField, rest: Seq<u8>)
    requires
        is_wire_field(field),
    ensures
        first_field(encoded_field(field) + rest) == Some(
            (field, encoded_field(field).len() as int),
        ),
{
    let (name, value) = field;
    let data = encoded_field(field) + rest;
    let n = name.len() as int;
    let v = value.len() as int;
    assert(forall|i: int| 0 <= i < n ==> data[i] == name[i]);
    lemma_find_separator(data, 0);
    assert(is_separator(data[n]));
    let name_end = find_separator(data, 0);
    assert(name_end == n) by {
        if name_end < n {
            assert(data[name_end] == name[name_end]);
        }
    }
    assert(data.subrange(0, n) =~= name);
    if has_newline(value) {
        lemma_u64_le_bytes_value(v as u64);
        assert(data.subrange(n + 1, n + 9) =~= u64_le_bytes(v as u64));
        assert(data.subrange(n + 9, n + 9 + v) =~= value);
        assert(data[n + 9 + v] == NEWLINE);
    } else {
        lemma_find_newline(data, n + 1);
        let value_end = find_newline(data, n + 1);
        assert(data[n + 1 + v] == NEWLINE);
        assert(value_end == n + 1 + v) by {
            if value_end < n + 1 + v {
                assert(data[value_end] == value[value_end - n - 1]);
                assert(value.contains(NEWLINE));
            }
        }
        assert(data.subrange(n + 1, n + 1 + v) =~= value);
    }
}

/// Reading back what was written gives the fields that were written, in the
/// order in which they were written.
pub proof fn lemma_decoded_encoded_fields(fields: Seq<WireField>)
    requires
        forall|i: int| 0 <= i < fields.len() ==> is_wire_field(#[trigger] fields[i]),
    ensures
        decoded_fields(encoded_fields(fields)) == Some(fields),
    decreases fields.len(),
{
    if fields.len() == 0 {
        assert(fields =~= Seq::empty());
    } else {
        let head = fields.first();
        let tail = fields.drop_first();
        let data = encoded_fields(fields);
        let next = encoded_field(head).len() as int;
        lemma_encoded_fields_front(fields);
        lemma_first_field_of_encoding(head, encoded_fields(tail));
        assert forall|i: int| 0 <= i < tail.len() implies is_wire_field(#[trigger] tail[i]) by {
            assert(tail[i] == fields[i + 1]);
        }
        lemma_decoded_encoded_fields(tail);
        assert(data.subrange(next, data.len() as int) =~= encoded_fields(tail));
        assert(seq![head] + tail =~= fields);
    }
}

/// A value without a line break is written as `NAME=VALUE` and a line
/// break.
pub proof fn lemma_single_line_field(field: WireField)
    requires
        !has_newline(field.1),
    ensures
        encoded_field(field) == field.0 + seq![EQUALS] + field.1 + seq![NEWLINE],
{
    assert(encoded_field(field) =~= field.0 + seq![EQUALS] + field.1 + seq![NEWLINE]);
}

/// A value with a line break is written as the name, a line break, eight
/// bytes, the value and a line break; the eight bytes read back as the
/// length of the value.
pub proof fn lemma_length_prefixed_field(field: WireField)
    requires
        has_newline(field.1),
        field.1.len() <= u64::MAX,
    ensures
        encoded_field(field) == field.0 + seq![NEWLINE] + u64_le_bytes(field.1.len() as u64)
            + field.1 + seq![NEWLINE],
        u64_le_bytes(field.1.len() as u64).len() == 8,
        u64_from_le_bytes(u64_le_bytes(field.1.len() as u64)) == field.1.len(),
{
    lemma_u64_le_bytes_value(field.1.len() as u64);
    assert(encoded_field(field) =~= field.0 + seq![NEWLINE] + u64_le_bytes(field.1.len() as u64)
        + field.1 + seq![NEWLINE]);
}

/// A field read from a datagram.
#[derive(Clone, Debug, PartialEq, Eq)]
pub struct DecodedField {
    pub name: Vec<u8>,
    pub value: Vec<u8>,
}

impl DecodedField {
    /// The field as a pair of name and value.
    pub open spec fn wire(&self) -> WireField {
        (self.name@, self.value@)
    }
}

/// The fields as pairs of name and value.
pub open spec fn wire_of(fields: Seq<DecodedField>) -> Seq<WireField> {
    fields.map_values(|field: DecodedField| field.wire())
}

/// The fields `head`, then those of `rest` if there are any.
pub open spec fn prepended(head: Seq<WireField>, rest: Option<Seq<WireField>>) -> Option<
    Seq<WireField>,
> {
    match rest {
        None => None,
        Some(rest) => Some(head + rest),
    }
}

proof fn lemma_separator_is_first(data: Seq<u8>, at: int)
    requires
        0 <= at <= data.len(),
        forall|i: int| 0 <= i < at ==> !is_separator(#[trigger] data[i]),
        at < data.len() ==> is_separator(data[at]),
    ensures
        find_separator(data, 0) == at,
{
    lemma_find_separator(data, 0);
    let found = find_separator(data, 0);
    if found < at {
        assert(!is_separator(data[found]));
    }
}

proof fn lemma_newline_is_first(data: Seq<u8>, from: int, at: int)
    requires
        0 <= from <= at <= data.len(),
        forall|i: int| from <= i < at ==> #[trigger] data[i] != NEWLINE,
        at < data.len() ==> data[at] == NEWLINE,
    ensures
        find_newline(data, from) == at,
{
    lemma_find_newline(data, from);
    let found = find_newline(data, from);
    if found < at {
        assert(data[found] != NEWLINE);
    }
}

fn copy_range(data: &[u8], from: usize, to: usize) -> (copy: Vec<u8>)
    requires
        from <= to <= data@.len(),
    ensures
        copy@ == data@.subrange(from as int, to as int),
{
    let mut copy: Vec<u8> = Vec::new();
    let mut i: usize = from;
    while i < to
        invariant
            from <= i <= to <= data@.len(),
            copy@ == data@.subrange(from as int, i as int),
        decreases to - i,
    {
        copy.push(data[i]);
        i += 1;
        assert(copy@ =~= data@.subrange(from as int, i as int));
    }
    copy
}

fn read_u64_le(data: &[u8], at: usize) -> (n: u64)
    requires
        at + 8 <= data@.len(),
    ensures
        n == u64_from_le_bytes(data@.subrange(at as int, at + 8)),
{
    let b0: u64 = data[at] as u64;
    let b1: u64 = data[at + 1] as u64;
    let b2: u64 = data[at + 2] as u64;
    let b3: u64 = data[at + 3] as u64;
    let b4: u64 = data[at + 4] as u64;
    let b5: u64 = data[at + 5] as u64;
    let b6: u64 = data[at + 6] as u64;
    let b7: u64 = data[at + 7] as u64;
    b0 + b1 * 0x100 + b2 * 0x1_0000 + b3 * 0x100_0000 + b4 * 0x1_0000_0000 + b5 * 0x100_0000_0000
        + b6 * 0x1_0000_0000_0000 + b7 * 0x100_0000_0000_0000
}

/// The place of the first separator at or after `pos`, or the length of
/// `data`.
fn scan_separator(data: &[u8], pos: usize) -> (end: usize)
    requires
        pos <= data@.len(),
    ensures
        pos <= end <= data@.len(),
        end - pos == find_separator(data@.subrange(pos as int, data@.len() as int), 0),
{
    let len = data.len();
    let ghost rest = data@.subrange(pos as int, len as int);
    let mut end: usize = pos;
    while end < len && data[end] != EQUALS && data[end] != NEWLINE
        invariant
            len == data@.len(),
            pos <= end <= len,
            forall|i: int| pos <= i < end ==> !is_separator(#[trigger] data@[i]),
        decreases len - end,
    {
        end += 1;
    }
    proof {
        assert forall|i: int| 0 <= i < end - pos implies !is_separator(#[trigger] rest[i]) by {
            assert(rest[i] == data@[pos + i]);
        }
        lemma_separator_is_first(rest, end - pos);
    }
    end
}

/// The place of the first line break at or after `from`, or the length of
/// `data`, as seen from `pos`.
fn scan_newline(data: &[u8], pos: usize, from: usize) -> (end: usize)
    requires
        pos <= from <= data@.len(),
    ensures
        from <= end <= data@.len(),
        end - pos == find_newline(data@.subrange(pos as int, data@.len() as int), from - pos),
{
    let len = data.len();
    let ghost rest = data@.subrange(pos as int, len as int);
    let mut end: usize = from;
    while end < len && data[end] != NEWLINE
        invariant
            len == data@.len(),
            from <= end <= len,
            forall|i: int| from <= i < end ==> #[trigger] data@[i] != NEWLINE,
        decreases len - end,
    {
        end += 1;
    }
    proof {
        assert forall|i: int| from - pos <= i < end - pos implies #[trigger] rest[i]
            != NEWLINE by {
            assert(rest[i] == data@[pos + i]);
        }
        lemma_newline_is_first(rest, from - pos, end - pos);
    }
    end
}

/// Where the value of the field at `pos` starts and ends, given the end of
/// its name; `None` if the field is not whole.
fn value_bounds(data: &[u8], pos: usize, name_end: usize) -> (bounds: Option<(usize, usize)>)
    requires
        pos <= name_end <= data@.len(),
        name_end - pos == find_separator(data@.subrange(pos as int, data@.len() as int), 0),
    ensures
        ({
            let rest = data@.subrange(pos as int, data@.len() as int);
            match bounds {
                None => first_field(rest) is None,
                Some((start, end)) => {
                    &&& name_end < start <= end < data@.len()
                    &&& first_field(rest) == Some(
                        (
                            (
                                rest.subrange(0, name_end - pos),
                                rest.subrange(start - pos, end - pos),
                            ),
                            end + 1 - pos,
                        ),
                    )
                },
            }
        }),
{
    let len = data.len();
    let ghost rest = data@.subrange(pos as int, len as int);
    if name_end == len {
        return None;
    }
    assert(rest[name_end - pos] == data@[name_end as int]);
    if data[name_end] == EQUALS {
        let end = scan_newline(data, pos, name_end + 1);
        if end == len {
            None
        } else {
            Some((name_end + 1, end))
        }
    } else {
        if len - name_end < 9 {
            return None;
        }
        let start: usize = name_end + 9;
        let value_len = read_u64_le(data, name_end + 1);
        assert(data@.subrange(name_end + 1, name_end + 9) =~= rest.subrange(
            name_end + 1 - pos,
            name_end + 9 - pos,
        ));
        if value_len >= (len - start) as u64 {
            return None;
        }
        let end: usize = start + value_len as usize;
        assert(rest[end - pos] == data@[end as int]);
        if data[end] != NEWLINE {
            return None;
        }
        Some((start, end))
    }
}

/// Reads the field that starts at `pos`; gives it with the place where the
/// next one starts.
fn read_field(data: &[u8], pos: usize) -> (found: Option<(DecodedField, usize)>)
    requires
        pos <= data@.len(),
    ensures
        ({
            let rest = data@.subrange(pos as int, data@.len() as int);
            match found {
                None => first_field(rest) is None,
                Some((field, next)) => {
                    &&& pos < next <= data@.len()
                    &&& first_field(rest) == Some((field.wire(), next - pos))
                },
            }
        }),
{
    let len = data.len();
    let ghost rest = data@.subrange(pos as int, len as int);
    let name_end = scan_separator(data, pos);
    match value_bounds(data, pos, name_end) {
        None => None,
        Some((start, end)) => {
            let field = DecodedField {
                name: copy_range(data, pos, name_end),
                value: copy_range(data, start, end),
            };
            proof {
                assert(data@.subrange(pos as int, name_end as int) =~= rest.subrange(
                    0,
                    name_end - pos,
                ));
                assert(data@.subrange(start as int, end as int) =~= rest.subrange(
                    start - pos,
                    end - pos,
                ));
            }
            Some((field, end + 1))
        },
    }
}

/// Splits a datagram into its fields by the two framing rules. `None` if the
/// datagram is not a sequence of whole fields.
pub fn decode_datagram(data: &[u8]) -> (fields: Option<Vec<DecodedField>>)
    ensures
        fields is Some <==> decoded_fields(data@) is Some,
        fields is Some ==> wire_of(fields.unwrap()@) == decoded_fields(data@).unwrap(),
{
    let len = data.len();
    let mut fields: Vec<DecodedField> = Vec::new();
    let mut pos: usize = 0;
    proof {
        assert(data@.subrange(0, len as int) =~= data@);
        assert(wire_of(fields@) =~= Seq::empty());
        if let Some(all) = decoded_fields(data@) {
            assert(Seq::<WireField>::empty() + all =~= all);
        }
    }
    while pos < len
        invariant
            len == data@.len(),
            pos <= len,
            decoded_fields(data@) == prepended(
                wire_of(fields@),
                decoded_fields(data@.subrange(pos as int, len as int)),
            ),
        decreases len - pos,
    {
        let ghost rest = data@.subrange(pos as int, len as int);
        match read_field(data, pos) {
            None => {
                return None;
            },
            Some((field, next)) => {
                proof {
                    let head = wire_of(fields@);
                    let after = data@.subrange(next as int, len as int);
                    assert(rest.subrange(next - pos, rest.len() as int) =~= after);
                    assert(wire_of(fields@.push(field)) =~= head + seq![field.wire()]);
                    if let Some(tail) = decoded_fields(after) {
                        assert(head + (seq![field.wire()] + tail) =~= (head + seq![field.wire()])
                            + tail);
                    }
                }
                fields.push(field);
                pos = next;
            },
        }
    }
    proof {
        assert(data@.subrange(pos as int, len as int).len() == 0);
        assert(wire_of(fields@) + Seq::<WireField>::empty() =~= wire_of(fields@));
    }
    Some(fields)
}

} // verus!
