//! Records: ordered lists of named fields.

use crate::name::{lemma_sanitized_name_is_field_name, sanitized_name, write_field_name};
use crate::value::{write_field_value, Value};
use crate::wire::{
    decoded_fields, encoded_field, encoded_fields, is_wire_field, lemma_decoded_encoded_fields,
    lemma_encoded_fields_push, lemma_field_name_has_no_separator, WireField,
};
use vstd::prelude::*;
use vstd::string::StringSliceAdditionalSpecFns;

verus! {

/// One field of a record: a key and its value.
#[derive(Clone, Debug)]
pub struct Field {
    pub name: String,
    pub value: Value,
}

impl Field {
    /// The field as it stands on the wire: the field name of its key and the
    /// bytes of its value.
    pub open spec fn wire(&self) -> WireField {
        (sanitized_name(vstd::utf8::encode_utf8(self.name@)), self.value.bytes())
    }
}

/// One log entry: its fields, in order.
#[derive(Clone, Debug)]
pub struct Record {
    pub fields: Vec<Field>,
}

impl Record {
    /// The fields as they stand on the wire, in the record's order.
    pub open spec fn wire_fields(&self) -> Seq<WireField> {
        self.fields@.map_values(|field: Field| field.wire())
    }

    /// Whether every value of the record is a scalar.
    pub open spec fn is_flat(&self) -> bool {
        forall|i: int| 0 <= i < self.fields@.len() ==> (#[trigger] self.fields@[i]).value.is_scalar()
    }

    /// The datagram of the record: the encodings of its fields, in the
    /// record's order.
    pub open spec fn encoding(&self) -> Seq<u8> {
        encoded_fields(self.wire_fields())
    }

    /// A record without fields.
    pub fn new() -> (record: Record)
        ensures
            record.fields@.len() == 0,
    {
        Record { fields: Vec::new() }
    }

    /// Adds a field after those that the record has.
    pub fn push(&mut self, name: String, value: Value)
        ensures
            final(self).fields@ == old(self).fields@.push((Field { name, value })),
    {
        self.fields.push(Field { name, value });
    }

    /// Whether every value of the record is a scalar.
    pub fn flat(&self) -> (flat: bool)
        ensures
            flat == self.is_flat(),
    {
        let mut i: usize = 0;
        while i < self.fields.len()
            invariant
                i <= self.fields@.len(),
                forall|j: int| 0 <= j < i ==> (#[trigger] self.fields@[j]).value.is_scalar(),
            decreases self.fields.len() - i,
        {
            if !self.fields[i].value.scalar() {
                return false;
            }
            i += 1;
        }
        true
    }
}

/// Appends the encoding of a flat record to `output`: for each field in
/// turn its field name, then its framed value.
pub fn write_record(record: &Record, output: &mut Vec<u8>)
    requires
        record.is_flat(),
    ensures
        final(output)@ == old(output)@ + record.encoding(),
{
    let ghost wire = record.wire_fields();
    let mut i: usize = 0;
    assert(wire.take(0) =~= Seq::empty());
    assert(output@ =~= old(output)@ + encoded_fields(wire.take(0)));
    while i < record.fields.len()
        invariant
            i <= record.fields@.len(),
            record.is_flat(),
            wire == record.wire_fields(),
            output@ == old(output)@ + encoded_fields(wire.take(i as int)),
        decreases record.fields.len() - i,
    {
        let field = &record.fields[i];
        let ghost before = output@;
        write_field_name(field.name.as_str(), output);
        write_field_value(&field.value, output);
        proof {
            assert(wire[i as int] == field.wire());
            assert(output@ =~= before + encoded_field(field.wire()));
            lemma_encoded_fields_push(wire.take(i as int), wire[i as int]);
            assert(wire.take(i as int).push(wire[i as int]) =~= wire.take(i + 1));
            assert(output@ =~= old(output)@ + encoded_fields(wire.take(i + 1)));
        }
        i += 1;
    }
    assert(wire.take(i as int) =~= wire);
}

/// Splitting the datagram of a record by the two framing rules gives back
/// the field names and value bytes of the record, in the record's order.
pub proof fn lemma_record_round_trip(record: Record)
    requires
        forall|i: int|
            0 <= i < record.fields@.len() ==> (#[trigger] record.fields@[i]).value.bytes().len()
                <= u64::MAX,
    ensures
        decoded_fields(record.encoding()) == Some(record.wire_fields()),
{
    let wire = record.wire_fields();
    assert forall|i: int| 0 <= i < wire.len() implies is_wire_field(#[trigger] wire[i]) by {
        let field = record.fields@[i];
        assert(wire[i] == field.wire());
        lemma_sanitized_name_is_field_name(vstd::utf8::encode_utf8(field.name@));
        lemma_field_name_has_no_separator(wire[i].0);
    }
    lemma_decoded_encoded_fields(wire);
}

} // verus!
