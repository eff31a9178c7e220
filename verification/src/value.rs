//! Field values and their byte representation.

use crate::decimal::{integer_bytes, integer_text};
use crate::frame::{framed_value, write_framed};
use vstd::prelude::*;
use vstd::string::StringSliceAdditionalSpecFns;

verus! {

/// The text that `chrono` prints for the UTC instant `secs` seconds and
/// `nanos` nanoseconds after the Unix epoch, or `None` where `chrono` has no
/// such instant.
pub uninterp spec fn timestamp_text(secs: i64, nanos: u32) -> Option<Seq<u8>>;

/// Renders an instant by `chrono::DateTime::<Utc>::from_timestamp` and the
/// `Display` impl of the `DateTime` it gives. The outcome depends on the two
/// numbers alone, since the time zone is fixed to UTC: it is `None` exactly
/// where `from_timestamp` refuses them, and the printed text otherwise.
#[verifier::external_body]
fn render_timestamp(secs: i64, nanos: u32) -> (text: Option<Vec<u8>>)
    ensures
        text is Some <==> timestamp_text(secs, nanos) is Some,
        text is Some ==> text.unwrap()@ == timestamp_text(secs, nanos).unwrap(),
{
    match chrono::DateTime::from_timestamp(secs, nanos) {
        Some(instant) => Some(instant.to_string().into_bytes()),
        None => None,
    }
}

/// A UTC instant that can be rendered.
#[derive(Clone, Copy, Debug)]
pub struct Timestamp {
    secs: i64,
    nanos: u32,
}

impl Timestamp {
    #[verifier::type_invariant]
    spec fn renderable(self) -> bool {
        timestamp_text(self.secs, self.nanos) is Some
    }

    /// Whole seconds since the Unix epoch.
    pub closed spec fn secs(&self) -> i64 {
        self.secs
    }

    /// Nanoseconds since the last whole second.
    pub closed spec fn nanos(&self) -> u32 {
        self.nanos
    }

    /// The rendering of this instant.
    pub open spec fn text(&self) -> Seq<u8> {
        timestamp_text(self.secs(), self.nanos()).unwrap()
    }

    /// The instant `secs` seconds and `nanos` nanoseconds after the Unix
    /// epoch, if there is one that can be rendered.
    pub fn new(secs: i64, nanos: u32) -> (instant: Option<Timestamp>)
        ensures
            instant is Some <==> timestamp_text(secs, nanos) is Some,
            instant is Some ==> instant.unwrap().secs() == secs && instant.unwrap().nanos()
                == nanos,
    {
        match render_timestamp(secs, nanos) {
            Some(_) => Some(Timestamp { secs, nanos }),
            None => None,
        }
    }

    pub fn seconds(&self) -> (secs: i64)
        ensures
            secs == self.secs(),
    {
        self.secs
    }

    pub fn subsec_nanos(&self) -> (nanos: u32)
        ensures
            nanos == self.nanos(),
    {
        self.nanos
    }

    /// Renders this instant.
    pub fn render(&self) -> (text: Vec<u8>)
        ensures
            text@ == self.text(),
    {
        proof {
            use_type_invariant(self);
        }
        match render_timestamp(self.secs, self.nanos) {
            Some(text) => text,
            None => Vec::new(),
        }
    }
}

/// The value of one field.
///
/// A record is flattened before it is encoded, so `Array` and `Object` have no
/// encoding: they stand for a value that should not be here.
#[derive(Clone, Debug)]
pub enum Value {
    /// Raw bytes, written as they are.
    Bytes(Vec<u8>),
    /// Text, written as its UTF-8 bytes.
    Text(String),
    /// An integer, written in decimal.
    Integer(i64),
    /// A floating point number, held as its decimal rendering.
    Float(String),
    /// A boolean, written as `true` or `false`.
    Boolean(bool),
    /// A UTC instant, written as `chrono` prints it.
    Timestamp(Timestamp),
    /// The absent value, written as `<NULL>`.
    Null,
    /// A list of values.
    Array,
    /// A map from keys to values.
    Object,
}

/// `true` or `false`, in ASCII.
pub open spec fn boolean_text(b: bool) -> Seq<u8> {
    if b {
        seq![0x74u8, 0x72u8, 0x75u8, 0x65u8]
    } else {
        seq![0x66u8, 0x61u8, 0x6cu8, 0x73u8, 0x65u8]
    }
}

/// `<NULL>`, in ASCII.
pub open spec fn null_text() -> Seq<u8> {
    seq![0x3cu8, 0x4eu8, 0x55u8, 0x4cu8, 0x4cu8, 0x3eu8]
}

impl Value {
    /// Whether the value is a scalar, which is to say neither a list nor a map.
    pub open spec fn is_scalar(&self) -> bool {
        !(self is Array) && !(self is Object)
    }

    /// The bytes that stand for a scalar value on the wire, before framing.
    pub open spec fn bytes(&self) -> Seq<u8> {
        match self {
            Value::Bytes(bytes) => bytes@,
            Value::Text(text) => vstd::utf8::encode_utf8(text@),
            Value::Integer(i) => integer_text(*i as int),
            Value::Float(text) => vstd::utf8::encode_utf8(text@),
            Value::Boolean(b) => boolean_text(*b),
            Value::Timestamp(instant) => instant.text(),
            Value::Null => null_text(),
            Value::Array => Seq::empty(),
            Value::Object => Seq::empty(),
        }
    }

    /// Whether the value is a scalar.
    pub fn scalar(&self) -> (scalar: bool)
        ensures
            scalar == self.is_scalar(),
    {
        match self {
            Value::Array => false,
            Value::Object => false,
            _ => true,
        }
    }
}

/// Appends the framing of a scalar value to `output`.
pub fn write_field_value(value: &Value, output: &mut Vec<u8>)
    requires
        value.is_scalar(),
    ensures
        final(output)@ == old(output)@ + framed_value(value.bytes()),
{
    match value {
        Value::Bytes(bytes) => write_framed(bytes.as_slice(), output),
        Value::Text(text) => write_framed(text.as_str().as_bytes(), output),
        Value::Integer(i) => {
            let text = integer_bytes(*i);
            write_framed(text.as_slice(), output)
        },
        Value::Float(text) => write_framed(text.as_str().as_bytes(), output),
        Value::Boolean(b) => {
            let text: Vec<u8> = if *b {
                vec![0x74u8, 0x72u8, 0x75u8, 0x65u8]
            } else {
                vec![0x66u8, 0x61u8, 0x6cu8, 0x73u8, 0x65u8]
            };
            assert(text@ =~= boolean_text(*b));
            write_framed(text.as_slice(), output)
        },
        Value::Timestamp(instant) => {
            let text = instant.render();
            write_framed(text.as_slice(), output)
        },
        Value::Null => {
            let text: Vec<u8> = vec![0x3cu8, 0x4eu8, 0x55u8, 0x4cu8, 0x4cu8, 0x3eu8];
            assert(text@ =~= null_text());
            write_framed(text.as_slice(), output)
        },
        Value::Array => {},
        Value::Object => {},
    }
}

} // verus!
