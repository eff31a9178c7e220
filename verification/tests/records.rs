use journald_sink::record::{write_record, Field, Record};
use journald_sink::transport::{encode_record, TransportError};
use journald_sink::value::Value;
use journald_sink::wire::{decode_datagram, DecodedField};

fn record(fields: Vec<(&str, Value)>) -> Record {
    let mut record = Record::new();
    for (name, value) in fields {
        record.push(name.to_string(), value);
    }
    record
}

fn text(s: &str) -> Value {
    Value::Text(s.to_string())
}

fn decoded(name: &[u8], value: &[u8]) -> DecodedField {
    DecodedField { name: name.to_vec(), value: value.to_vec() }
}

#[test]
fn message_and_count_scenario() {
    let record = record(vec![("Message", text("hello")), ("Count", Value::Integer(3))]);
    let mut buffer = Vec::new();
    assert_eq!(encode_record(&record, 1024, &mut buffer), Ok(()));
    assert_eq!(buffer, b"MESSAGE=hello\nCOUNT=3\n".to_vec());
}

#[test]
fn multi_line_message_scenario() {
    let record = record(vec![("msg", text("line1\nline2"))]);
    let mut buffer = Vec::new();
    assert_eq!(encode_record(&record, 1024, &mut buffer), Ok(()));
    let mut expected = b"MSG\n".to_vec();
    expected.extend_from_slice(&11u64.to_le_bytes());
    expected.extend_from_slice(b"line1\nline2");
    expected.push(b'\n');
    assert_eq!(buffer, expected);
    assert_eq!(&buffer[4..12], &[11, 0, 0, 0, 0, 0, 0, 0]);
}

#[test]
fn escaped_name_scenario() {
    let record = record(vec![("1bad", text("x"))]);
    let mut buffer = Vec::new();
    assert_eq!(encode_record(&record, 1024, &mut buffer), Ok(()));
    assert_eq!(buffer, b"ESC_1BAD=x\n".to_vec());
}

#[test]
fn record_is_built_field_by_field() {
    let mut built = Record::new();
    assert!(built.fields.is_empty());
    built.push("a".to_string(), Value::Null);
    built.push("b".to_string(), Value::Boolean(true));
    assert_eq!(built.fields.len(), 2);
    assert_eq!(built.fields[0].name, "a");
    assert_eq!(built.fields[1].name, "b");
    assert!(matches!(built.fields[0].value, Value::Null));
    assert!(matches!(built.fields[1].value, Value::Boolean(true)));
    let literal = Record {
        fields: vec![
            Field { name: "a".to_string(), value: Value::Null },
            Field { name: "b".to_string(), value: Value::Boolean(true) },
        ],
    };
    let mut one = Vec::new();
    let mut other = Vec::new();
    write_record(&built, &mut one);
    write_record(&literal, &mut other);
    assert_eq!(one, other);
    assert_eq!(one, b"A=<NULL>\nB=true\n".to_vec());
}

#[test]
fn fields_keep_the_order_of_the_record() {
    let record = record(vec![
        ("zeta", Value::Integer(1)),
        ("alpha", Value::Integer(2)),
        ("mid", Value::Integer(3)),
    ]);
    let mut buffer = Vec::new();
    write_record(&record, &mut buffer);
    assert_eq!(buffer, b"ZETA=1\nALPHA=2\nMID=3\n".to_vec());
}

#[test]
fn earlier_multi_line_field_does_not_change_later_framing() {
    let record = record(vec![("first", text("a\nb")), ("second", text("plain"))]);
    let mut buffer = Vec::new();
    write_record(&record, &mut buffer);
    let mut expected = b"FIRST\n".to_vec();
    expected.extend_from_slice(&3u64.to_le_bytes());
    expected.extend_from_slice(b"a\nb\nSECOND=plain\n");
    assert_eq!(buffer, expected);
}

#[test]
fn write_record_appends() {
    let record = record(vec![("k", Value::Integer(7))]);
    let mut buffer = b"kept".to_vec();
    write_record(&record, &mut buffer);
    assert_eq!(buffer, b"keptK=7\n".to_vec());
}

#[test]
fn empty_record_has_an_empty_datagram() {
    let record = Record::new();
    assert!(record.flat());
    let mut buffer = b"stale".to_vec();
    assert_eq!(encode_record(&record, 0, &mut buffer), Ok(()));
    assert!(buffer.is_empty());
}

#[test]
fn encode_record_clears_the_buffer_first() {
    let record = record(vec![("k", Value::Integer(7))]);
    let mut buffer = b"stale bytes\n".to_vec();
    assert_eq!(encode_record(&record, 100, &mut buffer), Ok(()));
    assert_eq!(buffer, b"K=7\n".to_vec());
}

#[test]
fn record_at_the_limit_is_accepted() {
    let record = record(vec![("k", text("abcd"))]);
    // K=abcd\n is seven bytes.
    let mut buffer = Vec::new();
    assert_eq!(encode_record(&record, 7, &mut buffer), Ok(()));
    assert_eq!(buffer, b"K=abcd\n".to_vec());
}

#[test]
fn record_over_the_limit_is_refused() {
    let record = record(vec![("k", text("abcd"))]);
    let mut buffer = b"stale".to_vec();
    assert_eq!(encode_record(&record, 6, &mut buffer), Err(TransportError::RecordTooLarge));
    assert!(buffer.is_empty());
    assert_eq!(encode_record(&record, 0, &mut buffer), Err(TransportError::RecordTooLarge));
    assert!(buffer.is_empty());
}

#[test]
fn record_with_a_list_is_refused() {
    let record = record(vec![("ok", Value::Integer(1)), ("bad", Value::Array)]);
    assert!(!record.flat());
    let mut buffer = b"stale".to_vec();
    assert_eq!(
        encode_record(&record, 1024, &mut buffer),
        Err(TransportError::InvalidInternalValue)
    );
    assert!(buffer.is_empty());
}

#[test]
fn record_with_a_map_is_refused_whatever_its_size() {
    let record = record(vec![("bad", Value::Object), ("big", text("0123456789"))]);
    let mut buffer = Vec::new();
    assert_eq!(
        encode_record(&record, 1, &mut buffer),
        Err(TransportError::InvalidInternalValue)
    );
    assert!(buffer.is_empty());
}

#[test]
fn datagram_reads_back_as_the_fields_written() {
    let record = record(vec![
        ("Message", text("hello")),
        ("trace", text("line1\nline2\n")),
        ("1bad", Value::Bytes(vec![0, 1, b'=', 2])),
        ("", Value::Null),
        ("count", Value::Integer(-17)),
        ("empty", text("")),
        ("eq", text("a=b=c")),
        ("only newline", Value::Bytes(vec![b'\n'])),
        ("flag", Value::Boolean(false)),
    ]);
    let mut buffer = Vec::new();
    write_record(&record, &mut buffer);
    let fields = decode_datagram(&buffer).unwrap();
    assert_eq!(
        fields,
        vec![
            decoded(b"MESSAGE", b"hello"),
            decoded(b"TRACE", b"line1\nline2\n"),
            decoded(b"ESC_1BAD", &[0, 1, b'=', 2]),
            decoded(b"EMPTY", b"<NULL>"),
            decoded(b"COUNT", b"-17"),
            decoded(b"EMPTY", b""),
            decoded(b"EQ", b"a=b=c"),
            decoded(b"ONLY_NEWLINE", b"\n"),
            decoded(b"FLAG", b"false"),
        ]
    );
}

#[test]
fn scenario_datagrams_read_back() {
    assert_eq!(
        decode_datagram(b"MESSAGE=hello\nCOUNT=3\n"),
        Some(vec![decoded(b"MESSAGE", b"hello"), decoded(b"COUNT", b"3")])
    );
    let mut datagram = b"MSG\n".to_vec();
    datagram.extend_from_slice(&11u64.to_le_bytes());
    datagram.extend_from_slice(b"line1\nline2\n");
    assert_eq!(decode_datagram(&datagram), Some(vec![decoded(b"MSG", b"line1\nline2")]));
}

#[test]
fn empty_datagram_has_no_fields() {
    assert_eq!(decode_datagram(b""), Some(Vec::new()));
}

#[test]
fn length_prefixed_value_may_hold_anything() {
    let mut datagram = b"A\n".to_vec();
    datagram.extend_from_slice(&0u64.to_le_bytes());
    datagram.extend_from_slice(b"\nB\n");
    datagram.extend_from_slice(&3u64.to_le_bytes());
    datagram.extend_from_slice(b"x=y\n");
    assert_eq!(
        decode_datagram(&datagram),
        Some(vec![decoded(b"A", b""), decoded(b"B", b"x=y")])
    );
}

#[test]
fn broken_datagrams_are_refused() {
    // No separator after the name.
    assert_eq!(decode_datagram(b"NAME"), None);
    // No line break after a single-line value.
    assert_eq!(decode_datagram(b"NAME=value"), None);
    assert_eq!(decode_datagram(b"A=1\nB=2"), None);
    // Length cut short.
    assert_eq!(decode_datagram(b"NAME\n\x01\x00\x00"), None);
    // Value shorter than its length.
    assert_eq!(decode_datagram(b"NAME\n\x05\x00\x00\x00\x00\x00\x00\x00ab\n"), None);
    // No line break after the value.
    assert_eq!(decode_datagram(b"NAME\n\x02\x00\x00\x00\x00\x00\x00\x00ab"), None);
    assert_eq!(decode_datagram(b"NAME\n\x02\x00\x00\x00\x00\x00\x00\x00abc"), None);
    // A length that no datagram can hold.
    assert_eq!(decode_datagram(b"NAME\n\xff\xff\xff\xff\xff\xff\xff\xffab\n"), None);
}

#[test]
fn length_is_read_least_significant_byte_first() {
    let mut value = vec![b'v'; 258];
    value[7] = b'\n';
    let mut datagram = b"BIG\n".to_vec();
    datagram.extend_from_slice(&[0x02, 0x01, 0, 0, 0, 0, 0, 0]);
    datagram.extend_from_slice(&value);
    datagram.push(b'\n');
    assert_eq!(decode_datagram(&datagram), Some(vec![decoded(b"BIG", &value)]));
}
