use journald_sink::name::{sanitize, write_field_name, MAX_NAME_LEN};

fn is_legal(name: &[u8]) -> bool {
    !name.is_empty()
        && name.len() <= 64
        && name[0].is_ascii_uppercase()
        && name
            .iter()
            .all(|b| b.is_ascii_uppercase() || b.is_ascii_digit() || *b == b'_')
}

#[test]
fn empty_key_is_named_empty() {
    assert_eq!(sanitize(""), b"EMPTY".to_vec());
}

#[test]
fn key_with_leading_digit_is_escaped() {
    assert_eq!(sanitize("1bad"), b"ESC_1BAD".to_vec());
}

#[test]
fn key_with_leading_underscore_is_escaped() {
    assert_eq!(sanitize("_private"), b"ESC__PRIVATE".to_vec());
}

#[test]
fn letters_are_upper_cased_and_digits_kept() {
    assert_eq!(sanitize("Message"), b"MESSAGE".to_vec());
    assert_eq!(sanitize("msg"), b"MSG".to_vec());
    assert_eq!(sanitize("Count"), b"COUNT".to_vec());
    assert_eq!(sanitize("a1B2z9"), b"A1B2Z9".to_vec());
    assert_eq!(sanitize("ALREADY_FINE"), b"ALREADY_FINE".to_vec());
}

#[test]
fn other_bytes_become_underscores() {
    assert_eq!(sanitize("a-b.c d"), b"A_B_C_D".to_vec());
    assert_eq!(sanitize("k=v"), b"K_V".to_vec());
    assert_eq!(sanitize("k\nv"), b"K_V".to_vec());
    assert_eq!(sanitize("a@[`{"), b"A____".to_vec());
}

#[test]
fn bytes_next_to_the_letter_and_digit_ranges() {
    // '/' and ':' surround the digits, '@' and '[' the capitals, '`' and '{'
    // the small letters.
    assert_eq!(sanitize("x/0:9"), b"X_0_9".to_vec());
    assert_eq!(sanitize("x@A[Z"), b"X_A_Z".to_vec());
    assert_eq!(sanitize("x`a{z"), b"X_A_Z".to_vec());
}

#[test]
fn non_ascii_key_is_mangled_byte_by_byte() {
    // One character of two bytes gives two underscores after the prefix.
    assert_eq!(sanitize("\u{e9}"), b"ESC___".to_vec());
    assert_eq!(sanitize("caf\u{e9}"), b"CAF__".to_vec());
    // Three bytes.
    assert_eq!(sanitize("a\u{20ac}b"), b"A___B".to_vec());
}

#[test]
fn long_plain_key_is_cut_at_64_bytes() {
    let key = "a".repeat(100);
    let name = sanitize(&key);
    assert_eq!(name.len(), 64);
    assert_eq!(name, vec![b'A'; 64]);
}

#[test]
fn key_of_exactly_64_bytes_is_kept_whole() {
    let key = format!("{}z", "b".repeat(63));
    let name = sanitize(&key);
    assert_eq!(name.len(), 64);
    assert_eq!(name[63], b'Z');
    let key = format!("{}zy", "b".repeat(63));
    let name = sanitize(&key);
    assert_eq!(name.len(), 64);
    assert_eq!(name[63], b'Z');
}

#[test]
fn long_escaped_key_keeps_60_bytes_after_the_prefix() {
    let key = format!("1{}", "a".repeat(100));
    let name = sanitize(&key);
    assert_eq!(name.len(), 64);
    let mut expected = b"ESC_1".to_vec();
    expected.extend(vec![b'A'; 59]);
    assert_eq!(name, expected);
}

#[test]
fn escaped_key_of_60_bytes_is_kept_whole() {
    let key = format!("9{}q", "c".repeat(58));
    assert_eq!(key.len(), 60);
    let name = sanitize(&key);
    assert_eq!(name.len(), 64);
    assert_eq!(name[63], b'Q');
    let key = format!("9{}qr", "c".repeat(58));
    let name = sanitize(&key);
    assert_eq!(name.len(), 64);
    assert_eq!(name[63], b'Q');
}

#[test]
fn name_is_appended_to_what_the_buffer_holds() {
    let mut buffer = b"A=1\n".to_vec();
    write_field_name("next", &mut buffer);
    assert_eq!(buffer, b"A=1\nNEXT".to_vec());
    write_field_name("", &mut buffer);
    assert_eq!(buffer, b"A=1\nNEXTEMPTY".to_vec());
    write_field_name("7", &mut buffer);
    assert_eq!(buffer, b"A=1\nNEXTEMPTYESC_7".to_vec());
}

#[test]
fn every_name_is_legal() {
    let long = "x".repeat(200);
    let long_escaped = format!(" {}", "x".repeat(200));
    let keys = [
        "",
        "a",
        "Z",
        "0",
        "_",
        " ",
        "=",
        "\n",
        "host.name",
        "1bad",
        "\u{e9}t\u{e9}",
        "\u{1f600}",
        long.as_str(),
        long_escaped.as_str(),
    ];
    for key in keys {
        let name = sanitize(key);
        assert!(is_legal(&name), "{:?} gave {:?}", key, name);
        let first = key.as_bytes().first();
        if let Some(first) = first {
            if !first.is_ascii_alphabetic() {
                assert!(name.starts_with(b"ESC_"));
            } else {
                assert_eq!(name[0], first.to_ascii_uppercase());
            }
        }
    }
}

#[test]
fn name_limit_is_64() {
    assert_eq!(MAX_NAME_LEN, 64);
}
