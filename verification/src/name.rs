//! Journal field names.
//!
//! The journal accepts field names made of `A`-`Z`, `0`-`9` and `_`, at most
//! 64 bytes long, that do not start with a digit. Any key can be mangled into
//! such a name.

use vstd::prelude::*;
use vstd::string::StringSliceAdditionalSpecFns;

verus! {

/// The longest field name the journal accepts, in bytes.
pub const MAX_NAME_LEN: usize = 64;

/// The name written for an empty key: `EMPTY`.
pub open spec fn empty_name() -> Seq<u8> {
    seq![0x45u8, 0x4du8, 0x50u8, 0x54u8, 0x59u8]
}

/// The prefix put before a key that does not start with a letter: `ESC_`.
pub open spec fn escape_prefix() -> Seq<u8> {
    seq![0x45u8, 0x53u8, 0x43u8, 0x5fu8]
}

pub open spec fn is_ascii_upper(b: u8) -> bool {
    0x41 <= b <= 0x5a
}

pub open spec fn is_ascii_lower(b: u8) -> bool {
    0x61 <= b <= 0x7a
}

pub open spec fn is_ascii_letter(b: u8) -> bool {
    is_ascii_upper(b) || is_ascii_lower(b)
}

pub open spec fn is_ascii_digit(b: u8) -> bool {
    0x30 <= b <= 0x39
}

/// A byte that may occur in a field name: `A`-`Z`, `0`-`9` or `_`.
pub open spec fn is_name_byte(b: u8) -> bool {
    is_ascii_upper(b) || is_ascii_digit(b) || b == 0x5f
}

/// What one byte of a key becomes: letters are upper-cased, digits stay, and
/// every other byte becomes `_`.
pub open spec fn mangled_byte(b: u8) -> u8 {
    if is_ascii_lower(b) {
        (b - 0x20) as u8
    } else if is_ascii_upper(b) || is_ascii_digit(b) {
        b
    } else {
        0x5f
    }
}

/// Whether a non-empty key needs the escape prefix.
pub open spec fn needs_escape(key: Seq<u8>) -> bool
    recommends
        key.len() > 0,
{
    !is_ascii_letter(key[0])
}

/// How many bytes of a non-empty key make it into the name.
pub open spec fn kept_len(key: Seq<u8>) -> nat
    recommends
        key.len() > 0,
{
    let budget: nat = if needs_escape(key) {
        60
    } else {
        64
    };
    if key.len() < budget {
        key.len()
    } else {
        budget
    }
}

/// The field name of a key, given as the key's bytes.
pub open spec fn sanitized_name(key: Seq<u8>) -> Seq<u8> {
    if key.len() == 0 {
        empty_name()
    } else {
        let body = Seq::new(kept_len(key), |i: int| mangled_byte(key[i]));
        if needs_escape(key) {
            escape_prefix() + body
        } else {
            body
        }
    }
}

/// A legal field name: one to 64 name bytes, the first of them a letter.
pub open spec fn is_field_name(name: Seq<u8>) -> bool {
    &&& 1 <= name.len() <= MAX_NAME_LEN
    &&& is_ascii_upper(name[0])
    &&& forall|i: int| 0 <= i < name.len() ==> is_name_byte(#[trigger] name[i])
}

/// Every key has a legal field name.
pub proof fn lemma_sanitized_name_is_field_name(key: Seq<u8>)
    ensures
        is_field_name(sanitized_name(key)),
{
    let name = sanitized_name(key);
    assert forall|i: int| 0 <= i < name.len() implies is_name_byte(#[trigger] name[i]) by {}
}

/// The empty key is named `EMPTY`.
pub proof fn lemma_empty_key_name()
    ensures
        sanitized_name(Seq::<u8>::empty()) == empty_name(),
{
}

/// A key whose first byte is no letter gets a name that starts with `ESC_`
/// and still fits in 64 bytes.
pub proof fn lemma_escaped_name(key: Seq<u8>)
    requires
        key.len() > 0,
        !is_ascii_letter(key[0]),
    ensures
        sanitized_name(key).len() <= MAX_NAME_LEN,
        sanitized_name(key).len() >= 4,
        sanitized_name(key).subrange(0, 4) == escape_prefix(),
{
    assert(sanitized_name(key).subrange(0, 4) =~= escape_prefix());
}

/// A key that starts with a letter is named by its own first bytes, mangled
/// one by one, with nothing put before them.
pub proof fn lemma_plain_name(key: Seq<u8>)
    requires
        key.len() > 0,
        is_ascii_letter(key[0]),
    ensures
        sanitized_name(key).len() == kept_len(key),
        forall|i: int|
            0 <= i < kept_len(key) ==> #[trigger] sanitized_name(key)[i] == mangled_byte(key[i]),
{
}

fn mangle_byte(b: u8) -> (m: u8)
    ensures
        m == mangled_byte(b),
{
    if 0x61 <= b && b <= 0x7a {
        b - 0x20
    } else if (0x41 <= b && b <= 0x5a) || (0x30 <= b && b <= 0x39) {
        b
    } else {
        0x5f
    }
}

/// Appends the field name of `name` to `output`.
pub fn write_field_name(name: &str, output: &mut Vec<u8>)
    ensures
        final(output)@ == old(output)@ + sanitized_name(name.spec_bytes()),
{
    let key = name.as_bytes();
    if key.len() == 0 {
        output.push(0x45);
        output.push(0x4d);
        output.push(0x50);
        output.push(0x54);
        output.push(0x59);
        assert(output@ =~= old(output)@ + empty_name());
        return ;
    }
    let first: u8 = key[0];
    let escape = !((0x41 <= first && first <= 0x5a) || (0x61 <= first && first <= 0x7a));
    let mut budget: usize = MAX_NAME_LEN;
    if escape {
        output.push(0x45);
        output.push(0x53);
        output.push(0x43);
        output.push(0x5f);
        budget = 60;
    }
    let kept: usize = if key.len() < budget {
        key.len()
    } else {
        budget
    };
    let ghost head = output@;
    assert(head =~= old(output)@ + (if escape {
        escape_prefix()
    } else {
        Seq::<u8>::empty()
    }));
    let mut i: usize = 0;
    while i < kept
        invariant
            i <= kept <= key@.len(),
            output@ == head + Seq::new(i as nat, |j: int| mangled_byte(key@[j])),
        decreases kept - i,
    {
        let m = mangle_byte(key[i]);
        output.push(m);
        i += 1;
        assert(output@ =~= head + Seq::new(i as nat, |j: int| mangled_byte(key@[j])));
    }
    assert(output@ =~= old(output)@ + sanitized_name(key@));
}

/// The field name of `name`, as a buffer of its own.
pub fn sanitize(name: &str) -> (field_name: Vec<u8>)
    ensures
        field_name@ == sanitized_name(name.spec_bytes()),
        is_field_name(field_name@),
{
    let mut field_name: Vec<u8> = Vec::new();
    write_field_name(name, &mut field_name);
    proof {
        lemma_sanitized_name_is_field_name(name.spec_bytes());
        assert(field_name@ =~= sanitized_name(name.spec_bytes()));
    }
    field_name
}

} // verus!
