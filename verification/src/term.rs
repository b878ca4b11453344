//! The keys under which the term dictionary holds unsigned values, and the
//! order of those keys.

use tantivy::schema::Field;
use tantivy::Term;
use vstd::prelude::*;

verus! {

/// The eight bytes of `value`, the most significant first.
pub open spec fn big_endian(value: u64) -> Seq<u8> {
    seq![
        ((value >> 56) & 0xff) as u8,
        ((value >> 48) & 0xff) as u8,
        ((value >> 40) & 0xff) as u8,
        ((value >> 32) & 0xff) as u8,
        ((value >> 24) & 0xff) as u8,
        ((value >> 16) & 0xff) as u8,
        ((value >> 8) & 0xff) as u8,
        (value & 0xff) as u8,
    ]
}

/// Calls `Term::from_field_u64` and takes the term's
/// `serialized_value_bytes`.
///
/// Trusted: the key of an unsigned value is its eight bytes, the most
/// significant first, whatever the field.
#[verifier::external_body]
pub(crate) fn u64_term_bytes(field: u32, value: u64) -> (r: Vec<u8>)
    ensures
        r@ == big_endian(value),
{
    Term::from_field_u64(Field::from_field_id(field), value).serialized_value_bytes().to_vec()
}

/// Whether `s` from index `i` on stands at or before `t` from `i` on in the
/// order of the dictionary: byte by byte, a shorter key before its
/// extensions.
pub open spec fn key_le_from(s: Seq<u8>, t: Seq<u8>, i: int) -> bool
    decreases s.len() - i,
{
    if i < 0 || i >= s.len() || i >= t.len() {
        s.len() <= t.len()
    } else if s[i] != t[i] {
        s[i] < t[i]
    } else {
        key_le_from(s, t, i + 1)
    }
}

/// Whether the key `s` stands at or before the key `t` in the dictionary.
pub open spec fn key_le(s: Seq<u8>, t: Seq<u8>) -> bool {
    key_le_from(s, t, 0)
}

/// The keys of unsigned values stand in the order of the values: a scan of
/// the dictionary between the keys of two values meets the values between
/// them and no others.
pub proof fn law_keys_keep_order(a: u64, b: u64)
    ensures
        key_le(big_endian(a), big_endian(b)) == (a <= b),
{
    let s = big_endian(a);
    let t = big_endian(b);
    let a0 = (a >> 56) & 0xff;
    let a1 = (a >> 48) & 0xff;
    let a2 = (a >> 40) & 0xff;
    let a3 = (a >> 32) & 0xff;
    let a4 = (a >> 24) & 0xff;
    let a5 = (a >> 16) & 0xff;
    let a6 = (a >> 8) & 0xff;
    let a7 = a & 0xff;
    let b0 = (b >> 56) & 0xff;
    let b1 = (b >> 48) & 0xff;
    let b2 = (b >> 40) & 0xff;
    let b3 = (b >> 32) & 0xff;
    let b4 = (b >> 24) & 0xff;
    let b5 = (b >> 16) & 0xff;
    let b6 = (b >> 8) & 0xff;
    let b7 = b & 0xff;
    assert(a0 < 256 && a1 < 256 && a2 < 256 && a3 < 256 && a4 < 256 && a5 < 256 && a6 < 256 && a7
        < 256) by (bit_vector)
        requires
            a0 == (a >> 56) & 0xff,
            a1 == (a >> 48) & 0xff,
            a2 == (a >> 40) & 0xff,
            a3 == (a >> 32) & 0xff,
            a4 == (a >> 24) & 0xff,
            a5 == (a >> 16) & 0xff,
            a6 == (a >> 8) & 0xff,
            a7 == a & 0xff,
    ;
    assert(b0 < 256 && b1 < 256 && b2 < 256 && b3 < 256 && b4 < 256 && b5 < 256 && b6 < 256 && b7
        < 256) by (bit_vector)
        requires
            b0 == (b >> 56) & 0xff,
            b1 == (b >> 48) & 0xff,
            b2 == (b >> 40) & 0xff,
            b3 == (b >> 32) & 0xff,
            b4 == (b >> 24) & 0xff,
            b5 == (b >> 16) & 0xff,
            b6 == (b >> 8) & 0xff,
            b7 == b & 0xff,
    ;
    let by_bytes = if a0 != b0 {
        a0 < b0
    } else if a1 != b1 {
        a1 < b1
    } else if a2 != b2 {
        a2 < b2
    } else if a3 != b3 {
        a3 < b3
    } else if a4 != b4 {
        a4 < b4
    } else if a5 != b5 {
        a5 < b5
    } else if a6 != b6 {
        a6 < b6
    } else if a7 != b7 {
        a7 < b7
    } else {
        true
    };
    assert(by_bytes == (a <= b)) by (bit_vector)
        requires
            a0 == (a >> 56) & 0xff,
            a1 == (a >> 48) & 0xff,
            a2 == (a >> 40) & 0xff,
            a3 == (a >> 32) & 0xff,
            a4 == (a >> 24) & 0xff,
            a5 == (a >> 16) & 0xff,
            a6 == (a >> 8) & 0xff,
            a7 == a & 0xff,
            b0 == (b >> 56) & 0xff,
            b1 == (b >> 48) & 0xff,
            b2 == (b >> 40) & 0xff,
            b3 == (b >> 32) & 0xff,
            b4 == (b >> 24) & 0xff,
            b5 == (b >> 16) & 0xff,
            b6 == (b >> 8) & 0xff,
            b7 == b & 0xff,
            by_bytes == (if a0 != b0 {
                a0 < b0
            } else if a1 != b1 {
                a1 < b1
            } else if a2 != b2 {
                a2 < b2
            } else if a3 != b3 {
                a3 < b3
            } else if a4 != b4 {
                a4 < b4
            } else if a5 != b5 {
                a5 < b5
            } else if a6 != b6 {
                a6 < b6
            } else if a7 != b7 {
                a7 < b7
            } else {
                true
            }),
    ;
    reveal_with_fuel(key_le_from, 9);
    assert(s.len() == 8 && t.len() == 8);
    assert(s[0] == a0 as u8 && s[1] == a1 as u8 && s[2] == a2 as u8 && s[3] == a3 as u8 && s[4]
        == a4 as u8 && s[5] == a5 as u8 && s[6] == a6 as u8 && s[7] == a7 as u8);
    assert(t[0] == b0 as u8 && t[1] == b1 as u8 && t[2] == b2 as u8 && t[3] == b3 as u8 && t[4]
        == b4 as u8 && t[5] == b5 as u8 && t[6] == b6 as u8 && t[7] == b7 as u8);
    assert(key_le_from(s, t, 0) == by_bytes);
}

} // verus!
