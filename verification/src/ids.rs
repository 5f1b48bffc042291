//! Identifiers. Every id in a deck is a UUID, carried here as the 128-bit
//! integer whose big-endian bytes are the UUID's bytes.
use vstd::prelude::*;

verus! {

/// The lowercase hexadecimal digit for `d` (`0 <= d < 16`).
pub open spec fn hex_digit(d: int) -> char {
    if d < 10 {
        (('0' as int) + d) as char
    } else {
        (('a' as int) + d - 10) as char
    }
}

/// The lowest `n` hexadecimal digits of `v`, most significant first.
pub open spec fn hex_digits(v: nat, n: nat) -> Seq<char>
    decreases n,
{
    if n == 0 {
        seq![]
    } else {
        hex_digits(v / 16, (n - 1) as nat).push(hex_digit((v % 16) as int))
    }
}

/// The hyphenated text of a UUID, e.g. `67e55044-10b1-426f-9247-bb680e5fe0c8`:
/// its 32 lowercase hex digits grouped 8-4-4-4-12.
pub open spec fn uuid_text(id: u128) -> Seq<char> {
    let h = hex_digits(id as nat, 32);
    h.subrange(0, 8) + seq!['-'] + h.subrange(8, 12) + seq!['-'] + h.subrange(12, 16) + seq![
        '-',
    ] + h.subrange(16, 20) + seq!['-'] + h.subrange(20, 32)
}

/// The hyphenated text of a UUID.
///
/// Trusted: calls `uuid::Uuid::from_u128` and its `Display` impl, which
/// the uuid crate documents (and implements, in `fmt.rs`) as the
/// lowercase hyphenated form of the UUID's big-endian bytes.
#[verifier::external_body]
pub(crate) fn id_text(id: u128) -> (s: String)
    ensures
        s@ == uuid_text(id),
{
    uuid::Uuid::from_u128(id).to_string()
}

/// A fresh random (version 4) UUID.
///
/// Trusted: calls `uuid::Uuid::new_v4`, documented to give a version 4
/// UUID; the crate builds it from random bytes with the version nibble set
/// to 4 and the RFC 4122 variant bits set to `10`. Those bits are all that
/// is stated: the rest is random.
#[verifier::external_body]
pub(crate) fn fresh_id() -> (id: u128)
    ensures
        (id >> 76u128) & 0xfu128 == 4,
        (id >> 62u128) & 0x3u128 == 2,
{
    uuid::Uuid::new_v4().as_u128()
}

} // verus!
