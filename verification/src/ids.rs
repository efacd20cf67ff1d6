use vstd::prelude::*;

verus! {

/// The nil identifier (all zero bits); it names the Inbox.
pub const NIL_ID: u128 = 0;

/// Bits that a random (version 4, RFC 4122 variant) identifier always has set as
/// [`RANDOM_ID_TAG`].
pub const RANDOM_ID_MASK: u128 = 0x0000_0000_0000_F000_C000_0000_0000_0000;

/// Value of the [`RANDOM_ID_MASK`] bits in every random identifier.
pub const RANDOM_ID_TAG: u128 = 0x0000_0000_0000_4000_8000_0000_0000_0000;

/// The identifier that `uuid::Uuid::parse_str` reads from a text, if it reads one.
pub uninterp spec fn uuid_parse(s: Seq<char>) -> Option<u128>;

/// Parses an identifier in any of the textual forms `uuid` accepts.
///
/// Trusted: calls `uuid::Uuid::parse_str` and takes the identifier's 128 bits, or the
/// text of its error; the contract only names the result as a function of the text, and
/// leaves the error's text unsaid.
#[verifier::external_body]
pub(crate) fn parse_uuid(s: &str) -> (r: Result<u128, String>)
    ensures
        match r {
            Ok(v) => uuid_parse(s@) == Some(v),
            Err(_) => uuid_parse(s@) is None,
        },
{
    uuid::Uuid::parse_str(s).map(|u| u.as_u128()).map_err(|e| e.to_string())
}

/// A fresh random identifier.
///
/// Trusted: calls `uuid::Uuid::new_v4`, whose source masks random bits so that the
/// version nibble is 4 and the variant bits are `10`; which bits come out otherwise is
/// left unsaid.
#[verifier::external_body]
pub(crate) fn random_id() -> (r: u128)
    ensures
        r & RANDOM_ID_MASK == RANDOM_ID_TAG,
{
    uuid::Uuid::new_v4().as_u128()
}

/// Lowercase hexadecimal digit for `d < 16`.
pub open spec fn hex_digit(d: nat) -> char {
    if d < 10 {
        (('0' as u32) + d) as char
    } else {
        (('a' as u32) + (d - 10)) as char
    }
}

/// The `k` lowest hexadecimal digits of `v`, most significant first.
pub open spec fn hex_digits(v: nat, k: nat) -> Seq<char>
    decreases k,
{
    if k == 0 {
        Seq::empty()
    } else {
        hex_digits(v / 16, (k - 1) as nat).push(hex_digit(v % 16))
    }
}

/// The hyphenated lowercase text of an identifier: 8-4-4-4-12 hexadecimal digits.
pub open spec fn uuid_text(id: u128) -> Seq<char> {
    let v = id as nat;
    hex_digits(v / 0x1_0000_0000_0000_0000_0000_0000, 8) + "-"@ + hex_digits(
        v / 0x1_0000_0000_0000_0000_0000,
        4,
    ) + "-"@ + hex_digits(v / 0x1_0000_0000_0000_0000, 4) + "-"@ + hex_digits(
        v / 0x1_0000_0000_0000,
        4,
    ) + "-"@ + hex_digits(v, 12)
}

/// The hyphenated lowercase text of an identifier.
///
/// Trusted: calls `uuid::Uuid::to_string`, whose `Display` writes the hyphenated
/// lowercase form of the identifier's big-endian bytes; `Uuid::parse_str` reads every
/// form that the crate writes, so the text reads back as the identifier.
#[verifier::external_body]
pub(crate) fn uuid_to_string(id: u128) -> (r: String)
    ensures
        r@ == uuid_text(id),
        uuid_parse(r@) == Some(id),
{
    uuid::Uuid::from_u128(id).to_string()
}

} // verus!
