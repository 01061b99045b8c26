//! Object identifiers: 16 bytes, written as a hyphenated UUID.
use vstd::prelude::*;

verus! {

/// The lower-case hexadecimal digit with value `d`.
pub open spec fn hex_digit(d: nat) -> char {
    if d < 10 {
        (('0' as nat) + d) as char
    } else {
        (('a' as nat) + d - 10) as char
    }
}

/// How many hyphens stand before position `i` of a hyphenated UUID.
pub open spec fn hyphens_before(i: int) -> int {
    (if i > 8 { 1int } else { 0 }) + (if i > 13 { 1int } else { 0 }) + (if i > 18 { 1int } else { 0 })
        + (if i > 23 { 1int } else { 0 })
}

/// The hyphenated notation of the 16 bytes of `id`: 32 hexadecimal digits in
/// groups of 8, 4, 4, 4 and 12.
pub open spec fn hyphenated(id: Seq<u8>) -> Seq<char> {
    Seq::new(
        36,
        |i: int|
            {
                if i == 8 || i == 13 || i == 18 || i == 23 {
                    '-'
                } else {
                    let k = i - hyphens_before(i);
                    hex_digit(
                        if k % 2 == 0 {
                            id[k / 2] as nat / 16
                        } else {
                            id[k / 2] as nat % 16
                        },
                    )
                }
            },
    )
}

/// What `uuid::Uuid::parse_str` reads from a text: the bytes of the identifier
/// that it denotes in any of the notations of a UUID, if it denotes one.
pub uninterp spec fn parsed_uuid(text: Seq<char>) -> Option<Seq<u8>>;

/// Calls `uuid::Uuid::parse_str`. Claimed: the outcome depends on the text
/// alone, and an identifier is 16 bytes long.
#[verifier::external_body]
pub(crate) fn parse_uuid(text: &str) -> (r: Option<[u8; 16]>)
    ensures
        match r {
            Some(id) => parsed_uuid(text@) == Some(id@),
            None => parsed_uuid(text@) is None,
        },
{
    uuid::Uuid::parse_str(text).ok().map(|u| u.into_bytes())
}

/// Calls `uuid::Uuid`'s `to_string`. Claimed: the text is the hyphenated
/// notation, and `Uuid::parse_str` reads the same bytes back from it.
#[verifier::external_body]
pub(crate) fn uuid_text(id: [u8; 16]) -> (r: String)
    ensures
        r@ == hyphenated(id@),
        parsed_uuid(r@) == Some(id@),
{
    uuid::Uuid::from_bytes(id).to_string()
}

/// Whether the bytes are a random identifier: of version 4, and of the variant of
/// RFC 4122.
pub open spec fn is_random_id(id: Seq<u8>) -> bool {
    &&& id.len() == 16
    &&& id[6] / 16 == 4
    &&& id[8] / 64 == 2
}

/// Whether the bytes are an identifier that was given out: a random one, which is
/// read back from its notation.
pub open spec fn is_issued_id(id: Seq<u8>) -> bool {
    is_random_id(id) && parsed_uuid(hyphenated(id)) == Some(id)
}

/// Calls `uuid::Uuid::new_v4`. Claimed of every outcome: the version is 4 and
/// the variant is that of RFC 4122. The other bits are random.
#[verifier::external_body]
pub(crate) fn random_uuid() -> (r: [u8; 16])
    ensures
        is_random_id(r@),
{
    uuid::Uuid::new_v4().into_bytes()
}

} // verus!
