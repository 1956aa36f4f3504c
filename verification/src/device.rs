//! Stable identifier of this device: a UUID v4 created on the first run and
//! kept in the secret store. The store itself lives in the application shell.
use vstd::prelude::*;

verus! {

/// An ASCII hexadecimal digit, in either case.
pub open spec fn is_hex_digit(c: char) -> bool {
    ('0' <= c <= '9') || ('a' <= c <= 'f') || ('A' <= c <= 'F')
}

/// The hyphenated form 8-4-4-4-12: hex digits with hyphens at 8, 13, 18, 23.
pub open spec fn hyphenated_uuid(t: Seq<char>) -> bool {
    &&& t.len() == 36
    &&& forall|i: int|
        0 <= i < 36 ==> if i == 8 || i == 13 || i == 18 || i == 23 {
            #[trigger] t[i] == '-'
        } else {
            is_hex_digit(t[i])
        }
}

/// `urn:uuid:`, in any ASCII case.
pub open spec fn urn_prefix(t: Seq<char>) -> bool {
    &&& t.len() == 9
    &&& (t[0] == 'u' || t[0] == 'U') && (t[1] == 'r' || t[1] == 'R') && (t[2] == 'n' || t[2] == 'N')
    &&& t[3] == ':'
    &&& (t[4] == 'u' || t[4] == 'U') && (t[5] == 'u' || t[5] == 'U')
    &&& (t[6] == 'i' || t[6] == 'I') && (t[7] == 'd' || t[7] == 'D')
    &&& t[8] == ':'
}

/// The texts the `uuid` crate reads as a UUID: 32 hex digits, the hyphenated
/// form, the hyphenated form in braces, or it behind `urn:uuid:`.
pub open spec fn uuid_accepts(t: Seq<char>) -> bool {
    ||| t.len() == 32 && forall|i: int| 0 <= i < 32 ==> is_hex_digit(#[trigger] t[i])
    ||| hyphenated_uuid(t)
    ||| t.len() == 38 && t[0] == '{' && t[37] == '}' && hyphenated_uuid(t.subrange(1, 37))
    ||| t.len() == 45 && urn_prefix(t.subrange(0, 9)) && hyphenated_uuid(t.subrange(9, 45))
}

/// `uuid::Uuid::parse_str(text).is_ok()`: whether the text is a UUID in one of
/// the forms the crate reads (simple, hyphenated, braced or URN).
#[verifier::external_body]
fn uuid_parses(text: &str) -> (r: bool)
    ensures
        r == uuid_accepts(text@),
{
    uuid::Uuid::parse_str(text).is_ok()
}

/// `uuid::Uuid::new_v4().to_string()`: a random UUID v4 in hyphenated form,
/// with the version digit `4`. Which digits come out is left open.
#[verifier::external_body]
fn new_uuid_text() -> (r: String)
    ensures
        hyphenated_uuid(r@),
        r@[14] == '4',
{
    uuid::Uuid::new_v4().to_string()
}

/// A stored device id is usable when it parses as a UUID.
pub fn is_valid(id: &str) -> (r: bool)
    ensures
        r == uuid_accepts(id@),
{
    uuid_parses(id)
}

/// The id to use given what the store holds, and whether it must be written
/// back: a valid stored id is kept as is; a missing or invalid one is replaced
/// by a new UUID, which must then be persisted.
pub fn choose_device_id(stored: Option<String>) -> (r: (String, bool))
    ensures
        uuid_accepts(r.0@),
        match stored {
            Some(s) => if uuid_accepts(s@) { r.0@ == s@ && !r.1 } else { r.1 },
            None => r.1,
        },
{
    match stored {
        Some(existing) => {
            if is_valid(existing.as_str()) {
                (existing, false)
            } else {
                (new_uuid_text(), true)
            }
        },
        None => (new_uuid_text(), true),
    }
}

} // verus!
