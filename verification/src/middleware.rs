//! Request identifiers.
//!
//! Every request has an identifier: the one it came with, if that is usable, and
//! a fresh one otherwise. It is part of every log line on the request and goes
//! back with the response.

use vstd::prelude::*;
use vstd::string::*;
use vstd::utf8::encode_utf8;

verus! {

/// Header that carries request identifiers in both directions.
pub const REQUEST_ID_HEADER: &'static str = "x-request-id";

/// Field of the request's log span that holds the verified subject. Empty until,
/// and unless, a token was verified.
pub const SUBJECT_FIELD: &'static str = "subject";

/// An incoming identifier is used as it is if it is there at all and no longer than
/// 128 bytes.
pub open spec fn is_usable_id(id: Seq<char>) -> bool {
    id.len() > 0 && encode_utf8(id).len() <= 128
}

/// A digit of a number in lower-case hexadecimal.
pub open spec fn is_hex_digit(c: char) -> bool {
    '0' <= c <= '9' || 'a' <= c <= 'f'
}

/// A UUID of version 4 in its hyphenated form.
pub open spec fn is_uuid_text(text: Seq<char>) -> bool {
    &&& text.len() == 36
    &&& forall|i: int|
        0 <= i < 36 ==> if i == 8 || i == 13 || i == 18 || i == 23 {
            #[trigger] text[i] == '-'
        } else {
            is_hex_digit(text[i])
        }
    &&& text[14] == '4'
    &&& text[19] == '8' || text[19] == '9' || text[19] == 'a' || text[19] == 'b'
}

/// `Uuid::new_v4` and the `Display` of what it makes: a random UUID of version 4,
/// hyphenated and in lower case. Which one is left open: it is random.
#[verifier::external_body]
fn random_uuid() -> (text: String)
    ensures
        is_uuid_text(text@),
{
    uuid::Uuid::new_v4().to_string()
}

/// A text that can come of drawing a random UUID.
pub closed spec fn is_drawn_uuid(text: Seq<char>) -> bool {
    exists|drawn: String| #[trigger] call_ensures(random_uuid, (), drawn) && drawn@ == text
}

/// The identifier that a request came with, if it is usable.
pub fn usable_request_id(incoming: Option<&str>) -> (id: Option<&str>)
    ensures
        id == (match incoming {
            Some(id) => if is_usable_id(id@) {
                Some(id)
            } else {
                None
            },
            None => None,
        }),
{
    match incoming {
        Some(id) => if !id.is_empty() && id.as_bytes().len() <= 128 {
            Some(id)
        } else {
            None
        },
        None => None,
    }
}

/// The identifier of a request: the one it came with, if that is usable, and a fresh
/// UUID otherwise.
pub fn request_id(incoming: Option<&str>) -> (id: String)
    ensures
        incoming is Some && is_usable_id(incoming->0@) ==> id@ == incoming->0@,
        !(incoming is Some && is_usable_id(incoming->0@)) ==> is_uuid_text(id@) && is_drawn_uuid(
            id@,
        ),
{
    match usable_request_id(incoming) {
        Some(id) => id.to_owned(),
        None => random_uuid(),
    }
}

/// An identifier of one to 128 bytes is usable, whatever its characters, and no other.
pub proof fn law_usable_ids_are_short(id: Seq<char>)
    ensures
        id.len() >= 1 && encode_utf8(id).len() <= 128 <==> is_usable_id(id),
{
}

/// A drawn identifier is one that drawing a random UUID gave, as it gave it.
proof fn law_drawn_uuids_come_from_the_generator(text: Seq<char>, drawn: String)
    ensures
        call_ensures(random_uuid, (), drawn) ==> is_drawn_uuid(drawn@),
        is_drawn_uuid(text) ==> exists|given: String| #[trigger]
            call_ensures(random_uuid, (), given) && given@ == text,
{
}

} // verus!
