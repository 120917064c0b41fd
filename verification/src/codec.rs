//! Base64url and JSON, the two encodings that tokens and replies are made of.
//!
//! Both are done by outside crates. This module says what the rest of the
//! gateway relies on.

use vstd::prelude::*;
use vstd::utf8::encode_utf8;

use base64::Engine;

verus! {

/// Bytes in base64url, without padding.
pub uninterp spec fn base64url(bytes: Seq<u8>) -> Seq<char>;

/// The bytes that a base64url text without padding stands for, if it is one.
pub uninterp spec fn base64url_decoded(text: Seq<char>) -> Option<Seq<u8>>;

/// A character of the URL-safe base64 alphabet.
pub open spec fn is_base64url_char(c: char) -> bool {
    'a' <= c <= 'z' || 'A' <= c <= 'Z' || '0' <= c <= '9' || c == '-' || c == '_'
}

/// `Engine::encode` of base64's `URL_SAFE_NO_PAD`. The text depends on the
/// bytes alone, is made of the characters of the URL-safe alphabet, is empty
/// only for no bytes at all, and decodes to the bytes again.
#[verifier::external_body]
pub(crate) fn encode_base64url(bytes: &[u8]) -> (text: String)
    ensures
        text@ == base64url(bytes@),
        forall|i: int| 0 <= i < text@.len() ==> is_base64url_char(#[trigger] text@[i]),
        bytes@.len() > 0 ==> text@.len() > 0,
        base64url_decoded(text@) == Some(bytes@),
{
    base64::engine::general_purpose::URL_SAFE_NO_PAD.encode(bytes)
}

/// `Engine::decode` of base64's `URL_SAFE_NO_PAD`. Whether the text is base64url
/// without padding, and which bytes it then stands for, depends on the text
/// alone. Which of its errors a refusal comes with is left out.
#[verifier::external_body]
pub(crate) fn decode_base64url(text: &str) -> (bytes: Option<Vec<u8>>)
    ensures
        match bytes {
            Some(bytes) => base64url_decoded(text@) == Some(bytes@),
            None => base64url_decoded(text@) is None,
        },
{
    base64::engine::general_purpose::URL_SAFE_NO_PAD.decode(text).ok()
}

/// What stands under a name in a JSON object, as far as it is looked at.
pub enum JsonMember {
    /// A string.
    Text(Seq<char>),
    /// A number that is an integer from 0 to the largest `u64`.
    Unsigned(u64),
    /// `true` or `false`.
    Flag(bool),
    /// Anything else.
    Other,
}

/// A JSON value.
#[verifier::external_type_specification]
#[verifier::external_body]
pub struct ExJsonValue(serde_json::Value);

/// The members of a JSON value that is an object.
pub uninterp spec fn json_members(value: serde_json::Value) -> Option<Map<Seq<char>, JsonMember>>;

/// What reading bytes as JSON gives: the members of the value, if it is an
/// object, or the text of the reading error.
pub uninterp spec fn json_read(bytes: Seq<u8>) -> Result<
    Option<Map<Seq<char>, JsonMember>>,
    Seq<char>,
>;

/// The JSON text of an object with these members.
pub uninterp spec fn json_written(members: Map<Seq<char>, JsonMember>) -> Seq<char>;

/// The string under `name`, where there is one.
pub open spec fn text_member(
    members: Option<Map<Seq<char>, JsonMember>>,
    name: Seq<char>,
) -> Option<Seq<char>> {
    match members {
        Some(members) => if members.contains_key(name) {
            match members[name] {
                JsonMember::Text(text) => Some(text),
                _ => None,
            }
        } else {
            None
        },
        None => None,
    }
}

/// The unsigned integer under `name`, where there is one.
pub open spec fn unsigned_member(
    members: Option<Map<Seq<char>, JsonMember>>,
    name: Seq<char>,
) -> Option<u64> {
    match members {
        Some(members) => if members.contains_key(name) {
            match members[name] {
                JsonMember::Unsigned(n) => Some(n),
                _ => None,
            }
        } else {
            None
        },
        None => None,
    }
}

/// `serde_json::from_slice` into a `serde_json::Value`. Which value comes out,
/// or which error text, depends on the bytes alone.
#[verifier::external_body]
pub(crate) fn read_json(bytes: &[u8]) -> (value: Result<serde_json::Value, String>)
    ensures
        match value {
            Ok(value) => json_read(bytes@) == Ok::<_, Seq<char>>(json_members(value)),
            Err(error) => json_read(bytes@) == Err::<Option<Map<Seq<char>, JsonMember>>, _>(
                error@,
            ),
        },
{
    serde_json::from_slice(bytes).map_err(|error: serde_json::Error| error.to_string())
}

/// `serde_json::Value::get`, then `as_str`: the string under `name`, nothing
/// where the value is no object, has no such member, or has something else
/// there.
#[verifier::external_body]
pub(crate) fn get_text(value: &serde_json::Value, name: &str) -> (text: Option<String>)
    ensures
        match text {
            Some(text) => text_member(json_members(*value), name@) == Some(text@),
            None => text_member(json_members(*value), name@) is None,
        },
{
    value.get(name).and_then(|member| member.as_str()).map(|text| text.to_owned())
}

/// `serde_json::Value::get`, then `as_u64`: the unsigned integer under `name`,
/// nothing where the value is no object, has no such member, or has something
/// else there.
#[verifier::external_body]
pub(crate) fn get_unsigned(value: &serde_json::Value, name: &str) -> (n: Option<u64>)
    ensures
        n == unsigned_member(json_members(*value), name@),
{
    value.get(name).and_then(|member| member.as_u64())
}

/// `serde_json::Map::new` as a `serde_json::Value`: an object without members.
#[verifier::external_body]
pub(crate) fn empty_object() -> (value: serde_json::Value)
    ensures
        json_members(value) == Some(Map::<Seq<char>, JsonMember>::empty()),
{
    serde_json::Value::Object(serde_json::Map::new())
}

/// Assignment through `serde_json::Value`'s `IndexMut`: puts a string under
/// `name`, in place of what was there.
#[verifier::external_body]
pub(crate) fn put_text(value: &mut serde_json::Value, name: &str, text: &str)
    requires
        json_members(*old(value)) is Some,
    ensures
        json_members(*final(value)) == Some(
            json_members(*old(value))->0.insert(name@, JsonMember::Text(text@)),
        ),
{
    value[name] = serde_json::Value::from(text);
}

/// Assignment through `serde_json::Value`'s `IndexMut`: puts a number under
/// `name`, in place of what was there.
#[verifier::external_body]
pub(crate) fn put_unsigned(value: &mut serde_json::Value, name: &str, n: u64)
    requires
        json_members(*old(value)) is Some,
    ensures
        json_members(*final(value)) == Some(
            json_members(*old(value))->0.insert(name@, JsonMember::Unsigned(n)),
        ),
{
    value[name] = serde_json::Value::from(n);
}

/// Assignment through `serde_json::Value`'s `IndexMut`: puts `true` or `false`
/// under `name`, in place of what was there.
#[verifier::external_body]
pub(crate) fn put_flag(value: &mut serde_json::Value, name: &str, flag: bool)
    requires
        json_members(*old(value)) is Some,
    ensures
        json_members(*final(value)) == Some(
            json_members(*old(value))->0.insert(name@, JsonMember::Flag(flag)),
        ),
{
    value[name] = serde_json::Value::from(flag);
}

/// A name that serde_json keeps for itself: an object that starts with one is read as
/// something else.
pub open spec fn is_reserved_name(name: Seq<char>) -> bool {
    "$serde_json::private::"@.is_prefix_of(name)
}

/// Members that are all strings, unsigned integers or flags, under names of one's own.
pub open spec fn all_plain(members: Map<Seq<char>, JsonMember>) -> bool {
    forall|name: Seq<char>| #[trigger]
        members.contains_key(name) ==> !(members[name] is Other) && !is_reserved_name(name)
}

/// A reserved name starts with a dollar sign.
pub proof fn lemma_not_reserved(name: Seq<char>)
    requires
        name.len() == 0 || name[0] != '$',
    ensures
        !is_reserved_name(name),
{
    reveal_strlit("$serde_json::private::");
    if is_reserved_name(name) {
        assert(name.subrange(0, "$serde_json::private::"@.len() as int)[0] == name[0]);
    }
}

/// `Display` of `serde_json::Value`, which writes compact JSON. For an object
/// of strings, unsigned integers and flags the text depends on the members
/// alone: objects keep their members in the order of their names. The text is
/// not empty, and reading it gives the members back; that is why no name may be one
/// that serde_json reserves.
#[verifier::external_body]
pub(crate) fn write_json(value: &serde_json::Value) -> (text: String)
    requires
        json_members(*value) is Some,
        all_plain(json_members(*value)->0),
    ensures
        text@ == json_written(json_members(*value)->0),
        encode_utf8(text@).len() > 0,
        json_read(encode_utf8(text@)) is Ok,
        json_read(encode_utf8(text@))->Ok_0 == json_members(*value),
{
    value.to_string()
}

/// Looking up a member gives what stands under that very name, if it is of the kind that is
/// asked for, whatever else the object holds.
pub proof fn law_members_are_found_by_name(
    members: Map<Seq<char>, JsonMember>,
    name: Seq<char>,
    text: Seq<char>,
    n: u64,
)
    ensures
        text_member(Some(members), name) == Some(text) <==> members.contains_key(name)
            && members[name] == JsonMember::Text(text),
        unsigned_member(Some(members), name) == Some(n) <==> members.contains_key(name)
            && members[name] == JsonMember::Unsigned(n),
        text_member(None, name) is None,
        unsigned_member(None, name) is None,
{
}

} // verus!
