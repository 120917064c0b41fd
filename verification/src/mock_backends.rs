//! What the mock backends answer: which service they stand for and the path that they
//! were asked for.

use vstd::prelude::*;
use vstd::string::*;

use crate::codec::{empty_object, put_text, write_json};
use crate::codec::{json_written, lemma_not_reserved, JsonMember};
use crate::reply::{Reply, ReplyView};

verus! {

/// The members of an echo.
pub open spec fn echo_members(service: Seq<char>, path: Seq<char>) -> Map<Seq<char>, JsonMember> {
    Map::empty().insert("service"@, JsonMember::Text(service)).insert(
        "path"@,
        JsonMember::Text("/"@ + path),
    )
}

/// Answers a request for `path`, which is given without the slash at its start.
pub fn echo_body(service: &str, path: &str) -> (reply: Reply)
    ensures
        reply@ == ReplyView::with_header(
            200,
            "content-type"@,
            "application/json"@,
            json_written(echo_members(service@, path@)),
        ),
{
    let mut body = empty_object();
    put_text(&mut body, "service", service);
    put_text(&mut body, "path", "/".to_owned().concat(path).as_str());
    proof {
        reveal_strlit("service");
        reveal_strlit("path");
        lemma_not_reserved("service"@);
        lemma_not_reserved("path"@);
    }
    Reply::with_header(200, "content-type", "application/json".to_owned(), write_json(&body))
}

/// An echo names the service and the whole path, with its slash, and nothing else.
pub proof fn law_echo_names_service_and_path(
    service: Seq<char>,
    path: Seq<char>,
    name: Seq<char>,
)
    ensures
        echo_members(service, path).contains_key(name) <==> name == "service"@ || name
            == "path"@,
        echo_members(service, path)["service"@] == JsonMember::Text(service),
        echo_members(service, path)["path"@] == JsonMember::Text(seq!['/'] + path),
{
    reveal_strlit("service");
    reveal_strlit("path");
    reveal_strlit("/");
    assert("service"@[0] != "path"@[0]);
    assert("/"@ =~= seq!['/']);
}

} // verus!
