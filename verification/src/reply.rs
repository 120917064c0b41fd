//! Replies that the gateway makes itself.

use vstd::prelude::*;

verus! {

/// A reply: status code, headers and body. Without a content type of its own the
/// body is plain text.
#[derive(Debug, Clone, PartialEq, Eq)]
pub struct Reply {
    /// HTTP status code.
    pub status: u16,
    /// Headers by name, in lower case, and value.
    pub headers: Vec<(String, String)>,
    /// The body.
    pub body: String,
}

/// A reply by its characters.
#[verifier::ext_equal]
pub struct ReplyView {
    pub status: u16,
    pub headers: Seq<(Seq<char>, Seq<char>)>,
    pub body: Seq<char>,
}

/// Headers by their characters.
pub open spec fn header_views(headers: Seq<(String, String)>) -> Seq<(Seq<char>, Seq<char>)> {
    headers.map_values(|header: (String, String)| (header.0@, header.1@))
}

impl View for Reply {
    type V = ReplyView;

    open spec fn view(&self) -> ReplyView {
        ReplyView {
            status: self.status,
            headers: header_views(self.headers@),
            body: self.body@,
        }
    }
}

impl ReplyView {
    /// A reply of plain text.
    pub open spec fn text(status: u16, body: Seq<char>) -> ReplyView {
        ReplyView { status, headers: Seq::empty(), body }
    }

    /// A reply with a single header.
    pub open spec fn with_header(
        status: u16,
        name: Seq<char>,
        value: Seq<char>,
        body: Seq<char>,
    ) -> ReplyView {
        ReplyView { status, headers: seq![(name, value)], body }
    }
}

impl Reply {
    /// A reply of plain text.
    pub fn text(status: u16, body: String) -> (reply: Reply)
        ensures
            reply@ == ReplyView::text(status, body@),
    {
        let reply = Reply { status, headers: Vec::new(), body };
        assert(reply@ =~= ReplyView::text(status, body@));
        reply
    }

    /// A reply with a single header.
    pub fn with_header(status: u16, name: &str, value: String, body: String) -> (reply: Reply)
        ensures
            reply@ == ReplyView::with_header(status, name@, value@, body@),
    {
        let mut headers: Vec<(String, String)> = Vec::new();
        headers.push((name.to_owned(), value));
        let reply = Reply { status, headers, body };
        assert(reply@ =~= ReplyView::with_header(status, name@, value@, body@));
        reply
    }
}

/// A reply says what it is made to say: the status, the whole body, and the one header, or
/// none.
pub proof fn law_replies_say_what_they_are_given(
    status: u16,
    name: Seq<char>,
    value: Seq<char>,
    body: Seq<char>,
)
    ensures
        ReplyView::text(status, body).status == status,
        ReplyView::text(status, body).headers.len() == 0,
        ReplyView::text(status, body).body == body,
        ReplyView::with_header(status, name, value, body).status == status,
        ReplyView::with_header(status, name, value, body).headers.len() == 1,
        ReplyView::with_header(status, name, value, body).headers[0] == (name, value),
        ReplyView::with_header(status, name, value, body).body == body,
{
}

/// A reply is seen whole: its status, its body, and every header in its place.
pub proof fn law_replies_are_seen_whole(reply: Reply, i: int)
    ensures
        reply@.status == reply.status,
        reply@.body == reply.body@,
        reply@.headers.len() == reply.headers@.len(),
        0 <= i < reply.headers@.len() ==> reply@.headers[i] == (
            reply.headers@[i].0@,
            reply.headers@[i].1@,
        ),
{
}

} // verus!
