//! Demo login: issues a short-lived token for the one demo credential.
//!
//! A gateway that trusts an external issuer has no login.

use vstd::prelude::*;

use crate::auth::{
    expiry, issued_claims, issued_header, issued_verdict, signed_token, token_verdict,
};
use crate::auth::{is_unix_now, issue_token, law_bearer_header_carries_its_token, unix_now};
use crate::codec::{empty_object, put_text, put_unsigned, write_json};
use crate::codec::{json_written, lemma_not_reserved, JsonMember};
use crate::keys::{ed25519_public, SigningKey};
use crate::middleware_auth::{bearer_verdict, AuthStateView, RejectionView};
use crate::reply::{Reply, ReplyView};
use crate::text::same_text;
use crate::time::{Duration, NANOS_PER_SEC};

verus! {

/// User name of the demo credential. It is published, and protects nothing real.
pub const DEMO_USERNAME: &'static str = "demo";

/// Password of the demo credential.
pub const DEMO_PASSWORD: &'static str = "demo-password";

/// What logins are answered with.
#[derive(Clone)]
pub struct LoginState {
    /// The key that tokens are signed with.
    pub signing_key: SigningKey,
    /// The issuer that tokens name.
    pub issuer: String,
    /// How long tokens last.
    pub ttl: Duration,
}

/// A login request.
#[derive(Debug, Clone, PartialEq, Eq)]
pub struct LoginRequest {
    pub username: String,
    pub password: String,
}

/// The token that a login at `now` gives.
pub open spec fn login_token(state: LoginState, username: Seq<char>, now: u64) -> Seq<char> {
    signed_token(
        state.signing_key@,
        issued_header(),
        issued_claims(state.issuer@, username, now, expiry(now, state.ttl@)),
    )
}

/// Whether a request presents the demo credential.
pub open spec fn is_demo_credential(request: LoginRequest) -> bool {
    request.username@ == DEMO_USERNAME@ && request.password@ == DEMO_PASSWORD@
}

/// The members of the reply to a good login.
pub open spec fn login_members(token: Seq<char>, ttl: nat) -> Map<Seq<char>, JsonMember> {
    Map::empty().insert("token"@, JsonMember::Text(token)).insert(
        "token_type"@,
        JsonMember::Text("Bearer"@),
    ).insert("expires_in"@, JsonMember::Unsigned((ttl / NANOS_PER_SEC as nat) as u64))
}

/// The bearer check that trusts the tokens of these logins.
pub open spec fn login_check(state: LoginState) -> AuthStateView {
    AuthStateView {
        verifying_key: ed25519_public(state.signing_key@),
        trusted_issuer: Some(state.issuer@),
    }
}

/// What a login at `now` is answered.
pub open spec fn login_reply(state: LoginState, request: LoginRequest, now: u64) -> ReplyView {
    if !is_demo_credential(request) {
        ReplyView::text(401, "invalid credentials"@)
    } else {
        ReplyView::with_header(
            200,
            "content-type"@,
            "application/json"@,
            json_written(login_members(login_token(state, request.username@, now), state.ttl@)),
        )
    }
}

/// The token of a demo login at `issued_at` verifies under the public half of the signing
/// key as issued tokens do, and until it expires a request that carries it passes the
/// bearer check as the demo user.
pub open spec fn login_token_verifies(state: LoginState, issued_at: u64) -> bool {
    let token = login_token(state, DEMO_USERNAME@, issued_at);
    let expires_at = expiry(issued_at, state.ttl@);
    &&& forall|trusted_issuer: Option<Seq<char>>, now: u64| #[trigger]
        token_verdict(ed25519_public(state.signing_key@), token, trusted_issuer, now)
            == issued_verdict(state.issuer@, DEMO_USERNAME@, expires_at, trusted_issuer, now)
    &&& forall|now: u64|
        now < expires_at ==> #[trigger] bearer_verdict(
            login_check(state),
            Some("Bearer "@ + token),
            now,
        ) == Ok::<_, RejectionView>(DEMO_USERNAME@)
}

/// Answers a login at `now_unix`: a token for the demo credential, a rejection for
/// anything else. Until it expires, the token verifies under the public half of
/// the signing key, and a request that carries it passes the bearer check as the demo
/// user.
pub fn login_at(state: &LoginState, request: &LoginRequest, now_unix: u64) -> (reply: Reply)
    ensures
        reply@ == login_reply(*state, *request, now_unix),
        is_demo_credential(*request) ==> login_token_verifies(*state, now_unix),
{
    if !same_text(request.username.as_str(), DEMO_USERNAME) || !same_text(
        request.password.as_str(),
        DEMO_PASSWORD,
    ) {
        return Reply::text(401, "invalid credentials".to_owned());
    }
    match issue_token(
        &state.signing_key,
        state.issuer.as_str(),
        request.username.as_str(),
        now_unix,
        state.ttl,
    ) {
        Ok(token) => {
            proof {
                law_bearer_header_carries_its_token(token@);
            }
            let mut body = empty_object();
            put_text(&mut body, "token", token.as_str());
            put_text(&mut body, "token_type", "Bearer");
            put_unsigned(&mut body, "expires_in", state.ttl.as_secs());
            proof {
                reveal_strlit("token");
                reveal_strlit("token_type");
                reveal_strlit("expires_in");
                lemma_not_reserved("token"@);
                lemma_not_reserved("token_type"@);
                lemma_not_reserved("expires_in"@);
            }
            Reply::with_header(
                200,
                "content-type",
                "application/json".to_owned(),
                write_json(&body),
            )
        },
        Err(_) => Reply::text(500, "token issuance failed".to_owned()),
    }
}

/// Answers a login now. What is answered at the moment of the call is what `login_at`
/// says.
pub fn login(state: &LoginState, request: &LoginRequest) -> (reply: Reply)
    ensures
        exists|now: u64|
            {
                &&& is_unix_now(now)
                &&& reply@ == #[trigger] login_reply(*state, *request, now)
                &&& is_demo_credential(*request) ==> login_token_verifies(*state, now)
            },
{
    let now: u64 = unix_now();
    let reply = login_at(state, request, now);
    assert(reply@ == login_reply(*state, *request, now));
    reply
}

/// The demo credential is answered with a token, and with how long it lasts, for every
/// lifetime; any other credential is turned away.
pub proof fn law_only_the_demo_credential_logs_in(
    state: LoginState,
    request: LoginRequest,
    now: u64,
    secs: u64,
    name: Seq<char>,
)
    requires
        secs * 1_000_000_000 <= state.ttl@ < (secs + 1) * 1_000_000_000,
    ensures
        request.username@ == "demo"@ && request.password@ == "demo-password"@ ==> {
            let reply = login_reply(state, request, now);
            let members = login_members(login_token(state, "demo"@, now), state.ttl@);
            &&& reply.status == 200
            &&& reply.headers == seq![("content-type"@, "application/json"@)]
            &&& reply.body == json_written(members)
            &&& members.contains_key(name) <==> name == "token"@ || name == "token_type"@ || name
                == "expires_in"@
            &&& members["token"@] == JsonMember::Text(login_token(state, "demo"@, now))
            &&& members["token_type"@] == JsonMember::Text("Bearer"@)
            &&& members["expires_in"@] == JsonMember::Unsigned(secs)
        },
        !(request.username@ == "demo"@ && request.password@ == "demo-password"@) ==> {
            let reply = login_reply(state, request, now);
            &&& reply.status == 401
            &&& reply.headers.len() == 0
            &&& reply.body == "invalid credentials"@
        },
{
    reveal_strlit("token");
    reveal_strlit("token_type");
    reveal_strlit("expires_in");
    assert("token"@.len() != "token_type"@.len());
    assert("token"@[0] != "expires_in"@[0]);
    assert("token_type"@[0] != "expires_in"@[0]);
}

/// The token of a login is one that the signing key signs, with the issuer of these logins
/// and the user as its subject, from now on for as long as logins last.
pub proof fn law_login_tokens_are_issued_to_the_user(
    state: LoginState,
    username: Seq<char>,
    now: u64,
    secs: u64,
)
    requires
        secs * 1_000_000_000 <= state.ttl@ < (secs + 1) * 1_000_000_000,
        now + secs <= u64::MAX,
    ensures
        login_token(state, username, now) == signed_token(
            state.signing_key@,
            issued_header(),
            issued_claims(state.issuer@, username, now, (now + secs) as u64),
        ),
        login_check(state).verifying_key == ed25519_public(state.signing_key@),
        login_check(state).trusted_issuer == Some(state.issuer@),
{
}

} // verus!
