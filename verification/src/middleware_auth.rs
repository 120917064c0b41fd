//! The bearer check in front of proxied routes.
//!
//! Fail-closed: a request only proceeds with a fully verified token. Rejections do
//! not tell the caller what was wrong; that goes to the log.

use vstd::prelude::*;
use vstd::string::*;

use crate::auth::{auth_error_message, carried_token, is_unix_now, token_verdict};
use crate::auth::{bearer_token, unix_now, verify_token};
use crate::auth::{AuthError, AuthErrorView};
use crate::keys::VerifyingKey;
use crate::reply::{Reply, ReplyView};
use crate::text::borrowed;
use crate::text::{optional_string, optional_text};

verus! {

/// Whom the bearer check trusts.
#[derive(Debug, Clone)]
pub struct AuthState {
    verifying_key: VerifyingKey,
    trusted_issuer: Option<String>,
}

/// Whom the bearer check trusts, by bytes and characters.
pub struct AuthStateView {
    pub verifying_key: Seq<u8>,
    pub trusted_issuer: Option<Seq<char>>,
}

impl View for AuthState {
    type V = AuthStateView;

    closed spec fn view(&self) -> AuthStateView {
        AuthStateView {
            verifying_key: self.verifying_key@,
            trusted_issuer: optional_string(self.trusted_issuer),
        }
    }
}

impl AuthState {
    /// A check that trusts tokens signed with the private half of `verifying_key` and,
    /// if one is given, issued by `trusted_issuer`.
    pub fn new(verifying_key: VerifyingKey, trusted_issuer: Option<String>) -> (auth: Self)
        ensures
            auth@ == (AuthStateView {
                verifying_key: verifying_key@,
                trusted_issuer: optional_string(trusted_issuer),
            }),
    {
        AuthState { verifying_key, trusted_issuer }
    }
}

/// Why a request is rejected.
#[derive(Debug, Clone, PartialEq, Eq)]
pub enum Rejection {
    /// There is no bearer token.
    NoToken,
    /// The token does not verify.
    BadToken(AuthError),
}

/// Why a request is rejected, by its characters.
pub enum RejectionView {
    NoToken,
    BadToken(AuthErrorView),
}

impl View for Rejection {
    type V = RejectionView;

    open spec fn view(&self) -> RejectionView {
        match self {
            Rejection::NoToken => RejectionView::NoToken,
            Rejection::BadToken(error) => RejectionView::BadToken(error@),
        }
    }
}

/// What a rejected caller is answered.
pub open spec fn rejection_reply(rejection: RejectionView) -> ReplyView {
    let body = match rejection {
        RejectionView::NoToken => "missing or malformed bearer token"@,
        RejectionView::BadToken(_) => "invalid token"@,
    };
    ReplyView::with_header(401, "www-authenticate"@, "Bearer"@, body)
}

/// What the log says of a rejection.
pub open spec fn rejection_message(rejection: RejectionView) -> Seq<char> {
    match rejection {
        RejectionView::NoToken => "missing or malformed Authorization header"@,
        RejectionView::BadToken(error) => auth_error_message(error),
    }
}

impl Rejection {
    /// What the caller is answered.
    pub fn reply(&self) -> (reply: Reply)
        ensures
            reply@ == rejection_reply(self@),
    {
        let body = match self {
            Rejection::NoToken => "missing or malformed bearer token",
            Rejection::BadToken(_) => "invalid token",
        };
        Reply::with_header(401, "www-authenticate", "Bearer".to_owned(), body.to_owned())
    }

    /// What the log says.
    pub fn message(&self) -> (message: String)
        ensures
            message@ == rejection_message(self@),
    {
        match self {
            Rejection::NoToken => "missing or malformed Authorization header".to_owned(),
            Rejection::BadToken(error) => error.message(),
        }
    }
}

/// What the bearer check makes of a request with this `Authorization` header at `now`: the
/// verified subject, or why it is rejected.
pub open spec fn bearer_verdict(
    auth: AuthStateView,
    authorization: Option<Seq<char>>,
    now: u64,
) -> Result<Seq<char>, RejectionView> {
    match carried_token(authorization) {
        None => Err(RejectionView::NoToken),
        Some(token) => match token_verdict(auth.verifying_key, token, auth.trusted_issuer, now) {
            Ok(subject) => Ok(subject),
            Err(error) => Err(RejectionView::BadToken(error)),
        },
    }
}

/// A result of the bearer check by its characters.
pub open spec fn bearer_result(result: Result<String, Rejection>) -> Result<
    Seq<char>,
    RejectionView,
> {
    match result {
        Ok(subject) => Ok(subject@),
        Err(rejection) => Err(rejection@),
    }
}

/// Lets a request with this `Authorization` header pass at `now_unix`, with its
/// verified subject, or rejects it.
pub fn check_bearer_at(auth: &AuthState, authorization: Option<&str>, now_unix: u64) -> (result:
    Result<String, Rejection>)
    ensures
        bearer_result(result) == bearer_verdict(auth@, optional_text(authorization), now_unix),
{
    let token = match bearer_token(authorization) {
        Some(token) => token,
        None => {
            return Err(Rejection::NoToken);
        },
    };
    match verify_token(&auth.verifying_key, token, borrowed(&auth.trusted_issuer), now_unix) {
        Ok(verified) => Ok(verified.subject),
        Err(error) => Err(Rejection::BadToken(error)),
    }
}

/// Lets a request with this `Authorization` header pass now, or rejects it.
pub fn check_bearer(auth: &AuthState, authorization: Option<&str>) -> (result: Result<
    String,
    Rejection,
>)
    ensures
        exists|now: u64|
            is_unix_now(now) && bearer_result(result) == #[trigger] bearer_verdict(
                auth@,
                optional_text(authorization),
                now,
            ),
{
    let now: u64 = unix_now();
    let result = check_bearer_at(auth, authorization, now);
    assert(bearer_result(result) == bearer_verdict(auth@, optional_text(authorization), now));
    result
}

/// The bearer check fails closed: without a token that verifies under the trusted key there
/// is no way past it.
pub proof fn law_bearer_check_is_fail_closed(
    auth: AuthStateView,
    authorization: Option<Seq<char>>,
    now: u64,
)
    ensures
        bearer_verdict(auth, authorization, now) is Ok <==> carried_token(authorization) is Some
            && token_verdict(
            auth.verifying_key,
            carried_token(authorization)->0,
            auth.trusted_issuer,
            now,
        ) is Ok,
{
}

/// A rejected caller does not learn what was wrong with the token.
pub proof fn law_rejections_look_alike(a: AuthErrorView, b: AuthErrorView)
    ensures
        rejection_reply(RejectionView::BadToken(a)) == rejection_reply(
            RejectionView::BadToken(b),
        ),
{
}

/// What the bearer check makes of a request is what verification, under the trusted key and
/// for the trusted issuer, makes of the token that it carries at that moment.
pub proof fn law_bearer_check_verifies_the_token(
    auth: AuthStateView,
    authorization: Option<Seq<char>>,
    now: u64,
)
    ensures
        carried_token(authorization) is None ==> bearer_verdict(auth, authorization, now)
            == Err::<Seq<char>, _>(RejectionView::NoToken),
        carried_token(authorization) matches Some(token) ==> ({
            let verdict = token_verdict(auth.verifying_key, token, auth.trusted_issuer, now);
            &&& verdict is Ok ==> bearer_verdict(auth, authorization, now) == Ok::<
                _,
                RejectionView,
            >(verdict->Ok_0)
            &&& verdict is Err ==> bearer_verdict(auth, authorization, now) == Err::<
                Seq<char>,
                _,
            >(RejectionView::BadToken(verdict->Err_0))
        }),
{
}

/// Every rejection is answered with 401 and the challenge to present a bearer token. The
/// log says more than the answer does.
pub proof fn law_rejections_are_challenges(error: AuthErrorView)
    ensures
        rejection_reply(RejectionView::NoToken).status == 401,
        rejection_reply(RejectionView::NoToken).headers == seq![
            ("www-authenticate"@, "Bearer"@),
        ],
        rejection_reply(RejectionView::NoToken).body == "missing or malformed bearer token"@,
        rejection_reply(RejectionView::BadToken(error)).status == 401,
        rejection_reply(RejectionView::BadToken(error)).headers == seq![
            ("www-authenticate"@, "Bearer"@),
        ],
        rejection_reply(RejectionView::BadToken(error)).body == "invalid token"@,
        rejection_message(RejectionView::NoToken)
            == "missing or malformed Authorization header"@,
        rejection_message(RejectionView::BadToken(error)) == auth_error_message(error),
{
}

/// Rejections and results of the bearer check are seen as they are.
pub proof fn law_rejections_are_seen_whole(
    error: AuthError,
    subject: String,
    rejection: Rejection,
)
    ensures
        Rejection::NoToken@ == RejectionView::NoToken,
        Rejection::BadToken(error)@ == RejectionView::BadToken(error@),
        bearer_result(Ok(subject)) == Ok::<_, RejectionView>(subject@),
        bearer_result(Err(rejection)) == Err::<Seq<char>, _>(rejection@),
{
}

} // verus!
