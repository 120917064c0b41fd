//! Tokens: Ed25519-signed JWTs, fail-closed verification.
//!
//! A token is a compact JWS with the `EdDSA` algorithm. Its claims are `sub`,
//! `iss`, `iat` and `exp`. Any doubt during verification is a rejection.
//!
//! The gateway owns its signing key by default: on first boot it generates one
//! and stores it, and every later boot loads the same key, so that tokens
//! outlive restarts.

use vstd::prelude::*;
use vstd::string::*;
use vstd::utf8::encode_utf8;

use crate::codec::{all_plain, base64url, base64url_decoded, is_base64url_char, lemma_not_reserved};
use crate::codec::{decode_base64url, empty_object, encode_base64url, get_text, get_unsigned};
use crate::codec::{put_text, put_unsigned, read_json, write_json};
use crate::codec::{json_members, json_read, json_written, text_member, unsigned_member, JsonMember};
use crate::keys::{
    ed25519_public, ed25519_signature, ed25519_verifies, pkcs8_pem, pkcs8_pem_read, spki_pem,
    spki_pem_read,
};
use crate::keys::{is_drawn_seed, SigningKey, VerifyingKey};
use crate::text::{borrowed, chars_of, same_text, split_at_first, starts_with};
use crate::text::{law_split_is_at_the_first, lemma_split_once, optional_text, split_once};
use crate::time::{Duration, NANOS_PER_SEC};

verus! {

/// Algorithm in the header of issued tokens, and the only one accepted.
pub const TOKEN_ALG: &'static str = "EdDSA";

/// Default lifetime of issued tokens, in seconds.
pub const DEFAULT_TOKEN_TTL: u64 = 900;

/// Name of the private key file in the keys directory.
pub const PRIVATE_KEY_FILE: &'static str = "signing_key.pem";

/// Name of the public key file in the keys directory.
pub const PUBLIC_KEY_FILE: &'static str = "signing_key.pub.pem";

/// What can go wrong with keys and tokens. Each is a rejected request or a
/// failed startup, never a pass.
#[derive(Debug, Clone, PartialEq, Eq)]
pub enum AuthError {
    /// A key could not be read, made or stored.
    BadKeyMaterial(String),
    /// The token is not three dot-separated segments.
    MalformedToken,
    /// The token header is not JSON in base64url, or does not say `EdDSA`.
    BadHeader(String),
    /// The token claims are not JSON in base64url, or lack something.
    BadClaims(String),
    /// The signature does not verify under the trusted key.
    BadSignature,
    /// The token has expired.
    Expired,
    /// The token was not issued by the trusted issuer.
    WrongIssuer,
}

/// An auth error by its characters.
pub enum AuthErrorView {
    BadKeyMaterial(Seq<char>),
    MalformedToken,
    BadHeader(Seq<char>),
    BadClaims(Seq<char>),
    BadSignature,
    Expired,
    WrongIssuer,
}

impl View for AuthError {
    type V = AuthErrorView;

    open spec fn view(&self) -> AuthErrorView {
        match self {
            AuthError::BadKeyMaterial(m) => AuthErrorView::BadKeyMaterial(m@),
            AuthError::MalformedToken => AuthErrorView::MalformedToken,
            AuthError::BadHeader(m) => AuthErrorView::BadHeader(m@),
            AuthError::BadClaims(m) => AuthErrorView::BadClaims(m@),
            AuthError::BadSignature => AuthErrorView::BadSignature,
            AuthError::Expired => AuthErrorView::Expired,
            AuthError::WrongIssuer => AuthErrorView::WrongIssuer,
        }
    }
}

/// The message that the log shows for an auth error.
pub open spec fn auth_error_message(error: AuthErrorView) -> Seq<char> {
    match error {
        AuthErrorView::BadKeyMaterial(m) => "bad key material: "@ + m,
        AuthErrorView::MalformedToken => "malformed token: expected header.payload.signature"@,
        AuthErrorView::BadHeader(m) => "bad token header: "@ + m,
        AuthErrorView::BadClaims(m) => "bad token claims: "@ + m,
        AuthErrorView::BadSignature => "signature verification failed"@,
        AuthErrorView::Expired => "token expired"@,
        AuthErrorView::WrongIssuer => "token issuer mismatch"@,
    }
}

impl AuthError {
    /// The message that the log shows.
    pub fn message(&self) -> (message: String)
        ensures
            message@ == auth_error_message(self@),
    {
        match self {
            AuthError::BadKeyMaterial(m) => "bad key material: ".to_owned().concat(m.as_str()),
            AuthError::MalformedToken =>
                "malformed token: expected header.payload.signature".to_owned(),
            AuthError::BadHeader(m) => "bad token header: ".to_owned().concat(m.as_str()),
            AuthError::BadClaims(m) => "bad token claims: ".to_owned().concat(m.as_str()),
            AuthError::BadSignature => "signature verification failed".to_owned(),
            AuthError::Expired => "token expired".to_owned(),
            AuthError::WrongIssuer => "token issuer mismatch".to_owned(),
        }
    }
}

/// The three segments of a token: exactly two dots, nothing empty.
pub open spec fn token_segments(token: Seq<char>) -> Option<(Seq<char>, Seq<char>, Seq<char>)> {
    match split_once(token, '.') {
        Some((header, rest)) => match split_once(rest, '.') {
            Some((claims, signature)) => if header.len() > 0 && claims.len() > 0
                && signature.len() > 0 && !signature.contains('.') {
                Some((header, claims, signature))
            } else {
                None
            },
            None => None,
        },
        None => None,
    }
}

/// What is signed: header and claims as they stand in the token.
pub open spec fn signing_input(header: Seq<char>, claims: Seq<char>) -> Seq<char> {
    header + "."@ + claims
}

/// Why a header that declares `alg` is refused, if it is.
pub open spec fn algorithm_error(alg: Option<Seq<char>>) -> Option<AuthErrorView> {
    if alg == Some(TOKEN_ALG@) {
        None
    } else {
        Some(AuthErrorView::BadHeader("expected alg EdDSA"@))
    }
}

/// Why a token header is refused, if it is.
pub open spec fn header_error(header: Seq<char>) -> Option<AuthErrorView> {
    match base64url_decoded(header) {
        None => Some(AuthErrorView::BadHeader("not base64url"@)),
        Some(bytes) => match json_read(bytes) {
            Err(error) => Some(AuthErrorView::BadHeader(error)),
            Ok(members) => algorithm_error(text_member(members, "alg"@)),
        },
    }
}

/// Whether the signature segment holds a signature of the other two.
pub open spec fn signature_verifies(
    public: Seq<u8>,
    header: Seq<char>,
    claims: Seq<char>,
    signature: Seq<char>,
) -> bool {
    match base64url_decoded(signature) {
        None => false,
        Some(bytes) => ed25519_verifies(
            public,
            encode_utf8(signing_input(header, claims)),
            bytes,
        ),
    }
}

/// What is made of the claims `iss`, `exp` and `sub` at `now`: the subject, or
/// the first thing that is wrong.
pub open spec fn claims_verdict(
    iss: Option<Seq<char>>,
    exp: Option<u64>,
    sub: Option<Seq<char>>,
    trusted_issuer: Option<Seq<char>>,
    now: u64,
) -> Result<Seq<char>, AuthErrorView> {
    if trusted_issuer is Some && iss != trusted_issuer {
        Err(AuthErrorView::WrongIssuer)
    } else if exp is None {
        Err(AuthErrorView::BadClaims("missing numeric exp"@))
    } else if now >= exp->0 {
        Err(AuthErrorView::Expired)
    } else if sub is None {
        Err(AuthErrorView::BadClaims("missing sub"@))
    } else {
        Ok(sub->0)
    }
}

/// What is made of the claims segment of a token at `now`.
pub open spec fn claims_segment_verdict(
    claims: Seq<char>,
    trusted_issuer: Option<Seq<char>>,
    now: u64,
) -> Result<Seq<char>, AuthErrorView> {
    match base64url_decoded(claims) {
        None => Err(AuthErrorView::BadClaims("not base64url"@)),
        Some(bytes) => match json_read(bytes) {
            Err(error) => Err(AuthErrorView::BadClaims(error)),
            Ok(members) => claims_verdict(
                text_member(members, "iss"@),
                unsigned_member(members, "exp"@),
                text_member(members, "sub"@),
                trusted_issuer,
                now,
            ),
        },
    }
}

/// What verification makes of a token at `now`: the subject, or the first thing
/// that is wrong. The algorithm is checked before anything is verified, and
/// the claims are not looked at before the signature is.
pub open spec fn token_verdict(
    public: Seq<u8>,
    token: Seq<char>,
    trusted_issuer: Option<Seq<char>>,
    now: u64,
) -> Result<Seq<char>, AuthErrorView> {
    match token_segments(token) {
        None => Err(AuthErrorView::MalformedToken),
        Some((header, claims, signature)) => match header_error(header) {
            Some(error) => Err(error),
            None => if !signature_verifies(public, header, claims, signature) {
                Err(AuthErrorView::BadSignature)
            } else {
                claims_segment_verdict(claims, trusted_issuer, now)
            },
        },
    }
}

/// Whom a verified token speaks for.
#[derive(Debug, Clone, PartialEq, Eq)]
pub struct AuthenticatedSubject {
    pub subject: String,
}

/// A result of verification by its characters.
pub open spec fn verdict_view(result: Result<AuthenticatedSubject, AuthError>) -> Result<
    Seq<char>,
    AuthErrorView,
> {
    match result {
        Ok(verified) => Ok(verified.subject@),
        Err(error) => Err(error@),
    }
}

/// The three segments of a token.
pub fn split_token(token: &str) -> (segments: Option<(String, String, String)>)
    ensures
        match segments {
            Some((header, claims, signature)) => token_segments(token@) == Some(
                (header@, claims@, signature@),
            ),
            None => token_segments(token@) is None,
        },
{
    let (header, rest) = match split_at_first(token, '.') {
        Some(parts) => parts,
        None => {
            return None;
        },
    };
    let (claims, signature) = match split_at_first(rest.as_str(), '.') {
        Some(parts) => parts,
        None => {
            return None;
        },
    };
    let fourth = split_at_first(signature.as_str(), '.');
    proof {
        signature@.index_of_first_ensures('.');
    }
    if header.as_str().is_empty() || claims.as_str().is_empty() || signature.as_str().is_empty()
        || fourth.is_some() {
        return None;
    }
    Some((header, claims, signature))
}

/// Accepts a header that declares `alg`, if that is `EdDSA`.
pub fn check_algorithm(alg: Option<&str>) -> (error: Option<AuthError>)
    ensures
        error is Some <==> algorithm_error(optional_text(alg)) is Some,
        error is Some ==> error->0@ == algorithm_error(optional_text(alg))->0,
{
    let known = match alg {
        Some(alg) => same_text(alg, TOKEN_ALG),
        None => false,
    };
    if known {
        None
    } else {
        Some(AuthError::BadHeader("expected alg EdDSA".to_owned()))
    }
}

/// Checks the claims `iss`, `exp` and `sub` at `now`.
pub fn check_claims(
    iss: Option<&str>,
    exp: Option<u64>,
    sub: Option<&str>,
    trusted_issuer: Option<&str>,
    now_unix: u64,
) -> (result: Result<AuthenticatedSubject, AuthError>)
    ensures
        verdict_view(result) == claims_verdict(
            optional_text(iss),
            exp,
            optional_text(sub),
            optional_text(trusted_issuer),
            now_unix,
        ),
{
    if let Some(expected) = trusted_issuer {
        let matching = match iss {
            Some(iss) => same_text(iss, expected),
            None => false,
        };
        if !matching {
            return Err(AuthError::WrongIssuer);
        }
    }
    let exp: u64 = match exp {
        Some(exp) => exp,
        None => {
            return Err(AuthError::BadClaims("missing numeric exp".to_owned()));
        },
    };
    if now_unix >= exp {
        return Err(AuthError::Expired);
    }
    match sub {
        Some(sub) => Ok(AuthenticatedSubject { subject: sub.to_owned() }),
        None => Err(AuthError::BadClaims("missing sub".to_owned())),
    }
}

fn check_header(header: &str) -> (error: Option<AuthError>)
    ensures
        error is Some <==> header_error(header@) is Some,
        error is Some ==> error->0@ == header_error(header@)->0,
{
    let bytes = match decode_base64url(header) {
        Some(bytes) => bytes,
        None => {
            return Some(AuthError::BadHeader("not base64url".to_owned()));
        },
    };
    match read_json(bytes.as_slice()) {
        Ok(value) => {
            let alg = get_text(&value, "alg");
            check_algorithm(borrowed(&alg))
        },
        Err(error) => Some(AuthError::BadHeader(error)),
    }
}

fn check_signature(trusted_key: &VerifyingKey, header: &str, claims: &str, signature: &str) -> (
    verified: bool)
    ensures
        verified == signature_verifies(trusted_key@, header@, claims@, signature@),
{
    match decode_base64url(signature) {
        Some(bytes) => {
            let input = header.to_owned().concat(".").concat(claims);
            trusted_key.verifies(input.as_str().as_bytes(), bytes.as_slice())
        },
        None => false,
    }
}

fn check_claims_segment(claims: &str, trusted_issuer: Option<&str>, now_unix: u64) -> (result: Result<
    AuthenticatedSubject,
    AuthError,
>)
    ensures
        verdict_view(result) == claims_segment_verdict(
            claims@,
            optional_text(trusted_issuer),
            now_unix,
        ),
{
    let bytes = match decode_base64url(claims) {
        Some(bytes) => bytes,
        None => {
            return Err(AuthError::BadClaims("not base64url".to_owned()));
        },
    };
    match read_json(bytes.as_slice()) {
        Ok(value) => {
            let iss = get_text(&value, "iss");
            let exp = get_unsigned(&value, "exp");
            let sub = get_text(&value, "sub");
            check_claims(borrowed(&iss), exp, borrowed(&sub), trusted_issuer, now_unix)
        },
        Err(error) => Err(AuthError::BadClaims(error)),
    }
}

/// Verifies a token against `trusted_key` at `now_unix`: whom it speaks for, or
/// what is wrong with it. Whatever is in doubt is an error.
pub fn verify_token(
    trusted_key: &VerifyingKey,
    token: &str,
    trusted_issuer: Option<&str>,
    now_unix: u64,
) -> (result: Result<AuthenticatedSubject, AuthError>)
    ensures
        verdict_view(result) == token_verdict(
            trusted_key@,
            token@,
            optional_text(trusted_issuer),
            now_unix,
        ),
{
    let (header, claims, signature) = match split_token(token) {
        Some(segments) => segments,
        None => {
            return Err(AuthError::MalformedToken);
        },
    };
    if let Some(error) = check_header(header.as_str()) {
        return Err(error);
    }
    if !check_signature(trusted_key, header.as_str(), claims.as_str(), signature.as_str()) {
        return Err(AuthError::BadSignature);
    }
    check_claims_segment(claims.as_str(), trusted_issuer, now_unix)
}

/// The header of an issued token.
pub open spec fn issued_header() -> Map<Seq<char>, JsonMember> {
    Map::empty().insert("alg"@, JsonMember::Text(TOKEN_ALG@)).insert(
        "typ"@,
        JsonMember::Text("JWT"@),
    )
}

/// The claims of an issued token.
pub open spec fn issued_claims(
    issuer: Seq<char>,
    subject: Seq<char>,
    issued_at: u64,
    expires_at: u64,
) -> Map<Seq<char>, JsonMember> {
    Map::empty().insert("sub"@, JsonMember::Text(subject)).insert(
        "iss"@,
        JsonMember::Text(issuer),
    ).insert("iat"@, JsonMember::Unsigned(issued_at)).insert(
        "exp"@,
        JsonMember::Unsigned(expires_at),
    )
}

/// JSON in base64url.
pub open spec fn json_segment(members: Map<Seq<char>, JsonMember>) -> Seq<char> {
    base64url(encode_utf8(json_written(members)))
}

/// A token with this header and these claims, signed with the key of a seed.
pub open spec fn signed_token(
    seed: Seq<u8>,
    header: Map<Seq<char>, JsonMember>,
    claims: Map<Seq<char>, JsonMember>,
) -> Seq<char> {
    let input = signing_input(json_segment(header), json_segment(claims));
    input + "."@ + base64url(ed25519_signature(seed, encode_utf8(input)))
}

/// When a token issued at `now` expires.
pub open spec fn expiry(now: u64, ttl: nat) -> u64 {
    if now + ttl / NANOS_PER_SEC as nat > u64::MAX {
        u64::MAX
    } else {
        (now + ttl / NANOS_PER_SEC as nat) as u64
    }
}

/// What verification under the issuing key makes of an issued token at `now`.
pub open spec fn issued_verdict(
    issuer: Seq<char>,
    subject: Seq<char>,
    expires_at: u64,
    trusted_issuer: Option<Seq<char>>,
    now: u64,
) -> Result<Seq<char>, AuthErrorView> {
    if trusted_issuer is Some && trusted_issuer != Some(issuer) {
        Err(AuthErrorView::WrongIssuer)
    } else if now >= expires_at {
        Err(AuthErrorView::Expired)
    } else {
        Ok(subject)
    }
}

/// A base64url text holds no dot.
proof fn lemma_no_dot(text: Seq<char>)
    requires
        forall|i: int| 0 <= i < text.len() ==> is_base64url_char(#[trigger] text[i]),
    ensures
        !text.contains('.'),
{
    if text.contains('.') {
        let i = text.index_of('.');
        assert(is_base64url_char(text[i]));
    }
}

/// Joining three segments with dots and taking the token apart again.
proof fn lemma_segments_of_joined(header: Seq<char>, claims: Seq<char>, signature: Seq<char>)
    requires
        header.len() > 0,
        claims.len() > 0,
        signature.len() > 0,
        !header.contains('.'),
        !claims.contains('.'),
        !signature.contains('.'),
    ensures
        token_segments(signing_input(header, claims) + "."@ + signature) == Some(
            (header, claims, signature),
        ),
{
    reveal_strlit(".");
    let token = signing_input(header, claims) + "."@ + signature;
    let rest = claims.push('.') + signature;
    assert(token =~= header.push('.') + rest);
    lemma_split_once(header, '.', rest);
    lemma_split_once(claims, '.', signature);
}

fn write_header() -> (header: serde_json::Value)
    ensures
        json_members(header) == Some(issued_header()),
        all_plain(issued_header()),
{
    let mut header = empty_object();
    put_text(&mut header, "alg", TOKEN_ALG);
    put_text(&mut header, "typ", "JWT");
    proof {
        reveal_strlit("alg");
        reveal_strlit("typ");
        lemma_not_reserved("alg"@);
        lemma_not_reserved("typ"@);
    }
    header
}

fn write_claims(issuer: &str, subject: &str, issued_at: u64, expires_at: u64) -> (claims:
    serde_json::Value)
    ensures
        json_members(claims) == Some(issued_claims(issuer@, subject@, issued_at, expires_at)),
        all_plain(issued_claims(issuer@, subject@, issued_at, expires_at)),
{
    let mut claims = empty_object();
    put_text(&mut claims, "sub", subject);
    put_text(&mut claims, "iss", issuer);
    put_unsigned(&mut claims, "iat", issued_at);
    put_unsigned(&mut claims, "exp", expires_at);
    proof {
        reveal_strlit("sub");
        reveal_strlit("iss");
        reveal_strlit("iat");
        reveal_strlit("exp");
        lemma_not_reserved("sub"@);
        lemma_not_reserved("iss"@);
        lemma_not_reserved("iat"@);
        lemma_not_reserved("exp"@);
    }
    claims
}

fn encode_segment(value: &serde_json::Value) -> (segment: String)
    requires
        json_members(*value) is Some,
        all_plain(json_members(*value)->0),
    ensures
        segment@ == json_segment(json_members(*value)->0),
        segment@.len() > 0,
        !segment@.contains('.'),
        forall|i: int| 0 <= i < segment@.len() ==> is_base64url_char(#[trigger] segment@[i]),
        base64url_decoded(segment@) is Some,
        json_read(base64url_decoded(segment@)->0) == Ok::<_, Seq<char>>(json_members(*value)),
{
    let text = write_json(value);
    let segment = encode_base64url(text.as_str().as_bytes());
    proof {
        lemma_no_dot(segment@);
    }
    segment
}

/// Issues a token for `subject`, signed with `key`. Verification under the public
/// half of the key gives the subject back until the token expires, unless a
/// different issuer is asked for.
pub fn issue_token(
    key: &SigningKey,
    issuer: &str,
    subject: &str,
    now_unix: u64,
    ttl: Duration,
) -> (result: Result<String, AuthError>)
    ensures
        result is Ok,
        result->Ok_0@.len() > 0,
        forall|i: int|
            0 <= i < result->Ok_0@.len() ==> !is_white_space(#[trigger] result->Ok_0@[i]),
        result->Ok_0@ == signed_token(
            key@,
            issued_header(),
            issued_claims(issuer@, subject@, now_unix, expiry(now_unix, ttl@)),
        ),
        forall|trusted_issuer: Option<Seq<char>>, now: u64| #[trigger]
            token_verdict(ed25519_public(key@), result->Ok_0@, trusted_issuer, now)
                == issued_verdict(
                issuer@,
                subject@,
                expiry(now_unix, ttl@),
                trusted_issuer,
                now,
            ),
{
    let expires_at: u64 = now_unix.saturating_add(ttl.as_secs());
    let header = encode_segment(&write_header());
    let claims = encode_segment(&write_claims(issuer, subject, now_unix, expires_at));
    let input = header.clone().concat(".").concat(claims.as_str());
    let signature_bytes = key.sign(input.as_str().as_bytes());
    let signature = encode_base64url(signature_bytes.as_slice());
    let token = input.clone().concat(".").concat(signature.as_str());
    proof {
        lemma_no_dot(signature@);
        lemma_segments_of_joined(header@, claims@, signature@);
        lemma_members_of_issued(issuer@, subject@, now_unix, expires_at);
        reveal_strlit(".");
        assert forall|i: int| 0 <= i < token@.len() implies !is_white_space(
            #[trigger] token@[i],
        ) by {
            let h = header@.len() as int;
            let c = claims@.len() as int;
            if i < h {
                assert(token@[i] == header@[i]);
            } else if h < i < h + 1 + c {
                assert(token@[i] == claims@[i - h - 1]);
            } else if i > h + 1 + c {
                assert(token@[i] == signature@[i - h - c - 2]);
            }
        }
    }
    Ok(token)
}

proof fn lemma_members_of_issued(
    issuer: Seq<char>,
    subject: Seq<char>,
    issued_at: u64,
    expires_at: u64,
)
    ensures
        text_member(Some(issued_header()), "alg"@) == Some(TOKEN_ALG@),
        ({
            let claims = Some(issued_claims(issuer, subject, issued_at, expires_at));
            &&& text_member(claims, "iss"@) == Some(issuer)
            &&& text_member(claims, "sub"@) == Some(subject)
            &&& unsigned_member(claims, "exp"@) == Some(expires_at)
        }),
{
    reveal_strlit("alg");
    reveal_strlit("typ");
    reveal_strlit("sub");
    reveal_strlit("iss");
    reveal_strlit("iat");
    reveal_strlit("exp");
    assert("alg"@[0] != "typ"@[0]);
    assert("sub"@[0] != "iss"@[0]);
    assert("sub"@[0] != "iat"@[0]);
    assert("sub"@[0] != "exp"@[0]);
    assert("iss"@[1] != "iat"@[1]);
    assert("iss"@[0] != "exp"@[0]);
    assert("iat"@[0] != "exp"@[0]);
}

/// A token that passes has everything it needs: three segments, the `EdDSA`
/// algorithm in its header, a signature that verifies under the trusted key,
/// the trusted issuer where there is one, an expiry that lies ahead, and a
/// subject, which is what verification answers.
pub proof fn law_accepted_tokens_are_sound(
    public: Seq<u8>,
    token: Seq<char>,
    trusted_issuer: Option<Seq<char>>,
    now: u64,
)
    requires
        token_verdict(public, token, trusted_issuer, now) is Ok,
    ensures
        token_segments(token) is Some,
        ({
            let (header, claims, signature) = token_segments(token)->0;
            let header_members = json_read(base64url_decoded(header)->0);
            let members = json_read(base64url_decoded(claims)->0);
            &&& base64url_decoded(header) is Some
            &&& header_members is Ok
            &&& text_member(header_members->Ok_0, "alg"@) == Some(TOKEN_ALG@)
            &&& base64url_decoded(signature) is Some
            &&& ed25519_verifies(
                public,
                encode_utf8(signing_input(header, claims)),
                base64url_decoded(signature)->0,
            )
            &&& base64url_decoded(claims) is Some
            &&& members is Ok
            &&& trusted_issuer is Some ==> text_member(members->Ok_0, "iss"@) == trusted_issuer
            &&& unsigned_member(members->Ok_0, "exp"@) is Some
            &&& now < unsigned_member(members->Ok_0, "exp"@)->0
            &&& text_member(members->Ok_0, "sub"@) == Some(
                token_verdict(public, token, trusted_issuer, now)->Ok_0,
            )
        }),
{
}

/// Expiry is final: a token that has expired never passes again.
pub proof fn law_expiry_is_final(
    public: Seq<u8>,
    token: Seq<char>,
    trusted_issuer: Option<Seq<char>>,
    now: u64,
    later: u64,
)
    requires
        token_verdict(public, token, trusted_issuer, now) == Err::<Seq<char>, _>(
            AuthErrorView::Expired,
        ),
        now <= later,
    ensures
        token_verdict(public, token, trusted_issuer, later) == Err::<Seq<char>, _>(
            AuthErrorView::Expired,
        ),
{
}

/// `SystemTime::elapsed` of `UNIX_EPOCH`: the time since the epoch, in whole seconds;
/// nothing where the system clock stands before the epoch. The result depends on the
/// moment of the call, so nothing is claimed of it.
#[verifier::external_body]
fn seconds_since_epoch() -> (secs: Option<u64>) {
    std::time::UNIX_EPOCH.elapsed().ok().map(|since| since.as_secs())
}

/// The Unix time for a reading of the system clock.
pub open spec fn unix_time_of(since_epoch: Option<u64>) -> u64 {
    match since_epoch {
        Some(secs) => secs,
        None => 0,
    }
}

/// Reading the system clock can give the Unix time `now`.
pub closed spec fn is_unix_now(now: u64) -> bool {
    exists|reading: Option<u64>| #[trigger]
        call_ensures(seconds_since_epoch, (), reading) && now == unix_time_of(reading)
}

/// Current Unix time in seconds, zero where the system clock stands before the
/// epoch.
pub fn unix_now() -> (now: u64)
    ensures
        is_unix_now(now),
{
    unix_time(seconds_since_epoch())
}

/// The Unix time for a reading of the system clock: zero for a clock that stands
/// before the epoch.
pub fn unix_time(since_epoch: Option<u64>) -> (secs: u64)
    ensures
        secs == unix_time_of(since_epoch),
{
    match since_epoch {
        Some(secs) => secs,
        None => 0,
    }
}

/// A character with the Unicode property `White_Space`.
pub open spec fn is_white_space(c: char) -> bool {
    ||| '\u{9}' <= c <= '\u{d}'
    ||| c == '\u{20}'
    ||| c == '\u{85}'
    ||| c == '\u{a0}'
    ||| c == '\u{1680}'
    ||| '\u{2000}' <= c <= '\u{200a}'
    ||| '\u{2028}' <= c <= '\u{2029}'
    ||| c == '\u{202f}'
    ||| c == '\u{205f}'
    ||| c == '\u{3000}'
}

/// Whether `c` has the Unicode property `White_Space`.
pub fn white_space(c: char) -> (white: bool)
    ensures
        white == is_white_space(c),
{
    ('\u{9}' <= c && c <= '\u{d}') || c == '\u{20}' || c == '\u{85}' || c == '\u{a0}' || c
        == '\u{1680}' || ('\u{2000}' <= c && c <= '\u{200a}') || ('\u{2028}' <= c && c
        <= '\u{2029}') || c == '\u{202f}' || c == '\u{205f}' || c == '\u{3000}'
}

/// All of `text` before `from` and from `to` on is white space.
pub open spec fn is_core(text: Seq<char>, from: int, to: int) -> bool {
    &&& 0 <= from <= to <= text.len()
    &&& forall|i: int| 0 <= i < from ==> is_white_space(#[trigger] text[i])
    &&& forall|i: int| to <= i < text.len() ==> is_white_space(#[trigger] text[i])
}

/// `token` is all that `text` holds besides white space around it.
pub open spec fn is_only_word(text: Seq<char>, token: Seq<char>) -> bool {
    &&& token.len() > 0
    &&& forall|i: int| 0 <= i < token.len() ==> !is_white_space(#[trigger] token[i])
    &&& exists|from: int, to: int|
        #[trigger] is_core(text, from, to) && text.subrange(from, to) == token
}

/// The token that an `Authorization` header value carries: the scheme `Bearer`,
/// in exactly that spelling, one space, and then a single word.
pub open spec fn carries_token(header: Seq<char>, token: Seq<char>) -> bool {
    "Bearer "@.is_prefix_of(header) && is_only_word(header.skip("Bearer "@.len() as int), token)
}

/// The token that an `Authorization` header value carries, if it carries one.
pub open spec fn carried_token(header: Option<Seq<char>>) -> Option<Seq<char>> {
    match header {
        Some(header) => if exists|token: Seq<char>| carries_token(header, token) {
            Some(choose|token: Seq<char>| carries_token(header, token))
        } else {
            None
        },
        None => None,
    }
}

/// Extracts the bearer token from an `Authorization` header value; nothing where
/// the value carries none.
pub fn bearer_token(authorization_header: Option<&str>) -> (token: Option<&str>)
    ensures
        match token {
            Some(token) => authorization_header is Some && carries_token(
                authorization_header->0@,
                token@,
            ),
            None => authorization_header is Some ==> forall|token: Seq<char>|
                !carries_token(authorization_header->0@, token),
        },
        optional_text(token) == carried_token(optional_text(authorization_header)),
{
    let value = match authorization_header {
        Some(value) => value,
        None => {
            return None;
        },
    };
    let chars = chars_of(value);
    if !starts_with(&chars, "Bearer ") {
        return None;
    }
    let start: usize = chars_of("Bearer ").len();
    let ghost rest = value@.skip(start as int);
    let mut from: usize = start;
    while from < chars.len() && white_space(chars[from])
        invariant
            start <= from <= chars@.len(),
            forall|i: int| start <= i < from ==> is_white_space(#[trigger] chars@[i]),
        decreases chars@.len() - from,
    {
        from += 1;
    }
    let mut to: usize = chars.len();
    while to > from && white_space(chars[to - 1])
        invariant
            start <= from <= to <= chars@.len(),
            forall|i: int| to <= i < chars@.len() ==> is_white_space(#[trigger] chars@[i]),
        decreases to,
    {
        to -= 1;
    }
    proof {
        assert forall|i: int| 0 <= i < from - start implies is_white_space(
            #[trigger] rest[i],
        ) by {
            assert(rest[i] == chars@[i + start]);
        }
        assert forall|i: int| to - start <= i < rest.len() implies is_white_space(
            #[trigger] rest[i],
        ) by {
            assert(rest[i] == chars@[i + start]);
        }
        assert(is_core(rest, from - start, to - start));
    }
    if from == to {
        proof {
            assert forall|token: Seq<char>| !carries_token(value@, token) by {
                if is_only_word(rest, token) {
                    let (f, t) = choose|f: int, t: int|
                        #[trigger] is_core(rest, f, t) && rest.subrange(f, t) == token;
                    assert(token[0] == rest[f]);
                    assert(is_white_space(rest[f]));
                }
            }
        }
        return None;
    }
    let mut i: usize = from;
    while i < to
        invariant
            from <= i <= to <= chars@.len(),
            forall|k: int| from <= k < i ==> !is_white_space(#[trigger] chars@[k]),
        ensures
            i <= to,
            forall|k: int| from <= k < i ==> !is_white_space(#[trigger] chars@[k]),
            i < to ==> is_white_space(chars@[i as int]),
        decreases to - i,
    {
        if white_space(chars[i]) {
            break;
        }
        i += 1;
    }
    if i < to {
        proof {
            assert forall|token: Seq<char>| !carries_token(value@, token) by {
                if is_only_word(rest, token) {
                    let (f, t) = choose|f: int, t: int|
                        #[trigger] is_core(rest, f, t) && rest.subrange(f, t) == token;
                    assert(rest[from - start] == chars@[from as int]);
                    assert(rest[to - start - 1] == chars@[to - 1]);
                    assert(rest[i - start] == chars@[i as int]);
                    assert(token[i - start - f] == rest[i - start]);
                }
            }
        }
        return None;
    }
    let token = value.substring_char(from, to);
    proof {
        assert(rest.subrange(from - start, to - start) =~= token@);
        assert forall|k: int| 0 <= k < token@.len() implies !is_white_space(
            #[trigger] token@[k],
        ) by {
            assert(token@[k] == chars@[k + from]);
        }
        lemma_carried(value@, token@);
    }
    Some(token)
}

/// A header value carries one token at most.
pub proof fn law_bearer_token_is_unique(header: Seq<char>, a: Seq<char>, b: Seq<char>)
    requires
        carries_token(header, a),
        carries_token(header, b),
    ensures
        a == b,
{
    let rest = header.skip("Bearer "@.len() as int);
    let (fa, ta) = choose|f: int, t: int|
        #[trigger] is_core(rest, f, t) && rest.subrange(f, t) == a;
    let (fb, tb) = choose|f: int, t: int|
        #[trigger] is_core(rest, f, t) && rest.subrange(f, t) == b;
    assert(rest[fa] == a[0]);
    assert(rest[fb] == b[0]);
    assert(rest[ta - 1] == a.last());
    assert(rest[tb - 1] == b.last());
}

proof fn lemma_carried(header: Seq<char>, token: Seq<char>)
    requires
        carries_token(header, token),
    ensures
        carried_token(Some(header)) == Some(token),
{
    assert(carries_token(Some(header)->0, token));
    law_bearer_token_is_unique(header, token, carried_token(Some(header))->0);
}

/// A word behind the scheme is carried as it is.
pub proof fn law_bearer_header_carries_its_token(token: Seq<char>)
    requires
        token.len() > 0,
        forall|i: int| 0 <= i < token.len() ==> !is_white_space(#[trigger] token[i]),
    ensures
        carries_token("Bearer "@ + token, token),
        carried_token(Some("Bearer "@ + token)) == Some(token),
{
    let header = "Bearer "@ + token;
    assert("Bearer "@ =~= header.subrange(0, "Bearer "@.len() as int));
    let rest = header.skip("Bearer "@.len() as int);
    assert(rest =~= token);
    assert(is_core(rest, 0, rest.len() as int));
    assert(rest.subrange(0, rest.len() as int) =~= token);
    lemma_carried(header, token);
}

/// Where the signing key lives, as shown to an operator.
#[derive(Debug, Clone, PartialEq, Eq)]
pub struct KeyPaths {
    /// The keys directory.
    pub keys_dir: String,
    /// The private key file in it.
    pub private_key: String,
    /// The public key file in it.
    pub public_key: String,
}

/// What came of reading the private key file.
#[derive(Debug, Clone, PartialEq, Eq)]
pub enum KeyFile {
    /// The text of the file.
    Found(String),
    /// There is no such file.
    Missing,
    /// The file is there, but could not be read, and why.
    Unreadable(String),
}

/// What has just been done to get hold of the signing key. Where something
/// failed, the error text says why.
pub enum KeyProgress {
    /// The private key file was looked at.
    Read(KeyFile),
    /// The keys directory was to be made, for a key that is not stored yet.
    DirectoryMade(SigningKey, Result<(), String>),
    /// The private key file was to be written.
    PrivateKeyWritten(SigningKey, Result<(), String>),
    /// The public key file was to be written.
    PublicKeyWritten(SigningKey, Result<(), String>),
}

/// What to do next to get hold of the signing key.
pub enum KeyAction {
    /// Make the keys directory, for this new key.
    MakeDirectory(SigningKey),
    /// Write this text to the private key file, for its owner alone to read.
    WritePrivateKey(SigningKey, String),
    /// Write this text to the public key file.
    WritePublicKey(SigningKey, String),
    /// Use this key. The flag says whether it is new.
    Ready(SigningKey, bool),
    /// Refuse to start.
    Refuse(AuthError),
}

/// An action by its bytes and characters.
pub enum KeyActionView {
    MakeDirectory(Seq<u8>),
    WritePrivateKey(Seq<u8>, Seq<char>),
    WritePublicKey(Seq<u8>, Seq<char>),
    Ready(Seq<u8>, bool),
    Refuse(AuthErrorView),
}

impl View for KeyAction {
    type V = KeyActionView;

    open spec fn view(&self) -> KeyActionView {
        match self {
            KeyAction::MakeDirectory(key) => KeyActionView::MakeDirectory(key@),
            KeyAction::WritePrivateKey(key, text) => KeyActionView::WritePrivateKey(key@, text@),
            KeyAction::WritePublicKey(key, text) => KeyActionView::WritePublicKey(key@, text@),
            KeyAction::Ready(key, new) => KeyActionView::Ready(key@, *new),
            KeyAction::Refuse(error) => KeyActionView::Refuse(error@),
        }
    }
}

/// A refusal because of a key.
pub open spec fn key_refusal(message: Seq<char>) -> KeyActionView {
    KeyActionView::Refuse(AuthErrorView::BadKeyMaterial(message))
}

/// What is made of a private key file with this text.
pub open spec fn key_file_action(path: Seq<char>, text: Seq<char>) -> KeyActionView {
    match pkcs8_pem_read(text) {
        Ok(seed) => KeyActionView::Ready(seed, false),
        Err(error) => key_refusal(path + ": "@ + error),
    }
}

/// What follows from progress. Where there is no private key file yet, a new key
/// is drawn.
pub open spec fn follows(paths: KeyPaths, progress: KeyProgress, action: KeyActionView) -> bool {
    match progress {
        KeyProgress::Read(KeyFile::Found(text)) => action == key_file_action(
            paths.private_key@,
            text@,
        ),
        KeyProgress::Read(KeyFile::Missing) => action is MakeDirectory && is_drawn_seed(
            action->MakeDirectory_0,
        ),
        KeyProgress::Read(KeyFile::Unreadable(error)) => action == key_refusal(
            "cannot read "@ + paths.private_key@ + ": "@ + error@,
        ),
        KeyProgress::DirectoryMade(key, Ok(_)) => action == KeyActionView::WritePrivateKey(
            key@,
            pkcs8_pem(key@),
        ),
        KeyProgress::DirectoryMade(_, Err(error)) => action == key_refusal(
            "cannot create "@ + paths.keys_dir@ + ": "@ + error@,
        ),
        KeyProgress::PrivateKeyWritten(key, Ok(_)) => action == KeyActionView::WritePublicKey(
            key@,
            spki_pem(ed25519_public(key@)),
        ),
        KeyProgress::PrivateKeyWritten(_, Err(error)) => action == key_refusal(
            "cannot write "@ + paths.private_key@ + ": "@ + error@,
        ),
        KeyProgress::PublicKeyWritten(key, Ok(_)) => action == KeyActionView::Ready(key@, true),
        KeyProgress::PublicKeyWritten(_, Err(error)) => action == key_refusal(
            "cannot write "@ + paths.public_key@ + ": "@ + error@,
        ),
    }
}

/// Decides the next step to get hold of the signing key: load the stored one, or
/// make and store a new one on first boot. Anything that goes wrong refuses the
/// start. A private key that is stored is loaded again, as the same key.
pub fn load_or_create_signing_key(paths: &KeyPaths, progress: KeyProgress) -> (action: KeyAction)
    ensures
        follows(*paths, progress, action@),
        action matches KeyAction::WritePrivateKey(key, text) ==> key_file_action(
            paths.private_key@,
            text@,
        ) == KeyActionView::Ready(key@, false),
        action matches KeyAction::WritePublicKey(key, text) ==> spki_pem_read(text@) == Ok::<
            _,
            Seq<char>,
        >(ed25519_public(key@)),
{
    match progress {
        KeyProgress::Read(KeyFile::Found(text)) => match SigningKey::from_pkcs8_pem(
            text.as_str(),
        ) {
            Ok(key) => KeyAction::Ready(key, false),
            Err(error) => KeyAction::Refuse(
                AuthError::BadKeyMaterial(
                    paths.private_key.clone().concat(": ").concat(error.as_str()),
                ),
            ),
        },
        KeyProgress::Read(KeyFile::Missing) => KeyAction::MakeDirectory(SigningKey::generate()),
        KeyProgress::Read(KeyFile::Unreadable(error)) => refuse_key(
            "cannot read ",
            paths.private_key.as_str(),
            error.as_str(),
        ),
        KeyProgress::DirectoryMade(key, Ok(_)) => {
            let text = key.to_pkcs8_pem();
            KeyAction::WritePrivateKey(key, text)
        },
        KeyProgress::DirectoryMade(_, Err(error)) => refuse_key(
            "cannot create ",
            paths.keys_dir.as_str(),
            error.as_str(),
        ),
        KeyProgress::PrivateKeyWritten(key, Ok(_)) => {
            let text = key.public_key_pem();
            KeyAction::WritePublicKey(key, text)
        },
        KeyProgress::PrivateKeyWritten(_, Err(error)) => refuse_key(
            "cannot write ",
            paths.private_key.as_str(),
            error.as_str(),
        ),
        KeyProgress::PublicKeyWritten(key, Ok(_)) => KeyAction::Ready(key, true),
        KeyProgress::PublicKeyWritten(_, Err(error)) => refuse_key(
            "cannot write ",
            paths.public_key.as_str(),
            error.as_str(),
        ),
    }
}

fn refuse_key(attempt: &str, path: &str, error: &str) -> (action: KeyAction)
    ensures
        action@ == key_refusal(attempt@ + path@ + ": "@ + error@),
{
    KeyAction::Refuse(
        AuthError::BadKeyMaterial(
            attempt.to_owned().concat(path).concat(": ").concat(error),
        ),
    )
}

/// Whether progress reports something that failed.
pub open spec fn reports_failure(progress: KeyProgress) -> bool {
    match progress {
        KeyProgress::Read(file) => match file {
            KeyFile::Found(text) => pkcs8_pem_read(text@) is Err,
            KeyFile::Missing => false,
            KeyFile::Unreadable(_) => true,
        },
        KeyProgress::DirectoryMade(_, outcome) => outcome is Err,
        KeyProgress::PrivateKeyWritten(_, outcome) => outcome is Err,
        KeyProgress::PublicKeyWritten(_, outcome) => outcome is Err,
    }
}

/// Key trouble of any kind refuses the start, and nothing else does: there is no fallback
/// to running without the key.
pub proof fn law_key_trouble_refuses_the_start(
    paths: KeyPaths,
    progress: KeyProgress,
    action: KeyActionView,
)
    requires
        follows(paths, progress, action),
    ensures
        action is Refuse <==> reports_failure(progress),
{
}

/// A token of three segments: none is empty, none holds a dot, and dots join them.
pub open spec fn is_joined(
    token: Seq<char>,
    header: Seq<char>,
    claims: Seq<char>,
    signature: Seq<char>,
) -> bool {
    &&& token == header + seq!['.'] + claims + seq!['.'] + signature
    &&& header.len() > 0 && !header.contains('.')
    &&& claims.len() > 0 && !claims.contains('.')
    &&& signature.len() > 0 && !signature.contains('.')
}

/// A token is taken apart into the three segments that were joined, and nothing else passes
/// for a token.
pub proof fn law_tokens_are_three_segments(
    token: Seq<char>,
    header: Seq<char>,
    claims: Seq<char>,
    signature: Seq<char>,
)
    ensures
        token_segments(token) == Some((header, claims, signature)) <==> is_joined(
            token,
            header,
            claims,
            signature,
        ),
{
    reveal_strlit(".");
    if is_joined(token, header, claims, signature) {
        lemma_segments_of_joined(header, claims, signature);
        assert("."@ =~= seq!['.']);
    }
    if token_segments(token) == Some((header, claims, signature)) {
        law_split_is_at_the_first(token, '.');
        let (_, rest) = split_once(token, '.')->0;
        law_split_is_at_the_first(rest, '.');
        assert(token =~= header + seq!['.'] + claims + seq!['.'] + signature);
    }
}

/// Verification is complete: a token of three segments passes, and speaks for the subject
/// that its claims name, if its header is a JSON object that declares `EdDSA`, its
/// signature is one of the first two segments under the trusted key, and its claims are a
/// JSON object with the trusted issuer, where there is one, an expiry that lies ahead, and
/// the subject. Whatever else header and claims hold does not matter.
pub proof fn law_good_tokens_pass(
    public: Seq<u8>,
    token: Seq<char>,
    header: Seq<char>,
    claims: Seq<char>,
    signature: Seq<char>,
    header_members: Map<Seq<char>, JsonMember>,
    claim_members: Map<Seq<char>, JsonMember>,
    subject: Seq<char>,
    expires_at: u64,
    trusted_issuer: Option<Seq<char>>,
    now: u64,
)
    requires
        is_joined(token, header, claims, signature),
        base64url_decoded(header) is Some,
        json_read(base64url_decoded(header)->0) == Ok::<_, Seq<char>>(Some(header_members)),
        header_members.contains_key("alg"@),
        header_members["alg"@] == JsonMember::Text("EdDSA"@),
        base64url_decoded(signature) is Some,
        ed25519_verifies(
            public,
            encode_utf8(header + seq!['.'] + claims),
            base64url_decoded(signature)->0,
        ),
        base64url_decoded(claims) is Some,
        json_read(base64url_decoded(claims)->0) == Ok::<_, Seq<char>>(Some(claim_members)),
        trusted_issuer is Some ==> claim_members.contains_key("iss"@) && claim_members["iss"@]
            == JsonMember::Text(trusted_issuer->0),
        claim_members.contains_key("exp"@),
        claim_members["exp"@] == JsonMember::Unsigned(expires_at),
        now < expires_at,
        claim_members.contains_key("sub"@),
        claim_members["sub"@] == JsonMember::Text(subject),
    ensures
        token_verdict(public, token, trusted_issuer, now) == Ok::<_, AuthErrorView>(subject),
{
    reveal_strlit(".");
    assert("."@ =~= seq!['.']);
    law_tokens_are_three_segments(token, header, claims, signature);
}

/// Verification is sound: a token that passes has all that, and speaks for the subject
/// that its claims name.
pub proof fn law_only_good_tokens_pass(
    public: Seq<u8>,
    token: Seq<char>,
    trusted_issuer: Option<Seq<char>>,
    now: u64,
)
    requires
        token_verdict(public, token, trusted_issuer, now) is Ok,
    ensures
        exists|header: Seq<char>, claims: Seq<char>, signature: Seq<char>|
            {
                &&& #[trigger] is_joined(token, header, claims, signature)
                &&& base64url_decoded(header) is Some
                &&& json_read(base64url_decoded(header)->0) is Ok
                &&& json_read(base64url_decoded(header)->0)->Ok_0 is Some
                &&& json_read(base64url_decoded(header)->0)->Ok_0->0.contains_key("alg"@)
                &&& json_read(base64url_decoded(header)->0)->Ok_0->0["alg"@] == JsonMember::Text(
                    "EdDSA"@,
                )
                &&& base64url_decoded(signature) is Some
                &&& ed25519_verifies(
                    public,
                    encode_utf8(header + seq!['.'] + claims),
                    base64url_decoded(signature)->0,
                )
                &&& base64url_decoded(claims) is Some
                &&& json_read(base64url_decoded(claims)->0) is Ok
                &&& json_read(base64url_decoded(claims)->0)->Ok_0 is Some
                &&& ({
                    let members = json_read(base64url_decoded(claims)->0)->Ok_0->0;
                    &&& trusted_issuer is Some ==> members.contains_key("iss"@)
                        && members["iss"@] == JsonMember::Text(trusted_issuer->0)
                    &&& members.contains_key("exp"@)
                    &&& members["exp"@] is Unsigned
                    &&& now < members["exp"@]->Unsigned_0
                    &&& members.contains_key("sub"@)
                    &&& members["sub"@] == JsonMember::Text(
                        token_verdict(public, token, trusted_issuer, now)->Ok_0,
                    )
                })
            },
{
    reveal_strlit(".");
    assert("."@ =~= seq!['.']);
    let (header, claims, signature) = token_segments(token)->0;
    law_tokens_are_three_segments(token, header, claims, signature);
    assert(is_joined(token, header, claims, signature));
}

/// A refused token is refused for the first thing that is wrong with it: its form, then its
/// header, then its signature, then, in this order, its claims, its issuer, its expiry
/// and its subject.
pub proof fn law_refusals_name_the_first_fault(
    public: Seq<u8>,
    token: Seq<char>,
    header: Seq<char>,
    claims: Seq<char>,
    signature: Seq<char>,
    trusted_issuer: Option<Seq<char>>,
    now: u64,
)
    ensures
        (forall|h: Seq<char>, c: Seq<char>, s: Seq<char>| !is_joined(token, h, c, s))
            ==> token_verdict(public, token, trusted_issuer, now) == Err::<Seq<char>, _>(
            AuthErrorView::MalformedToken,
        ),
        is_joined(token, header, claims, signature) ==> {
            let verdict = token_verdict(public, token, trusted_issuer, now);
            let header_bytes = base64url_decoded(header);
            let header_read = json_read(header_bytes->0);
            let alg = text_member(header_read->Ok_0, "alg"@);
            let signed = base64url_decoded(signature) is Some && ed25519_verifies(
                public,
                encode_utf8(header + seq!['.'] + claims),
                base64url_decoded(signature)->0,
            );
            let claim_bytes = base64url_decoded(claims);
            let claims_read = json_read(claim_bytes->0);
            let members = claims_read->Ok_0;
            let iss = text_member(members, "iss"@);
            let exp = unsigned_member(members, "exp"@);
            if header_bytes is None {
                verdict == Err::<Seq<char>, _>(AuthErrorView::BadHeader("not base64url"@))
            } else if header_read is Err {
                verdict == Err::<Seq<char>, _>(AuthErrorView::BadHeader(header_read->Err_0))
            } else if alg != Some("EdDSA"@) {
                verdict == Err::<Seq<char>, _>(AuthErrorView::BadHeader("expected alg EdDSA"@))
            } else if !signed {
                verdict == Err::<Seq<char>, _>(AuthErrorView::BadSignature)
            } else if claim_bytes is None {
                verdict == Err::<Seq<char>, _>(AuthErrorView::BadClaims("not base64url"@))
            } else if claims_read is Err {
                verdict == Err::<Seq<char>, _>(AuthErrorView::BadClaims(claims_read->Err_0))
            } else if trusted_issuer is Some && iss != trusted_issuer {
                verdict == Err::<Seq<char>, _>(AuthErrorView::WrongIssuer)
            } else if exp is None {
                verdict == Err::<Seq<char>, _>(AuthErrorView::BadClaims("missing numeric exp"@))
            } else if exp->0 <= now {
                verdict == Err::<Seq<char>, _>(AuthErrorView::Expired)
            } else if text_member(members, "sub"@) is None {
                verdict == Err::<Seq<char>, _>(AuthErrorView::BadClaims("missing sub"@))
            } else {
                verdict is Ok
            }
        },
{
    reveal_strlit(".");
    assert("."@ =~= seq!['.']);
    law_tokens_are_three_segments(token, header, claims, signature);
    if token_segments(token) is Some {
        let (h, c, s) = token_segments(token)->0;
        law_tokens_are_three_segments(token, h, c, s);
        assert(is_joined(token, h, c, s));
    }
}

/// A token lasts as long as it is issued for, whatever that is: it expires as many whole
/// seconds after `now` as there are in `ttl`, or, where that cannot be told any more, never.
pub proof fn law_tokens_last_for_their_time(now: u64, ttl: nat, secs: nat)
    requires
        secs * 1_000_000_000 <= ttl < (secs + 1) * 1_000_000_000,
    ensures
        now + secs <= u64::MAX ==> expiry(now, ttl) == now + secs,
        now + secs > u64::MAX ==> expiry(now, ttl) == u64::MAX,
{
}

/// An issued token passes under the issuing key as its subject from the moment it is issued
/// for as long as it lasts, and from then on it has expired; a different issuer never
/// accepts it.
pub proof fn law_issued_tokens_pass_while_they_last(
    issuer: Seq<char>,
    subject: Seq<char>,
    issued_at: u64,
    ttl: nat,
    secs: nat,
    other: Seq<char>,
    now: u64,
)
    requires
        secs * 1_000_000_000 <= ttl < (secs + 1) * 1_000_000_000,
        issued_at + secs <= u64::MAX,
    ensures
        now < issued_at + secs ==> {
            &&& issued_verdict(issuer, subject, expiry(issued_at, ttl), Some(issuer), now)
                == Ok::<_, AuthErrorView>(subject)
            &&& issued_verdict(issuer, subject, expiry(issued_at, ttl), None, now)
                == Ok::<_, AuthErrorView>(subject)
        },
        now >= issued_at + secs ==> {
            &&& issued_verdict(issuer, subject, expiry(issued_at, ttl), Some(issuer), now)
                == Err::<Seq<char>, _>(AuthErrorView::Expired)
            &&& issued_verdict(issuer, subject, expiry(issued_at, ttl), None, now)
                == Err::<Seq<char>, _>(AuthErrorView::Expired)
        },
        other != issuer ==> issued_verdict(
            issuer,
            subject,
            expiry(issued_at, ttl),
            Some(other),
            now,
        ) == Err::<Seq<char>, _>(AuthErrorView::WrongIssuer),
{
}

/// Issued tokens declare `EdDSA` and `JWT`, and claim the subject, the issuer, when they
/// were issued and when they expire, each as it is given, and nothing else.
pub proof fn law_issued_tokens_claim_what_they_are_issued_for(
    issuer: Seq<char>,
    subject: Seq<char>,
    issued_at: u64,
    expires_at: u64,
    name: Seq<char>,
)
    ensures
        issued_header().contains_key(name) <==> name == "alg"@ || name == "typ"@,
        issued_header()["alg"@] == JsonMember::Text("EdDSA"@),
        issued_header()["typ"@] == JsonMember::Text("JWT"@),
        ({
            let claims = issued_claims(issuer, subject, issued_at, expires_at);
            &&& claims.contains_key(name) <==> name == "sub"@ || name == "iss"@ || name
                == "iat"@ || name == "exp"@
            &&& claims["sub"@] == JsonMember::Text(subject)
            &&& claims["iss"@] == JsonMember::Text(issuer)
            &&& claims["iat"@] == JsonMember::Unsigned(issued_at)
            &&& claims["exp"@] == JsonMember::Unsigned(expires_at)
        }),
{
    lemma_members_of_issued(issuer, subject, issued_at, expires_at);
    reveal_strlit("alg");
    reveal_strlit("typ");
    reveal_strlit("iat");
    reveal_strlit("exp");
    assert("alg"@[0] != "typ"@[0]);
    assert("iat"@[0] != "exp"@[0]);
}

/// A signed token is its header and its claims in base64url, and the signature of just
/// these, in base64url, with dots in between.
pub proof fn law_signed_tokens_are_joined(
    seed: Seq<u8>,
    header: Map<Seq<char>, JsonMember>,
    claims: Map<Seq<char>, JsonMember>,
)
    ensures
        ({
            let first = base64url(encode_utf8(json_written(header)));
            let second = base64url(encode_utf8(json_written(claims)));
            signed_token(seed, header, claims) == first + seq!['.'] + second + seq!['.']
                + base64url(
                ed25519_signature(seed, encode_utf8(first + seq!['.'] + second)),
            )
        }),
{
    reveal_strlit(".");
    assert("."@ =~= seq!['.']);
}

/// Visible ASCII characters are no white space, and neither is any other character but
/// those that Unicode lists as such.
pub proof fn law_white_space_is_listed(c: char)
    ensures
        is_white_space(c) <==> (9 <= c as int <= 13 || c as int == 32 || c as int == 133 || c
            as int == 160 || c as int == 5760 || 8192 <= c as int <= 8202 || c as int == 8232
            || c as int == 8233 || c as int == 8239 || c as int == 8287 || c as int == 12288),
        33 <= c as int <= 126 ==> !is_white_space(c),
{
}

/// All of `text` is white space.
pub open spec fn is_blank(text: Seq<char>) -> bool {
    forall|i: int| 0 <= i < text.len() ==> is_white_space(#[trigger] text[i])
}

/// A bearer token is found between any white space around it.
pub proof fn law_bearer_token_is_found(before: Seq<char>, token: Seq<char>, after: Seq<char>)
    requires
        is_blank(before),
        is_blank(after),
        token.len() > 0,
        forall|i: int| 0 <= i < token.len() ==> !is_white_space(#[trigger] token[i]),
    ensures
        carried_token(Some("Bearer "@ + before + token + after)) == Some(token),
{
    let header = "Bearer "@ + before + token + after;
    let n = "Bearer "@.len() as int;
    assert("Bearer "@ =~= header.subrange(0, n));
    let rest = header.skip(n);
    assert(rest =~= before + token + after);
    let from = before.len() as int;
    let to = from + token.len();
    assert forall|i: int| 0 <= i < from implies is_white_space(#[trigger] rest[i]) by {
        assert(rest[i] == before[i]);
    }
    assert forall|i: int| to <= i < rest.len() implies is_white_space(#[trigger] rest[i]) by {
        assert(rest[i] == after[i - to]);
    }
    assert(is_core(rest, from, to));
    assert(rest.subrange(from, to) =~= token);
    lemma_carried(header, token);
}

/// There is no bearer token without the header, without the scheme in front, with nothing
/// but white space behind it, or with white space in the middle of it. One that is found
/// stands behind the scheme, between white space.
pub proof fn law_nothing_else_is_a_bearer_token(header: Seq<char>)
    ensures
        carried_token(None) is None,
        carried_token(Some(header)) matches Some(token) ==> exists|
            before: Seq<char>,
            after: Seq<char>,
        |
            #![trigger is_blank(before), is_blank(after)]
            {
                &&& is_blank(before)
                &&& is_blank(after)
                &&& header == "Bearer "@ + before + token + after
                &&& token.len() > 0
                &&& forall|i: int| 0 <= i < token.len() ==> !is_white_space(#[trigger] token[i])
            },
{
    if carried_token(Some(header)) is Some {
        let token = carried_token(Some(header))->0;
        assert(exists|t: Seq<char>| carries_token(Some(header)->0, t));
        assert(carries_token(header, token));
        let n = "Bearer "@.len() as int;
        let rest = header.skip(n);
        let (from, to) = choose|f: int, t: int|
            #[trigger] is_core(rest, f, t) && rest.subrange(f, t) == token;
        let before = rest.take(from);
        let after = rest.skip(to);
        assert(is_blank(before));
        assert forall|i: int| 0 <= i < after.len() implies is_white_space(
            #[trigger] after[i],
        ) by {
            assert(after[i] == rest[i + to]);
        }
        assert(is_blank(after));
        assert("Bearer "@ == header.subrange(0, n));
        assert(header =~= "Bearer "@ + before + token + after);
    }
}

/// A reading of the clock is the Unix time, and a clock that stands before the epoch is
/// taken to stand at it.
pub proof fn law_unix_time_is_the_reading(secs: u64)
    ensures
        unix_time_of(Some(secs)) == secs,
        unix_time_of(None) == 0,
{
}

/// On first boot one key is drawn, and that key is what is stored, in both files, and used;
/// a private key file that can be read is used as it is. In between, every step goes on
/// to the next.
pub proof fn law_one_key_is_stored_and_used(
    paths: KeyPaths,
    key: SigningKey,
    text: String,
    action: KeyActionView,
)
    ensures
        follows(paths, KeyProgress::Read(KeyFile::Missing), action) ==> action is MakeDirectory
            && is_drawn_seed(action->MakeDirectory_0),
        follows(paths, KeyProgress::DirectoryMade(key, Ok(())), action) <==> action
            == KeyActionView::WritePrivateKey(key@, pkcs8_pem(key@)),
        follows(paths, KeyProgress::PrivateKeyWritten(key, Ok(())), action) <==> action
            == KeyActionView::WritePublicKey(key@, spki_pem(ed25519_public(key@))),
        follows(paths, KeyProgress::PublicKeyWritten(key, Ok(())), action) <==> action
            == KeyActionView::Ready(key@, true),
        pkcs8_pem_read(text@) is Ok ==> (follows(
            paths,
            KeyProgress::Read(KeyFile::Found(text)),
            action,
        ) <==> action == KeyActionView::Ready(pkcs8_pem_read(text@)->Ok_0, false)),
{
}

/// A refusal because of a key names the file or directory, and why.
pub proof fn law_key_refusals_name_the_trouble(
    paths: KeyPaths,
    key: SigningKey,
    text: String,
    error: String,
    action: KeyActionView,
)
    ensures
        pkcs8_pem_read(text@) is Err && follows(
            paths,
            KeyProgress::Read(KeyFile::Found(text)),
            action,
        ) ==> action == KeyActionView::Refuse(
            AuthErrorView::BadKeyMaterial(
                paths.private_key@ + seq![':', ' '] + pkcs8_pem_read(text@)->Err_0,
            ),
        ),
        follows(paths, KeyProgress::Read(KeyFile::Unreadable(error)), action) ==> action
            == KeyActionView::Refuse(
            AuthErrorView::BadKeyMaterial(
                "cannot read "@ + paths.private_key@ + seq![':', ' '] + error@,
            ),
        ),
        follows(paths, KeyProgress::DirectoryMade(key, Err(error)), action) ==> action
            == KeyActionView::Refuse(
            AuthErrorView::BadKeyMaterial(
                "cannot create "@ + paths.keys_dir@ + seq![':', ' '] + error@,
            ),
        ),
        follows(paths, KeyProgress::PrivateKeyWritten(key, Err(error)), action) ==> action
            == KeyActionView::Refuse(
            AuthErrorView::BadKeyMaterial(
                "cannot write "@ + paths.private_key@ + seq![':', ' '] + error@,
            ),
        ),
        follows(paths, KeyProgress::PublicKeyWritten(key, Err(error)), action) ==> action
            == KeyActionView::Refuse(
            AuthErrorView::BadKeyMaterial(
                "cannot write "@ + paths.public_key@ + seq![':', ' '] + error@,
            ),
        ),
{
    reveal_strlit(": ");
    assert(": "@ =~= seq![':', ' ']);
}

/// The log says what is wrong, with the whole reason behind it where there is one.
pub proof fn law_auth_messages_give_the_reason(reason: Seq<char>)
    ensures
        auth_error_message(AuthErrorView::BadKeyMaterial(reason)) == "bad key material: "@
            + reason,
        auth_error_message(AuthErrorView::BadHeader(reason)) == "bad token header: "@ + reason,
        auth_error_message(AuthErrorView::BadClaims(reason)) == "bad token claims: "@ + reason,
        auth_error_message(AuthErrorView::MalformedToken)
            == "malformed token: expected header.payload.signature"@,
        auth_error_message(AuthErrorView::BadSignature) == "signature verification failed"@,
        auth_error_message(AuthErrorView::Expired) == "token expired"@,
        auth_error_message(AuthErrorView::WrongIssuer) == "token issuer mismatch"@,
{
}

/// The Unix time is what the system's clock says, in whole seconds, or zero where it stands
/// before the epoch, and nothing else.
proof fn law_unix_time_is_that_of_the_clock(now: u64)
    ensures
        is_unix_now(now) <==> (call_ensures(seconds_since_epoch, (), Some(now)) || (now == 0
            && call_ensures(seconds_since_epoch, (), None))),
{
    if is_unix_now(now) {
        let reading = choose|reading: Option<u64>| #[trigger]
            call_ensures(seconds_since_epoch, (), reading) && now == unix_time_of(reading);
        if reading is Some {
            assert(reading == Some(now));
        }
    }
    if call_ensures(seconds_since_epoch, (), Some(now)) {
        assert(unix_time_of(Some(now)) == now);
    }
    if now == 0 && call_ensures(seconds_since_epoch, (), None) {
        assert(unix_time_of(None) == now);
    }
}

/// Errors and results are seen as they are.
pub proof fn law_auth_errors_are_seen_whole(
    error: AuthError,
    text: String,
    verified: AuthenticatedSubject,
)
    ensures
        AuthError::BadKeyMaterial(text)@ == AuthErrorView::BadKeyMaterial(text@),
        AuthError::BadHeader(text)@ == AuthErrorView::BadHeader(text@),
        AuthError::BadClaims(text)@ == AuthErrorView::BadClaims(text@),
        AuthError::MalformedToken@ == AuthErrorView::MalformedToken,
        AuthError::BadSignature@ == AuthErrorView::BadSignature,
        AuthError::Expired@ == AuthErrorView::Expired,
        AuthError::WrongIssuer@ == AuthErrorView::WrongIssuer,
        verdict_view(Ok(verified)) == Ok::<_, AuthErrorView>(verified.subject@),
        verdict_view(Err(error)) == Err::<Seq<char>, _>(error@),
{
}

/// Actions on keys are seen as they are.
pub proof fn law_key_actions_are_seen_whole(
    key: SigningKey,
    text: String,
    new: bool,
    error: AuthError,
)
    ensures
        KeyAction::MakeDirectory(key)@ == KeyActionView::MakeDirectory(key@),
        KeyAction::WritePrivateKey(key, text)@ == KeyActionView::WritePrivateKey(key@, text@),
        KeyAction::WritePublicKey(key, text)@ == KeyActionView::WritePublicKey(key@, text@),
        KeyAction::Ready(key, new)@ == KeyActionView::Ready(key@, new),
        KeyAction::Refuse(error)@ == KeyActionView::Refuse(error@),
{
}

} // verus!
