use ratewall::auth::{issue_token, unix_now, AuthError, DEFAULT_TOKEN_TTL};
use ratewall::auth_login::{login, login_at, LoginRequest, LoginState, DEMO_PASSWORD, DEMO_USERNAME};
use ratewall::keys::SigningKey;
use ratewall::middleware::{
    request_id, usable_request_id, REQUEST_ID_HEADER, SUBJECT_FIELD,
};
use ratewall::middleware_auth::{check_bearer, check_bearer_at, AuthState, Rejection};
use ratewall::time::Duration;

fn ttl() -> Duration {
    Duration::from_secs(DEFAULT_TOKEN_TTL)
}

fn door(key: &SigningKey) -> AuthState {
    AuthState::new(key.verifying_key(), Some("ratewall".to_string()))
}

fn login_state(key: SigningKey) -> LoginState {
    LoginState { signing_key: key, issuer: "ratewall".to_string(), ttl: ttl() }
}

fn request(username: &str, password: &str) -> LoginRequest {
    LoginRequest { username: username.to_string(), password: password.to_string() }
}

fn challenge() -> Vec<(String, String)> {
    vec![("www-authenticate".to_string(), "Bearer".to_string())]
}

fn token_in(body: &str) -> String {
    let json: serde_json::Value = serde_json::from_str(body).unwrap();
    json["token"].as_str().unwrap().to_string()
}

#[test]
fn missing_token_is_401() {
    let key = SigningKey::generate();
    let rejection = check_bearer(&door(&key), None).unwrap_err();
    assert_eq!(rejection, Rejection::NoToken);
    let reply = rejection.reply();
    assert_eq!(reply.status, 401);
    assert_eq!(reply.headers, challenge());
    assert_eq!(reply.body, "missing or malformed bearer token");
    assert_eq!(rejection.message(), "missing or malformed Authorization header");
}

#[test]
fn valid_token_passes_through() {
    let key = SigningKey::generate();
    let token = issue_token(&key, "ratewall", "demo-user", unix_now(), ttl()).unwrap();
    let header = format!("Bearer {token}");
    assert_eq!(check_bearer(&door(&key), Some(&header)), Ok("demo-user".to_string()));
}

#[test]
fn expired_token_is_401() {
    let key = SigningKey::generate();
    // Issued "long ago" with the default lifetime: now well past expiry.
    let token = issue_token(&key, "ratewall", "demo-user", 1_000, ttl()).unwrap();
    let header = format!("Bearer {token}");
    let rejection = check_bearer(&door(&key), Some(&header)).unwrap_err();
    assert_eq!(rejection, Rejection::BadToken(AuthError::Expired));
    assert_eq!(rejection.reply().status, 401);
    assert_eq!(rejection.message(), "token expired");
    assert_eq!(
        check_bearer_at(&door(&key), Some(&header), 1_100),
        Ok("demo-user".to_string())
    );
}

#[test]
fn signed_by_other_key_is_401() {
    let signer = SigningKey::generate();
    let verifier = SigningKey::generate();
    let token = issue_token(&signer, "ratewall", "demo-user", unix_now(), ttl()).unwrap();
    let header = format!("Bearer {token}");
    let rejection = check_bearer(&door(&verifier), Some(&header)).unwrap_err();
    let reply = rejection.reply();
    assert_eq!(reply.status, 401);
    assert_eq!(reply.headers, challenge());
    assert_eq!(reply.body, "invalid token");
}

#[test]
fn wrong_scheme_header_is_401() {
    let key = SigningKey::generate();
    let rejection = check_bearer(&door(&key), Some("Basic dXNlcjpwYXNz")).unwrap_err();
    assert_eq!(rejection.reply().status, 401);
}

#[test]
fn rejections_do_not_tell_why() {
    let expired = Rejection::BadToken(AuthError::Expired).reply();
    let forged = Rejection::BadToken(AuthError::BadSignature).reply();
    assert_eq!(expired, forged);
}

#[test]
fn valid_credentials_yield_verifiable_token() {
    let key = SigningKey::generate();
    let reply = login(&login_state(key), &request("demo", "demo-password"));
    assert_eq!(reply.status, 200);
    assert_eq!(
        reply.headers,
        vec![("content-type".to_string(), "application/json".to_string())]
    );
    let json: serde_json::Value = serde_json::from_str(&reply.body).unwrap();
    assert_eq!(json["token_type"], "Bearer");
    assert_eq!(json["expires_in"], 900);
    let header = format!("Bearer {}", token_in(&reply.body));
    assert_eq!(check_bearer(&door(&key), Some(&header)), Ok("demo".to_string()));
}

#[test]
fn a_login_at_a_given_time_is_fixed() {
    let key = SigningKey::from_bytes(&[1u8; 32]);
    let state = login_state(key);
    let reply = login_at(&state, &request(DEMO_USERNAME, DEMO_PASSWORD), 5_000);
    let token = issue_token(&key, "ratewall", "demo", 5_000, ttl()).unwrap();
    assert_eq!(
        reply.body,
        format!("{{\"expires_in\":900,\"token\":\"{token}\",\"token_type\":\"Bearer\"}}")
    );
    let header = format!("Bearer {token}");
    assert!(check_bearer_at(&door(&key), Some(&header), 5_899).is_ok());
    assert!(check_bearer_at(&door(&key), Some(&header), 5_900).is_err());
}

#[test]
fn wrong_password_is_401() {
    let reply = login(&login_state(SigningKey::generate()), &request("demo", "nope"));
    assert_eq!(reply.status, 401);
    assert_eq!(reply.body, "invalid credentials");
    let reply = login(&login_state(SigningKey::generate()), &request("Demo", "demo-password"));
    assert_eq!(reply.status, 401);
}

#[test]
fn subject_field_name_is_the_documented_constant() {
    // The field name is part of the audit-log contract (consumers key on
    // it), so pin it.
    assert_eq!(SUBJECT_FIELD, "subject");
}

#[test]
fn assigns_request_id_when_absent() {
    let id = request_id(None);
    assert_eq!(id.len(), 36); // UUID
    assert_eq!(id.as_bytes()[14], b'4');
    assert!(matches!(id.as_bytes()[19], b'8' | b'9' | b'a' | b'b'));
    assert_ne!(id, request_id(None));
}

#[test]
fn preserves_incoming_request_id() {
    assert_eq!(REQUEST_ID_HEADER, "x-request-id");
    assert_eq!(request_id(Some("my-trace-42")), "my-trace-42");
}

#[test]
fn unusable_request_ids_are_replaced() {
    let longest = "x".repeat(128);
    assert_eq!(request_id(Some(&longest)), longest);
    let too_long = "x".repeat(129);
    assert_eq!(usable_request_id(Some(&too_long)), None);
    assert_eq!(request_id(Some(&too_long)).len(), 36);
    assert_eq!(request_id(Some("")).len(), 36);
}
