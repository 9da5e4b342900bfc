use ocipkg::distribution::auth::{pick_token, AuthAction, AuthState, Challenge};
use ocipkg::error::Error;

const DOCKER: &str = "Bearer realm=\"https://auth.docker.io/token\",\
service=\"registry.docker.io\",scope=\"repository:samalba/my-app:pull,push\"";

#[test]
fn challenge_with_realm_service_and_scope() {
    let c = Challenge::parse(DOCKER).unwrap();
    assert_eq!(c.realm, "https://auth.docker.io/token");
    assert_eq!(c.service, Some("registry.docker.io".to_string()));
    assert_eq!(c.scope, Some("repository:samalba/my-app:pull,push".to_string()));
    assert_eq!(c.clone(), c);
}

#[test]
fn challenge_with_realm_only() {
    let c = Challenge::parse("Bearer realm=\"https://ghcr.io/token\"").unwrap();
    assert_eq!(
        c,
        Challenge { realm: "https://ghcr.io/token".to_string(), service: None, scope: None }
    );
}

#[test]
fn challenge_takes_parameters_in_any_order() {
    let c = Challenge::parse("Bearer scope=\"s\",other=\"x\",realm=\"r\",realm=\"later\"").unwrap();
    assert_eq!(
        c,
        Challenge { realm: "r".to_string(), service: None, scope: Some("s".to_string()) }
    );
    let empty = Challenge::parse("Bearer realm=\"\",service=\"\"").unwrap();
    assert_eq!(empty.realm, "");
    assert_eq!(empty.service, Some(String::new()));
}

#[test]
fn challenge_rejects_malformed_headers() {
    for header in [
        "",
        "Bearer",
        "Bearer ",
        "Basic realm=\"r\"",
        "bearer realm=\"r\"",
        "Bearer realm=r",
        "Bearer realm=\"r",
        "Bearer realm=\"r\",",
        "Bearer realm=\"r\" ,service=\"s\"",
        "Bearer realm=\"r\", service=\"s\"",
        "Bearer realm=\"r\";service=\"s\"",
        "Bearer =\"r\"",
        "Bearer service=\"s\"",
        "Bearer realm=\"r\"service=\"s\"",
    ] {
        assert_eq!(Challenge::parse(header), Err(Error::ProtocolError), "{}", header);
    }
}

#[test]
fn challenge_then_token_retries_once_with_authorization() {
    let mut auth = AuthState::new();
    assert_eq!(auth.authorization(), None);

    let action = auth.on_response(401, Some(DOCKER));
    let challenge = Challenge::parse(DOCKER).unwrap();
    assert_eq!(action, AuthAction::FetchToken(challenge.clone()));
    assert_eq!(auth, AuthState::TokenRequested(challenge));
    assert_eq!(auth.authorization(), None);

    let action = auth.on_token(Some("secret-token".to_string()));
    assert_eq!(action, AuthAction::Retry);
    assert_eq!(auth.authorization(), Some("Bearer secret-token".to_string()));

    let action = auth.on_response(200, None);
    assert_eq!(action, AuthAction::Proceed);
    assert_eq!(auth, AuthState::Authenticated("secret-token".to_string()));
    assert_eq!(auth.authorization(), Some("Bearer secret-token".to_string()));
}

#[test]
fn second_challenge_is_not_answered_again() {
    let mut auth = AuthState::new();
    auth.on_response(401, Some(DOCKER));
    auth.on_token(Some("stale".to_string()));
    assert_eq!(auth.on_response(401, Some(DOCKER)), AuthAction::Fail(Error::AuthFailure));
    assert_eq!(auth, AuthState::Authenticated("stale".to_string()));
}

#[test]
fn public_registry_needs_no_token() {
    let mut auth = AuthState::new();
    for status in [200u16, 201, 202, 404, 500] {
        assert_eq!(auth.on_response(status, None), AuthAction::Proceed);
        assert_eq!(auth, AuthState::Unauthenticated);
    }
}

#[test]
fn rejected_token_exchange_is_an_auth_failure() {
    let mut auth = AuthState::new();
    auth.on_response(401, Some(DOCKER));
    assert_eq!(auth.on_token(None), AuthAction::Fail(Error::AuthFailure));
    assert_eq!(auth, AuthState::Unauthenticated);
}

#[test]
fn challenge_without_header_or_with_a_bad_one_fails() {
    let mut auth = AuthState::new();
    assert_eq!(auth.on_response(401, None), AuthAction::Fail(Error::AuthFailure));
    assert_eq!(auth, AuthState::Unauthenticated);
    assert_eq!(
        auth.on_response(401, Some("Basic realm=\"r\"")),
        AuthAction::Fail(Error::ProtocolError)
    );
    assert_eq!(auth, AuthState::Unauthenticated);
}

#[test]
fn events_out_of_turn_are_protocol_errors() {
    let mut auth = AuthState::new();
    assert_eq!(auth.on_token(Some("t".to_string())), AuthAction::Fail(Error::ProtocolError));
    assert_eq!(auth, AuthState::Unauthenticated);
    auth.on_response(401, Some(DOCKER));
    assert_eq!(auth.on_response(401, Some(DOCKER)), AuthAction::Fail(Error::ProtocolError));
    let mut given = AuthState::with_token("t".to_string());
    assert_eq!(given.authorization(), Some("Bearer t".to_string()));
    assert_eq!(given.on_token(Some("u".to_string())), AuthAction::Fail(Error::ProtocolError));
    assert_eq!(given, AuthState::Authenticated("t".to_string()));
}

#[test]
fn token_goes_before_access_token() {
    let a = || Some("a".to_string());
    let b = || Some("b".to_string());
    assert_eq!(pick_token(a(), b()), a());
    assert_eq!(pick_token(a(), None), a());
    assert_eq!(pick_token(None, b()), b());
    assert_eq!(pick_token(None, None), None);
}
