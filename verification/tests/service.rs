use auth_api::auth::{AuthError, ClerkVerifier, UpstreamOutcome, upstream_request_body, error_body};
use auth_api::routes::{extract_bearer_token, health, verify_request_token, AuthHeader, AppState};

fn make_verifier() -> ClerkVerifier {
    ClerkVerifier::new("sk_test_secret".to_string(), "https://api.clerk.com").unwrap()
}

fn response(status: u16, body: &str) -> UpstreamOutcome {
    UpstreamOutcome::Response { status, body: body.to_string() }
}

#[test]
fn health_is_always_200_ok() {
    let (status, body) = health();
    assert_eq!(status, 200);
    assert_eq!(body, "ok");
}

#[test]
fn verifier_joins_the_verification_path_at_construction() {
    let v = make_verifier();
    assert_eq!(v.verify_url, "https://api.clerk.com/v1/sessions/verify");
    assert_eq!(v.secret_key, "sk_test_secret");
}

#[test]
fn verifier_construction_fails_on_an_unjoinable_base() {
    assert!(ClerkVerifier::new("sk".to_string(), "not a url").is_none());
}

#[test]
fn active_session_is_returned_normalized() {
    let out = make_verifier()
        .verify_session(response(200, r#"{"id":"s1","user_id":"u1","status":"active"}"#));
    let session = out.unwrap();
    assert_eq!(session.session_id, "s1");
    assert_eq!(session.user_id, "u1");
    assert_eq!(session.to_json(), r#"{"session_id":"s1","user_id":"u1"}"#);
}

#[test]
fn revoked_session_is_unauthorized() {
    let out = make_verifier()
        .verify_session(response(200, r#"{"id":"s1","user_id":"u1","status":"revoked"}"#));
    let err = out.unwrap_err();
    assert!(matches!(err, AuthError::Unauthorized));
    let (status, body) = err.into_response();
    assert_eq!(status, 401);
    assert_eq!(body, r#"{"error":"unauthorized"}"#);
}

#[test]
fn upstream_500_collapses_to_401_unauthorized() {
    let err = make_verifier().verify_session(response(500, "internal error")).unwrap_err();
    assert!(matches!(err, AuthError::Unauthorized));
    let (status, body) = err.into_response();
    assert_eq!(status, 401);
    assert_eq!(body, r#"{"error":"unauthorized"}"#);
}

#[test]
fn every_non_success_status_collapses_to_unauthorized() {
    for status in [101u16, 301, 400, 401, 403, 404, 429, 500, 502, 503] {
        let err = make_verifier().verify_session(response(status, "nope")).unwrap_err();
        assert!(matches!(err, AuthError::Unauthorized));
        assert_eq!(err.status_code(), 401);
    }
}

#[test]
fn transport_failure_maps_to_502_upstream_error() {
    let err = make_verifier()
        .verify_session(UpstreamOutcome::Transport("connection refused".to_string()))
        .unwrap_err();
    assert!(matches!(err, AuthError::UpstreamTransport(_)));
    let (status, body) = err.into_response();
    assert_eq!(status, 502);
    assert_eq!(body, r#"{"error":"verification upstream error"}"#);
}

#[test]
fn unreadable_success_body_maps_to_502_invalid_response() {
    let err = make_verifier().verify_session(response(200, "not json at all")).unwrap_err();
    assert!(matches!(err, AuthError::UpstreamMalformed(_)));
    let (status, body) = err.into_response();
    assert_eq!(status, 502);
    assert_eq!(body, r#"{"error":"invalid clerk response"}"#);
}

#[test]
fn missing_record_member_is_malformed() {
    let err = make_verifier()
        .verify_session(response(200, r#"{"id":"s1","status":"active"}"#))
        .unwrap_err();
    assert!(matches!(err, AuthError::UpstreamMalformed(_)));
}

#[test]
fn non_string_record_member_is_malformed() {
    let err = make_verifier()
        .verify_session(response(200, r#"{"id":7,"user_id":"u1","status":"active"}"#))
        .unwrap_err();
    assert!(matches!(err, AuthError::UpstreamMalformed(_)));
}

#[test]
fn unknown_payload_members_never_fail_the_parse() {
    let body = r#"{"object":"session","id":"s1","client_id":"c9","user_id":"u1","status":"active","last_active_at":1699999999,"actor":null,"latest_activity":{"device":"mac","pages":[1,2,3]},"abandon_at":false}"#;
    let session = make_verifier().verify_session(response(200, body)).unwrap();
    assert_eq!(session.session_id, "s1");
    assert_eq!(session.user_id, "u1");
}

#[test]
fn empty_identifiers_never_become_a_session() {
    let err = make_verifier()
        .verify_session(response(200, r#"{"id":"","user_id":"u1","status":"active"}"#))
        .unwrap_err();
    assert!(matches!(err, AuthError::UpstreamMalformed(_)));
    assert_eq!(err.status_code(), 502);
    let err = make_verifier()
        .verify_session(response(200, r#"{"id":"s1","user_id":"","status":"active"}"#))
        .unwrap_err();
    assert!(matches!(err, AuthError::UpstreamMalformed(_)));
}

#[test]
fn repeating_a_verification_gives_independent_equal_outcomes() {
    let v = make_verifier();
    let first = v.verify_session(response(200, r#"{"id":"s1","user_id":"u1","status":"active"}"#));
    let second = v.verify_session(response(200, r#"{"id":"s1","user_id":"u1","status":"active"}"#));
    assert_eq!(first.unwrap().to_json(), second.unwrap().to_json());
}

#[test]
fn request_body_carries_exactly_the_token() {
    assert_eq!(upstream_request_body("tok_123"), r#"{"token":"tok_123"}"#);
    assert_eq!(upstream_request_body(""), r#"{"token":""}"#);
    assert_eq!(upstream_request_body("a\"b\\c"), "{\"token\":\"a\\\"b\\\\c\"}");
    assert_eq!(upstream_request_body("tab\there"), "{\"token\":\"tab\\there\"}");
}

#[test]
fn error_body_escapes_its_message() {
    assert_eq!(error_body("unauthorized"), r#"{"error":"unauthorized"}"#);
    assert_eq!(error_body("say \"hi\""), "{\"error\":\"say \\\"hi\\\"\"}");
}

#[test]
fn missing_header_is_rejected_before_any_network_work() {
    let err = extract_bearer_token(&AuthHeader::Absent).unwrap_err();
    assert!(matches!(err, AuthError::MissingAuthorization));
    let (status, body) = err.into_response();
    assert_eq!(status, 401);
    assert_eq!(body, r#"{"error":"missing authorization header"}"#);
}

#[test]
fn malformed_scheme_is_rejected_before_any_network_work() {
    let err = extract_bearer_token(&AuthHeader::Text("Bear abc".to_string())).unwrap_err();
    assert!(matches!(err, AuthError::InvalidAuthorization));
    let (status, body) = err.into_response();
    assert_eq!(status, 401);
    assert_eq!(body, r#"{"error":"invalid authorization header"}"#);
}

#[test]
fn empty_bearer_remainder_is_invalid() {
    let err = extract_bearer_token(&AuthHeader::Text("Bearer ".to_string())).unwrap_err();
    assert!(matches!(err, AuthError::InvalidAuthorization));
}

#[test]
fn non_text_header_is_invalid() {
    let err = extract_bearer_token(&AuthHeader::NotText).unwrap_err();
    assert!(matches!(err, AuthError::InvalidAuthorization));
}

#[test]
fn well_formed_bearer_header_yields_the_token() {
    let token = extract_bearer_token(&AuthHeader::Text("Bearer tok_9".to_string())).unwrap();
    assert_eq!(token, "tok_9");
}

#[test]
fn lowercase_scheme_is_invalid() {
    let err = extract_bearer_token(&AuthHeader::Text("bearer tok".to_string())).unwrap_err();
    assert!(matches!(err, AuthError::InvalidAuthorization));
}

#[test]
fn empty_body_token_never_reaches_upstream() {
    let err = verify_request_token(r#"{"token":""}"#).unwrap_err();
    assert!(matches!(err, AuthError::InvalidAuthorization));
}

#[test]
fn absent_body_token_is_missing_authorization() {
    assert!(matches!(
        verify_request_token(r#"{}"#).unwrap_err(),
        AuthError::MissingAuthorization
    ));
    assert!(matches!(
        verify_request_token("not json").unwrap_err(),
        AuthError::MissingAuthorization
    ));
    assert!(matches!(
        verify_request_token(r#"{"token":17}"#).unwrap_err(),
        AuthError::MissingAuthorization
    ));
}

#[test]
fn present_body_token_is_extracted() {
    assert_eq!(verify_request_token(r#"{"token":"tok_77"}"#).unwrap(), "tok_77");
    assert_eq!(
        verify_request_token(r#" { "note": [1, {"x": "y"}], "token" : "t" } "#).unwrap(),
        "t"
    );
}

#[test]
fn app_state_holds_the_verifier() {
    let state = AppState::new(make_verifier());
    assert_eq!(state.verifier.verify_url, "https://api.clerk.com/v1/sessions/verify");
}
