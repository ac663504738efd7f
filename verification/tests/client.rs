use auth_api::auth::UpstreamOutcome;
use auth_api::client::{parse_session_record, AuthApiClient, AuthApiError};

fn client() -> AuthApiClient {
    AuthApiClient::new("http://127.0.0.1:8081".to_string())
}

fn response(status: u16, body: &str) -> UpstreamOutcome {
    UpstreamOutcome::Response { status, body: body.to_string() }
}

#[test]
fn request_url_joins_the_me_endpoint() {
    assert_eq!(client().request_url().unwrap(), "http://127.0.0.1:8081/v1/me");
}

#[test]
fn request_url_fails_on_a_bad_base() {
    let err = AuthApiClient::new("not a url".to_string()).request_url().unwrap_err();
    assert!(matches!(err, AuthApiError::Url(_)));
}

#[test]
fn ok_reply_parses_into_a_session() {
    let session = client()
        .verify_session(response(200, r#"{"session_id":"s1","user_id":"u1"}"#))
        .unwrap();
    assert_eq!(session.session_id, "s1");
    assert_eq!(session.user_id, "u1");
}

#[test]
fn extra_members_in_the_service_body_are_ignored() {
    let session = client()
        .verify_session(response(
            200,
            r#"{"session_id":"s1","trace":{"hops":[1,2]},"user_id":"u1","served_by":"pod-3"}"#,
        ))
        .unwrap();
    assert_eq!(session.session_id, "s1");
    assert_eq!(session.user_id, "u1");
}

#[test]
fn unauthorized_reply_is_unauthorized() {
    let err = client().verify_session(response(401, r#"{"error":"unauthorized"}"#)).unwrap_err();
    assert!(matches!(err, AuthApiError::Unauthorized));
    assert_eq!(err.message(), "unauthorized");
}

#[test]
fn other_statuses_keep_status_and_body() {
    let err = client().verify_session(response(503, "overloaded")).unwrap_err();
    match &err {
        AuthApiError::Upstream(code, body) => {
            assert_eq!(*code, 503);
            assert_eq!(body, "overloaded");
        }
        other => panic!("unexpected error: {:?}", other.message()),
    }
    assert_eq!(err.message(), "upstream error 503: overloaded");
}

#[test]
fn transport_failure_keeps_its_cause() {
    let err = client()
        .verify_session(UpstreamOutcome::Transport("dns failure".to_string()))
        .unwrap_err();
    assert!(matches!(err, AuthApiError::Http(_)));
    assert_eq!(err.message(), "http error: dns failure");
}

#[test]
fn empty_identifiers_in_the_service_body_are_a_parse_error() {
    let err = client()
        .verify_session(response(200, r#"{"session_id":"","user_id":"u1"}"#))
        .unwrap_err();
    assert!(matches!(err, AuthApiError::Serde(_)));
    let err = client()
        .verify_session(response(200, r#"{"session_id":"s1","user_id":""}"#))
        .unwrap_err();
    assert!(matches!(err, AuthApiError::Serde(_)));
}

#[test]
fn unreadable_success_body_is_a_parse_error() {
    let err = client().verify_session(response(200, "<html>")).unwrap_err();
    assert!(matches!(err, AuthApiError::Serde(_)));
}

#[test]
fn client_reads_back_what_the_service_serializes() {
    let session = client()
        .verify_session(response(200, r#"{"session_id":"sess \"odd\"","user_id":"u\\2"}"#))
        .unwrap();
    let round_tripped = parse_session_record(&session.to_json()).unwrap();
    assert_eq!(round_tripped.session_id, session.session_id);
    assert_eq!(round_tripped.user_id, session.user_id);
}

#[test]
fn url_error_message_names_the_join() {
    let err = AuthApiClient::new("::::".to_string()).request_url().unwrap_err();
    assert_eq!(err.message(), "invalid url: cannot join /v1/me onto base url");
}
