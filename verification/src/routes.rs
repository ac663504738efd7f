//! The HTTP layer's decisions: reading the credential out of a request
//! (header or body) before any network work, and the health answer. The
//! routing table and the listener live in the embedding binary; every check
//! that decides between the error kinds is verified here.

use vstd::prelude::*;
use crate::auth::{AuthError, ClerkVerifier};
use crate::json::spec_string_member;

verus! {

/// The `Authorization` header as the transport presented it: absent, not
/// valid text, or its textual value.
pub enum AuthHeader {
    Absent,
    NotText,
    Text(String),
}

/// Whether a header value is `Bearer ` followed by a non-empty token.
pub open spec fn spec_has_bearer(h: Seq<char>) -> bool {
    h.len() > 7 && h.subrange(0, 7) == "Bearer "@
}

/// The token after the `Bearer ` prefix.
pub open spec fn spec_bearer_token(h: Seq<char>) -> Seq<char> {
    h.skip(7)
}

/// Reads the bearer token out of the `Authorization` header: an absent
/// header is `MissingAuthorization`; a header that is not text, does not
/// carry the `Bearer ` scheme, or carries it with an empty remainder is
/// `InvalidAuthorization`; otherwise the non-empty token is returned.
pub fn extract_bearer_token(header: &AuthHeader) -> (r: Result<String, AuthError>)
    ensures
        header matches AuthHeader::Absent ==> r matches Err(AuthError::MissingAuthorization),
        header matches AuthHeader::NotText ==> r matches Err(AuthError::InvalidAuthorization),
        header matches AuthHeader::Text(h) ==> {
            if spec_has_bearer(h@) {
                r matches Ok(t) && t@ == spec_bearer_token(h@) && t@.len() > 0
            } else {
                r matches Err(AuthError::InvalidAuthorization)
            }
        },
{
    match header {
        AuthHeader::Absent => Err(AuthError::MissingAuthorization),
        AuthHeader::NotText => Err(AuthError::InvalidAuthorization),
        AuthHeader::Text(h) => {
            let s = h.as_str();
            let n = s.unicode_len();
            proof {
                reveal_strlit("Bearer ");
            }
            if n < 8 {
                proof {
                    assert(!spec_has_bearer(h@));
                }
                return Err(AuthError::InvalidAuthorization);
            }
            let prefix_ok = s.get_char(0) == 'B' && s.get_char(1) == 'e' && s.get_char(2) == 'a'
                && s.get_char(3) == 'r' && s.get_char(4) == 'e' && s.get_char(5) == 'r'
                && s.get_char(6) == ' ';
            if prefix_ok {
                proof {
                    assert(s@.subrange(0, 7) =~= "Bearer "@);
                }
                let token = s.substring_char(7, n);
                proof {
                    assert(token@ =~= spec_bearer_token(h@));
                }
                Ok(token.to_owned())
            } else {
                proof {
                    assert(s@.subrange(0, 7) != "Bearer "@) by {
                        if s@.subrange(0, 7) == "Bearer "@ {
                            assert(s@[0] == s@.subrange(0, 7)[0]);
                            assert(s@[1] == s@.subrange(0, 7)[1]);
                            assert(s@[2] == s@.subrange(0, 7)[2]);
                            assert(s@[3] == s@.subrange(0, 7)[3]);
                            assert(s@[4] == s@.subrange(0, 7)[4]);
                            assert(s@[5] == s@.subrange(0, 7)[5]);
                            assert(s@[6] == s@.subrange(0, 7)[6]);
                        }
                    }
                }
                Err(AuthError::InvalidAuthorization)
            }
        },
    }
}

/// What the verify-by-body endpoint finds in its request body: a body that
/// is not an object with a string member `token` is `MissingAuthorization`;
/// a present but empty token is `InvalidAuthorization` — one consistent
/// policy for both endpoints, an empty token never travels upstream; a
/// non-empty token is returned.
pub fn verify_request_token(body: &str) -> (r: Result<String, AuthError>)
    ensures
        match spec_string_member(body@, "token"@) {
            Some(t) => {
                if t.len() > 0 {
                    r matches Ok(tok) && tok@ == t
                } else {
                    r matches Err(AuthError::InvalidAuthorization)
                }
            },
            None => r matches Err(AuthError::MissingAuthorization),
        },
{
    match crate::json::parse_object(body) {
        None => Err(AuthError::MissingAuthorization),
        Some(fields) => match crate::json::lookup_member(&fields, "token") {
            None => Err(AuthError::MissingAuthorization),
            Some(token) => {
                if token.as_str().unicode_len() == 0 {
                    Err(AuthError::InvalidAuthorization)
                } else {
                    Ok(token)
                }
            },
        },
    }
}

/// The health answer: always `200` with the literal body `ok`, regardless
/// of upstream availability.
pub fn health() -> (r: (u16, String))
    ensures
        r.0 == 200,
        r.1@ == "ok"@,
{
    (200, "ok".to_owned())
}

/// The state threaded through the service's handlers: the one upstream
/// verifier, built at startup.
#[derive(Clone, Debug)]
pub struct AppState {
    pub verifier: ClerkVerifier,
}

impl AppState {
    pub fn new(verifier: ClerkVerifier) -> (r: AppState)
        ensures
            r.verifier == verifier,
    {
        AppState { verifier }
    }
}

} // verus!
