//! The upstream verifier: interpretation of the identity provider's answer
//! to a session-verification call, and the service's error taxonomy.
//!
//! The network call itself is made by the embedding binary; everything that
//! decides — which request body is sent, how a status is classified, how the
//! provider's payload is read, and which error each failure becomes — is
//! verified here.

use vstd::prelude::*;
use crate::json::{
    spec_parse_object, spec_string_member, spec_json_string, spec_lookup, spec_member_text,
    spec_parse_members, plain_char, parse_object, lookup_member, append_json_string,
    lemma_lookup_push_other, lemma_escaped_plain, lemma_members_last, lemma_object_of_members,
};
use crate::urls::{join_url, url_join_of};

verus! {

/// The normalized successful result: both identifiers are provider-assigned
/// and opaque. Constructed only as the output of a verification call.
#[derive(Clone, Debug)]
pub struct VerifiedSession {
    pub session_id: String,
    pub user_id: String,
}

impl VerifiedSession {
    /// The session's invariant: both identifiers are non-empty. Every
    /// verification path checks it before handing a session out.
    pub open spec fn wf(&self) -> bool {
        self.session_id@.len() > 0 && self.user_id@.len() > 0
    }
}

/// The service's closed error taxonomy. Every failure of a verification
/// request surfaces as exactly one of these kinds.
#[derive(Clone, Debug)]
pub enum AuthError {
    /// No `Authorization` header was presented.
    MissingAuthorization,
    /// A credential was presented but is unusable (wrong scheme, empty
    /// token, or a header that is not text).
    InvalidAuthorization,
    /// The provider answered and did not confirm an active session. All
    /// non-success upstream statuses and all non-active session states
    /// collapse into this one kind.
    Unauthorized,
    /// The provider could not be reached; the cause is kept for logging
    /// only and never returned to a caller.
    UpstreamTransport(String),
    /// The provider answered with a success status but a body this service
    /// does not recognize; the description is kept for logging only.
    UpstreamMalformed(String),
}

/// The HTTP status each error kind maps to.
pub open spec fn spec_status_code(e: AuthError) -> u16 {
    match e {
        AuthError::MissingAuthorization => 401,
        AuthError::InvalidAuthorization => 401,
        AuthError::Unauthorized => 401,
        AuthError::UpstreamTransport(_) => 502,
        AuthError::UpstreamMalformed(_) => 502,
    }
}

/// The outward-facing message of each error kind. Messages are generic on
/// purpose: they never reveal which verification step failed.
pub open spec fn spec_message(e: AuthError) -> Seq<char> {
    match e {
        AuthError::MissingAuthorization => "missing authorization header"@,
        AuthError::InvalidAuthorization => "invalid authorization header"@,
        AuthError::Unauthorized => "unauthorized"@,
        AuthError::UpstreamTransport(_) => "verification upstream error"@,
        AuthError::UpstreamMalformed(_) => "invalid clerk response"@,
    }
}

/// The serialized error body `{"error":"<message>"}`.
pub open spec fn spec_error_json(message: Seq<char>) -> Seq<char> {
    "{\"error\":"@ + spec_json_string(message) + "}"@
}

/// The serialized success body `{"session_id":"...","user_id":"..."}`.
pub open spec fn spec_session_json(session_id: Seq<char>, user_id: Seq<char>) -> Seq<char> {
    "{\"session_id\":"@ + spec_json_string(session_id) + ",\"user_id\":"@ + spec_json_string(
        user_id,
    ) + "}"@
}

/// The request body `{"token":"..."}` sent to the provider.
pub open spec fn spec_token_json(token: Seq<char>) -> Seq<char> {
    "{\"token\":"@ + spec_json_string(token) + "}"@
}

impl AuthError {
    pub fn status_code(&self) -> (r: u16)
        ensures
            r == spec_status_code(*self),
    {
        match self {
            AuthError::MissingAuthorization => 401,
            AuthError::InvalidAuthorization => 401,
            AuthError::Unauthorized => 401,
            AuthError::UpstreamTransport(_) => 502,
            AuthError::UpstreamMalformed(_) => 502,
        }
    }

    pub fn message(&self) -> (r: String)
        ensures
            r@ == spec_message(*self),
    {
        match self {
            AuthError::MissingAuthorization => "missing authorization header".to_owned(),
            AuthError::InvalidAuthorization => "invalid authorization header".to_owned(),
            AuthError::Unauthorized => "unauthorized".to_owned(),
            AuthError::UpstreamTransport(_) => "verification upstream error".to_owned(),
            AuthError::UpstreamMalformed(_) => "invalid clerk response".to_owned(),
        }
    }

    /// The complete HTTP answer for this error: its status and its
    /// `{"error":"<message>"}` body.
    pub fn into_response(self) -> (r: (u16, String))
        ensures
            r.0 == spec_status_code(self),
            r.1@ == spec_error_json(spec_message(self)),
    {
        let status = self.status_code();
        let message = self.message();
        let body = error_body(message.as_str());
        (status, body)
    }
}

/// Builds the error body `{"error":"<message>"}`.
pub fn error_body(message: &str) -> (r: String)
    ensures
        r@ == spec_error_json(message@),
{
    let mut out: String = "{\"error\":".to_owned();
    append_json_string(&mut out, message);
    out.append("}");
    proof {
        assert(out@ =~= spec_error_json(message@));
    }
    out
}

impl VerifiedSession {
    /// Serializes the session as the service's success body.
    pub fn to_json(&self) -> (r: String)
        ensures
            r@ == spec_session_json(self.session_id@, self.user_id@),
    {
        let mut out: String = "{\"session_id\":".to_owned();
        append_json_string(&mut out, self.session_id.as_str());
        out.append(",\"user_id\":");
        append_json_string(&mut out, self.user_id.as_str());
        out.append("}");
        proof {
            assert(out@ =~= spec_session_json(self.session_id@, self.user_id@));
        }
        out
    }
}

/// Builds the body of the outbound verification request: exactly
/// `{"token":"<token>"}` for the presented token.
pub fn upstream_request_body(token: &str) -> (r: String)
    ensures
        r@ == spec_token_json(token@),
{
    let mut out: String = "{\"token\":".to_owned();
    append_json_string(&mut out, token);
    out.append("}");
    proof {
        assert(out@ =~= spec_token_json(token@));
    }
    out
}

/// The record read off an object's members: its `id`, `user_id` and
/// `status` members must all be present with string values; any member
/// with another key has no bearing on the result.
pub open spec fn spec_record_of_fields(fields: Seq<(Seq<char>, Option<Seq<char>>)>) -> Option<
    (Seq<char>, Seq<char>, Seq<char>),
> {
    match (
        spec_lookup(fields, "id"@),
        spec_lookup(fields, "user_id"@),
        spec_lookup(fields, "status"@),
    ) {
        (Some(Some(id)), Some(Some(user_id)), Some(Some(status))) => Some((id, user_id, status)),
        _ => None,
    }
}

/// What the provider's payload means: `None` unless the body is a JSON
/// object carrying the three record members as strings.
pub open spec fn spec_upstream_record(s: Seq<char>) -> Option<(Seq<char>, Seq<char>, Seq<char>)> {
    match spec_parse_object(s) {
        Some(fields) => spec_record_of_fields(fields),
        None => None,
    }
}

/// Forward compatibility of the upstream payload: a member with any key
/// other than the three the record reads, appended to an object's
/// members, never changes the record read from them — an unknown field
/// cannot cause a failure that the payload without it would not cause.
pub proof fn unknown_member_ignored(
    fields: Seq<(Seq<char>, Option<Seq<char>>)>,
    key: Seq<char>,
    val: Option<Seq<char>>,
)
    requires
        key != "id"@,
        key != "user_id"@,
        key != "status"@,
    ensures
        spec_record_of_fields(fields.push((key, val))) == spec_record_of_fields(fields),
{
    lemma_lookup_push_other(fields, (key, val), "id"@);
    lemma_lookup_push_other(fields, (key, val), "user_id"@);
    lemma_lookup_push_other(fields, (key, val), "status"@);
}

/// Symmetry of the request framing: the body this service sends upstream
/// for a token reads back, by its own object grammar, as exactly that
/// token under the `token` key — whatever characters the token holds.
pub proof fn token_body_round_trip(token: Seq<char>)
    ensures
        spec_string_member(spec_token_json(token), "token"@) == Some(token),
{
    reveal_strlit("{\"token\":");
    reveal_strlit("}");
    reveal_strlit("token");
    let key = "token"@;
    assert(forall|i: int| 0 <= i < key.len() ==> plain_char(#[trigger] key[i]));
    lemma_escaped_plain(key);
    let body = spec_member_text(key, token) + seq!['}'] + Seq::<char>::empty();
    lemma_members_last(key, token, Seq::<char>::empty());
    assert(spec_parse_members(body) == Some(
        (seq![(key, Some(token))], Seq::<char>::empty()),
    ));
    assert(spec_token_json(token) =~= seq!['{'] + body);
    lemma_object_of_members(body, seq![(key, Some(token))]);
    assert(spec_parse_object(spec_token_json(token)) == Some(seq![(key, Some(token))]));
    assert(spec_lookup(seq![(key, Some(token))], key) == Some(Some(token)));
}

/// The provider's raw session record: the three fields this service reads.
/// Any further members of the payload are accepted and ignored.
pub struct UpstreamSessionRecord {
    pub id: String,
    pub user_id: String,
    pub status: String,
}

/// Reads the provider's payload: a JSON object whose members `id`,
/// `user_id` and `status` are strings. Unknown members never fail the
/// parse; a missing or non-string required member does.
pub fn parse_upstream_record(body: &str) -> (r: Option<UpstreamSessionRecord>)
    ensures
        match r {
            Some(rec) => spec_upstream_record(body@) == Some((rec.id@, rec.user_id@, rec.status@)),
            None => spec_upstream_record(body@) is None,
        },
{
    match parse_object(body) {
        None => None,
        Some(fields) => {
            let id = lookup_member(&fields, "id");
            let user_id = lookup_member(&fields, "user_id");
            let status = lookup_member(&fields, "status");
            match (id, user_id, status) {
                (Some(id), Some(user_id), Some(status)) => Some(
                    UpstreamSessionRecord { id, user_id, status },
                ),
                _ => None,
            }
        },
    }
}

/// Whether an upstream HTTP status counts as success.
pub open spec fn upstream_ok(status: u16) -> bool {
    200 <= status < 300
}

/// What came back from one outbound HTTP call: the service's call to the
/// identity provider, or the client's call to the service.
pub enum UpstreamOutcome {
    /// The call failed before any HTTP status was available (connection
    /// refused, DNS failure, timeout); the cause is kept for logging.
    Transport(String),
    /// The far side answered with this status and body text.
    Response { status: u16, body: String },
}

/// The upstream verifier: holds the service credential and the provider's
/// verification endpoint, joined once at construction.
#[derive(Clone, Debug)]
pub struct ClerkVerifier {
    pub secret_key: String,
    pub verify_url: String,
}

impl ClerkVerifier {
    /// Joins the fixed verification path onto the provider's base URL.
    /// Returns `None` when the base does not admit the join, the case the
    /// embedding binary treats as fatal at startup.
    pub fn new(secret_key: String, api_base: &str) -> (r: Option<ClerkVerifier>)
        ensures
            match r {
                Some(v) => {
                    &&& url_join_of(api_base@, "/v1/sessions/verify"@) == Some(v.verify_url@)
                    &&& v.secret_key@ == secret_key@
                },
                None => url_join_of(api_base@, "/v1/sessions/verify"@) is None,
            },
    {
        match join_url(api_base, "/v1/sessions/verify") {
            Some(verify_url) => Some(ClerkVerifier { secret_key, verify_url }),
            None => None,
        }
    }

    /// Turns the outcome of the one outbound call into the service's
    /// normalized result:
    /// - a transport failure is reported as such;
    /// - every non-success status collapses to `Unauthorized`;
    /// - a success status with an unreadable body is `UpstreamMalformed`;
    /// - a readable record whose `id` or `user_id` is empty cannot become
    ///   a session (both identifiers are non-empty by the session's
    ///   invariant), so it too is `UpstreamMalformed`;
    /// - a usable record is a session exactly when its status is
    ///   `active`, and any other state is `Unauthorized`.
    pub fn verify_session(&self, outcome: UpstreamOutcome) -> (r: Result<
        VerifiedSession,
        AuthError,
    >)
        ensures
            r matches Ok(v) ==> v.wf(),
            outcome matches UpstreamOutcome::Transport(cause) ==> (r matches Err(
                AuthError::UpstreamTransport(m),
            ) && m@ == cause@),
            outcome matches UpstreamOutcome::Response { status, body } ==> {
                if !upstream_ok(status) {
                    r matches Err(AuthError::Unauthorized)
                } else {
                    match spec_upstream_record(body@) {
                        None => r matches Err(AuthError::UpstreamMalformed(_)),
                        Some(rec) => {
                            if rec.2 == "active"@ {
                                if rec.0.len() > 0 && rec.1.len() > 0 {
                                    r matches Ok(v) && v.session_id@ == rec.0 && v.user_id@
                                        == rec.1
                                } else {
                                    r matches Err(AuthError::UpstreamMalformed(_))
                                }
                            } else {
                                r matches Err(AuthError::Unauthorized)
                            }
                        },
                    }
                }
            },
    {
        match outcome {
            UpstreamOutcome::Transport(cause) => Err(AuthError::UpstreamTransport(cause)),
            UpstreamOutcome::Response { status, body } => {
                if !(200 <= status && status < 300) {
                    return Err(AuthError::Unauthorized);
                }
                match parse_upstream_record(body.as_str()) {
                    None => Err(
                        AuthError::UpstreamMalformed(
                            "unrecognized verification response body".to_owned(),
                        ),
                    ),
                    Some(record) => {
                        let active: String = "active".to_owned();
                        if record.status == active {
                            if record.id.as_str().is_empty() || record.user_id.as_str().is_empty()
                            {
                                Err(
                                    AuthError::UpstreamMalformed(
                                        "verification response carries an empty identifier".to_owned(),
                                    ),
                                )
                            } else {
                                Ok(
                                    VerifiedSession {
                                        session_id: record.id,
                                        user_id: record.user_id,
                                    },
                                )
                            }
                        } else {
                            Err(AuthError::Unauthorized)
                        }
                    },
                }
            },
        }
    }
}

} // verus!
