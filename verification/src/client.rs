//! The consumer-side verification client: the interpretation half of a
//! round trip to the service's `/v1/me` endpoint. The embedding
//! application performs the HTTP exchange; building the endpoint URL,
//! reading the success body, and classifying every reply are verified
//! here. The client presents the token as a bearer credential rather than
//! in a body, keeping token material out of body-capturing request logs.

use vstd::prelude::*;
use crate::auth::{spec_session_json, UpstreamOutcome, VerifiedSession};
use crate::json::{
    spec_string_member, spec_lookup, spec_member_text, spec_parse_members, spec_parse_object,
    plain_char,
    parse_object, lookup_member, push_char, lemma_escaped_plain, lemma_members_last,
    lemma_members_cons, lemma_object_of_members,
};
use crate::urls::{join_url, url_join_of};

verus! {

/// The client's error taxonomy: the service's outcome kinds as seen from
/// the consumer, plus the client's own two failure modes (URL construction
/// and response parsing).
#[derive(Clone, Debug)]
pub enum AuthApiError {
    /// The service could not be reached; the cause is diagnostic text.
    Http(String),
    /// The service answered `401`: the token is not authenticated.
    Unauthorized,
    /// The service answered with an unexpected status; status and body are
    /// retained for diagnostics.
    Upstream(u16, String),
    /// The service's address does not admit the endpoint join.
    Url(String),
    /// The service's success body could not be read.
    Serde(String),
}

/// What the service's success body means to the client: `None` unless it
/// is a JSON object whose members `session_id` and `user_id` are strings.
/// Further members are accepted and ignored.
pub open spec fn spec_session_record(s: Seq<char>) -> Option<(Seq<char>, Seq<char>)> {
    match (spec_string_member(s, "session_id"@), spec_string_member(s, "user_id"@)) {
        (Some(session_id), Some(user_id)) => Some((session_id, user_id)),
        _ => None,
    }
}

/// Client/server symmetry: the success body the service serializes for a
/// session reads back, under the client's own grammar, as exactly that
/// session's identifiers — whatever characters they hold. Together with
/// the exact serializer and parser contracts, a verified round trip.
pub proof fn session_body_round_trip(session_id: Seq<char>, user_id: Seq<char>)
    ensures
        spec_session_record(spec_session_json(session_id, user_id)) == Some(
            (session_id, user_id),
        ),
{
    reveal_strlit("{\"session_id\":");
    reveal_strlit(",\"user_id\":");
    reveal_strlit("}");
    reveal_strlit("session_id");
    reveal_strlit("user_id");
    let k1 = "session_id"@;
    let k2 = "user_id"@;
    assert(forall|i: int| 0 <= i < k1.len() ==> plain_char(#[trigger] k1[i]));
    assert(forall|i: int| 0 <= i < k2.len() ==> plain_char(#[trigger] k2[i]));
    lemma_escaped_plain(k1);
    lemma_escaped_plain(k2);
    let tail = spec_member_text(k2, user_id) + seq!['}'] + Seq::<char>::empty();
    lemma_members_last(k2, user_id, Seq::<char>::empty());
    assert(spec_parse_members(tail) == Some((seq![(k2, Some(user_id))], Seq::<char>::empty())));
    lemma_members_cons(k1, session_id, tail, seq![(k2, Some(user_id))], Seq::<char>::empty());
    let body = spec_member_text(k1, session_id) + seq![','] + tail;
    let fields = seq![(k1, Some(session_id))] + seq![(k2, Some(user_id))];
    assert(spec_parse_members(body) == Some((fields, Seq::<char>::empty())));
    assert(spec_session_json(session_id, user_id) =~= seq!['{'] + body);
    lemma_object_of_members(body, fields);
    assert(spec_parse_object(spec_session_json(session_id, user_id)) == Some(fields));
    assert(k1 != k2);
    assert(fields[0] == (k1, Some(session_id)));
    assert(fields.skip(1) =~= seq![(k2, Some(user_id))]);
    assert(spec_lookup(fields, k1) == Some(Some(session_id)));
    assert(spec_lookup(seq![(k2, Some(user_id))], k2) == Some(Some(user_id)));
    assert(spec_lookup(fields, k2) == Some(Some(user_id)));
}

/// Reads a success body into the session it describes.
pub fn parse_session_record(body: &str) -> (r: Option<VerifiedSession>)
    ensures
        match r {
            Some(v) => spec_session_record(body@) == Some((v.session_id@, v.user_id@)),
            None => spec_session_record(body@) is None,
        },
{
    match parse_object(body) {
        None => None,
        Some(fields) => {
            let session_id = lookup_member(&fields, "session_id");
            let user_id = lookup_member(&fields, "user_id");
            match (session_id, user_id) {
                (Some(session_id), Some(user_id)) => Some(
                    VerifiedSession { session_id, user_id },
                ),
                _ => None,
            }
        },
    }
}

/// The decimal form of a sixteen-bit value, highest digit first.
pub open spec fn spec_u16_str(v: int) -> Seq<char>
    decreases v,
{
    if v < 0 {
        Seq::empty()
    } else if v < 10 {
        seq![(((0x30 + v) as u8) as char)]
    } else {
        spec_u16_str(v / 10).push((((0x30 + v % 10) as u8) as char))
    }
}

/// Appends the decimal form of `v`.
pub fn append_u16(out: &mut String, v: u16)
    ensures
        final(out)@ == old(out)@ + spec_u16_str(v as int),
    decreases v,
{
    if v < 10 {
        push_char(out, ((0x30 + (v as u8)) as u8) as char);
        proof {
            assert(final(out)@ =~= old(out)@ + spec_u16_str(v as int));
        }
    } else {
        append_u16(out, v / 10);
        push_char(out, ((0x30 + ((v % 10) as u8)) as u8) as char);
        proof {
            assert(final(out)@ =~= old(out)@ + spec_u16_str(v as int));
        }
    }
}

impl AuthApiError {
    /// The diagnostic description of this error, as the calling
    /// application displays it.
    pub fn message(&self) -> (r: String)
        ensures
            self matches AuthApiError::Http(c) ==> r@ == "http error: "@ + c@,
            self matches AuthApiError::Unauthorized ==> r@ == "unauthorized"@,
            self matches AuthApiError::Upstream(code, body) ==> r@ == "upstream error "@
                + spec_u16_str(code as int) + ": "@ + body@,
            self matches AuthApiError::Url(c) ==> r@ == "invalid url: "@ + c@,
            self matches AuthApiError::Serde(c) ==> r@ == "response parse error: "@ + c@,
    {
        match self {
            AuthApiError::Http(c) => {
                let mut out: String = "http error: ".to_owned();
                out.append(c.as_str());
                out
            },
            AuthApiError::Unauthorized => "unauthorized".to_owned(),
            AuthApiError::Upstream(code, body) => {
                let mut out: String = "upstream error ".to_owned();
                append_u16(&mut out, *code);
                out.append(": ");
                out.append(body.as_str());
                proof {
                    assert(out@ =~= "upstream error "@ + spec_u16_str(*code as int) + ": "@
                        + body@);
                }
                out
            },
            AuthApiError::Url(c) => {
                let mut out: String = "invalid url: ".to_owned();
                out.append(c.as_str());
                out
            },
            AuthApiError::Serde(c) => {
                let mut out: String = "response parse error: ".to_owned();
                out.append(c.as_str());
                out
            },
        }
    }
}

/// The verification client: remembers the service's base address; each
/// call is an independent, idempotent round trip — no session cache, no
/// refresh, no retry.
#[derive(Clone, Debug)]
pub struct AuthApiClient {
    pub base_url: String,
}

impl AuthApiClient {
    pub fn new(base_url: String) -> (r: AuthApiClient)
        ensures
            r.base_url == base_url,
    {
        AuthApiClient { base_url }
    }

    /// The endpoint a verification call addresses: `/v1/me` joined onto
    /// the base address, or the client's URL error.
    pub fn request_url(&self) -> (r: Result<String, AuthApiError>)
        ensures
            match url_join_of(self.base_url@, "/v1/me"@) {
                Some(u) => r matches Ok(s) && s@ == u,
                None => r matches Err(AuthApiError::Url(_)),
            },
    {
        match join_url(self.base_url.as_str(), "/v1/me") {
            Some(u) => Ok(u),
            None => Err(AuthApiError::Url("cannot join /v1/me onto base url".to_owned())),
        }
    }

    /// Classifies the service's reply: `200` yields the parsed session or
    /// a parse error — a body whose `session_id` or `user_id` is empty
    /// breaks the session's invariant and counts as a parse error too;
    /// `401` is `Unauthorized`; any other status is kept with its body; a
    /// transport failure is kept with its cause.
    pub fn verify_session(&self, reply: UpstreamOutcome) -> (r: Result<
        VerifiedSession,
        AuthApiError,
    >)
        ensures
            r matches Ok(v) ==> v.wf(),
            reply matches UpstreamOutcome::Transport(cause) ==> (r matches Err(
                AuthApiError::Http(m),
            ) && m@ == cause@),
            reply matches UpstreamOutcome::Response { status, body } ==> {
                if status == 200 {
                    match spec_session_record(body@) {
                        Some(rec) => {
                            if rec.0.len() > 0 && rec.1.len() > 0 {
                                r matches Ok(v) && v.session_id@ == rec.0 && v.user_id@ == rec.1
                            } else {
                                r matches Err(AuthApiError::Serde(_))
                            }
                        },
                        None => r matches Err(AuthApiError::Serde(_)),
                    }
                } else if status == 401 {
                    r matches Err(AuthApiError::Unauthorized)
                } else {
                    r matches Err(AuthApiError::Upstream(code, b)) && code == status && b@
                        == body@
                }
            },
    {
        match reply {
            UpstreamOutcome::Transport(cause) => Err(AuthApiError::Http(cause)),
            UpstreamOutcome::Response { status, body } => {
                if status == 200 {
                    match parse_session_record(body.as_str()) {
                        Some(v) => {
                            if v.session_id.as_str().is_empty() || v.user_id.as_str().is_empty()
                            {
                                Err(
                                    AuthApiError::Serde(
                                        "verification body carries an empty identifier".to_owned(),
                                    ),
                                )
                            } else {
                                Ok(v)
                            }
                        },
                        None => Err(
                            AuthApiError::Serde("unrecognized verification body".to_owned()),
                        ),
                    }
                } else if status == 401 {
                    Err(AuthApiError::Unauthorized)
                } else {
                    Err(AuthApiError::Upstream(status, body))
                }
            },
        }
    }
}

} // verus!
