//! Startup configuration: which listening port the service uses, the
//! provider credential, and the provider's base URL. The embedding binary
//! reads the process environment and hands the raw values here; every
//! decision about them — precedence, defaults, validity — is verified.

use vstd::prelude::*;
use crate::urls::{parse_url, url_parse_of};

verus! {

/// The service's immutable startup configuration.
#[derive(Clone, Debug)]
pub struct AppConfig {
    pub port: u16,
    pub clerk_secret: String,
    pub clerk_api_url: String,
}

/// Why startup must fail: a malformed configuration can never verify a
/// session, so none of these is recovered at runtime.
#[derive(Clone, Debug)]
pub enum ConfigError {
    /// The named required variable is absent or blank.
    MissingVar(String),
    /// The carried text was offered as a port and does not parse as one.
    InvalidPort(String),
    /// The carried text was offered as a base URL and does not parse.
    InvalidUrl(String),
}

pub open spec fn is_dec_digit(c: char) -> bool {
    0x30 <= (c as u32) <= 0x39
}

/// The value of a digit string read left to right onto `acc`; `None` as
/// soon as a non-digit appears.
pub open spec fn spec_digits_value(s: Seq<char>, acc: int) -> Option<int>
    decreases s.len(),
{
    if s.len() == 0 {
        Some(acc)
    } else if is_dec_digit(s[0]) {
        spec_digits_value(s.skip(1), acc * 10 + ((s[0] as u32) - 0x30))
    } else {
        None
    }
}

pub proof fn lemma_digits_value_min(s: Seq<char>, acc: int)
    requires
        acc >= 0,
    ensures
        match spec_digits_value(s, acc) {
            Some(v) => v >= acc,
            None => true,
        },
    decreases s.len(),
{
    if s.len() > 0 && is_dec_digit(s[0]) {
        lemma_digits_value_min(s.skip(1), acc * 10 + ((s[0] as u32) - 0x30));
    }
}

/// How a port value is read: an optional leading `+`, then at least one
/// digit, with a value that fits in sixteen bits.
pub open spec fn spec_parse_u16(s: Seq<char>) -> Option<u16> {
    let body = if s.len() > 0 && s[0] == '+' {
        s.skip(1)
    } else {
        s
    };
    if body.len() == 0 {
        None
    } else {
        match spec_digits_value(body, 0) {
            Some(v) => if v <= 0xffff {
                Some(v as u16)
            } else {
                None
            },
            None => None,
        }
    }
}

/// Parses an unsigned sixteen-bit decimal, as the port variables demand.
pub fn parse_u16(s: &str) -> (r: Option<u16>)
    ensures
        r == spec_parse_u16(s@),
{
    let n = s.unicode_len();
    let start: usize = if n > 0 && s.get_char(0) == '+' {
        1
    } else {
        0
    };
    proof {
        if start == 1 {
            assert(s@.skip(1) =~= s@.skip(1));
        } else {
            assert(s@.skip(0) =~= s@);
        }
    }
    if start == n {
        return None;
    }
    let ghost body = s@.skip(start as int);
    let mut acc: u32 = 0;
    let mut i: usize = start;
    while i < n
        invariant
            start <= i <= n,
            n == s@.len(),
            body == s@.skip(start as int),
            acc <= 0xffff,
            spec_digits_value(body, 0) == spec_digits_value(s@.skip(i as int), acc as int),
            spec_parse_u16(s@) == match spec_digits_value(body, 0) {
                Some(v) => if v <= 0xffff {
                    Some(v as u16)
                } else {
                    None::<u16>
                },
                None => None::<u16>,
            },
        decreases n - i,
    {
        let c = s.get_char(i);
        proof {
            assert(s@.skip(i as int)[0] == s@[i as int]);
            assert(s@.skip(i as int).skip(1) =~= s@.skip(i as int + 1));
        }
        let u = c as u32;
        if !(0x30 <= u && u <= 0x39) {
            return None;
        }
        let d = u - 0x30;
        let next = acc * 10 + d;
        if next > 0xffff {
            proof {
                lemma_digits_value_min(s@.skip(i as int + 1), next as int);
            }
            return None;
        }
        acc = next;
        i = i + 1;
    }
    proof {
        assert(s@.skip(n as int).len() == 0);
    }
    Some(acc as u16)
}

pub open spec fn opt_view(o: Option<String>) -> Option<Seq<char>> {
    match o {
        Some(s) => Some(s@),
        None => None,
    }
}

/// The first of the three port variables that is set, in the fixed
/// precedence `PORT`, `AUTH_API_PORT`, `SERVER_PORT`.
pub open spec fn spec_first_set(
    a: Option<Seq<char>>,
    b: Option<Seq<char>>,
    c: Option<Seq<char>>,
) -> Option<Seq<char>> {
    if a is Some {
        a
    } else if b is Some {
        b
    } else {
        c
    }
}

/// What the port variables resolve to: the parsed first set variable, the
/// default `8080` when none is set, or the offending text.
pub open spec fn spec_resolve_port(raw: Option<Seq<char>>) -> Result<u16, Seq<char>> {
    match raw {
        None => Ok(8080u16),
        Some(s) => match spec_parse_u16(s) {
            Some(p) => Ok(p),
            None => Err(s),
        },
    }
}

/// Picks the listening port from the three environment candidates: the
/// first set variable must parse as a sixteen-bit integer; with none set,
/// the port defaults to `8080`.
pub fn resolve_port(port: Option<String>, auth_api_port: Option<String>, server_port: Option<
    String,
>) -> (r: Result<u16, ConfigError>)
    ensures
        ({
            let raw = spec_first_set(opt_view(port), opt_view(auth_api_port), opt_view(
                server_port,
            ));
            match spec_resolve_port(raw) {
                Ok(p) => r matches Ok(q) && q == p,
                Err(s) => r matches Err(ConfigError::InvalidPort(m)) && m@ == s,
            }
        }),
{
    let chosen: Option<String> = match (port, auth_api_port, server_port) {
        (Some(v), _, _) => Some(v),
        (None, Some(v), _) => Some(v),
        (None, None, v) => v,
    };
    match chosen {
        None => Ok(8080),
        Some(raw) => match parse_u16(raw.as_str()) {
            Some(p) => Ok(p),
            None => Err(ConfigError::InvalidPort(raw)),
        },
    }
}

/// Whitespace, by the Unicode White_Space set — the class the platform's
/// string trim strips, so a blank check here agrees with it.
pub open spec fn is_blank_char(c: char) -> bool {
    let u = c as u32;
    ||| 0x9 <= u <= 0xd
    ||| u == 0x20
    ||| u == 0x85
    ||| u == 0xa0
    ||| u == 0x1680
    ||| 0x2000 <= u <= 0x200a
    ||| u == 0x2028
    ||| u == 0x2029
    ||| u == 0x202f
    ||| u == 0x205f
    ||| u == 0x3000
}

pub open spec fn spec_is_blank(s: Seq<char>) -> bool {
    forall|i: int| 0 <= i < s.len() ==> is_blank_char(#[trigger] s[i])
}

pub(crate) fn exec_is_blank_char(c: char) -> (r: bool)
    ensures
        r == is_blank_char(c),
{
    let u = c as u32;
    (0x9 <= u && u <= 0xd) || u == 0x20 || u == 0x85 || u == 0xa0 || u == 0x1680 || (0x2000 <= u
        && u <= 0x200a) || u == 0x2028 || u == 0x2029 || u == 0x202f || u == 0x205f || u == 0x3000
}

/// Whether a string holds nothing besides whitespace.
pub fn is_blank(s: &str) -> (r: bool)
    ensures
        r == spec_is_blank(s@),
{
    let n = s.unicode_len();
    let mut i: usize = 0;
    while i < n
        invariant
            i <= n,
            n == s@.len(),
            forall|k: int| 0 <= k < i ==> is_blank_char(#[trigger] s@[k]),
        decreases n - i,
    {
        let c = s.get_char(i);
        if !exec_is_blank_char(c) {
            return false;
        }
        i = i + 1;
    }
    true
}

/// Validates a required environment value: it must be present and not
/// blank, else startup fails naming the variable.
pub fn read_env_value(key: &str, value: Option<String>) -> (r: Result<String, ConfigError>)
    ensures
        match opt_view(value) {
            Some(v) => {
                if spec_is_blank(v) {
                    r matches Err(ConfigError::MissingVar(k)) && k@ == key@
                } else {
                    r matches Ok(s) && s@ == v
                }
            },
            None => r matches Err(ConfigError::MissingVar(k)) && k@ == key@,
        },
{
    match value {
        Some(v) => {
            if is_blank(v.as_str()) {
                Err(ConfigError::MissingVar(key.to_owned()))
            } else {
                Ok(v)
            }
        },
        None => Err(ConfigError::MissingVar(key.to_owned())),
    }
}

/// What the base-URL variable resolves to: the normal form of the set
/// value or of the provider's public default, or the offending text.
pub open spec fn spec_resolve_api_url(v: Option<Seq<char>>) -> Result<Seq<char>, Seq<char>> {
    let raw = match v {
        Some(s) => s,
        None => "https://api.clerk.com"@,
    };
    match url_parse_of(raw) {
        Some(u) => Ok(u),
        None => Err(raw),
    }
}

/// Resolves the provider's base URL: the environment override when set,
/// else the provider's public API root; either must be a valid URL.
pub fn resolve_api_url(value: Option<String>) -> (r: Result<String, ConfigError>)
    ensures
        match spec_resolve_api_url(opt_view(value)) {
            Ok(u) => r matches Ok(s) && s@ == u,
            Err(raw) => r matches Err(ConfigError::InvalidUrl(m)) && m@ == raw,
        },
{
    let raw: String = match value {
        Some(s) => s,
        None => "https://api.clerk.com".to_owned(),
    };
    match parse_url(raw.as_str()) {
        Some(u) => Ok(u),
        None => Err(ConfigError::InvalidUrl(raw)),
    }
}

impl AppConfig {
    /// Assembles the configuration from the raw environment values, in the
    /// fixed order port, secret, base URL: the first invalid value is the
    /// startup-fatal error.
    pub fn from_values(
        port: Option<String>,
        auth_api_port: Option<String>,
        server_port: Option<String>,
        clerk_secret: Option<String>,
        clerk_api_url: Option<String>,
    ) -> (r: Result<AppConfig, ConfigError>)
        ensures
            ({
                let port_r = spec_resolve_port(
                    spec_first_set(opt_view(port), opt_view(auth_api_port), opt_view(server_port)),
                );
                let secret_missing = match opt_view(clerk_secret) {
                    Some(v) => spec_is_blank(v),
                    None => true,
                };
                let url_r = spec_resolve_api_url(opt_view(clerk_api_url));
                match r {
                    Ok(c) => {
                        &&& port_r == Ok::<u16, Seq<char>>(c.port)
                        &&& !secret_missing
                        &&& opt_view(clerk_secret) == Some(c.clerk_secret@)
                        &&& url_r == Ok::<Seq<char>, Seq<char>>(c.clerk_api_url@)
                    },
                    Err(e) => {
                        ||| (port_r matches Err(s) && (e matches ConfigError::InvalidPort(m)
                            && m@ == s))
                        ||| (port_r is Ok && secret_missing && (e
                            matches ConfigError::MissingVar(k) && k@ == "CLERK_SECRET_KEY"@))
                        ||| (port_r is Ok && !secret_missing && (url_r matches Err(s) && (e
                            matches ConfigError::InvalidUrl(m) && m@ == s)))
                    },
                }
            }),
    {
        let resolved_port = match resolve_port(port, auth_api_port, server_port) {
            Ok(p) => p,
            Err(e) => {
                return Err(e);
            },
        };
        let secret = match read_env_value("CLERK_SECRET_KEY", clerk_secret) {
            Ok(s) => s,
            Err(e) => {
                return Err(e);
            },
        };
        let api_url = match resolve_api_url(clerk_api_url) {
            Ok(u) => u,
            Err(e) => {
                return Err(e);
            },
        };
        Ok(AppConfig { port: resolved_port, clerk_secret: secret, clerk_api_url: api_url })
    }
}

impl ConfigError {
    /// The human-readable description the binary prints before exiting.
    pub fn message(&self) -> (r: String)
        ensures
            self matches ConfigError::MissingVar(k) ==> r@
                == "Missing required environment variable: "@ + k@,
            self matches ConfigError::InvalidPort(v) ==> r@ == "Failed to parse port from '"@
                + v@ + "'"@,
            self matches ConfigError::InvalidUrl(v) ==> r@ == "Failed to parse URL from '"@ + v@
                + "'"@,
    {
        match self {
            ConfigError::MissingVar(k) => {
                let mut out: String = "Missing required environment variable: ".to_owned();
                out.append(k.as_str());
                out
            },
            ConfigError::InvalidPort(v) => {
                let mut out: String = "Failed to parse port from '".to_owned();
                out.append(v.as_str());
                out.append("'");
                proof {
                    assert(out@ =~= "Failed to parse port from '"@ + v@ + "'"@);
                }
                out
            },
            ConfigError::InvalidUrl(v) => {
                let mut out: String = "Failed to parse URL from '".to_owned();
                out.append(v.as_str());
                out.append("'");
                proof {
                    assert(out@ =~= "Failed to parse URL from '"@ + v@ + "'"@);
                }
                out
            },
        }
    }
}

} // verus!
