//! The JSON surface of the verification protocol: a parser for the small
//! class of payloads the protocol exchanges (a top-level object whose
//! interesting members are strings, with arbitrary further members accepted
//! and ignored), and a serializer for the bodies the service emits.
//!
//! The grammar is stated by spec functions over character sequences; every
//! executable function is proved to return exactly what its spec function
//! says. Unknown members of an object are scanned and skipped, never a cause
//! of failure, which keeps the parser forward-compatible with upstream
//! payloads that grow new fields.

use vstd::prelude::*;

verus! {

/// JSON insignificant whitespace.
pub open spec fn is_json_ws(c: char) -> bool {
    c == ' ' || c == '\n' || c == '\r' || c == '\t'
}

/// A character that ends an unquoted (primitive) value.
pub open spec fn is_value_delim(c: char) -> bool {
    c == ',' || c == '}' || c == ']' || is_json_ws(c)
}

/// The suffix of `s` after leading whitespace.
pub open spec fn spec_skip_ws(s: Seq<char>) -> Seq<char>
    decreases s.len(),
{
    if s.len() > 0 && is_json_ws(s[0]) {
        spec_skip_ws(s.skip(1))
    } else {
        s
    }
}

pub proof fn lemma_skip_ws_len(s: Seq<char>)
    ensures
        spec_skip_ws(s).len() <= s.len(),
    decreases s.len(),
{
    if s.len() > 0 && is_json_ws(s[0]) {
        lemma_skip_ws_len(s.skip(1));
    }
}

/// The numeric value of a hexadecimal digit character.
pub open spec fn spec_hex_val(c: char) -> Option<u32> {
    let u = c as u32;
    if 0x30 <= u <= 0x39 {
        Some((u - 0x30) as u32)
    } else if 0x61 <= u <= 0x66 {
        Some((u - 0x57) as u32)
    } else if 0x41 <= u <= 0x46 {
        Some((u - 0x37) as u32)
    } else {
        None
    }
}

/// The character a short escape `\x` stands for, if `x` is a short escape.
pub open spec fn spec_short_escape(e: char) -> Option<char> {
    if e == '"' {
        Some('"')
    } else if e == '\\' {
        Some('\\')
    } else if e == '/' {
        Some('/')
    } else if e == 'b' {
        Some('\u{8}')
    } else if e == 'f' {
        Some('\u{c}')
    } else if e == 'n' {
        Some('\n')
    } else if e == 'r' {
        Some('\r')
    } else if e == 't' {
        Some('\t')
    } else {
        None
    }
}

/// Parses the rest of a quoted string, starting just after the opening
/// quote: the decoded content and the suffix after the closing quote.
/// `\uXXXX` escapes are accepted for code points below 0x80, which covers
/// every escape this library itself emits.
pub open spec fn spec_parse_string_body(s: Seq<char>) -> Option<(Seq<char>, Seq<char>)>
    decreases s.len(),
{
    if s.len() == 0 {
        None
    } else if s[0] == '"' {
        Some((Seq::empty(), s.skip(1)))
    } else if s[0] == '\\' {
        if s.len() < 2 {
            None
        } else {
            match spec_short_escape(s[1]) {
                Some(c) => match spec_parse_string_body(s.skip(2)) {
                    Some((t, r)) => Some((seq![c] + t, r)),
                    None => None,
                },
                None => if s[1] == 'u' && s.len() >= 6 {
                    match (spec_hex_val(s[2]), spec_hex_val(s[3]), spec_hex_val(s[4]), spec_hex_val(s[5])) {
                        (Some(h0), Some(h1), Some(h2), Some(h3)) => {
                            let v = h0 * 0x1000 + h1 * 0x100 + h2 * 0x10 + h3;
                            if v < 0x80 {
                                match spec_parse_string_body(s.skip(6)) {
                                    Some((t, r)) => Some((seq![((v as u8) as char)] + t, r)),
                                    None => None,
                                }
                            } else {
                                None
                            }
                        },
                        _ => None,
                    }
                } else {
                    None
                },
            }
        }
    } else {
        match spec_parse_string_body(s.skip(1)) {
            Some((t, r)) => Some((seq![s[0]] + t, r)),
            None => None,
        }
    }
}

pub proof fn lemma_parse_string_body_len(s: Seq<char>)
    ensures
        match spec_parse_string_body(s) {
            Some((t, r)) => r.len() < s.len(),
            None => true,
        },
    decreases s.len(),
{
    if s.len() == 0 {
    } else if s[0] == '"' {
    } else if s[0] == '\\' {
        if s.len() >= 2 {
            lemma_parse_string_body_len(s.skip(2));
            if s.len() >= 6 {
                lemma_parse_string_body_len(s.skip(6));
            }
        }
    } else {
        lemma_parse_string_body_len(s.skip(1));
    }
}

/// The suffix of `s` after an unquoted primitive value (number, `true`,
/// `false`, `null`): everything up to the first delimiter is consumed.
pub open spec fn spec_skip_primitive(s: Seq<char>) -> Seq<char>
    decreases s.len(),
{
    if s.len() > 0 && !is_value_delim(s[0]) {
        spec_skip_primitive(s.skip(1))
    } else {
        s
    }
}

pub proof fn lemma_skip_primitive_len(s: Seq<char>)
    ensures
        spec_skip_primitive(s).len() <= s.len(),
        s.len() > 0 && !is_value_delim(s[0]) ==> spec_skip_primitive(s).len() < s.len(),
    decreases s.len(),
{
    if s.len() > 0 && !is_value_delim(s[0]) {
        lemma_skip_primitive_len(s.skip(1));
    }
}

/// The suffix after the close of a container whose opening bracket has
/// already been consumed, with `depth` brackets currently open. Quoted
/// strings inside the container are stepped over by the string grammar, so
/// brackets inside them do not count.
pub open spec fn spec_skip_container(s: Seq<char>, depth: nat) -> Option<Seq<char>>
    decreases s.len(),
{
    if s.len() == 0 {
        None
    } else if s[0] == '"' {
        match spec_parse_string_body(s.skip(1)) {
            Some((t, r)) => {
                proof {
                    lemma_parse_string_body_len(s.skip(1));
                }
                spec_skip_container(r, depth)
            },
            None => None,
        }
    } else if s[0] == '{' || s[0] == '[' {
        spec_skip_container(s.skip(1), depth + 1)
    } else if s[0] == '}' || s[0] == ']' {
        if depth == 1 {
            Some(s.skip(1))
        } else {
            spec_skip_container(s.skip(1), (depth - 1) as nat)
        }
    } else {
        spec_skip_container(s.skip(1), depth)
    }
}

pub proof fn lemma_skip_container_len(s: Seq<char>, depth: nat)
    ensures
        match spec_skip_container(s, depth) {
            Some(r) => r.len() < s.len(),
            None => true,
        },
    decreases s.len(),
{
    if s.len() == 0 {
    } else if s[0] == '"' {
        match spec_parse_string_body(s.skip(1)) {
            Some((t, r)) => {
                lemma_parse_string_body_len(s.skip(1));
                lemma_skip_container_len(r, depth);
            },
            None => {},
        }
    } else if s[0] == '{' || s[0] == '[' {
        lemma_skip_container_len(s.skip(1), depth + 1);
    } else if s[0] == '}' || s[0] == ']' {
        if depth != 1 {
            lemma_skip_container_len(s.skip(1), (depth - 1) as nat);
        }
    } else {
        lemma_skip_container_len(s.skip(1), depth);
    }
}

/// The suffix after one complete JSON value starting at the head of `s`.
pub open spec fn spec_skip_value(s: Seq<char>) -> Option<Seq<char>> {
    if s.len() == 0 {
        None
    } else if s[0] == '"' {
        match spec_parse_string_body(s.skip(1)) {
            Some((t, r)) => Some(r),
            None => None,
        }
    } else if s[0] == '{' || s[0] == '[' {
        spec_skip_container(s.skip(1), 1)
    } else if is_value_delim(s[0]) || s[0] == ':' {
        None
    } else {
        Some(spec_skip_primitive(s))
    }
}

pub proof fn lemma_skip_value_len(s: Seq<char>)
    ensures
        match spec_skip_value(s) {
            Some(r) => r.len() < s.len(),
            None => true,
        },
{
    if s.len() > 0 {
        if s[0] == '"' {
            lemma_parse_string_body_len(s.skip(1));
        } else if s[0] == '{' || s[0] == '[' {
            lemma_skip_container_len(s.skip(1), 1);
        } else if !(is_value_delim(s[0]) || s[0] == ':') {
            lemma_skip_primitive_len(s);
        }
    }
}

/// One member's value: the decoded text when the value is a JSON string,
/// `None` when it is a value of any other kind (which is skipped).
pub open spec fn spec_parse_member_value(s: Seq<char>) -> Option<(Option<Seq<char>>, Seq<char>)> {
    if s.len() > 0 && s[0] == '"' {
        match spec_parse_string_body(s.skip(1)) {
            Some((t, r)) => Some((Some(t), r)),
            None => None,
        }
    } else {
        match spec_skip_value(s) {
            Some(r) => Some((None, r)),
            None => None,
        }
    }
}

pub proof fn lemma_parse_member_value_len(s: Seq<char>)
    ensures
        match spec_parse_member_value(s) {
            Some((v, r)) => r.len() < s.len(),
            None => true,
        },
{
    if s.len() > 0 && s[0] == '"' {
        lemma_parse_string_body_len(s.skip(1));
    } else {
        lemma_skip_value_len(s);
    }
}

/// The members of an object, starting at the quote of the first key, through
/// the closing brace: each member is its key and, for string values, the
/// decoded text. The result pairs the members with the suffix after `}`.
pub open spec fn spec_parse_members(s: Seq<char>) -> Option<(Seq<(Seq<char>, Option<Seq<char>>)>, Seq<char>)>
    decreases s.len(),
{
    if s.len() == 0 || s[0] != '"' {
        None
    } else {
        match spec_parse_string_body(s.skip(1)) {
            None => None,
            Some((key, r1)) => {
                proof {
                    lemma_parse_string_body_len(s.skip(1));
                    lemma_skip_ws_len(r1);
                }
                let r2 = spec_skip_ws(r1);
                if r2.len() == 0 || r2[0] != ':' {
                    None
                } else {
                    let r3 = spec_skip_ws(r2.skip(1));
                    proof {
                        lemma_skip_ws_len(r2.skip(1));
                        lemma_parse_member_value_len(r3);
                    }
                    match spec_parse_member_value(r3) {
                        None => None,
                        Some((val, r4)) => {
                            let r5 = spec_skip_ws(r4);
                            proof {
                                lemma_skip_ws_len(r4);
                            }
                            if r5.len() == 0 {
                                None
                            } else if r5[0] == ',' {
                                let r6 = spec_skip_ws(r5.skip(1));
                                proof {
                                    lemma_skip_ws_len(r5.skip(1));
                                }
                                match spec_parse_members(r6) {
                                    Some((rest, rr)) => Some((seq![(key, val)] + rest, rr)),
                                    None => None,
                                }
                            } else if r5[0] == '}' {
                                Some((seq![(key, val)], r5.skip(1)))
                            } else {
                                None
                            }
                        },
                    }
                }
            },
        }
    }
}

/// A complete JSON text that is a single object: its members, or `None`
/// when the text is not such an object.
pub open spec fn spec_parse_object(s: Seq<char>) -> Option<Seq<(Seq<char>, Option<Seq<char>>)>> {
    let r0 = spec_skip_ws(s);
    if r0.len() == 0 || r0[0] != '{' {
        None
    } else {
        let r1 = spec_skip_ws(r0.skip(1));
        if r1.len() > 0 && r1[0] == '}' {
            if spec_skip_ws(r1.skip(1)).len() == 0 {
                Some(Seq::empty())
            } else {
                None
            }
        } else {
            match spec_parse_members(r1) {
                Some((fields, r2)) => if spec_skip_ws(r2).len() == 0 {
                    Some(fields)
                } else {
                    None
                },
                None => None,
            }
        }
    }
}

/// The first member with the given key, if any.
pub open spec fn spec_lookup(fields: Seq<(Seq<char>, Option<Seq<char>>)>, key: Seq<char>) -> Option<
    Option<Seq<char>>,
>
    decreases fields.len(),
{
    if fields.len() == 0 {
        None
    } else if fields[0].0 == key {
        Some(fields[0].1)
    } else {
        spec_lookup(fields.skip(1), key)
    }
}

/// The text of the member `key` of the object `s`, provided `s` is an
/// object and that member is present with a string value.
pub open spec fn spec_string_member(s: Seq<char>, key: Seq<char>) -> Option<Seq<char>> {
    match spec_parse_object(s) {
        Some(fields) => match spec_lookup(fields, key) {
            Some(Some(v)) => Some(v),
            _ => None,
        },
        None => None,
    }
}

/// Relies on `String::push`: appends the character to the end of the string.
#[verifier::external_body]
pub(crate) fn push_char(s: &mut String, c: char)
    ensures
        final(s)@ == old(s)@.push(c),
{
    s.push(c);
}

/// One parsed member of an object: its key and, when the value is a JSON
/// string, the decoded text.
pub struct JsonMember {
    pub key: String,
    pub text: Option<String>,
}

pub open spec fn member_view(m: JsonMember) -> (Seq<char>, Option<Seq<char>>) {
    (
        m.key@,
        match m.text {
            Some(t) => Some(t@),
            None => None,
        },
    )
}

pub open spec fn members_view(v: Seq<JsonMember>) -> Seq<(Seq<char>, Option<Seq<char>>)> {
    v.map_values(|m: JsonMember| member_view(m))
}

proof fn lemma_low_char_roundtrip(c: char)
    requires
        (c as u32) < 0x80,
    ensures
        (((c as u32) as u8) as char) == c,
{
}

/// A character the serializer passes through unescaped.
pub open spec fn plain_char(c: char) -> bool {
    c != '"' && c != '\\' && (c as u32) >= 0x20
}

/// Parsing undoes escaping: a serialized string body followed by its
/// closing quote reads back as exactly the original content, whatever
/// characters it holds.
pub proof fn lemma_parse_escaped(t: Seq<char>, rest: Seq<char>)
    ensures
        spec_parse_string_body(spec_escaped(t) + seq!['"'] + rest) == Some((t, rest)),
    decreases t.len(),
{
    let s = spec_escaped(t) + seq!['"'] + rest;
    if t.len() == 0 {
        assert(spec_escaped(t) == Seq::<char>::empty());
        assert(s[0] == '"');
        assert(s.skip(1) =~= rest);
        assert(t =~= Seq::<char>::empty());
    } else {
        let c = t[0];
        let e = spec_escape_char(c);
        let srest = spec_escaped(t.skip(1)) + seq!['"'] + rest;
        assert(spec_escaped(t) == e + spec_escaped(t.skip(1)));
        assert(s =~= e + srest);
        lemma_parse_escaped(t.skip(1), rest);
        assert(seq![c] + t.skip(1) =~= t);
        if c == '"' || c == '\\' || c == '\u{8}' || c == '\u{c}' || c == '\n' || c == '\r' || c
            == '\t' {
            assert(s[0] == '\\');
            assert(s[1] == e[1]);
            assert(spec_short_escape(e[1]) == Some(c));
            assert(s.skip(2) =~= srest);
            assert(spec_parse_string_body(s) == Some((seq![c] + t.skip(1), rest)));
        } else if (c as u32) < 0x20 {
            let u = c as u32;
            assert(e == seq!['\\', 'u', '0', '0', spec_hex_digit(u / 16), spec_hex_digit(
                u % 16,
            )]);
            assert(s[0] == '\\');
            assert(s[1] == 'u');
            assert(spec_short_escape('u') is None);
            assert(s[2] == '0' && s[3] == '0');
            assert(s[4] == spec_hex_digit(u / 16));
            assert(s[5] == spec_hex_digit(u % 16));
            assert(spec_hex_val('0') == Some(0u32));
            assert(u / 16 < 2);
            assert(spec_hex_val(spec_hex_digit(u / 16)) == Some((u / 16) as u32));
            assert(spec_hex_val(spec_hex_digit(u % 16)) == Some((u % 16) as u32));
            let v = 0 * 0x1000 + 0 * 0x100 + (u / 16) * 0x10 + (u % 16);
            assert(v == u);
            assert(v < 0x80);
            assert(v == c as u32);
            assert((v as u8) == ((c as u32) as u8));
            lemma_low_char_roundtrip(c);
            assert(((v as u8) as char) == c);
            assert(s.skip(6) =~= srest);
            assert(s.len() >= 6);
            assert(spec_parse_string_body(s) == Some((seq![c] + t.skip(1), rest)));
        } else {
            assert(e == seq![c]);
            assert(s[0] == c);
            assert(s.skip(1) =~= srest);
            assert(spec_parse_string_body(s) == Some((seq![c] + t.skip(1), rest)));
        }
    }
}

/// Text with no character that needs escaping serializes as itself.
pub proof fn lemma_escaped_plain(t: Seq<char>)
    requires
        forall|i: int| 0 <= i < t.len() ==> plain_char(#[trigger] t[i]),
    ensures
        spec_escaped(t) == t,
    decreases t.len(),
{
    if t.len() == 0 {
        assert(spec_escaped(t) =~= t);
    } else {
        assert(plain_char(t[0]));
        assert(spec_escape_char(t[0]) == seq![t[0]]);
        lemma_escaped_plain(t.skip(1));
        assert(spec_escaped(t) =~= t);
    }
}

/// The serialized text of one object member with a string value.
pub open spec fn spec_member_text(key: Seq<char>, val: Seq<char>) -> Seq<char> {
    seq!['"'] + spec_escaped(key) + seq!['"', ':'] + spec_json_string(val)
}

/// A final member followed by the closing brace parses as that one member.
pub proof fn lemma_members_last(key: Seq<char>, val: Seq<char>, after: Seq<char>)
    ensures
        spec_parse_members(spec_member_text(key, val) + seq!['}'] + after) == Some(
            (seq![(key, Some(val))], after),
        ),
{
    let s = spec_member_text(key, val) + seq!['}'] + after;
    let r1 = seq![':'] + spec_json_string(val) + seq!['}'] + after;
    assert(s[0] == '"');
    assert(s.skip(1) =~= spec_escaped(key) + seq!['"'] + r1);
    lemma_parse_escaped(key, r1);
    assert(spec_parse_string_body(s.skip(1)) == Some((key, r1)));
    assert(r1[0] == ':');
    assert(spec_skip_ws(r1) == r1);
    let r3 = spec_json_string(val) + seq!['}'] + after;
    assert(r1.skip(1) =~= r3);
    assert(spec_skip_ws(r3) == r3);
    assert(r3[0] == '"');
    let r4 = seq!['}'] + after;
    assert(r3.skip(1) =~= spec_escaped(val) + seq!['"'] + r4);
    lemma_parse_escaped(val, r4);
    assert(spec_parse_member_value(r3) == Some((Some(val), r4)));
    assert(spec_skip_ws(r4) == r4);
    assert(r4[0] == '}');
    assert(r4.skip(1) =~= after);
}

/// A member, a comma, and further members parse as that member in front
/// of what the rest parses as.
pub proof fn lemma_members_cons(
    key: Seq<char>,
    val: Seq<char>,
    more: Seq<char>,
    fields: Seq<(Seq<char>, Option<Seq<char>>)>,
    after: Seq<char>,
)
    requires
        spec_parse_members(more) == Some((fields, after)),
    ensures
        spec_parse_members(spec_member_text(key, val) + seq![','] + more) == Some(
            (seq![(key, Some(val))] + fields, after),
        ),
{
    let s = spec_member_text(key, val) + seq![','] + more;
    let r1 = seq![':'] + spec_json_string(val) + seq![','] + more;
    assert(s[0] == '"');
    assert(s.skip(1) =~= spec_escaped(key) + seq!['"'] + r1);
    lemma_parse_escaped(key, r1);
    assert(r1[0] == ':');
    assert(spec_skip_ws(r1) == r1);
    let r3 = spec_json_string(val) + seq![','] + more;
    assert(r1.skip(1) =~= r3);
    assert(spec_skip_ws(r3) == r3);
    assert(r3[0] == '"');
    let r4 = seq![','] + more;
    assert(r3.skip(1) =~= spec_escaped(val) + seq!['"'] + r4);
    lemma_parse_escaped(val, r4);
    assert(spec_parse_member_value(r3) == Some((Some(val), r4)));
    assert(spec_skip_ws(r4) == r4);
    assert(r4[0] == ',');
    assert(r4.skip(1) =~= more);
    assert(more.len() > 0 && more[0] == '"');
    assert(spec_skip_ws(more) == more);
}

/// An object whose members parse leaving nothing parses as those members.
pub proof fn lemma_object_of_members(body: Seq<char>, fields: Seq<(Seq<char>, Option<Seq<char>>)>)
    ensures
        spec_parse_members(body) == Some((fields, Seq::<char>::empty()))
            ==> spec_parse_object(seq!['{'] + body) == Some(fields),
{
    if spec_parse_members(body) == Some((fields, Seq::<char>::empty())) {
        let s = seq!['{'] + body;
        assert(s[0] == '{');
        assert(!is_json_ws('{'));
        assert(spec_skip_ws(s) == s);
        assert(body.len() > 0 && body[0] == '"');
        assert(s.skip(1) =~= body);
        assert(spec_skip_ws(body) == body);
        assert(spec_skip_ws(Seq::<char>::empty()).len() == 0);
    }
}

/// Looking a key up is blind to members with other keys appended behind.
pub proof fn lemma_lookup_push_other(
    fields: Seq<(Seq<char>, Option<Seq<char>>)>,
    extra: (Seq<char>, Option<Seq<char>>),
    key: Seq<char>,
)
    requires
        extra.0 != key,
    ensures
        spec_lookup(fields.push(extra), key) == spec_lookup(fields, key),
    decreases fields.len(),
{
    let s = fields.push(extra);
    if fields.len() == 0 {
        assert(s[0] == extra);
        assert(s.skip(1) =~= Seq::<(Seq<char>, Option<Seq<char>>)>::empty());
        assert(spec_lookup(s.skip(1), key) is None);
    } else {
        assert(s[0] == fields[0]);
        assert(s.skip(1) =~= fields.skip(1).push(extra));
        lemma_lookup_push_other(fields.skip(1), extra, key);
    }
}

fn exec_is_ws(c: char) -> (r: bool)
    ensures
        r == is_json_ws(c),
{
    c == ' ' || c == '\n' || c == '\r' || c == '\t'
}

fn exec_is_delim(c: char) -> (r: bool)
    ensures
        r == is_value_delim(c),
{
    c == ',' || c == '}' || c == ']' || exec_is_ws(c)
}

fn skip_ws(s: &str, i: usize, n: usize) -> (j: usize)
    requires
        n == s@.len(),
        i <= n,
    ensures
        i <= j <= n,
        s@.skip(j as int) == spec_skip_ws(s@.skip(i as int)),
{
    let mut k = i;
    while k < n && exec_is_ws(s.get_char(k))
        invariant
            i <= k <= n,
            n == s@.len(),
            spec_skip_ws(s@.skip(i as int)) == spec_skip_ws(s@.skip(k as int)),
        decreases n - k,
    {
        proof {
            assert(s@.skip(k as int)[0] == s@[k as int]);
            assert(s@.skip(k as int).skip(1) =~= s@.skip(k as int + 1));
        }
        k = k + 1;
    }
    proof {
        if k < n {
            assert(s@.skip(k as int)[0] == s@[k as int]);
        }
        assert(spec_skip_ws(s@.skip(k as int)) == s@.skip(k as int));
    }
    k
}

fn hex_val(c: char) -> (r: Option<u32>)
    ensures
        r == spec_hex_val(c),
        r matches Some(v) ==> v < 16,
{
    let u = c as u32;
    if 0x30 <= u && u <= 0x39 {
        Some(u - 0x30)
    } else if 0x61 <= u && u <= 0x66 {
        Some(u - 0x57)
    } else if 0x41 <= u && u <= 0x46 {
        Some(u - 0x37)
    } else {
        None
    }
}

fn short_escape(e: char) -> (r: Option<char>)
    ensures
        r == spec_short_escape(e),
{
    if e == '"' {
        Some('"')
    } else if e == '\\' {
        Some('\\')
    } else if e == '/' {
        Some('/')
    } else if e == 'b' {
        Some('\u{8}')
    } else if e == 'f' {
        Some('\u{c}')
    } else if e == 'n' {
        Some('\n')
    } else if e == 'r' {
        Some('\r')
    } else if e == 't' {
        Some('\t')
    } else {
        None
    }
}

fn parse_string_body(s: &str, i: usize, n: usize) -> (r: Option<(String, usize)>)
    requires
        n == s@.len(),
        i <= n,
    ensures
        match r {
            Some(p) => i <= p.1 <= n && spec_parse_string_body(s@.skip(i as int)) == Some(
                (p.0@, s@.skip(p.1 as int)),
            ),
            None => spec_parse_string_body(s@.skip(i as int)) is None,
        },
    decreases n - i,
{
    if i == n {
        return None;
    }
    let c = s.get_char(i);
    proof {
        assert(s@.skip(i as int)[0] == s@[i as int]);
    }
    if c == '"' {
        proof {
            assert(s@.skip(i as int).skip(1) =~= s@.skip(i as int + 1));
        }
        Some((String::new(), i + 1))
    } else if c == '\\' {
        if n - i < 2 {
            return None;
        }
        let e = s.get_char(i + 1);
        proof {
            assert(s@.skip(i as int)[1] == s@[i as int + 1]);
        }
        match short_escape(e) {
            Some(u) => {
                proof {
                    assert(s@.skip(i as int).skip(2) =~= s@.skip(i as int + 2));
                }
                match parse_string_body(s, i + 2, n) {
                    Some((tail, j)) => {
                        let mut out = String::new();
                        push_char(&mut out, u);
                        out.append(tail.as_str());
                        proof {
                            assert(out@ =~= seq![u] + tail@);
                        }
                        Some((out, j))
                    },
                    None => None,
                }
            },
            None => {
                if e == 'u' && n - i >= 6 {
                    let h0 = hex_val(s.get_char(i + 2));
                    let h1 = hex_val(s.get_char(i + 3));
                    let h2 = hex_val(s.get_char(i + 4));
                    let h3 = hex_val(s.get_char(i + 5));
                    proof {
                        assert(s@.skip(i as int)[2] == s@[i as int + 2]);
                        assert(s@.skip(i as int)[3] == s@[i as int + 3]);
                        assert(s@.skip(i as int)[4] == s@[i as int + 4]);
                        assert(s@.skip(i as int)[5] == s@[i as int + 5]);
                    }
                    match (h0, h1, h2, h3) {
                        (Some(v0), Some(v1), Some(v2), Some(v3)) => {
                            let v = v0 * 0x1000 + v1 * 0x100 + v2 * 0x10 + v3;
                            if v < 0x80 {
                                let u = (v as u8) as char;
                                proof {
                                    assert(s@.skip(i as int).skip(6) =~= s@.skip(i as int + 6));
                                }
                                match parse_string_body(s, i + 6, n) {
                                    Some((tail, j)) => {
                                        let mut out = String::new();
                                        push_char(&mut out, u);
                                        out.append(tail.as_str());
                                        proof {
                                            assert(out@ =~= seq![u] + tail@);
                                        }
                                        Some((out, j))
                                    },
                                    None => None,
                                }
                            } else {
                                None
                            }
                        },
                        _ => None,
                    }
                } else {
                    None
                }
            },
        }
    } else {
        proof {
            assert(s@.skip(i as int).skip(1) =~= s@.skip(i as int + 1));
        }
        match parse_string_body(s, i + 1, n) {
            Some((tail, j)) => {
                let mut out = String::new();
                push_char(&mut out, c);
                out.append(tail.as_str());
                proof {
                    assert(out@ =~= seq![c] + tail@);
                }
                Some((out, j))
            },
            None => None,
        }
    }
}

fn skip_primitive(s: &str, i: usize, n: usize) -> (j: usize)
    requires
        n == s@.len(),
        i <= n,
    ensures
        i <= j <= n,
        s@.skip(j as int) == spec_skip_primitive(s@.skip(i as int)),
{
    let mut k = i;
    while k < n && !exec_is_delim(s.get_char(k))
        invariant
            i <= k <= n,
            n == s@.len(),
            spec_skip_primitive(s@.skip(i as int)) == spec_skip_primitive(s@.skip(k as int)),
        decreases n - k,
    {
        proof {
            assert(s@.skip(k as int)[0] == s@[k as int]);
            assert(s@.skip(k as int).skip(1) =~= s@.skip(k as int + 1));
        }
        k = k + 1;
    }
    proof {
        if k < n {
            assert(s@.skip(k as int)[0] == s@[k as int]);
        }
        assert(spec_skip_primitive(s@.skip(k as int)) == s@.skip(k as int));
    }
    k
}

fn skip_container(s: &str, i: usize, n: usize, depth: u128) -> (r: Option<usize>)
    requires
        n == s@.len(),
        i <= n,
        1 <= depth <= i as u128 + 1,
    ensures
        match r {
            Some(j) => i <= j <= n && spec_skip_container(s@.skip(i as int), depth as nat) == Some(
                s@.skip(j as int),
            ),
            None => spec_skip_container(s@.skip(i as int), depth as nat) is None,
        },
    decreases n - i,
{
    if i == n {
        return None;
    }
    let c = s.get_char(i);
    proof {
        assert(s@.skip(i as int)[0] == s@[i as int]);
    }
    if c == '"' {
        proof {
            assert(s@.skip(i as int).skip(1) =~= s@.skip(i as int + 1));
        }
        match parse_string_body(s, i + 1, n) {
            Some((_, j)) => {
                proof {
                    lemma_parse_string_body_len(s@.skip(i as int + 1));
                }
                skip_container(s, j, n, depth)
            },
            None => None,
        }
    } else if c == '{' || c == '[' {
        proof {
            assert(s@.skip(i as int).skip(1) =~= s@.skip(i as int + 1));
        }
        skip_container(s, i + 1, n, depth + 1)
    } else if c == '}' || c == ']' {
        proof {
            assert(s@.skip(i as int).skip(1) =~= s@.skip(i as int + 1));
        }
        if depth == 1 {
            Some(i + 1)
        } else {
            skip_container(s, i + 1, n, depth - 1)
        }
    } else {
        proof {
            assert(s@.skip(i as int).skip(1) =~= s@.skip(i as int + 1));
        }
        skip_container(s, i + 1, n, depth)
    }
}

fn skip_value(s: &str, i: usize, n: usize) -> (r: Option<usize>)
    requires
        n == s@.len(),
        i <= n,
    ensures
        match r {
            Some(j) => i <= j <= n && spec_skip_value(s@.skip(i as int)) == Some(
                s@.skip(j as int),
            ),
            None => spec_skip_value(s@.skip(i as int)) is None,
        },
{
    if i == n {
        return None;
    }
    let c = s.get_char(i);
    proof {
        assert(s@.skip(i as int)[0] == s@[i as int]);
    }
    if c == '"' {
        proof {
            assert(s@.skip(i as int).skip(1) =~= s@.skip(i as int + 1));
        }
        match parse_string_body(s, i + 1, n) {
            Some((_, j)) => Some(j),
            None => None,
        }
    } else if c == '{' || c == '[' {
        proof {
            assert(s@.skip(i as int).skip(1) =~= s@.skip(i as int + 1));
        }
        skip_container(s, i + 1, n, 1)
    } else if exec_is_delim(c) || c == ':' {
        None
    } else {
        Some(skip_primitive(s, i, n))
    }
}

fn parse_member_value(s: &str, i: usize, n: usize) -> (r: Option<(Option<String>, usize)>)
    requires
        n == s@.len(),
        i <= n,
    ensures
        match r {
            Some(p) => {
                &&& i <= p.1 <= n
                &&& spec_parse_member_value(s@.skip(i as int)) == Some(
                    (
                        match p.0 {
                            Some(t) => Some(t@),
                            None => None,
                        },
                        s@.skip(p.1 as int),
                    ),
                )
            },
            None => spec_parse_member_value(s@.skip(i as int)) is None,
        },
{
    if i < n && s.get_char(i) == '"' {
        proof {
            assert(s@.skip(i as int)[0] == s@[i as int]);
            assert(s@.skip(i as int).skip(1) =~= s@.skip(i as int + 1));
        }
        match parse_string_body(s, i + 1, n) {
            Some((t, j)) => Some((Some(t), j)),
            None => None,
        }
    } else {
        proof {
            if i < n {
                assert(s@.skip(i as int)[0] == s@[i as int]);
            }
        }
        match skip_value(s, i, n) {
            Some(j) => Some((None, j)),
            None => None,
        }
    }
}

fn parse_members(s: &str, i: usize, n: usize) -> (r: Option<(Vec<JsonMember>, usize)>)
    requires
        n == s@.len(),
        i <= n,
    ensures
        match r {
            Some(p) => i <= p.1 <= n && spec_parse_members(s@.skip(i as int)) == Some(
                (members_view(p.0@), s@.skip(p.1 as int)),
            ),
            None => spec_parse_members(s@.skip(i as int)) is None,
        },
    decreases n - i,
{
    if i == n {
        return None;
    }
    let c = s.get_char(i);
    proof {
        assert(s@.skip(i as int)[0] == s@[i as int]);
    }
    if c != '"' {
        return None;
    }
    proof {
        assert(s@.skip(i as int).skip(1) =~= s@.skip(i as int + 1));
    }
    let (key, j1) = match parse_string_body(s, i + 1, n) {
        Some(p) => p,
        None => {
            return None;
        },
    };
    let j2 = skip_ws(s, j1, n);
    if j2 == n {
        return None;
    }
    let c2 = s.get_char(j2);
    proof {
        assert(s@.skip(j2 as int)[0] == s@[j2 as int]);
    }
    if c2 != ':' {
        return None;
    }
    proof {
        assert(s@.skip(j2 as int).skip(1) =~= s@.skip(j2 as int + 1));
    }
    let j3 = skip_ws(s, j2 + 1, n);
    let (val, j4) = match parse_member_value(s, j3, n) {
        Some(p) => p,
        None => {
            return None;
        },
    };
    let j5 = skip_ws(s, j4, n);
    if j5 == n {
        return None;
    }
    let c5 = s.get_char(j5);
    proof {
        assert(s@.skip(j5 as int)[0] == s@[j5 as int]);
    }
    if c5 == ',' {
        proof {
            assert(s@.skip(j5 as int).skip(1) =~= s@.skip(j5 as int + 1));
        }
        let j6 = skip_ws(s, j5 + 1, n);
        proof {
            lemma_parse_string_body_len(s@.skip(i as int + 1));
            lemma_parse_member_value_len(s@.skip(j3 as int));
        }
        match parse_members(s, j6, n) {
            Some((rest, jr)) => {
                let member = JsonMember { key, text: val };
                let mut out = rest;
                out.insert(0, member);
                proof {
                    assert(members_view(out@) =~= seq![member_view(member)] + members_view(
                        rest@,
                    ));
                }
                Some((out, jr))
            },
            None => None,
        }
    } else if c5 == '}' {
        proof {
            assert(s@.skip(j5 as int).skip(1) =~= s@.skip(j5 as int + 1));
        }
        let member = JsonMember { key, text: val };
        let mut out: Vec<JsonMember> = Vec::new();
        out.push(member);
        proof {
            assert(members_view(out@) =~= seq![member_view(member)]);
        }
        Some((out, j5 + 1))
    } else {
        None
    }
}

/// Parses a complete JSON text as a single object, returning its members.
/// Members beyond the ones a caller looks up are carried (or skipped)
/// without affecting success: an unknown member never fails the parse.
pub fn parse_object(s: &str) -> (r: Option<Vec<JsonMember>>)
    ensures
        match r {
            Some(v) => spec_parse_object(s@) == Some(members_view(v@)),
            None => spec_parse_object(s@) is None,
        },
{
    let n = s.unicode_len();
    proof {
        assert(s@.skip(0) =~= s@);
    }
    let i0 = skip_ws(s, 0, n);
    if i0 == n {
        return None;
    }
    let c0 = s.get_char(i0);
    proof {
        assert(s@.skip(i0 as int)[0] == s@[i0 as int]);
    }
    if c0 != '{' {
        return None;
    }
    proof {
        assert(s@.skip(i0 as int).skip(1) =~= s@.skip(i0 as int + 1));
    }
    let i1 = skip_ws(s, i0 + 1, n);
    if i1 < n && s.get_char(i1) == '}' {
        proof {
            assert(s@.skip(i1 as int)[0] == s@[i1 as int]);
            assert(s@.skip(i1 as int).skip(1) =~= s@.skip(i1 as int + 1));
        }
        let i2 = skip_ws(s, i1 + 1, n);
        if i2 == n {
            let out: Vec<JsonMember> = Vec::new();
            proof {
                assert(members_view(out@) =~= Seq::<(Seq<char>, Option<Seq<char>>)>::empty());
            }
            Some(out)
        } else {
            None
        }
    } else {
        proof {
            if i1 < n {
                assert(s@.skip(i1 as int)[0] == s@[i1 as int]);
            }
        }
        match parse_members(s, i1, n) {
            Some((v, j)) => {
                let j2 = skip_ws(s, j, n);
                if j2 == n {
                    Some(v)
                } else {
                    None
                }
            },
            None => None,
        }
    }
}

/// Looks up the first member with the given key, returning its text when
/// the member is present with a string value.
pub fn lookup_member(fields: &Vec<JsonMember>, key: &str) -> (r: Option<String>)
    ensures
        match r {
            Some(v) => spec_lookup(members_view(fields@), key@) == Some(Some(v@)),
            None => !(spec_lookup(members_view(fields@), key@) matches Some(Some(_))),
        },
{
    let key_owned: String = key.to_owned();
    let ghost mv = members_view(fields@);
    proof {
        assert(mv.skip(0) =~= mv);
    }
    let mut idx: usize = 0;
    while idx < fields.len()
        invariant
            idx <= fields.len(),
            mv == members_view(fields@),
            mv.len() == fields@.len(),
            key_owned@ == key@,
            spec_lookup(mv, key@) == spec_lookup(mv.skip(idx as int), key@),
        decreases fields.len() - idx,
    {
        proof {
            assert(mv.skip(idx as int)[0] == mv[idx as int]);
            assert(mv[idx as int] == member_view(fields@[idx as int]));
            assert(mv.skip(idx as int).skip(1) =~= mv.skip(idx as int + 1));
        }
        if fields[idx].key == key_owned {
            let r = match &fields[idx].text {
                Some(t) => Some(t.clone()),
                None => None,
            };
            return r;
        }
        idx = idx + 1;
    }
    proof {
        assert(mv.skip(fields@.len() as int) =~= Seq::<(Seq<char>, Option<Seq<char>>)>::empty());
    }
    None
}

/// The hexadecimal digit character for a value below 16.
pub open spec fn spec_hex_digit(d: u32) -> char {
    if d < 10 {
        ((0x30 + d) as u8) as char
    } else {
        ((0x57 + d) as u8) as char
    }
}

/// How one character appears inside a serialized JSON string: itself, a
/// short escape, or a `\u00XX` escape for the remaining control characters.
pub open spec fn spec_escape_char(c: char) -> Seq<char> {
    if c == '"' {
        seq!['\\', '"']
    } else if c == '\\' {
        seq!['\\', '\\']
    } else if c == '\u{8}' {
        seq!['\\', 'b']
    } else if c == '\u{c}' {
        seq!['\\', 'f']
    } else if c == '\n' {
        seq!['\\', 'n']
    } else if c == '\r' {
        seq!['\\', 'r']
    } else if c == '\t' {
        seq!['\\', 't']
    } else if (c as u32) < 0x20 {
        seq!['\\', 'u', '0', '0', spec_hex_digit((c as u32) / 16), spec_hex_digit((c as u32) % 16)]
    } else {
        seq![c]
    }
}

/// The serialized form of a string's content, character by character.
pub open spec fn spec_escaped(s: Seq<char>) -> Seq<char>
    decreases s.len(),
{
    if s.len() == 0 {
        Seq::empty()
    } else {
        spec_escape_char(s[0]) + spec_escaped(s.skip(1))
    }
}

/// A serialized JSON string: quote, escaped content, quote.
pub open spec fn spec_json_string(s: Seq<char>) -> Seq<char> {
    seq!['"'] + spec_escaped(s) + seq!['"']
}

pub proof fn lemma_escaped_push(t: Seq<char>, c: char)
    ensures
        spec_escaped(t.push(c)) == spec_escaped(t) + spec_escape_char(c),
    decreases t.len(),
{
    if t.len() == 0 {
        assert(t.push(c)[0] == c);
        assert(t.push(c).skip(1) =~= Seq::<char>::empty());
        assert(spec_escaped(Seq::<char>::empty()) == Seq::<char>::empty());
        assert(spec_escaped(t.push(c)) == spec_escape_char(c) + Seq::<char>::empty());
        assert(spec_escape_char(c) + Seq::<char>::empty() =~= spec_escaped(t)
            + spec_escape_char(c));
    } else {
        assert(t.push(c)[0] == t[0]);
        assert(t.push(c).skip(1) =~= t.skip(1).push(c));
        assert(spec_escaped(t.push(c)) == spec_escape_char(t[0]) + spec_escaped(t.skip(1).push(c)));
        lemma_escaped_push(t.skip(1), c);
        assert(spec_escaped(t.push(c)) == spec_escape_char(t[0]) + (spec_escaped(t.skip(1))
            + spec_escape_char(c)));
        assert(spec_escape_char(t[0]) + (spec_escaped(t.skip(1)) + spec_escape_char(c))
            =~= (spec_escape_char(t[0]) + spec_escaped(t.skip(1))) + spec_escape_char(c));
        assert(spec_escaped(t) == spec_escape_char(t[0]) + spec_escaped(t.skip(1)));
    }
}

fn append_escaped_char(out: &mut String, c: char)
    ensures
        final(out)@ == old(out)@ + spec_escape_char(c),
{
    if c == '"' {
        out.append("\\\"");
        proof {
            reveal_strlit("\\\"");
            assert(final(out)@ =~= old(out)@ + spec_escape_char(c));
        }
    } else if c == '\\' {
        out.append("\\\\");
        proof {
            reveal_strlit("\\\\");
            assert(final(out)@ =~= old(out)@ + spec_escape_char(c));
        }
    } else if c == '\u{8}' {
        out.append("\\b");
        proof {
            reveal_strlit("\\b");
            assert(final(out)@ =~= old(out)@ + spec_escape_char(c));
        }
    } else if c == '\u{c}' {
        out.append("\\f");
        proof {
            reveal_strlit("\\f");
            assert(final(out)@ =~= old(out)@ + spec_escape_char(c));
        }
    } else if c == '\n' {
        out.append("\\n");
        proof {
            reveal_strlit("\\n");
            assert(final(out)@ =~= old(out)@ + spec_escape_char(c));
        }
    } else if c == '\r' {
        out.append("\\r");
        proof {
            reveal_strlit("\\r");
            assert(final(out)@ =~= old(out)@ + spec_escape_char(c));
        }
    } else if c == '\t' {
        out.append("\\t");
        proof {
            reveal_strlit("\\t");
            assert(final(out)@ =~= old(out)@ + spec_escape_char(c));
        }
    } else if (c as u32) < 0x20 {
        let u = c as u32;
        let hi = u / 16;
        let lo = u % 16;
        let hi_c = if hi < 10 {
            ((0x30 + hi) as u8) as char
        } else {
            ((0x57 + hi) as u8) as char
        };
        let lo_c = if lo < 10 {
            ((0x30 + lo) as u8) as char
        } else {
            ((0x57 + lo) as u8) as char
        };
        out.append("\\u00");
        push_char(out, hi_c);
        push_char(out, lo_c);
        proof {
            reveal_strlit("\\u00");
            assert(hi_c == spec_hex_digit((c as u32) / 16));
            assert(lo_c == spec_hex_digit((c as u32) % 16));
            assert(final(out)@ =~= old(out)@ + spec_escape_char(c));
        }
    } else {
        push_char(out, c);
        proof {
            assert(final(out)@ =~= old(out)@ + spec_escape_char(c));
        }
    }
}

/// Appends the serialized JSON string form of `s`, quotes included.
pub fn append_json_string(out: &mut String, s: &str)
    ensures
        final(out)@ == old(out)@ + spec_json_string(s@),
{
    let n = s.unicode_len();
    out.append("\"");
    proof {
        reveal_strlit("\"");
        assert(s@.take(0) =~= Seq::<char>::empty());
        assert(out@ =~= old(out)@ + seq!['"'] + spec_escaped(s@.take(0)));
    }
    let mut i: usize = 0;
    while i < n
        invariant
            i <= n,
            n == s@.len(),
            out@ == old(out)@ + seq!['"'] + spec_escaped(s@.take(i as int)),
        decreases n - i,
    {
        let c = s.get_char(i);
        append_escaped_char(out, c);
        proof {
            assert(s@.take(i as int + 1) =~= s@.take(i as int).push(s@[i as int]));
            lemma_escaped_push(s@.take(i as int), s@[i as int]);
        }
        i = i + 1;
    }
    out.append("\"");
    proof {
        reveal_strlit("\"");
        assert(s@.take(n as int) =~= s@);
        assert(final(out)@ =~= old(out)@ + spec_json_string(s@));
    }
}

} // verus!
