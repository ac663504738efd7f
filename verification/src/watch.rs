//! Scanning of game-log lines, as the directory watcher feeds them to the
//! panels: timestamp stripping, number extraction, the trade-chat
//! classifier, and the animal-examine session. Whitespace and alphanumeric
//! characters are classed as the platform classes them (Unicode), letter
//! case only as ASCII — the classes the log scanning has always used.

use vstd::prelude::*;
use crate::config::{is_blank_char, is_dec_digit, spec_digits_value, lemma_digits_value_min};

verus! {

/// The first position at which `"] "` occurs.
pub open spec fn spec_find_ts_end(s: Seq<char>, i: int) -> Option<int>
    decreases s.len() - i,
{
    if i < 0 || i + 2 > s.len() {
        None
    } else if s[i] == ']' && s[i + 1] == ' ' {
        Some(i)
    } else {
        spec_find_ts_end(s, i + 1)
    }
}

/// A line's content after its `[timestamp] ` prefix; a line without the
/// prefix is returned whole.
pub open spec fn spec_strip_timestamp(s: Seq<char>) -> Seq<char> {
    if s.len() > 0 && s[0] == '[' {
        match spec_find_ts_end(s, 0) {
            Some(i) => s.skip(i + 2),
            None => s,
        }
    } else {
        s
    }
}

proof fn lemma_find_ts_end_range(s: Seq<char>, i: int)
    requires
        0 <= i,
    ensures
        match spec_find_ts_end(s, i) {
            Some(j) => i <= j && j + 2 <= s.len() && s[j] == ']' && s[j + 1] == ' ',
            None => true,
        },
    decreases s.len() - i,
{
    if i + 2 <= s.len() && !(s[i] == ']' && s[i + 1] == ' ') {
        lemma_find_ts_end_range(s, i + 1);
    }
}

fn find_ts_end(s: &str, n: usize) -> (r: Option<usize>)
    requires
        n == s@.len(),
    ensures
        match r {
            Some(j) => spec_find_ts_end(s@, 0) == Some(j as int) && j + 2 <= n,
            None => spec_find_ts_end(s@, 0) is None,
        },
{
    let mut i: usize = 0;
    loop
        invariant
            0 <= i,
            i + 2 <= n + 2,
            n == s@.len(),
            spec_find_ts_end(s@, 0) == spec_find_ts_end(s@, i as int),
        decreases n - i,
    {
        if n - i < 2 {
            return None;
        }
        if s.get_char(i) == ']' && s.get_char(i + 1) == ' ' {
            return Some(i);
        }
        i = i + 1;
    }
}

/// Strips a `[timestamp] ` prefix off a log line, if it carries one.
pub fn strip_timestamp_prefix<'a>(line: &'a str) -> (r: &'a str)
    ensures
        r@ == spec_strip_timestamp(line@),
{
    let n = line.unicode_len();
    if n > 0 && line.get_char(0) == '[' {
        match find_ts_end(line, n) {
            Some(i) => {
                let rest = line.substring_char(i + 2, n);
                proof {
                    assert(rest@ =~= line@.skip(i as int + 2));
                }
                rest
            },
            None => line,
        }
    } else {
        line
    }
}

/// The first position of `c` in `s`.
pub open spec fn spec_find_char(s: Seq<char>, i: int, c: char) -> Option<int>
    decreases s.len() - i,
{
    if i < 0 || i >= s.len() {
        None
    } else if s[i] == c {
        Some(i)
    } else {
        spec_find_char(s, i + 1, c)
    }
}

pub proof fn lemma_find_char_range(s: Seq<char>, i: int, c: char)
    requires
        0 <= i,
    ensures
        match spec_find_char(s, i, c) {
            Some(j) => i <= j < s.len() && s[j] == c,
            None => true,
        },
    decreases s.len() - i,
{
    if i < s.len() && s[i] != c {
        lemma_find_char_range(s, i + 1, c);
    }
}

fn find_char(s: &str, n: usize, from: usize, c: char) -> (r: Option<usize>)
    requires
        n == s@.len(),
        from <= n,
    ensures
        match r {
            Some(j) => spec_find_char(s@, from as int, c) == Some(j as int) && from <= j < n,
            None => spec_find_char(s@, from as int, c) is None,
        },
{
    let mut i: usize = from;
    while i < n
        invariant
            from <= i <= n,
            n == s@.len(),
            spec_find_char(s@, from as int, c) == spec_find_char(s@, i as int, c),
        decreases n - i,
    {
        if s.get_char(i) == c {
            return Some(i);
        }
        i = i + 1;
    }
    None
}

/// The timestamp text between a line's leading `[` and the first `]`.
pub open spec fn spec_extract_timestamp(s: Seq<char>) -> Option<Seq<char>> {
    if s.len() > 0 && s[0] == '[' {
        match spec_find_char(s, 0, ']') {
            Some(i) => Some(s.subrange(1, i)),
            None => None,
        }
    } else {
        None
    }
}

/// Reads the `[timestamp]` prefix off a log line, if it carries one.
pub fn extract_timestamp(line: &str) -> (r: Option<String>)
    ensures
        match r {
            Some(t) => spec_extract_timestamp(line@) == Some(t@),
            None => spec_extract_timestamp(line@) is None,
        },
{
    let n = line.unicode_len();
    if n > 0 && line.get_char(0) == '[' {
        match find_char(line, n, 0, ']') {
            Some(i) => {
                proof {
                    lemma_find_char_range(line@, 0, ']');
                }
                let body = line.substring_char(1, i);
                Some(body.to_owned())
            },
            None => None,
        }
    } else {
        None
    }
}

/// The digit characters of a line, in order.
pub open spec fn spec_digits(s: Seq<char>) -> Seq<char>
    decreases s.len(),
{
    if s.len() == 0 {
        Seq::empty()
    } else if is_dec_digit(s[0]) {
        seq![s[0]] + spec_digits(s.skip(1))
    } else {
        spec_digits(s.skip(1))
    }
}

/// What a line's digits amount to: no digits is nothing, and a value
/// beyond thirty-two bits is nothing, as the counter it feeds is one.
pub open spec fn spec_extract_number(s: Seq<char>) -> Option<u32> {
    let d = spec_digits(s);
    if d.len() == 0 {
        None
    } else {
        match spec_digits_value(d, 0) {
            Some(v) => if v <= 0xffff_ffff {
                Some(v as u32)
            } else {
                None
            },
            None => None,
        }
    }
}

/// Collects every digit in the line into one number.
pub fn extract_number(line: &str) -> (r: Option<u32>)
    ensures
        r == spec_extract_number(line@),
{
    let n = line.unicode_len();
    let mut acc: u64 = 0;
    let mut seen = false;
    let mut i: usize = 0;
    proof {
        assert(line@.skip(0) =~= line@);
    }
    while i < n
        invariant
            i <= n,
            n == line@.len(),
            acc <= 0xffff_ffff,
            spec_digits_value(spec_digits(line@), 0) == spec_digits_value(
                spec_digits(line@.skip(i as int)),
                acc as int,
            ),
            !seen ==> spec_digits(line@) == spec_digits(line@.skip(i as int)) && acc == 0,
            seen ==> spec_digits(line@).len() > 0,
        decreases n - i,
    {
        let c = line.get_char(i);
        proof {
            assert(line@.skip(i as int)[0] == line@[i as int]);
            assert(line@.skip(i as int).skip(1) =~= line@.skip(i as int + 1));
        }
        let u = c as u32;
        if 0x30 <= u && u <= 0x39 {
            let d = (u - 0x30) as u64;
            let next = acc * 10 + d;
            proof {
                assert(spec_digits(line@.skip(i as int)) == seq![c] + spec_digits(
                    line@.skip(i as int + 1),
                ));
                assert((seq![c] + spec_digits(line@.skip(i as int + 1))).skip(1) =~= spec_digits(
                    line@.skip(i as int + 1),
                ));
                assert(spec_digits(line@).len() > 0);
            }
            if next > 0xffff_ffff {
                proof {
                    lemma_digits_value_min(spec_digits(line@.skip(i as int + 1)), next as int);
                }
                return None;
            }
            acc = next;
            seen = true;
        }
        i = i + 1;
    }
    proof {
        assert(line@.skip(n as int).len() == 0);
        assert(spec_digits(line@.skip(n as int)) =~= Seq::<char>::empty());
    }
    if seen {
        Some(acc as u32)
    } else {
        None
    }
}

/// The suffix after leading whitespace.
pub open spec fn spec_trim_start(s: Seq<char>) -> Seq<char>
    decreases s.len(),
{
    if s.len() > 0 && is_blank_char(s[0]) {
        spec_trim_start(s.skip(1))
    } else {
        s
    }
}

/// The prefix before trailing whitespace.
pub open spec fn spec_trim_end(s: Seq<char>) -> Seq<char>
    decreases s.len(),
{
    if s.len() > 0 && is_blank_char(s[s.len() - 1]) {
        spec_trim_end(s.take(s.len() - 1))
    } else {
        s
    }
}

/// A string with whitespace removed from both ends.
pub open spec fn spec_trim(s: Seq<char>) -> Seq<char> {
    spec_trim_end(spec_trim_start(s))
}

fn exec_is_blank(c: char) -> (r: bool)
    ensures
        r == is_blank_char(c),
{
    crate::config::exec_is_blank_char(c)
}

fn trim_start_index(s: &str, n: usize, from: usize) -> (a: usize)
    requires
        n == s@.len(),
        from <= n,
    ensures
        from <= a <= n,
        s@.skip(a as int) == spec_trim_start(s@.skip(from as int)),
{
    let mut i: usize = from;
    while i < n && exec_is_blank(s.get_char(i))
        invariant
            from <= i <= n,
            n == s@.len(),
            spec_trim_start(s@.skip(from as int)) == spec_trim_start(s@.skip(i as int)),
        decreases n - i,
    {
        proof {
            assert(s@.skip(i as int)[0] == s@[i as int]);
            assert(s@.skip(i as int).skip(1) =~= s@.skip(i as int + 1));
        }
        i = i + 1;
    }
    proof {
        if i < n {
            assert(s@.skip(i as int)[0] == s@[i as int]);
        }
        assert(spec_trim_start(s@.skip(i as int)) == s@.skip(i as int));
    }
    i
}

/// Trims whitespace from both ends.
pub fn trim<'a>(s: &'a str) -> (r: &'a str)
    ensures
        r@ == spec_trim(s@),
{
    let n = s.unicode_len();
    proof {
        assert(s@.skip(0) =~= s@);
    }
    let a = trim_start_index(s, n, 0);
    let ghost t = s@.skip(a as int);
    let mut j: usize = n;
    proof {
        assert(t.take(n - a as int) =~= t);
    }
    while j > a && exec_is_blank(s.get_char(j - 1))
        invariant
            a <= j <= n,
            n == s@.len(),
            t == s@.skip(a as int),
            spec_trim_end(t) == spec_trim_end(t.take(j - a as int)),
        decreases j,
    {
        proof {
            assert(t.take(j - a as int)[j - 1 - a as int] == s@[j as int - 1]);
            assert(t.take(j - a as int).take(j - 1 - a as int) =~= t.take(j - 1 - a as int));
        }
        j = j - 1;
    }
    proof {
        if j > a {
            assert(t.take(j - a as int)[j - 1 - a as int] == s@[j as int - 1]);
        }
        assert(spec_trim_end(t.take(j - a as int)) == t.take(j - a as int));
    }
    let r = s.substring_char(a, j);
    proof {
        assert(r@ =~= t.take(j - a as int));
    }
    r
}

/// An ASCII lowercase letter raised to uppercase; all else unchanged.
pub open spec fn spec_upper_char(c: char) -> char {
    if 0x61 <= (c as u32) <= 0x7a {
        (((c as u32) - 0x20) as u8) as char
    } else {
        c
    }
}

/// The ASCII-uppercased form of a string.
pub open spec fn spec_upper(s: Seq<char>) -> Seq<char> {
    s.map_values(|c: char| spec_upper_char(c))
}

/// Uppercases the ASCII letters of a string.
pub fn to_ascii_upper(s: &str) -> (r: String)
    ensures
        r@ == spec_upper(s@),
{
    let n = s.unicode_len();
    let mut out = String::new();
    proof {
        assert(s@.take(0).map_values(|c: char| spec_upper_char(c)) =~= out@);
    }
    let mut i: usize = 0;
    while i < n
        invariant
            i <= n,
            n == s@.len(),
            out@ == s@.take(i as int).map_values(|c: char| spec_upper_char(c)),
        decreases n - i,
    {
        let c = s.get_char(i);
        let u = c as u32;
        let up = if 0x61 <= u && u <= 0x7a {
            ((u - 0x20) as u8) as char
        } else {
            c
        };
        crate::json::push_char(&mut out, up);
        proof {
            assert(up == spec_upper_char(s@[i as int]));
            assert(s@.take(i as int + 1).map_values(|c: char| spec_upper_char(c)) =~= s@.take(
                i as int,
            ).map_values(|c: char| spec_upper_char(c)).push(spec_upper_char(s@[i as int])));
        }
        i = i + 1;
    }
    proof {
        assert(s@.take(n as int) =~= s@);
    }
    out
}

/// Whether a character is alphanumeric, by the platform's Unicode class:
/// what `char::is_alphanumeric` answers, named so that token trimming is
/// stated against exactly the class the scanning runs with.
pub uninterp spec fn unicode_alnum(c: char) -> bool;

/// Relies on `char::is_alphanumeric`: a fixed classification of the
/// character alone (letters and numbers by their Unicode categories).
#[verifier::external_body]
fn exec_is_alnum(c: char) -> (r: bool)
    ensures
        r == unicode_alnum(c),
{
    c.is_alphanumeric()
}

/// The token with non-alphanumeric characters removed from both ends.
pub open spec fn spec_trim_non_alnum_start(s: Seq<char>) -> Seq<char>
    decreases s.len(),
{
    if s.len() > 0 && !unicode_alnum(s[0]) {
        spec_trim_non_alnum_start(s.skip(1))
    } else {
        s
    }
}

pub open spec fn spec_trim_non_alnum_end(s: Seq<char>) -> Seq<char>
    decreases s.len(),
{
    if s.len() > 0 && !unicode_alnum(s[s.len() - 1]) {
        spec_trim_non_alnum_end(s.take(s.len() - 1))
    } else {
        s
    }
}

pub open spec fn spec_trim_non_alnum(s: Seq<char>) -> Seq<char> {
    spec_trim_non_alnum_end(spec_trim_non_alnum_start(s))
}

/// Trims every non-alphanumeric character off a token's ends.
pub fn trim_non_alnum<'a>(s: &'a str) -> (r: &'a str)
    ensures
        r@ == spec_trim_non_alnum(s@),
{
    let n = s.unicode_len();
    proof {
        assert(s@.skip(0) =~= s@);
    }
    let mut i: usize = 0;
    while i < n && !exec_is_alnum(s.get_char(i))
        invariant
            i <= n,
            n == s@.len(),
            spec_trim_non_alnum_start(s@) == spec_trim_non_alnum_start(s@.skip(i as int)),
        decreases n - i,
    {
        proof {
            assert(s@.skip(i as int)[0] == s@[i as int]);
            assert(s@.skip(i as int).skip(1) =~= s@.skip(i as int + 1));
        }
        i = i + 1;
    }
    proof {
        if i < n {
            assert(s@.skip(i as int)[0] == s@[i as int]);
        }
        assert(spec_trim_non_alnum_start(s@.skip(i as int)) == s@.skip(i as int));
    }
    let a = i;
    let ghost t = s@.skip(a as int);
    let mut j: usize = n;
    proof {
        assert(t.take(n - a as int) =~= t);
    }
    while j > a && !exec_is_alnum(s.get_char(j - 1))
        invariant
            a <= j <= n,
            n == s@.len(),
            t == s@.skip(a as int),
            spec_trim_non_alnum_end(t) == spec_trim_non_alnum_end(t.take(j - a as int)),
        decreases j,
    {
        proof {
            assert(t.take(j - a as int)[j - 1 - a as int] == s@[j as int - 1]);
            assert(t.take(j - a as int).take(j - 1 - a as int) =~= t.take(j - 1 - a as int));
        }
        j = j - 1;
    }
    proof {
        if j > a {
            assert(t.take(j - a as int)[j - 1 - a as int] == s@[j as int - 1]);
        }
        assert(spec_trim_non_alnum_end(t.take(j - a as int)) == t.take(j - a as int));
    }
    let r = s.substring_char(a, j);
    proof {
        assert(r@ =~= t.take(j - a as int));
    }
    r
}

/// The word at the head of a string: its characters up to the first
/// whitespace.
pub open spec fn spec_take_word(s: Seq<char>) -> Seq<char>
    decreases s.len(),
{
    if s.len() > 0 && !is_blank_char(s[0]) {
        seq![s[0]] + spec_take_word(s.skip(1))
    } else {
        Seq::empty()
    }
}

pub proof fn lemma_take_word_range(s: Seq<char>, a: int, b: int)
    requires
        0 <= a <= b <= s.len(),
        forall|k: int| a <= k < b ==> !is_blank_char(#[trigger] s[k]),
        b == s.len() || is_blank_char(s[b]),
    ensures
        spec_take_word(s.skip(a)) == s.subrange(a, b),
    decreases b - a,
{
    if a == b {
        if b < s.len() {
            assert(s.skip(a)[0] == s[a]);
        }
        assert(s.subrange(a, b) =~= Seq::<char>::empty());
    } else {
        assert(s.skip(a)[0] == s[a]);
        assert(s.skip(a).skip(1) =~= s.skip(a + 1));
        lemma_take_word_range(s, a + 1, b);
        assert(seq![s[a]] + s.subrange(a + 1, b) =~= s.subrange(a, b));
    }
}

pub proof fn lemma_take_word_len(s: Seq<char>)
    ensures
        spec_take_word(s).len() <= s.len(),
        s.len() > 0 && !is_blank_char(s[0]) ==> spec_take_word(s).len() >= 1,
    decreases s.len(),
{
    if s.len() > 0 && !is_blank_char(s[0]) {
        lemma_take_word_len(s.skip(1));
    }
}

pub proof fn lemma_trim_start_len(s: Seq<char>)
    ensures
        spec_trim_start(s).len() <= s.len(),
        spec_trim_start(s).len() > 0 ==> !is_blank_char(spec_trim_start(s)[0]),
    decreases s.len(),
{
    if s.len() > 0 && is_blank_char(s[0]) {
        lemma_trim_start_len(s.skip(1));
    }
}

/// A string's whitespace-separated words, in order.
pub open spec fn spec_split_ws(s: Seq<char>) -> Seq<Seq<char>>
    decreases s.len(),
{
    let t = spec_trim_start(s);
    if t.len() == 0 {
        Seq::empty()
    } else {
        let w = spec_take_word(t);
        proof {
            lemma_trim_start_len(s);
            lemma_take_word_len(t);
            lemma_take_word_len(s);
        }
        seq![w] + spec_split_ws(t.skip(w.len() as int))
    }
}

/// Splits a string on whitespace.
pub fn split_whitespace_words(s: &str) -> (r: Vec<String>)
    ensures
        r.deep_view() == spec_split_ws(s@),
    decreases s@.len(),
{
    let n = s.unicode_len();
    proof {
        assert(s@.skip(0) =~= s@);
    }
    let a = trim_start_index(s, n, 0);
    if a == n {
        let out: Vec<String> = Vec::new();
        proof {
            assert(spec_trim_start(s@).len() == 0);
            assert(out.deep_view() =~= spec_split_ws(s@));
        }
        return out;
    }
    let mut b: usize = a;
    while b < n && !exec_is_blank(s.get_char(b))
        invariant
            a <= b <= n,
            n == s@.len(),
            forall|k: int| a <= k < b ==> !is_blank_char(#[trigger] s@[k]),
        decreases n - b,
    {
        b = b + 1;
    }
    proof {
        lemma_trim_start_len(s@);
        assert(s@.skip(a as int)[0] == s@[a as int]);
        assert(!is_blank_char(s@[a as int]));
        assert(b > a);
    }
    let word = s.substring_char(a, b).to_owned();
    let rest = s.substring_char(b, n);
    proof {
        lemma_take_word_range(s@, a as int, b as int);
        assert(rest@ =~= s@.skip(b as int));
        assert(rest@.len() < s@.len());
    }
    let mut out = split_whitespace_words(rest);
    out.insert(0, word);
    proof {
        let t = spec_trim_start(s@);
        let w = spec_take_word(t);
        assert(t == s@.skip(a as int));
        assert(w == s@.subrange(a as int, b as int));
        assert(w.len() == b - a);
        assert(t.skip(w.len() as int) =~= s@.skip(b as int));
        assert(out.deep_view() =~= seq![w] + spec_split_ws(s@.skip(b as int)));
    }
    out
}

/// The segments of a string split on one character; a string without the
/// separator is one segment, and separators at the ends make empty ones.
pub open spec fn spec_split_char(s: Seq<char>, c: char) -> Seq<Seq<char>>
    decreases s.len(),
{
    match spec_find_char(s, 0, c) {
        None => seq![s],
        Some(i) => {
            proof {
                lemma_find_char_range(s, 0, c);
            }
            seq![s.take(i)] + spec_split_char(s.skip(i + 1), c)
        },
    }
}

/// Splits a string on one character.
pub fn split_on_char(s: &str, c: char) -> (r: Vec<String>)
    ensures
        r.deep_view() == spec_split_char(s@, c),
    decreases s@.len(),
{
    let n = s.unicode_len();
    match find_char(s, n, 0, c) {
        None => {
            let mut out: Vec<String> = Vec::new();
            out.push(s.to_owned());
            proof {
                assert(out.deep_view() =~= spec_split_char(s@, c));
            }
            out
        },
        Some(i) => {
            let head = s.substring_char(0, i).to_owned();
            let rest = s.substring_char(i + 1, n);
            proof {
                assert(head@ =~= s@.take(i as int));
                assert(rest@ =~= s@.skip(i as int + 1));
            }
            let mut out = split_on_char(rest, c);
            out.insert(0, head);
            proof {
                assert(out.deep_view() =~= seq![s@.take(i as int)] + spec_split_char(
                    s@.skip(i as int + 1),
                    c,
                ));
            }
            out
        },
    }
}

fn trim_start_str<'a>(s: &'a str) -> (r: &'a str)
    ensures
        r@ == spec_trim_start(s@),
{
    let n = s.unicode_len();
    proof {
        assert(s@.skip(0) =~= s@);
    }
    let a = trim_start_index(s, n, 0);
    s.substring_char(a, n)
}

/// How one trade-chat keyword part classifies: `WTB` offers to buy,
/// `WTS` and `WTT` to sell or trade, `PC` asks for a price check.
pub open spec fn spec_classify_parts(parts: Seq<Seq<char>>) -> Option<Seq<char>>
    decreases parts.len(),
{
    if parts.len() == 0 {
        None
    } else if parts[0] == "WTB"@ {
        Some("WTB"@)
    } else if parts[0] == "WTS"@ || parts[0] == "WTT"@ {
        Some("WTS"@)
    } else if parts[0] == "PC"@ {
        Some("PC"@)
    } else {
        spec_classify_parts(parts.skip(1))
    }
}

/// How one whitespace-separated token classifies: an `@` token is a
/// private message; otherwise its alphanumeric core is uppercased and
/// searched for the keywords, slash-separated compounds included.
pub open spec fn spec_classify_token(t: Seq<char>) -> Option<Seq<char>> {
    if t.len() > 0 && t[0] == '@' {
        Some("PM"@)
    } else {
        let core = spec_trim_non_alnum(t);
        if core.len() == 0 {
            None
        } else {
            spec_classify_parts(spec_split_char(spec_upper(core), '/'))
        }
    }
}

pub open spec fn spec_classify_tokens(ts: Seq<Seq<char>>) -> Option<Seq<char>>
    decreases ts.len(),
{
    if ts.len() == 0 {
        None
    } else {
        match spec_classify_token(ts[0]) {
            Some(c) => Some(c),
            None => spec_classify_tokens(ts.skip(1)),
        }
    }
}

/// A leading `<sender>` tag, stepped over.
pub open spec fn spec_after_angle(t: Seq<char>) -> Seq<char> {
    if t.len() > 0 && t[0] == '<' {
        match spec_find_char(t, 0, '>') {
            Some(e) => spec_trim_start(t.skip(e + 1)),
            None => t,
        }
    } else {
        t
    }
}

/// A leading `(channel)` tag, stepped over.
pub open spec fn spec_after_paren(t: Seq<char>) -> Seq<char> {
    if t.len() > 0 && t[0] == '(' {
        match spec_find_char(t, 0, ')') {
            Some(e) => spec_trim_start(t.skip(e + 1)),
            None => t,
        }
    } else {
        t
    }
}

/// What category a trade-chat message falls in, if any: a message whose
/// first character is `@` is a private message; otherwise its sender and
/// channel tags are stepped over and its tokens are searched in order for
/// the first trade keyword.
pub open spec fn spec_classify(m: Seq<char>) -> Option<Seq<char>> {
    let t = spec_trim(m);
    if t.len() == 0 {
        None
    } else if t[0] == '@' {
        Some("PM"@)
    } else {
        spec_classify_tokens(spec_split_ws(spec_after_paren(spec_after_angle(t))))
    }
}

fn classify_token(tok: &str) -> (r: Option<String>)
    ensures
        match r {
            Some(c) => spec_classify_token(tok@) == Some(c@),
            None => spec_classify_token(tok@) is None,
        },
{
    let n = tok.unicode_len();
    if n > 0 && tok.get_char(0) == '@' {
        return Some("PM".to_owned());
    }
    let core = trim_non_alnum(tok);
    if core.unicode_len() == 0 {
        return None;
    }
    let upper = to_ascii_upper(core);
    let parts = split_on_char(upper.as_str(), '/');
    let wtb: String = "WTB".to_owned();
    let wts: String = "WTS".to_owned();
    let wtt: String = "WTT".to_owned();
    let pc: String = "PC".to_owned();
    let ghost pv = parts.deep_view();
    proof {
        assert(pv.skip(0) =~= pv);
    }
    let mut idx: usize = 0;
    while idx < parts.len()
        invariant
            idx <= parts@.len(),
            pv == parts.deep_view(),
            pv.len() == parts@.len(),
            wtb@ == "WTB"@,
            wts@ == "WTS"@,
            wtt@ == "WTT"@,
            pc@ == "PC"@,
            spec_classify_parts(pv) == spec_classify_parts(pv.skip(idx as int)),
            spec_classify_token(tok@) == spec_classify_parts(pv),
        decreases parts@.len() - idx,
    {
        proof {
            assert(pv.skip(idx as int)[0] == pv[idx as int]);
            assert(pv[idx as int] == parts@[idx as int]@);
            assert(pv.skip(idx as int).skip(1) =~= pv.skip(idx as int + 1));
        }
        if parts[idx] == wtb {
            return Some("WTB".to_owned());
        }
        if parts[idx] == wts || parts[idx] == wtt {
            return Some("WTS".to_owned());
        }
        if parts[idx] == pc {
            return Some("PC".to_owned());
        }
        idx = idx + 1;
    }
    proof {
        assert(pv.skip(pv.len() as int) =~= Seq::<Seq<char>>::empty());
    }
    None
}

/// Classifies one line of trade chat, stepping over its sender and
/// channel tags and searching its words for the first trade keyword.
pub fn classify_trade_message(message: &str) -> (r: Option<String>)
    ensures
        match r {
            Some(c) => spec_classify(message@) == Some(c@),
            None => spec_classify(message@) is None,
        },
{
    let t = trim(message);
    let tn = t.unicode_len();
    if tn == 0 {
        return None;
    }
    if t.get_char(0) == '@' {
        return Some("PM".to_owned());
    }
    let c1: &str = if t.get_char(0) == '<' {
        match find_char(t, tn, 0, '>') {
            Some(e) => {
                let rest = t.substring_char(e + 1, tn);
                proof {
                    assert(rest@ =~= t@.skip(e as int + 1));
                }
                trim_start_str(rest)
            },
            None => t,
        }
    } else {
        t
    };
    proof {
        assert(c1@ == spec_after_angle(t@));
    }
    let c1n = c1.unicode_len();
    let c2: &str = if c1n > 0 && c1.get_char(0) == '(' {
        match find_char(c1, c1n, 0, ')') {
            Some(e) => {
                let rest = c1.substring_char(e + 1, c1n);
                proof {
                    assert(rest@ =~= c1@.skip(e as int + 1));
                }
                trim_start_str(rest)
            },
            None => c1,
        }
    } else {
        c1
    };
    proof {
        assert(c2@ == spec_after_paren(c1@));
    }
    let tokens = split_whitespace_words(c2);
    let ghost tv = tokens.deep_view();
    proof {
        assert(tv.skip(0) =~= tv);
    }
    let mut idx: usize = 0;
    while idx < tokens.len()
        invariant
            idx <= tokens@.len(),
            tv == tokens.deep_view(),
            tv.len() == tokens@.len(),
            spec_classify_tokens(tv) == spec_classify_tokens(tv.skip(idx as int)),
            spec_classify(message@) == spec_classify_tokens(tv),
        decreases tokens@.len() - idx,
    {
        proof {
            assert(tv.skip(idx as int)[0] == tv[idx as int]);
            assert(tv[idx as int] == tokens@[idx as int]@);
            assert(tv.skip(idx as int).skip(1) =~= tv.skip(idx as int + 1));
        }
        match classify_token(tokens[idx].as_str()) {
            Some(category) => {
                return Some(category);
            },
            None => {},
        }
        idx = idx + 1;
    }
    proof {
        assert(tv.skip(tv.len() as int) =~= Seq::<Seq<char>>::empty());
    }
    None
}

/// What a trade-chat log line yields: its category, its timestamp (empty
/// when the line carries none), and its trimmed message.
pub open spec fn spec_parse_trade_entry(line: Seq<char>) -> Option<
    (Seq<char>, Seq<char>, Seq<char>),
> {
    if spec_trim(line).len() == 0 {
        None
    } else {
        let split = if line.len() > 0 && line[0] == '[' {
            match spec_find_ts_end(line, 0) {
                Some(i) => (line.subrange(1, i), spec_trim(line.skip(i + 2))),
                None => (Seq::<char>::empty(), spec_trim(line)),
            }
        } else {
            (Seq::<char>::empty(), spec_trim(line))
        };
        if split.1.len() == 0 {
            None
        } else {
            match spec_classify(split.1) {
                Some(category) => Some((category, split.0, split.1)),
                None => None,
            }
        }
    }
}

/// Reads one log line as a trade entry, when it classifies as trade chat.
pub fn parse_trade_entry(line: &str) -> (r: Option<crate::trade_entries::TradeEntry>)
    ensures
        match r {
            Some(e) => spec_parse_trade_entry(line@) == Some((e.category@, e.timestamp@, e.message@)),
            None => spec_parse_trade_entry(line@) is None,
        },
{
    let whole_trimmed = trim(line);
    if whole_trimmed.unicode_len() == 0 {
        return None;
    }
    let n = line.unicode_len();
    let (timestamp, message): (String, String) = if n > 0 && line.get_char(0) == '[' {
        match find_ts_end(line, n) {
            Some(i) => {
                proof {
                    lemma_find_ts_end_range(line@, 0);
                    assert(i >= 1);
                }
                let ts = line.substring_char(1, i).to_owned();
                let rest = line.substring_char(i + 2, n);
                proof {
                    assert(ts@ =~= line@.subrange(1, i as int));
                    assert(rest@ =~= line@.skip(i as int + 2));
                }
                (ts, trim(rest).to_owned())
            },
            None => (String::new(), trim(line).to_owned()),
        }
    } else {
        (String::new(), trim(line).to_owned())
    };
    if message.as_str().unicode_len() == 0 {
        return None;
    }
    match classify_trade_message(message.as_str()) {
        Some(category) => Some(
            crate::trade_entries::TradeEntry { category, timestamp, message },
        ),
        None => None,
    }
}

/// `pat` occurs in `s` at position `i`.
pub open spec fn spec_contains_at(s: Seq<char>, pat: Seq<char>, i: int) -> bool {
    0 <= i && i + pat.len() <= s.len() && s.subrange(i, i + pat.len()) == pat
}

/// `pat` occurs somewhere in `s`.
pub open spec fn spec_contains(s: Seq<char>, pat: Seq<char>) -> bool {
    exists|i: int| spec_contains_at(s, pat, i)
}

fn contains_str(s: &str, pat: &str) -> (r: bool)
    ensures
        r == spec_contains(s@, pat@),
{
    let n = s.unicode_len();
    let m = pat.unicode_len();
    if m == 0 {
        proof {
            assert(s@.subrange(0, 0) =~= pat@);
            assert(spec_contains_at(s@, pat@, 0));
        }
        return true;
    }
    if m > n {
        proof {
            assert forall|i: int| !spec_contains_at(s@, pat@, i) by {}
        }
        return false;
    }
    let mut i: usize = 0;
    while i <= n - m
        invariant
            1 <= m <= n,
            i <= n - m + 1,
            n == s@.len(),
            m == pat@.len(),
            forall|k: int| 0 <= k < i ==> !spec_contains_at(s@, pat@, k),
        decreases n - m + 1 - i,
    {
        let mut j: usize = 0;
        let mut matched = true;
        while j < m
            invariant
                j <= m,
                i + m <= n,
                n == s@.len(),
                m == pat@.len(),
                matched ==> forall|k: int| 0 <= k < j ==> s@[i + k] == pat@[k],
                !matched ==> !spec_contains_at(s@, pat@, i as int),
            decreases m - j,
        {
            if s.get_char(i + j) != pat.get_char(j) {
                proof {
                    assert(s@.subrange(i as int, i as int + m) != pat@) by {
                        if s@.subrange(i as int, i as int + m) == pat@ {
                            assert(s@.subrange(i as int, i as int + m)[j as int] == s@[i as int
                                + j]);
                        }
                    }
                }
                matched = false;
                j = m;
            } else {
                j = j + 1;
            }
        }
        if matched {
            proof {
                assert(s@.subrange(i as int, i as int + m) =~= pat@);
                assert(spec_contains_at(s@, pat@, i as int));
            }
            return true;
        }
        i = i + 1;
    }
    proof {
        assert forall|k: int| !spec_contains_at(s@, pat@, k) by {
            if 0 <= k && k + pat@.len() <= s@.len() {
                assert(k < i);
            }
        }
    }
    false
}

/// The last position of a path separator (either kind).
pub open spec fn spec_rfind_sep(s: Seq<char>, i: int) -> Option<int>
    decreases i + 1,
{
    if i < 0 || i >= s.len() {
        None
    } else if s[i] == '/' || s[i] == '\\' {
        Some(i)
    } else {
        spec_rfind_sep(s, i - 1)
    }
}

/// A path's final component, the text after its last separator.
pub open spec fn spec_file_name(s: Seq<char>) -> Seq<char> {
    match spec_rfind_sep(s, s.len() - 1) {
        Some(i) => s.skip(i + 1),
        None => s,
    }
}

fn file_name_of<'a>(path: &'a str) -> (r: &'a str)
    ensures
        r@ == spec_file_name(path@),
{
    let n = path.unicode_len();
    let mut i: usize = n;
    while i > 0
        invariant
            i <= n,
            n == path@.len(),
            spec_rfind_sep(path@, n as int - 1) == spec_rfind_sep(path@, i as int - 1),
        decreases i,
    {
        let c = path.get_char(i - 1);
        if c == '/' || c == '\\' {
            let r = path.substring_char(i, n);
            proof {
                assert(r@ =~= path@.skip(i as int));
            }
            return r;
        }
        i = i - 1;
    }
    path
}

/// Which chat a log file carries, read off its file name: an underscore
/// prefix names the chat up to the first dot; otherwise the uppercased
/// name is searched for the known channel markers.
pub open spec fn spec_chat_type(path: Seq<char>) -> Seq<char> {
    let f = spec_file_name(path);
    if f.len() > 0 && f[0] == '_' && spec_find_char(f, 0, '.') is Some {
        f.subrange(1, spec_find_char(f, 0, '.').unwrap())
    } else {
        let upper = spec_upper(f);
        if spec_contains(upper, "GL-FREEDOM"@) {
            "GL-Freedom"@
        } else if spec_contains(upper, "CA_HELP"@) {
            "CA-Help"@
        } else if spec_contains(upper, "TRADE"@) {
            "Trade"@
        } else if spec_contains(upper, "PM__"@) {
            "PM"@
        } else {
            "unknown"@
        }
    }
}

/// Names the chat a log file belongs to, from its path alone.
pub fn get_chat_type(path_str: &str) -> (r: String)
    ensures
        r@ == spec_chat_type(path_str@),
{
    let f = file_name_of(path_str);
    let fn_len = f.unicode_len();
    if fn_len > 0 && f.get_char(0) == '_' {
        match find_char(f, fn_len, 0, '.') {
            Some(dot) => {
                proof {
                    lemma_find_char_range(f@, 0, '.');
                }
                return f.substring_char(1, dot).to_owned();
            },
            None => {},
        }
    }
    let upper = to_ascii_upper(f);
    if contains_str(upper.as_str(), "GL-FREEDOM") {
        "GL-Freedom".to_owned()
    } else if contains_str(upper.as_str(), "CA_HELP") {
        "CA-Help".to_owned()
    } else if contains_str(upper.as_str(), "TRADE") {
        "Trade".to_owned()
    } else if contains_str(upper.as_str(), "PM__") {
        "PM".to_owned()
    } else {
        "unknown".to_owned()
    }
}

/// The first position at which `pat` occurs in `s`.
pub open spec fn spec_first_sub(s: Seq<char>, pat: Seq<char>, i: int) -> Option<int>
    decreases s.len() + 1 - i,
{
    if i < 0 || i + pat.len() > s.len() {
        None
    } else if s.subrange(i, i + pat.len()) == pat {
        Some(i)
    } else {
        spec_first_sub(s, pat, i + 1)
    }
}

fn first_sub(s: &str, pat: &str) -> (r: Option<usize>)
    ensures
        match r {
            Some(j) => spec_first_sub(s@, pat@, 0) == Some(j as int) && j + pat@.len() <= s@.len(),
            None => spec_first_sub(s@, pat@, 0) is None,
        },
{
    let n = s.unicode_len();
    let m = pat.unicode_len();
    if m == 0 {
        proof {
            assert(s@.subrange(0, 0) =~= pat@);
        }
        return Some(0);
    }
    if m > n {
        return None;
    }
    let mut i: usize = 0;
    while i <= n - m
        invariant
            1 <= m <= n,
            i <= n - m + 1,
            n == s@.len(),
            m == pat@.len(),
            spec_first_sub(s@, pat@, 0) == spec_first_sub(s@, pat@, i as int),
        decreases n - m + 1 - i,
    {
        let mut j: usize = 0;
        let mut matched = true;
        while j < m
            invariant
                j <= m,
                i + m <= n,
                n == s@.len(),
                m == pat@.len(),
                matched ==> forall|k: int| 0 <= k < j ==> s@[i + k] == pat@[k],
                !matched ==> s@.subrange(i as int, i as int + m) != pat@,
            decreases m - j,
        {
            if s.get_char(i + j) != pat.get_char(j) {
                proof {
                    assert(s@.subrange(i as int, i as int + m) != pat@) by {
                        if s@.subrange(i as int, i as int + m) == pat@ {
                            assert(s@.subrange(i as int, i as int + m)[j as int] == s@[i as int
                                + j]);
                        }
                    }
                }
                matched = false;
                j = m;
            } else {
                j = j + 1;
            }
        }
        if matched {
            proof {
                assert(s@.subrange(i as int, i as int + m) =~= pat@);
            }
            return Some(i);
        }
        i = i + 1;
    }
    proof {
        assert(spec_first_sub(s@, pat@, i as int) is None);
    }
    None
}

/// `s` begins with `p`.
pub open spec fn spec_starts_with(s: Seq<char>, p: Seq<char>) -> bool {
    s.len() >= p.len() && s.subrange(0, p.len() as int) == p
}

fn starts_with_str(s: &str, p: &str) -> (r: bool)
    ensures
        r == spec_starts_with(s@, p@),
{
    let n = s.unicode_len();
    let m = p.unicode_len();
    if m > n {
        return false;
    }
    let mut j: usize = 0;
    while j < m
        invariant
            j <= m <= n,
            n == s@.len(),
            m == p@.len(),
            forall|k: int| 0 <= k < j ==> s@[k] == p@[k],
        decreases m - j,
    {
        if s.get_char(j) != p.get_char(j) {
            proof {
                assert(s@.subrange(0, m as int) != p@) by {
                    if s@.subrange(0, m as int) == p@ {
                        assert(s@.subrange(0, m as int)[j as int] == s@[j as int]);
                    }
                }
            }
            return false;
        }
        j = j + 1;
    }
    proof {
        assert(s@.subrange(0, m as int) =~= p@);
    }
    true
}

/// An ASCII uppercase letter dropped to lowercase; all else unchanged.
pub open spec fn spec_lower_char(c: char) -> char {
    if 0x41 <= (c as u32) <= 0x5a {
        (((c as u32) + 0x20) as u8) as char
    } else {
        c
    }
}

/// The ASCII-lowercased form of a string.
pub open spec fn spec_lower(s: Seq<char>) -> Seq<char> {
    s.map_values(|c: char| spec_lower_char(c))
}

/// Lowercases the ASCII letters of a string.
pub fn to_ascii_lower(s: &str) -> (r: String)
    ensures
        r@ == spec_lower(s@),
{
    let n = s.unicode_len();
    let mut out = String::new();
    proof {
        assert(s@.take(0).map_values(|c: char| spec_lower_char(c)) =~= out@);
    }
    let mut i: usize = 0;
    while i < n
        invariant
            i <= n,
            n == s@.len(),
            out@ == s@.take(i as int).map_values(|c: char| spec_lower_char(c)),
        decreases n - i,
    {
        let c = s.get_char(i);
        let u = c as u32;
        let low = if 0x41 <= u && u <= 0x5a {
            ((u + 0x20) as u8) as char
        } else {
            c
        };
        crate::json::push_char(&mut out, low);
        proof {
            assert(low == spec_lower_char(s@[i as int]));
            assert(s@.take(i as int + 1).map_values(|c: char| spec_lower_char(c)) =~= s@.take(
                i as int,
            ).map_values(|c: char| spec_lower_char(c)).push(spec_lower_char(s@[i as int])));
        }
        i = i + 1;
    }
    proof {
        assert(s@.take(n as int) =~= s@);
    }
    out
}

/// Two strings equal up to ASCII letter case.
pub open spec fn spec_eq_ignore_case(a: Seq<char>, b: Seq<char>) -> bool {
    spec_lower(a) == spec_lower(b)
}

/// The prefix before trailing dots.
pub open spec fn spec_trim_end_dots(s: Seq<char>) -> Seq<char>
    decreases s.len(),
{
    if s.len() > 0 && s[s.len() - 1] == '.' {
        spec_trim_end_dots(s.take(s.len() - 1))
    } else {
        s
    }
}

fn trim_end_dots<'a>(s: &'a str) -> (r: &'a str)
    ensures
        r@ == spec_trim_end_dots(s@),
{
    let n = s.unicode_len();
    let mut j: usize = n;
    proof {
        assert(s@.take(n as int) =~= s@);
    }
    while j > 0 && s.get_char(j - 1) == '.'
        invariant
            j <= n,
            n == s@.len(),
            spec_trim_end_dots(s@) == spec_trim_end_dots(s@.take(j as int)),
        decreases j,
    {
        proof {
            assert(s@.take(j as int)[j - 1] == s@[j as int - 1]);
            assert(s@.take(j as int).take(j as int - 1) =~= s@.take(j as int - 1));
        }
        j = j - 1;
    }
    proof {
        if j > 0 {
            assert(s@.take(j as int)[j - 1] == s@[j as int - 1]);
        }
        assert(spec_trim_end_dots(s@.take(j as int)) == s@.take(j as int));
    }
    s.substring_char(0, j)
}

/// A dot or comma, the punctuation trimmed off species words.
pub open spec fn is_dot_comma(c: char) -> bool {
    c == '.' || c == ','
}

pub open spec fn spec_trim_punct_start(s: Seq<char>) -> Seq<char>
    decreases s.len(),
{
    if s.len() > 0 && is_dot_comma(s[0]) {
        spec_trim_punct_start(s.skip(1))
    } else {
        s
    }
}

pub open spec fn spec_trim_punct_end(s: Seq<char>) -> Seq<char>
    decreases s.len(),
{
    if s.len() > 0 && is_dot_comma(s[s.len() - 1]) {
        spec_trim_punct_end(s.take(s.len() - 1))
    } else {
        s
    }
}

/// The token with dots and commas removed from both ends.
pub open spec fn spec_trim_punct(s: Seq<char>) -> Seq<char> {
    spec_trim_punct_end(spec_trim_punct_start(s))
}

fn exec_is_dot_comma(c: char) -> (r: bool)
    ensures
        r == is_dot_comma(c),
{
    c == '.' || c == ','
}

fn trim_punct<'a>(s: &'a str) -> (r: &'a str)
    ensures
        r@ == spec_trim_punct(s@),
{
    let n = s.unicode_len();
    proof {
        assert(s@.skip(0) =~= s@);
    }
    let mut i: usize = 0;
    while i < n && exec_is_dot_comma(s.get_char(i))
        invariant
            i <= n,
            n == s@.len(),
            spec_trim_punct_start(s@) == spec_trim_punct_start(s@.skip(i as int)),
        decreases n - i,
    {
        proof {
            assert(s@.skip(i as int)[0] == s@[i as int]);
            assert(s@.skip(i as int).skip(1) =~= s@.skip(i as int + 1));
        }
        i = i + 1;
    }
    proof {
        if i < n {
            assert(s@.skip(i as int)[0] == s@[i as int]);
        }
        assert(spec_trim_punct_start(s@.skip(i as int)) == s@.skip(i as int));
    }
    let a = i;
    let ghost t = s@.skip(a as int);
    let mut j: usize = n;
    proof {
        assert(t.take(n - a as int) =~= t);
    }
    while j > a && exec_is_dot_comma(s.get_char(j - 1))
        invariant
            a <= j <= n,
            n == s@.len(),
            t == s@.skip(a as int),
            spec_trim_punct_end(t) == spec_trim_punct_end(t.take(j - a as int)),
        decreases j,
    {
        proof {
            assert(t.take(j - a as int)[j - 1 - a as int] == s@[j as int - 1]);
            assert(t.take(j - a as int).take(j - 1 - a as int) =~= t.take(j - 1 - a as int));
        }
        j = j - 1;
    }
    proof {
        if j > a {
            assert(t.take(j - a as int)[j - 1 - a as int] == s@[j as int - 1]);
        }
        assert(spec_trim_punct_end(t.take(j - a as int)) == t.take(j - a as int));
    }
    let r = s.substring_char(a, j);
    proof {
        assert(r@ =~= t.take(j - a as int));
    }
    r
}

/// The prefix before trailing commas.
pub open spec fn spec_trim_commas_start(s: Seq<char>) -> Seq<char>
    decreases s.len(),
{
    if s.len() > 0 && s[0] == ',' {
        spec_trim_commas_start(s.skip(1))
    } else {
        s
    }
}

pub open spec fn spec_trim_commas_end(s: Seq<char>) -> Seq<char>
    decreases s.len(),
{
    if s.len() > 0 && s[s.len() - 1] == ',' {
        spec_trim_commas_end(s.take(s.len() - 1))
    } else {
        s
    }
}

/// The token with commas removed from both ends.
pub open spec fn spec_trim_commas(s: Seq<char>) -> Seq<char> {
    spec_trim_commas_end(spec_trim_commas_start(s))
}

fn trim_commas<'a>(s: &'a str) -> (r: &'a str)
    ensures
        r@ == spec_trim_commas(s@),
{
    let n = s.unicode_len();
    proof {
        assert(s@.skip(0) =~= s@);
    }
    let mut i: usize = 0;
    while i < n && s.get_char(i) == ','
        invariant
            i <= n,
            n == s@.len(),
            spec_trim_commas_start(s@) == spec_trim_commas_start(s@.skip(i as int)),
        decreases n - i,
    {
        proof {
            assert(s@.skip(i as int)[0] == s@[i as int]);
            assert(s@.skip(i as int).skip(1) =~= s@.skip(i as int + 1));
        }
        i = i + 1;
    }
    proof {
        if i < n {
            assert(s@.skip(i as int)[0] == s@[i as int]);
        }
        assert(spec_trim_commas_start(s@.skip(i as int)) == s@.skip(i as int));
    }
    let a = i;
    let ghost t = s@.skip(a as int);
    let mut j: usize = n;
    proof {
        assert(t.take(n - a as int) =~= t);
    }
    while j > a && s.get_char(j - 1) == ','
        invariant
            a <= j <= n,
            n == s@.len(),
            t == s@.skip(a as int),
            spec_trim_commas_end(t) == spec_trim_commas_end(t.take(j - a as int)),
        decreases j,
    {
        proof {
            assert(t.take(j - a as int)[j - 1 - a as int] == s@[j as int - 1]);
            assert(t.take(j - a as int).take(j - 1 - a as int) =~= t.take(j - 1 - a as int));
        }
        j = j - 1;
    }
    proof {
        if j > a {
            assert(t.take(j - a as int)[j - 1 - a as int] == s@[j as int - 1]);
        }
        assert(spec_trim_commas_end(t.take(j - a as int)) == t.take(j - a as int));
    }
    let r = s.substring_char(a, j);
    proof {
        assert(r@ =~= t.take(j - a as int));
    }
    r
}

fn trim_end_str<'a>(s: &'a str) -> (r: &'a str)
    ensures
        r@ == spec_trim_end(s@),
{
    let n = s.unicode_len();
    let mut j: usize = n;
    proof {
        assert(s@.take(n as int) =~= s@);
    }
    while j > 0 && exec_is_blank(s.get_char(j - 1))
        invariant
            j <= n,
            n == s@.len(),
            spec_trim_end(s@) == spec_trim_end(s@.take(j as int)),
        decreases j,
    {
        proof {
            assert(s@.take(j as int)[j - 1] == s@[j as int - 1]);
            assert(s@.take(j as int).take(j as int - 1) =~= s@.take(j as int - 1));
        }
        j = j - 1;
    }
    proof {
        if j > 0 {
            assert(s@.take(j as int)[j - 1] == s@[j as int - 1]);
        }
        assert(spec_trim_end(s@.take(j as int)) == s@.take(j as int));
    }
    s.substring_char(0, j)
}

/// The trait a sentence describes, if it is a trait sentence: it must
/// open with `It has`, `He has` or `She has`, must not be the
/// trait-point or history sentence, and names the trait after its first
/// ` has `.
pub open spec fn spec_trait_of_sentence(part: Seq<char>) -> Option<Seq<char>> {
    let sentence = spec_trim(part);
    if sentence.len() == 0 {
        None
    } else if !(spec_starts_with(sentence, "It has"@) || spec_starts_with(sentence, "He has"@)
        || spec_starts_with(sentence, "She has"@)) {
        None
    } else if spec_contains(spec_lower(sentence), "trait points"@) || spec_contains(
        spec_lower(sentence),
        "has been"@,
    ) {
        None
    } else {
        match spec_first_sub(sentence, " has "@, 0) {
            None => None,
            Some(i) => {
                let frag = spec_trim(sentence.skip(i + " has "@.len()));
                if frag.len() == 0 {
                    None
                } else {
                    Some(frag)
                }
            },
        }
    }
}

pub open spec fn spec_traits_of_parts(parts: Seq<Seq<char>>) -> Seq<Seq<char>>
    decreases parts.len(),
{
    if parts.len() == 0 {
        Seq::empty()
    } else {
        match spec_trait_of_sentence(parts[0]) {
            Some(t) => seq![t] + spec_traits_of_parts(parts.skip(1)),
            None => spec_traits_of_parts(parts.skip(1)),
        }
    }
}

/// The traits named by a line's sentences, split on dots.
pub open spec fn spec_split_trait_sentences(line: Seq<char>) -> Seq<Seq<char>> {
    spec_traits_of_parts(spec_split_char(line, '.'))
}

fn trait_of_sentence(part: &str) -> (r: Option<String>)
    ensures
        match r {
            Some(t) => spec_trait_of_sentence(part@) == Some(t@),
            None => spec_trait_of_sentence(part@) is None,
        },
{
    let sentence = trim(part);
    let sn = sentence.unicode_len();
    if sn == 0 {
        return None;
    }
    if !(starts_with_str(sentence, "It has") || starts_with_str(sentence, "He has")
        || starts_with_str(sentence, "She has")) {
        return None;
    }
    let lowered = to_ascii_lower(sentence);
    if contains_str(lowered.as_str(), "trait points") || contains_str(
        lowered.as_str(),
        "has been",
    ) {
        return None;
    }
    match first_sub(sentence, " has ") {
        None => None,
        Some(i) => {
            proof {
                reveal_strlit(" has ");
            }
            let raw = sentence.substring_char(i + 5, sn);
            proof {
                assert(raw@ =~= sentence@.skip(i as int + 5));
            }
            let frag = trim(raw);
            if frag.unicode_len() == 0 {
                None
            } else {
                Some(frag.to_owned())
            }
        },
    }
}

/// Collects the traits a line's sentences describe.
pub fn split_trait_sentences(line: &str) -> (r: Vec<String>)
    ensures
        r.deep_view() == spec_split_trait_sentences(line@),
{
    let parts = split_on_char(line, '.');
    let ghost pv = parts.deep_view();
    proof {
        assert(pv.skip(0) =~= pv);
    }
    let mut out: Vec<String> = Vec::new();
    let mut idx: usize = 0;
    while idx < parts.len()
        invariant
            idx <= parts@.len(),
            pv == parts.deep_view(),
            pv.len() == parts@.len(),
            spec_traits_of_parts(pv) == out.deep_view() + spec_traits_of_parts(
                pv.skip(idx as int),
            ),
        decreases parts@.len() - idx,
    {
        proof {
            assert(pv.skip(idx as int)[0] == pv[idx as int]);
            assert(pv[idx as int] == parts@[idx as int]@);
            assert(pv.skip(idx as int).skip(1) =~= pv.skip(idx as int + 1));
        }
        match trait_of_sentence(parts[idx].as_str()) {
            Some(t) => {
                out.push(t);
                proof {
                    assert(out.deep_view() =~= out.deep_view().take(out@.len() - 1).push(
                        out@[out@.len() - 1]@,
                    ));
                }
            },
            None => {},
        }
        proof {
            assert(spec_traits_of_parts(pv) =~= out.deep_view() + spec_traits_of_parts(
                pv.skip(idx as int + 1),
            ));
        }
        idx = idx + 1;
    }
    proof {
        assert(pv.skip(pv.len() as int) =~= Seq::<Seq<char>>::empty());
        assert(out.deep_view() + Seq::<Seq<char>>::empty() =~= out.deep_view());
    }
    out
}

/// Words joined with single spaces.
pub open spec fn spec_join_ws(parts: Seq<Seq<char>>) -> Seq<char>
    decreases parts.len(),
{
    if parts.len() == 0 {
        Seq::empty()
    } else if parts.len() == 1 {
        parts[0]
    } else {
        parts[0] + seq![' '] + spec_join_ws(parts.skip(1))
    }
}

/// A string with its whitespace runs collapsed to single spaces and its
/// ends trimmed.
pub open spec fn spec_normalize_ws(s: Seq<char>) -> Seq<char> {
    spec_join_ws(spec_split_ws(s))
}

fn join_ws_from(parts: &Vec<String>, idx: usize) -> (r: String)
    requires
        idx <= parts@.len(),
    ensures
        r@ == spec_join_ws(parts.deep_view().skip(idx as int)),
    decreases parts@.len() - idx,
{
    let ghost pv = parts.deep_view();
    if idx == parts.len() {
        proof {
            assert(pv.skip(idx as int).len() == 0);
        }
        String::new()
    } else if idx == parts.len() - 1 {
        proof {
            assert(pv.skip(idx as int).len() == 1);
            assert(pv.skip(idx as int)[0] == pv[idx as int]);
            assert(pv[idx as int] == parts@[idx as int]@);
        }
        parts[idx].clone()
    } else {
        let mut out = parts[idx].clone();
        crate::json::push_char(&mut out, ' ');
        let rest = join_ws_from(parts, idx + 1);
        out.append(rest.as_str());
        proof {
            assert(pv.skip(idx as int)[0] == pv[idx as int]);
            assert(pv[idx as int] == parts@[idx as int]@);
            assert(pv.skip(idx as int).skip(1) =~= pv.skip(idx as int + 1));
            assert(out@ =~= pv.skip(idx as int)[0] + seq![' '] + spec_join_ws(
                pv.skip(idx as int + 1),
            ));
        }
        out
    }
}

/// The positions of the first two occurrences of the delimiter.
pub open spec fn spec_label_bounds(input: Seq<char>, d: char) -> Option<(int, int)> {
    match spec_find_char(input, 0, d) {
        None => None,
        Some(s) => match spec_find_char(input, s + 1, d) {
            None => None,
            Some(e) => Some((s, e)),
        },
    }
}

/// A label quoted by the first pair of delimiters, and the rest of the
/// text with the quoted part cut out and its whitespace normalized.
pub open spec fn spec_label_with_delim(input: Seq<char>, d: char) -> Option<
    (Seq<char>, Seq<char>),
> {
    match spec_label_bounds(input, d) {
        None => None,
        Some((s, e)) => {
            let label = spec_trim(input.subrange(s + 1, e));
            let before = spec_trim_end(input.take(s));
            let after = spec_trim_start(input.skip(e + 1));
            let combined = if before.len() > 0 && after.len() > 0 {
                before + seq![' '] + after
            } else if before.len() > 0 {
                before
            } else {
                after
            };
            Some((label, spec_normalize_ws(combined)))
        },
    }
}

/// Cuts a delimiter-quoted label out of the text.
pub fn extract_label_with_delimiter(input: &str, delimiter: char) -> (r: Option<(String, String)>)
    ensures
        match r {
            Some(p) => spec_label_with_delim(input@, delimiter) == Some((p.0@, p.1@)),
            None => spec_label_with_delim(input@, delimiter) is None,
        },
{
    let n = input.unicode_len();
    let start = match find_char(input, n, 0, delimiter) {
        Some(x) => x,
        None => {
            return None;
        },
    };
    let end = match find_char(input, n, start + 1, delimiter) {
        Some(x) => x,
        None => {
            return None;
        },
    };
    let label_raw = input.substring_char(start + 1, end);
    proof {
        assert(label_raw@ =~= input@.subrange(start as int + 1, end as int));
    }
    let label = trim(label_raw).to_owned();
    let before_raw = input.substring_char(0, start);
    proof {
        assert(before_raw@ =~= input@.take(start as int));
    }
    let before = trim_end_str(before_raw);
    let after_raw = input.substring_char(end + 1, n);
    proof {
        assert(after_raw@ =~= input@.skip(end as int + 1));
    }
    let after = trim_start_str(after_raw);
    let combined: String = if !before.is_empty() && !after.is_empty() {
        let mut c = before.to_owned();
        crate::json::push_char(&mut c, ' ');
        c.append(after);
        proof {
            assert(c@ =~= before@ + seq![' '] + after@);
        }
        c
    } else if !before.is_empty() {
        before.to_owned()
    } else {
        after.to_owned()
    };
    let words = split_whitespace_words(combined.as_str());
    proof {
        assert(words.deep_view().skip(0) =~= words.deep_view());
    }
    let cleaned = join_ws_from(&words, 0);
    Some((label, cleaned))
}

/// The label a player put in quotes, single or double, and the text
/// without it; text without a quoted label is returned trimmed.
pub open spec fn spec_extract_custom_label(input: Seq<char>) -> (Option<Seq<char>>, Seq<char>) {
    match spec_label_with_delim(input, '\'') {
        Some((label, cleaned)) => (
            if label.len() == 0 {
                None
            } else {
                Some(label)
            },
            cleaned,
        ),
        None => match spec_label_with_delim(input, '"') {
            Some((label, cleaned)) => (
                if label.len() == 0 {
                    None
                } else {
                    Some(label)
                },
                cleaned,
            ),
            None => (None, spec_trim(input)),
        },
    }
}

/// Reads a quoted custom label out of an examine line.
pub fn extract_custom_label(input: &str) -> (r: (Option<String>, String))
    ensures
        ({
            let expected = spec_extract_custom_label(input@);
            &&& match r.0 {
                Some(l) => expected.0 == Some(l@),
                None => expected.0 is None,
            }
            &&& r.1@ == expected.1
        }),
{
    match extract_label_with_delimiter(input, '\'') {
        Some((label, cleaned)) => {
            if label.as_str().unicode_len() == 0 {
                (None, cleaned)
            } else {
                (Some(label), cleaned)
            }
        },
        None => match extract_label_with_delimiter(input, '"') {
            Some((label, cleaned)) => {
                if label.as_str().unicode_len() == 0 {
                    (None, cleaned)
                } else {
                    (Some(label), cleaned)
                }
            },
            None => (None, trim(input).to_owned()),
        },
    }
}

/// Where reading of a changed log file resumes: from the first line not
/// seen before when the file only grew, and from its last line when the
/// file is new or shrank (a rotated log is not replayed from the top).
pub fn new_lines_start(previous_count: Option<usize>, total_lines: usize) -> (r: usize)
    ensures
        r == match previous_count {
            Some(count) => if count <= total_lines {
                count as int
            } else {
                if total_lines > 0 {
                    total_lines - 1
                } else {
                    0
                }
            },
            None => if total_lines > 0 {
                total_lines - 1
            } else {
                0
            },
        },
{
    match previous_count {
        Some(count) => {
            if count <= total_lines {
                count
            } else if total_lines > 0 {
                total_lines - 1
            } else {
                0
            }
        },
        None => {
            if total_lines > 0 {
                total_lines - 1
            } else {
                0
            }
        },
    }
}

/// Words with their commas trimmed, the then-empty ones dropped.
pub open spec fn spec_clean_descriptors(ws: Seq<Seq<char>>) -> Seq<Seq<char>>
    decreases ws.len(),
{
    if ws.len() == 0 {
        Seq::empty()
    } else {
        let w = spec_trim_commas(ws[0]);
        if w.len() == 0 {
            spec_clean_descriptors(ws.skip(1))
        } else {
            seq![w] + spec_clean_descriptors(ws.skip(1))
        }
    }
}

/// What an opening `You smile at ...` line yields: the animal's name (the
/// last word), its descriptors, its age (the first descriptor), and a
/// quoted custom label, if one is present.
pub open spec fn spec_smile_fields(line: Seq<char>) -> Option<
    (Seq<char>, Seq<Seq<char>>, Option<Seq<char>>, Option<Seq<char>>),
> {
    let content = spec_strip_timestamp(line);
    if !spec_starts_with(content, "You smile at"@) {
        None
    } else {
        let remainder0 = spec_trim_end_dots(spec_trim(content.skip("You smile at"@.len() as int)));
        if remainder0.len() == 0 {
            None
        } else {
            let remainder = if spec_starts_with(remainder0, "the "@) {
                remainder0.skip("the "@.len() as int)
            } else {
                remainder0
            };
            let lc = spec_extract_custom_label(remainder);
            let words = spec_split_ws(lc.1);
            if words.len() == 0 {
                None
            } else {
                let name = words[words.len() - 1];
                let descs = spec_clean_descriptors(words.take(words.len() - 1));
                if descs.len() > 0 {
                    Some((name, descs.skip(1), Some(descs[0]), lc.0))
                } else {
                    Some((name, descs, None, lc.0))
                }
            }
        }
    }
}

/// The species named by an examine line, when the line says other animals
/// are `like this one`: its first word, stripped of punctuation.
pub open spec fn spec_species_candidate(content: Seq<char>) -> Option<Seq<char>> {
    if spec_contains(content, " like this one"@) {
        let ws = spec_split_ws(content);
        if ws.len() == 0 {
            None
        } else {
            let sp = spec_trim_punct(ws[0]);
            if sp.len() == 0 {
                None
            } else {
                Some(spec_trim_end_dots(sp))
            }
        }
    } else {
        None
    }
}

/// The text between the first occurrence of `pat` and the next, or to the
/// end when `pat` occurs only once.
pub open spec fn spec_second_piece(content: Seq<char>, pat: Seq<char>) -> Option<Seq<char>> {
    match spec_first_sub(content, pat, 0) {
        None => None,
        Some(i) => {
            let rest = content.skip(i + pat.len());
            match spec_first_sub(rest, pat, 0) {
                Some(j) => Some(rest.take(j)),
                None => Some(rest),
            }
        },
    }
}

/// A piece of text cleaned for storage: trimmed, trailing dots dropped.
pub open spec fn spec_clean_piece(piece: Seq<char>) -> Seq<char> {
    spec_trim_end_dots(spec_trim(piece))
}

/// The settlement an examine line names.
pub open spec fn spec_settlement_candidate(content: Seq<char>) -> Option<Seq<char>> {
    if spec_contains(content, "settlement of "@) {
        match spec_second_piece(content, "settlement of "@) {
            Some(piece) => {
                let s = spec_clean_piece(piece);
                if s.len() == 0 {
                    None
                } else {
                    Some(s)
                }
            },
            None => None,
        }
    } else {
        None
    }
}

/// The caretaker an examine line names.
pub open spec fn spec_caretaker_candidate(content: Seq<char>) -> Option<Seq<char>> {
    if spec_contains(content, "taken care of by"@) {
        match spec_second_piece(content, "by "@) {
            Some(piece) => {
                let s = spec_clean_piece(piece);
                if s.len() == 0 {
                    None
                } else {
                    Some(s)
                }
            },
            None => None,
        }
    } else {
        None
    }
}

/// Whether an examine line states the animal's condition.
pub open spec fn spec_is_condition_line(content: Seq<char>) -> bool {
    (spec_starts_with(content, "He is"@) || spec_starts_with(content, "She is"@)
        || spec_starts_with(content, "It is"@)) && !spec_contains(content, "trait points"@)
        && !spec_contains(content, "colour is"@)
}

/// The colour an examine line names.
pub open spec fn spec_colour_candidate(content: Seq<char>) -> Option<Seq<char>> {
    if spec_contains(content, "colour is"@) {
        match spec_second_piece(content, "colour is"@) {
            Some(piece) => {
                let s = spec_clean_piece(piece);
                if s.len() == 0 {
                    None
                } else {
                    Some(s)
                }
            },
            None => None,
        }
    } else {
        None
    }
}

/// Traits folded into a list, each skipped when the list already holds it
/// up to ASCII letter case.
pub open spec fn spec_add_traits(existing: Seq<Seq<char>>, new: Seq<Seq<char>>) -> Seq<Seq<char>>
    decreases new.len(),
{
    if new.len() == 0 {
        existing
    } else if exists|k: int|
        0 <= k < existing.len() && spec_eq_ignore_case(#[trigger] existing[k], new[0]) {
        spec_add_traits(existing, new.skip(1))
    } else {
        spec_add_traits(existing.push(new[0]), new.skip(1))
    }
}

fn second_piece(content: &str, pat: &str) -> (r: Option<String>)
    ensures
        match r {
            Some(p) => spec_second_piece(content@, pat@) == Some(p@),
            None => spec_second_piece(content@, pat@) is None,
        },
{
    let n = content.unicode_len();
    let m = pat.unicode_len();
    match first_sub(content, pat) {
        None => None,
        Some(i) => {
            let rest = content.substring_char(i + m, n);
            proof {
                assert(rest@ =~= content@.skip(i as int + m as int));
            }
            match first_sub(rest, pat) {
                Some(j) => {
                    let piece = rest.substring_char(0, j);
                    proof {
                        assert(piece@ =~= rest@.take(j as int));
                    }
                    Some(piece.to_owned())
                },
                None => Some(rest.to_owned()),
            }
        },
    }
}

fn clean_piece<'a>(piece: &'a str) -> (r: &'a str)
    ensures
        r@ == spec_clean_piece(piece@),
{
    trim_end_dots(trim(piece))
}

fn has_trait_ci(traits: &Vec<String>, t: &str) -> (r: bool)
    ensures
        r == exists|k: int|
            0 <= k < traits.deep_view().len() && spec_eq_ignore_case(
                #[trigger] traits.deep_view()[k],
                t@,
            ),
{
    let target = to_ascii_lower(t);
    let mut idx: usize = 0;
    while idx < traits.len()
        invariant
            idx <= traits@.len(),
            target@ == spec_lower(t@),
            forall|k: int| 0 <= k < idx ==> !spec_eq_ignore_case(
                #[trigger] traits.deep_view()[k],
                t@,
            ),
        decreases traits@.len() - idx,
    {
        let lowered = to_ascii_lower(traits[idx].as_str());
        if lowered == target {
            proof {
                assert(traits.deep_view()[idx as int] == traits@[idx as int]@);
                assert(spec_eq_ignore_case(traits.deep_view()[idx as int], t@));
            }
            return true;
        }
        proof {
            assert(traits.deep_view()[idx as int] == traits@[idx as int]@);
        }
        idx = idx + 1;
    }
    false
}

/// One animal being examined: the fields collected so far from the
/// opening smile line and the lines that follow it.
#[derive(Debug)]
pub struct PendingGrangerSession {
    pub timestamp: String,
    pub name: Option<String>,
    pub descriptors: Vec<String>,
    pub age: Option<String>,
    pub custom_label: Option<String>,
    pub species: Option<String>,
    pub settlement: Option<String>,
    pub caretaker: Option<String>,
    pub condition: Option<String>,
    pub traits: Vec<String>,
    pub trait_points: Option<u32>,
    pub colour: Option<String>,
    pub raw_lines: Vec<String>,
}

impl PendingGrangerSession {
    /// Opens a session from a `You smile at ...` line: the line names the
    /// animal (last word), its descriptors, and possibly a quoted label;
    /// any other line opens nothing.
    pub fn from_smile_line(line: &str) -> (r: Option<PendingGrangerSession>)
        ensures
            match r {
                Some(s) => {
                    &&& match spec_smile_fields(line@) {
                        Some(f) => {
                            &&& (s.name matches Some(nm) && nm@ == f.0)
                            &&& s.descriptors.deep_view() == f.1
                            &&& (match s.age {
                                Some(a) => f.2 == Some(a@),
                                None => f.2 is None,
                            })
                            &&& (match s.custom_label {
                                Some(c) => f.3 == Some(c@),
                                None => f.3 is None,
                            })
                        },
                        None => false,
                    }
                    &&& s.timestamp@ == (match spec_extract_timestamp(line@) {
                        Some(t) => t,
                        None => Seq::<char>::empty(),
                    })
                    &&& s.species is None
                    &&& s.settlement is None
                    &&& s.caretaker is None
                    &&& s.condition is None
                    &&& s.traits@.len() == 0
                    &&& s.trait_points is None
                    &&& s.colour is None
                    &&& s.raw_lines.deep_view() == seq![spec_strip_timestamp(line@)]
                },
                None => spec_smile_fields(line@) is None,
            },
    {
        let timestamp = match extract_timestamp(line) {
            Some(t) => t,
            None => String::new(),
        };
        let content = strip_timestamp_prefix(line);
        if !starts_with_str(content, "You smile at") {
            return None;
        }
        let cn = content.unicode_len();
        proof {
            reveal_strlit("You smile at");
        }
        let after = content.substring_char(12, cn);
        proof {
            assert(after@ =~= content@.skip(12));
        }
        let remainder0 = trim_end_dots(trim(after));
        if remainder0.is_empty() {
            proof {
                assert(remainder0@.len() == 0);
            }
            return None;
        }
        let r0n = remainder0.unicode_len();
        let remainder: &str = if starts_with_str(remainder0, "the ") {
            proof {
                reveal_strlit("the ");
            }
            let r2 = remainder0.substring_char(4, r0n);
            proof {
                assert(r2@ =~= remainder0@.skip(4));
            }
            r2
        } else {
            remainder0
        };
        let (custom_label, cleaned) = extract_custom_label(remainder);
        let mut words = split_whitespace_words(cleaned.as_str());
        let ghost wv = words.deep_view();
        if words.len() == 0 {
            return None;
        }
        let name = match words.pop() {
            Some(w) => w,
            None => {
                return None;
            },
        };
        proof {
            assert(name@ == wv[wv.len() - 1]);
            assert(words.deep_view() =~= wv.take(wv.len() - 1));
        }
        let ghost rest_words = words.deep_view();
        let mut descriptors: Vec<String> = Vec::new();
        let mut idx: usize = 0;
        proof {
            assert(rest_words.skip(0) =~= rest_words);
        }
        while idx < words.len()
            invariant
                idx <= words@.len(),
                rest_words == words.deep_view(),
                rest_words.len() == words@.len(),
                spec_clean_descriptors(rest_words) == descriptors.deep_view()
                    + spec_clean_descriptors(rest_words.skip(idx as int)),
            decreases words@.len() - idx,
        {
            proof {
                assert(rest_words.skip(idx as int)[0] == rest_words[idx as int]);
                assert(rest_words[idx as int] == words@[idx as int]@);
                assert(rest_words.skip(idx as int).skip(1) =~= rest_words.skip(idx as int + 1));
            }
            let w = trim_commas(words[idx].as_str());
            if !w.is_empty() {
                descriptors.push(w.to_owned());
                proof {
                    assert(descriptors.deep_view() =~= descriptors.deep_view().take(
                        descriptors@.len() - 1,
                    ).push(descriptors@[descriptors@.len() - 1]@));
                }
            }
            proof {
                assert(spec_clean_descriptors(rest_words) =~= descriptors.deep_view()
                    + spec_clean_descriptors(rest_words.skip(idx as int + 1)));
            }
            idx = idx + 1;
        }
        proof {
            assert(rest_words.skip(rest_words.len() as int) =~= Seq::<Seq<char>>::empty());
            assert(descriptors.deep_view() + Seq::<Seq<char>>::empty() =~= descriptors.deep_view());
        }
        let age: Option<String> = if descriptors.len() > 0 {
            let ghost dv = descriptors.deep_view();
            let first = descriptors.remove(0);
            proof {
                assert(first@ == dv[0]);
                assert(descriptors.deep_view() =~= dv.skip(1));
            }
            Some(first)
        } else {
            None
        };
        let mut raw_lines: Vec<String> = Vec::new();
        raw_lines.push(content.to_owned());
        proof {
            assert(raw_lines.deep_view() =~= seq![spec_strip_timestamp(line@)]);
        }
        Some(
            PendingGrangerSession {
                timestamp,
                name: Some(name),
                descriptors,
                age,
                custom_label,
                species: None,
                settlement: None,
                caretaker: None,
                condition: None,
                traits: Vec::new(),
                trait_points: None,
                colour: None,
                raw_lines,
            },
        )
    }

    /// Folds one further examine line into the session: the line is kept
    /// raw, and whichever of species, settlement, caretaker, condition,
    /// trait points, traits and colour it names is filled — each at most
    /// once, with traits deduplicated up to letter case.
    pub fn absorb_line(&mut self, line: &str)
        ensures
            ({
                let content = spec_strip_timestamp(line@);
                &&& final(self).raw_lines.deep_view() == old(self).raw_lines.deep_view().push(
                    content,
                )
                &&& final(self).timestamp == old(self).timestamp
                &&& final(self).name == old(self).name
                &&& final(self).descriptors == old(self).descriptors
                &&& final(self).age == old(self).age
                &&& final(self).custom_label == old(self).custom_label
                &&& (match (old(self).species, spec_species_candidate(content)) {
                    (None, Some(sp)) => final(self).species matches Some(x) && x@ == sp,
                    _ => final(self).species == old(self).species,
                })
                &&& (match (old(self).settlement, spec_settlement_candidate(content)) {
                    (None, Some(st)) => final(self).settlement matches Some(x) && x@ == st,
                    _ => final(self).settlement == old(self).settlement,
                })
                &&& (match (old(self).caretaker, spec_caretaker_candidate(content)) {
                    (None, Some(ct)) => final(self).caretaker matches Some(x) && x@ == ct,
                    _ => final(self).caretaker == old(self).caretaker,
                })
                &&& (if old(self).condition is None && spec_is_condition_line(content) {
                    final(self).condition matches Some(x) && x@ == content
                } else {
                    final(self).condition == old(self).condition
                })
                &&& (if spec_contains(content, "trait points"@) {
                    &&& final(self).traits == old(self).traits
                    &&& (match spec_extract_number(content) {
                        Some(v) => final(self).trait_points == Some(v),
                        None => final(self).trait_points == old(self).trait_points,
                    })
                } else {
                    &&& final(self).trait_points == old(self).trait_points
                    &&& final(self).traits.deep_view() == spec_add_traits(
                        old(self).traits.deep_view(),
                        spec_split_trait_sentences(content),
                    )
                })
                &&& (match (old(self).colour, spec_colour_candidate(content)) {
                    (None, Some(cl)) => final(self).colour matches Some(x) && x@ == cl,
                    _ => final(self).colour == old(self).colour,
                })
            }),
    {
        let content = strip_timestamp_prefix(line);
        self.raw_lines.push(content.to_owned());
        proof {
            assert(self.raw_lines.deep_view() =~= old(self).raw_lines.deep_view().push(
                spec_strip_timestamp(line@),
            ));
        }
        if self.species.is_none() && contains_str(content, " like this one") {
            let words = split_whitespace_words(content);
            if words.len() > 0 {
                proof {
                    assert(words.deep_view()[0] == words@[0]@);
                }
                let sp = trim_punct(words[0].as_str());
                if !sp.is_empty() {
                    self.species = Some(trim_end_dots(sp).to_owned());
                }
            }
        }
        if self.settlement.is_none() && contains_str(content, "settlement of ") {
            match second_piece(content, "settlement of ") {
                Some(piece) => {
                    let s = clean_piece(piece.as_str());
                    if !s.is_empty() {
                        self.settlement = Some(s.to_owned());
                    }
                },
                None => {},
            }
        }
        if self.caretaker.is_none() && contains_str(content, "taken care of by") {
            match second_piece(content, "by ") {
                Some(piece) => {
                    let s = clean_piece(piece.as_str());
                    if !s.is_empty() {
                        self.caretaker = Some(s.to_owned());
                    }
                },
                None => {},
            }
        }
        if self.condition.is_none() && (starts_with_str(content, "He is") || starts_with_str(
            content,
            "She is",
        ) || starts_with_str(content, "It is")) {
            if !contains_str(content, "trait points") && !contains_str(content, "colour is") {
                self.condition = Some(content.to_owned());
            }
        }
        if contains_str(content, "trait points") {
            match extract_number(content) {
                Some(v) => {
                    self.trait_points = Some(v);
                },
                None => {},
            }
        } else {
            let new_traits = split_trait_sentences(content);
            let ghost nv = new_traits.deep_view();
            let ghost snap = *self;
            let mut idx: usize = 0;
            proof {
                assert(nv.skip(0) =~= nv);
            }
            while idx < new_traits.len()
                invariant
                    idx <= new_traits@.len(),
                    nv == new_traits.deep_view(),
                    nv.len() == new_traits@.len(),
                    self.timestamp == snap.timestamp,
                    self.name == snap.name,
                    self.descriptors == snap.descriptors,
                    self.age == snap.age,
                    self.custom_label == snap.custom_label,
                    self.species == snap.species,
                    self.settlement == snap.settlement,
                    self.caretaker == snap.caretaker,
                    self.condition == snap.condition,
                    self.trait_points == snap.trait_points,
                    self.colour == snap.colour,
                    self.raw_lines == snap.raw_lines,
                    spec_add_traits(snap.traits.deep_view(), nv) == spec_add_traits(
                        self.traits.deep_view(),
                        nv.skip(idx as int),
                    ),
                decreases new_traits@.len() - idx,
            {
                proof {
                    assert(nv.skip(idx as int)[0] == nv[idx as int]);
                    assert(nv[idx as int] == new_traits@[idx as int]@);
                    assert(nv.skip(idx as int).skip(1) =~= nv.skip(idx as int + 1));
                }
                if !has_trait_ci(&self.traits, new_traits[idx].as_str()) {
                    let ghost before = self.traits.deep_view();
                    self.traits.push(new_traits[idx].clone());
                    proof {
                        assert(self.traits.deep_view() =~= before.push(nv[idx as int]));
                    }
                }
                idx = idx + 1;
            }
            proof {
                assert(nv.skip(nv.len() as int) =~= Seq::<Seq<char>>::empty());
            }
        }
        if self.colour.is_none() && contains_str(content, "colour is") {
            match second_piece(content, "colour is") {
                Some(piece) => {
                    let s = clean_piece(piece.as_str());
                    if !s.is_empty() {
                        self.colour = Some(s.to_owned());
                    }
                },
                None => {},
            }
        }
    }

    /// A session is complete once the colour line has arrived, the last
    /// line of an examine report.
    pub fn is_ready(&self) -> (r: bool)
        ensures
            r == (self.colour is Some),
    {
        self.colour.is_some()
    }

    /// Closes the session into an animal record, keyed by its name; a
    /// session that never learned a name yields nothing.
    pub fn into_animal(self) -> (r: Option<crate::granger::GrangerAnimal>)
        ensures
            match self.name {
                Some(nm) => r matches Some(a) && {
                    &&& a.id == nm
                    &&& a.name == nm
                    &&& a.descriptors == self.descriptors
                    &&& a.age == self.age
                    &&& a.custom_label == self.custom_label
                    &&& a.species == self.species
                    &&& a.settlement == self.settlement
                    &&& a.caretaker == self.caretaker
                    &&& a.condition == self.condition
                    &&& a.traits == self.traits
                    &&& a.trait_points == self.trait_points
                    &&& a.colour == self.colour
                    &&& a.updated_at == self.timestamp
                },
                None => r is None,
            },
    {
        match self.name {
            None => None,
            Some(name) => {
                let id = name.clone();
                Some(
                    crate::granger::GrangerAnimal {
                        id,
                        name,
                        descriptors: self.descriptors,
                        age: self.age,
                        custom_label: self.custom_label,
                        species: self.species,
                        settlement: self.settlement,
                        caretaker: self.caretaker,
                        condition: self.condition,
                        traits: self.traits,
                        trait_points: self.trait_points,
                        colour: self.colour,
                        updated_at: self.timestamp,
                    },
                )
            },
        }
    }
}

} // verus!
