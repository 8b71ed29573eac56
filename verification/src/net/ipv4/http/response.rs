//! Reading an HTTP response: status code, header pairs and body.
use vstd::prelude::*;
use vstd::string::{StrSliceExecFns, StringSliceAdditionalSpecFns};
use vstd::utf8::{decode_utf8, encode_utf8, valid_utf8};
use crate::net::ipv4::http::decimal::{parse_unsigned, parse_unsigned_str};
use crate::text::{first_pair, find_pair, find_from, lemma_first_pair_at, lemma_first_pair_none};

verus! {

#[allow(non_camel_case_types)]
pub struct response_parsed<'a> {
    pub status_code: u16,
    pub headers: Vec<(&'a str, &'a str)>,
    pub body: &'a [u8],
}

/// The text of the bytes, when they are valid UTF-8.
///
/// Calls `core::str::from_utf8`, which by its documentation succeeds exactly on valid UTF-8
/// and then views the same bytes as text.
#[verifier::external_body]
pub fn str_from_utf8(v: &[u8]) -> (r: Option<&str>)
    ensures
        r is Some <==> valid_utf8(v@),
        r matches Some(s) ==> s.spec_bytes() == v@,
{
    core::str::from_utf8(v).ok()
}

/// The first position from `from` on that holds the byte `b`.
#[verifier::opaque]
pub open spec fn first_byte_from(r: Seq<u8>, from: int, b: u8) -> Option<int> {
    if exists|i: int| from <= i < r.len() && #[trigger] r[i] == b {
        Some(choose|i: int| from <= i < r.len() && #[trigger] r[i] == b && forall|k: int| from <= k < i ==> #[trigger] r[k] != b)
    } else {
        None
    }
}

/// The pieces of the text between `\r\n` separators, as `str::split("\r\n")` gives them.
#[verifier::opaque]
pub open spec fn split_lines(t: Seq<char>) -> Seq<Seq<char>>
    decreases t.len(),
{
    match first_pair(t, '\r', '\n') {
        Some(i) => if 0 <= i && i + 1 < t.len() {
            seq![t.take(i)] + split_lines(t.skip(i + 2))
        } else {
            seq![t]
        },
        None => seq![t],
    }
}

/// A header line split at its first `: `.
pub open spec fn header_pair(s: Seq<char>) -> Option<(Seq<char>, Seq<char>)> {
    match first_pair(s, ':', ' ') {
        Some(i) => Some((s.take(i), s.skip(i + 2))),
        None => None,
    }
}

pub open spec fn has_colon(s: Seq<char>) -> bool {
    exists|i: int| 0 <= i < s.len() && #[trigger] s[i] == ':'
}

/// What the lines give, read in order: whether the empty line was seen, the header pairs
/// before it, and the body (the last non-empty line after it). `None` when a header line
/// holds `:` but no `: `. Lines before the empty line without `:` are skipped.
pub open spec fn read_lines(lines: Seq<Seq<char>>) -> Option<(bool, Seq<(Seq<char>, Seq<char>)>, Seq<char>)>
    decreases lines.len(),
{
    if lines.len() == 0 {
        Some((false, Seq::empty(), Seq::empty()))
    } else {
        match read_lines(lines.drop_last()) {
            None => None,
            Some((done, hs, body)) => {
                let s = lines.last();
                if s.len() == 0 {
                    Some((true, hs, body))
                } else if !done {
                    if has_colon(s) {
                        match header_pair(s) {
                            Some(kv) => Some((done, hs.push(kv), body)),
                            None => None,
                        }
                    } else {
                        Some((done, hs, body))
                    }
                } else {
                    Some((done, hs, s))
                }
            },
        }
    }
}

/// The number that the bytes spell, when they are valid UTF-8 text of a 16-bit number.
#[verifier::opaque]
pub open spec fn code_of(status: Seq<u8>) -> Option<u16> {
    if valid_utf8(status) && parse_unsigned(decode_utf8(status), 0xffff) is Some {
        Some(parse_unsigned(decode_utf8(status), 0xffff).unwrap() as u16)
    } else {
        None
    }
}

/// The status code (between the first and the second space, a 16-bit number) and the bytes
/// after the second space.
pub open spec fn status_parts(raw: Seq<u8>) -> Option<(u16, Seq<u8>)> {
    match first_byte_from(raw, 0, 32) {
        None => None,
        Some(a) => match first_byte_from(raw, a + 1, 32) {
            None => None,
            Some(b) => match code_of(raw.subrange(a + 1, b)) {
                Some(code) => Some((code, raw.skip(b + 1))),
                None => None,
            },
        },
    }
}

/// The response: the status code, then, from the text after the status code, the header pairs
/// and the body. `None` when the status line lacks two spaces, the code or the rest is not
/// valid, or a header line is malformed.
pub open spec fn parse_response_spec(raw: Seq<u8>) -> Option<(u16, Seq<(Seq<char>, Seq<char>)>, Seq<u8>)> {
    match status_parts(raw) {
        None => None,
        Some((code, rest)) => if valid_utf8(rest) {
            match read_lines(split_lines(decode_utf8(rest))) {
                Some((_, hs, body)) => Some((code, hs, encode_utf8(body))),
                None => None,
            }
        } else {
            None
        },
    }
}

/// The text of each header pair.
pub open spec fn pair_texts(h: Seq<(&str, &str)>) -> Seq<(Seq<char>, Seq<char>)> {
    h.map_values(|p: (&str, &str)| (p.0@, p.1@))
}

/// The first position from `from` on that holds the byte `b`, or the length.
fn find_byte_from(raw: &[u8], from: usize, b: u8) -> (r: usize)
    requires
        from <= raw@.len(),
    ensures
        from <= r <= raw@.len(),
        r < raw@.len() ==> first_byte_from(raw@, from as int, b) == Some(r as int),
        r == raw@.len() ==> first_byte_from(raw@, from as int, b) is None,
{
    let mut i = from;
    proof {
        reveal(first_byte_from);
    }
    while i < raw.len()
        invariant
            from <= i <= raw@.len(),
            forall|k: int| from <= k < i ==> #[trigger] raw@[k] != b,
        decreases raw@.len() - i,
    {
        if raw[i] == b {
            proof {
                reveal(first_byte_from);
                let j = first_byte_from(raw@, from as int, b).unwrap();
                if j < i {
                    assert(raw@[j] != b);
                } else if j > i {
                    assert(raw@[i as int] != b);
                }
            }
            return i;
        }
        i = i + 1;
    }
    proof {
        if first_byte_from(raw@, from as int, b) is Some {
            let j = first_byte_from(raw@, from as int, b).unwrap();
            assert(raw@[j] != b);
        }
    }
    i
}

/// The text of a valid UTF-8 string is the decoding of its bytes.
proof fn lemma_text_is_decoding(s: &str, v: Seq<u8>)
    requires
        s.spec_bytes() == v,
    ensures
        s@ == decode_utf8(v),
{
    vstd::utf8::encode_utf8_decode_utf8(s@);
}

/// The line of the text from `p` up to the next `\r\n`, and where that `\r\n` starts (the
/// length when there is none).
pub fn next_line<'a>(t: &'a str, n: usize, p: usize) -> (r: (usize, &'a str))
    requires
        n == t@.len(),
        p <= n,
    ensures
        p <= r.0 <= n,
        r.0 < n ==> r.0 + 2 <= n && split_lines(t@.skip(p as int)) == seq![r.1@] + split_lines(t@.skip(r.0 + 2)),
        r.0 == n ==> split_lines(t@.skip(p as int)) == seq![r.1@],
{
    let j = find_pair(t, n, p, '\r', '\n');
    let ghost u = t@.skip(p as int);
    proof {
        reveal(split_lines);
    }
    let line = t.substring_char(p, j);
    assert(line@ =~= u.take(j - p));
    if j < n {
        proof {
            assert forall|m: int| 0 <= m < j - p && m + 1 < u.len() implies !(#[trigger] u[m] == '\r' && u[m + 1] == '\n') by {
                assert(u[m] == t@[m + p] && u[m + 1] == t@[m + 1 + p]);
            }
            assert(u[j - p] == t@[j as int] && u[j - p + 1] == t@[j + 1]);
            lemma_first_pair_at(u, '\r', '\n', j - p);
            assert(u.skip(j - p + 2) =~= t@.skip(j + 2));
        }
    } else {
        proof {
            assert forall|m: int| 0 <= m && m + 1 < u.len() implies !(#[trigger] u[m] == '\r' && u[m + 1] == '\n') by {
                assert(u[m] == t@[m + p] && u[m + 1] == t@[m + 1 + p]);
            }
            lemma_first_pair_none(u, '\r', '\n');
            assert(u.take(j - p) =~= u);
        }
    }
    (j, line)
}

/// A header line split at its first `: `.
fn split_header<'a>(s: &'a str) -> (r: Option<(&'a str, &'a str)>)
    ensures
        match header_pair(s@) {
            Some((k, v)) => r matches Some(p) && p.0@ == k && p.1@ == v,
            None => r is None,
        },
{
    let n = s.unicode_len();
    let i = find_pair(s, n, 0, ':', ' ');
    if i == n {
        proof {
            lemma_first_pair_none(s@, ':', ' ');
        }
        return None;
    }
    proof {
        lemma_first_pair_at(s@, ':', ' ', i as int);
    }
    let k = s.substring_char(0, i);
    let v = s.substring_char(i + 2, n);
    assert(k@ =~= s@.take(i as int));
    assert(v@ =~= s@.skip(i + 2));
    Some((k, v))
}

/// Whether the line holds a `:`.
fn contains_colon(s: &str) -> (r: bool)
    ensures
        r == has_colon(s@),
{
    let n = s.unicode_len();
    let i = find_from(s, n, 0, ':', ':');
    if i < n {
        assert(s@[i as int] == ':');
        true
    } else {
        assert(!has_colon(s@)) by {
            if has_colon(s@) {
                let j = choose|j: int| 0 <= j < s@.len() && #[trigger] s@[j] == ':';
                assert(s@[j] != ':');
            }
        }
        false
    }
}

/// Reads the lines of the text after the status code.
#[verifier::rlimit(40)]
fn read_all_lines<'a>(t: &'a str) -> (r: Option<(Vec<(&'a str, &'a str)>, &'a str)>)
    ensures
        match read_lines(split_lines(t@)) {
            Some((_, hs, body)) => r matches Some(p) && pair_texts(p.0@) == hs && p.1@ == body,
            None => r is None,
        },
{
    let n = t.unicode_len();
    let ghost all = split_lines(t@);
    let mut headers: Vec<(&'a str, &'a str)> = Vec::new();
    let mut body: &'a str = "";
    let mut done = false;
    let ghost mut seen: Seq<Seq<char>> = Seq::empty();
    let mut p: usize = 0;
    proof {
        reveal_strlit("");
        assert(t@.skip(0) =~= t@);
        assert(pair_texts(headers@) =~= Seq::<(Seq<char>, Seq<char>)>::empty());
    }
    loop
        invariant
            p <= n,
            n == t@.len(),
            all == split_lines(t@),
            all == seen + split_lines(t@.skip(p as int)),
            read_lines(seen) == Some((done, pair_texts(headers@), body@)),
        decreases n - p,
    {
        let (j, line) = next_line(t, n, p);
        let ghost before = seen;
        proof {
            seen = seen.push(line@);
            assert(seen.drop_last() =~= before);
            if j < n {
                assert(all =~= seen + split_lines(t@.skip(j + 2)));
            } else {
                assert(all =~= seen);
            }
            assert(all.take(seen.len() as int) =~= seen);
        }
        if line.unicode_len() == 0 {
            done = true;
        } else if !done {
            if contains_colon(line) {
                match split_header(line) {
                    Some(kv) => {
                        headers.push(kv);
                        assert(pair_texts(headers@) =~= pair_texts(headers@.drop_last()).push((kv.0@, kv.1@)));
                    },
                    None => {
                        proof {
                            lemma_read_lines_fails(all, seen);
                        }
                        return None;
                    },
                }
            }
        } else {
            body = line;
        }
        if j == n {
            assert(all =~= seen);
            return Some((headers, body));
        }
        assert(all =~= seen + split_lines(t@.skip(j + 2)));
        p = j + 2;
    }
}

/// Once the lines read so far fail, all lines fail.
proof fn lemma_read_lines_fails(all: Seq<Seq<char>>, prefix: Seq<Seq<char>>)
    requires
        read_lines(prefix) is None,
        prefix.len() <= all.len(),
        all.take(prefix.len() as int) == prefix,
    ensures
        read_lines(all) is None,
    decreases all.len() - prefix.len(),
{
    if all.len() > prefix.len() {
        assert(all.drop_last().take(prefix.len() as int) =~= prefix);
        lemma_read_lines_fails(all.drop_last(), prefix);
    } else {
        assert(all =~= prefix);
    }
}

/// Parses a response: the status code between the first and second space, then the header
/// pairs and the body from the lines after it (see `parse_response_spec`).
pub fn parse_response(raw: &[u8]) -> (r: Option<response_parsed<'_>>)
    ensures
        match parse_response_spec(raw@) {
            Some((code, hs, body)) => r matches Some(p) && p.status_code == code && pair_texts(p.headers@) == hs && p.body@ == body,
            None => r is None,
        },
{
    let (code, rest) = match read_status(raw) {
        Some(x) => x,
        None => return None,
    };
    let text = match str_from_utf8(rest) {
        Some(s) => s,
        None => return None,
    };
    proof {
        lemma_text_is_decoding(text, rest@);
    }
    match read_all_lines(text) {
        Some((headers, body)) => Some(response_parsed { status_code: code, headers, body: body.as_bytes() }),
        None => None,
    }
}

/// The status code and the bytes after the status line's second space.
fn read_status(raw: &[u8]) -> (r: Option<(u16, &[u8])>)
    ensures
        match status_parts(raw@) {
            Some((code, rest)) => r matches Some(p) && p.0 == code && p.1@ == rest,
            None => r is None,
        },
{
    let n = raw.len();
    let a = find_byte_from(raw, 0, 32);
    if a == n {
        return None;
    }
    let b = find_byte_from(raw, a + 1, 32);
    if b == n {
        return None;
    }
    let rest = &raw[b + 1..n];
    assert(rest@ =~= raw@.skip(b + 1));
    match read_code(&raw[a + 1..b]) {
        Some(c) => Some((c, rest)),
        None => None,
    }
}

/// The status code that the bytes spell.
fn read_code(status: &[u8]) -> (r: Option<u16>)
    ensures
        r == code_of(status@),
{
    let st = match str_from_utf8(status) {
        Some(s) => s,
        None => {
            proof {
                reveal(code_of);
            }
            return None;
        },
    };
    proof {
        lemma_text_is_decoding(st, status@);
        reveal(code_of);
    }
    match parse_unsigned_str(st, 0xffff) {
        Some(c) => Some(c as u16),
        None => None,
    }
}

} // verus!
