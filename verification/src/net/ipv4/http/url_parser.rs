//! Splits an `http://host:port/path` URL into its parts.
use vstd::prelude::*;
use vstd::string::StrSliceExecFns;
use crate::net::ipv4::http::decimal::{parse_unsigned, parse_unsigned_str};
use crate::text::{first_of, find_from, lemma_first_of_at, lemma_first_of_none};

verus! {

pub struct UrlParsed<'a> {
    pub scheme: &'a str,
    pub host: &'a str,
    pub port: u16,
    pub path: &'a str,
}

/// `://` starts at position `i`.
pub open spec fn sep_at(s: Seq<char>, i: int) -> bool {
    0 <= i && i + 3 <= s.len() && s[i] == ':' && s[i + 1] == '/' && s[i + 2] == '/'
}

/// The position of the `://` of the URL, when it has exactly one.
pub open spec fn scheme_sep(s: Seq<char>) -> Option<int> {
    if exists|i: int| #[trigger] sep_at(s, i) && forall|j: int| #[trigger] sep_at(s, j) ==> j == i {
        Some(choose|i: int| #[trigger] sep_at(s, i) && forall|j: int| #[trigger] sep_at(s, j) ==> j == i)
    } else {
        None
    }
}

/// The scheme, the host, the text of the port if the URL gives one, and the path.
pub open spec fn url_parts(s: Seq<char>) -> Option<(Seq<char>, Seq<char>, Option<Seq<char>>, Seq<char>)> {
    match scheme_sep(s) {
        None => None,
        Some(i) => {
            let scheme = s.take(i);
            let rest = s.skip(i + 3);
            match first_of(rest, ':', '/') {
                None => Some((scheme, rest, None, seq!['/'])),
                Some(k) => {
                    let host = rest.take(k);
                    let tail = rest.skip(k);
                    if tail[0] == ':' {
                        match first_of(tail, '/', '/') {
                            Some(j) => Some((scheme, host, Some(tail.subrange(1, j)), tail.skip(j))),
                            None => Some((scheme, host, Some(tail.skip(1)), seq!['/'])),
                        }
                    } else {
                        Some((scheme, host, None, tail))
                    }
                },
            }
        },
    }
}

/// The port text, where the URL gives one, is a number that fits in 16 bits.
pub open spec fn url_port_valid(s: Seq<char>) -> bool {
    match url_parts(s) {
        Some((_, _, Some(p), _)) => parse_unsigned(p, 0xffff) is Some,
        _ => true,
    }
}

/// The parsed URL: scheme, host, port (80 when the URL gives none) and path (`/` when the URL
/// gives none).
pub open spec fn parse_url_spec(s: Seq<char>) -> Option<(Seq<char>, Seq<char>, u16, Seq<char>)> {
    match url_parts(s) {
        None => None,
        Some((scheme, host, port, path)) => Some((
            scheme,
            host,
            match port {
                Some(p) => parse_unsigned(p, 0xffff).unwrap() as u16,
                None => 80u16,
            },
            path,
        )),
    }
}

/// The first position from `from` on where `://` starts.
fn find_sep(s: &str, n: usize, from: usize) -> (r: Option<usize>)
    requires
        n == s@.len(),
    ensures
        match r {
            Some(i) => from <= i && sep_at(s@, i as int) && forall|j: int| from <= j < i ==> !#[trigger] sep_at(s@, j),
            None => forall|j: int| from <= j ==> !#[trigger] sep_at(s@, j),
        },
{
    let mut i = from;
    while i < n && n - i >= 3
        invariant
            from <= i,
            n == s@.len(),
            forall|j: int| from <= j < i ==> !#[trigger] sep_at(s@, j),
        decreases n - i,
    {
        if s.get_char(i) == ':' && s.get_char(i + 1) == '/' && s.get_char(i + 2) == '/' {
            return Some(i);
        }
        i = i + 1;
    }
    None
}

/// Whether the port of the URL, if it gives one, is a valid 16-bit number.
pub fn url_port_ok(url: &str) -> (r: bool)
    ensures
        r == url_port_valid(url@),
{
    match split_url(url) {
        Some((_, _, Some(p), _)) => parse_unsigned_str(p, 0xffff).is_some(),
        _ => true,
    }
}

/// The parts of the URL as text: scheme, host, port text and path.
fn split_url(url: &str) -> (r: Option<(&str, &str, Option<&str>, &str)>)
    ensures
        match url_parts(url@) {
            Some((scheme, host, port, path)) => r matches Some((sc, h, p, pa)) && sc@ == scheme && h@ == host
                && pa@ == path && match port {
                    Some(t) => p matches Some(pt) && pt@ == t,
                    None => p is None,
                },
            None => r is None,
        },
{
    let n = url.unicode_len();
    let i = match find_sep(url, n, 0) {
        Some(i) => i,
        None => {
            return None;
        },
    };
    if find_sep(url, n, i + 1).is_some() {
        proof {
            if scheme_sep(url@) is Some {
                let w = scheme_sep(url@).unwrap();
                assert(sep_at(url@, i as int));
            }
        }
        return None;
    }
    assert(scheme_sep(url@) == Some(i as int)) by {
        assert(sep_at(url@, i as int));
        assert(forall|j: int| #[trigger] sep_at(url@, j) ==> j == i);
        let w = scheme_sep(url@).unwrap();
        assert(sep_at(url@, w));
    }
    let ghost rest = url@.skip(i + 3);
    let scheme = url.substring_char(0, i);
    let slash = "/";
    proof {
        reveal_strlit("/");
    }
    let k = find_from(url, n, i + 3, ':', '/');
    if k == n {
        proof {
            assert forall|m: int| 0 <= m < rest.len() implies #[trigger] rest[m] != ':' && rest[m] != '/' by {
                assert(rest[m] == url@[m + i + 3]);
            }
            lemma_first_of_none(rest, ':', '/');
        }
        let host = url.substring_char(i + 3, n);
        assert(host@ =~= rest);
        return Some((scheme, host, None, slash));
    }
    proof {
        let kk = k - i - 3;
        assert forall|m: int| 0 <= m < kk implies #[trigger] rest[m] != ':' && rest[m] != '/' by {
            assert(rest[m] == url@[m + i + 3]);
        }
        assert(rest[kk] == url@[k as int]);
        lemma_first_of_at(rest, ':', '/', kk);
    }
    let host = url.substring_char(i + 3, k);
    assert(host@ =~= rest.take(k - i - 3));
    let ghost tail = rest.skip(k - i - 3);
    assert(tail[0] == url@[k as int]);
    if url.get_char(k) == ':' {
        let j = find_from(url, n, k + 1, '/', '/');
        proof {
            let jj = j - k;
            assert forall|m: int| 0 <= m < jj implies #[trigger] tail[m] != '/' && tail[m] != '/' by {
                assert(tail[m] == url@[m + k]);
            }
        }
        if j == n {
            proof {
                assert forall|m: int| 0 <= m < tail.len() implies #[trigger] tail[m] != '/' && tail[m] != '/' by {
                    assert(tail[m] == url@[m + k]);
                }
                lemma_first_of_none(tail, '/', '/');
            }
            let port = url.substring_char(k + 1, n);
            assert(port@ =~= tail.skip(1));
            Some((scheme, host, Some(port), slash))
        } else {
            proof {
                assert(tail[j - k] == url@[j as int]);
                lemma_first_of_at(tail, '/', '/', j - k);
            }
            let port = url.substring_char(k + 1, j);
            let path = url.substring_char(j, n);
            assert(port@ =~= tail.subrange(1, j - k));
            assert(path@ =~= tail.skip(j - k));
            Some((scheme, host, Some(port), path))
        }
    } else {
        let path = url.substring_char(k, n);
        assert(path@ =~= tail);
        Some((scheme, host, None, path))
    }
}

/// Parses an `scheme://host[:port][/path]` URL. `None` unless the URL holds `://` exactly
/// once; the port is 80 and the path `/` where the URL gives none.
pub fn parse_url(url: &str) -> (r: Option<UrlParsed<'_>>)
    requires
        url_port_valid(url@),
    ensures
        match parse_url_spec(url@) {
            Some((scheme, host, port, path)) => r matches Some(u) && u.scheme@ == scheme && u.host@ == host
                && u.port == port && u.path@ == path,
            None => r is None,
        },
{
    match split_url(url) {
        None => None,
        Some((scheme, host, port_text, path)) => {
            let port = match port_text {
                Some(p) => match parse_unsigned_str(p, 0xffff) {
                    Some(v) => v as u16,
                    None => {
                        assert(false);
                        80
                    },
                },
                None => 80,
            };
            Some(UrlParsed { scheme, host, port, path })
        },
    }
}

} // verus!
