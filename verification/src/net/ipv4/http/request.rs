//! An HTTP/1.1 request and its bytes on the wire.
use vstd::prelude::*;
use crate::text::text_eq;
use vstd::utf8::encode_utf8;
use crate::net::wire::{copy_range, push_bytes};
use crate::net::ipv4::http::constants::{method_name, EMPTYLINE, HTTP_VERSION, METHOD};
use crate::net::ipv4::http::decimal::{decimal_text, push_decimal};
use crate::net::ipv4::http::url_parser::{parse_url, parse_url_spec, url_port_valid};

verus! {

pub struct Request {
    method: METHOD,
    url: String,
    headers: Vec<(String, String)>,
    body: Vec<u8>,
    pub timeout: usize,
}

pub struct RequestView {
    pub method: METHOD,
    pub url: Seq<char>,
    pub headers: Seq<(Seq<char>, Seq<char>)>,
    pub body: Seq<u8>,
    pub timeout: usize,
}

/// The text of each header pair.
pub open spec fn header_texts(h: Seq<(String, String)>) -> Seq<(Seq<char>, Seq<char>)> {
    h.map_values(|p: (String, String)| (p.0@, p.1@))
}

impl View for Request {
    type V = RequestView;

    closed spec fn view(&self) -> RequestView {
        RequestView {
            method: self.method,
            url: self.url@,
            headers: header_texts(self.headers@),
            body: self.body@,
            timeout: self.timeout,
        }
    }
}

/// The header lines of the request, in order; a `Host` header given by the caller is left
/// out (the request line's host stands instead).
pub open spec fn header_lines(h: Seq<(Seq<char>, Seq<char>)>) -> Seq<u8>
    decreases h.len(),
{
    if h.len() == 0 {
        Seq::empty()
    } else {
        let (k, v) = h.last();
        header_lines(h.drop_last()) + if k == "Host"@ {
            Seq::empty()
        } else {
            encode_utf8(k) + encode_utf8(": "@) + encode_utf8(v) + encode_utf8(EMPTYLINE@)
        }
    }
}

/// The request line and the `Host` line (with the port unless it is 80).
pub open spec fn head_bytes(m: METHOD, host: Seq<char>, port: u16, path: Seq<char>) -> Seq<u8> {
    encode_utf8(method_name(m)) + seq![32u8] + encode_utf8(path) + seq![32u8] + encode_utf8(HTTP_VERSION@)
        + encode_utf8("Host: "@) + encode_utf8(host)
        + (if port != 80 { seq![58u8] + decimal_text(port as nat) } else { Seq::empty() })
        + encode_utf8(EMPTYLINE@)
}

/// `Content-Length` for a non-empty body, the empty line, and the body.
pub open spec fn body_bytes(body: Seq<u8>) -> Seq<u8> {
    (if body.len() > 0 { encode_utf8("Content-Length: "@) + decimal_text(body.len()) + encode_utf8(EMPTYLINE@) } else { Seq::empty() })
        + encode_utf8(EMPTYLINE@) + body
}

/// The bytes of a request: request line, `Host` line, the other headers, `Content-Length`
/// for a non-empty body, an empty line and the body.
pub open spec fn request_bytes(m: METHOD, host: Seq<char>, port: u16, path: Seq<char>, h: Seq<(Seq<char>, Seq<char>)>, body: Seq<u8>) -> Seq<u8> {
    head_bytes(m, host, port, path) + header_lines(h) + body_bytes(body)
}

/// Appends the UTF-8 bytes of a text.
fn push_text(out: &mut Vec<u8>, s: &str)
    ensures
        final(out)@ == old(out)@ + encode_utf8(s@),
{
    push_bytes(out, s.as_bytes());
}

/// Appends the request line and the `Host` line.
fn push_head(out: &mut Vec<u8>, method: METHOD, host: &str, port: u16, path: &str)
    ensures
        final(out)@ == old(out)@ + head_bytes(method, host@, port, path@),
{
    push_text(out, method.to_string());
    out.push(32);
    push_text(out, path);
    out.push(32);
    push_text(out, HTTP_VERSION);
    push_text(out, "Host: ");
    push_text(out, host);
    if port != 80 {
        out.push(58);
        push_decimal(out, port as usize);
    }
    push_text(out, EMPTYLINE);
    assert(final(out)@ =~= old(out)@ + head_bytes(method, host@, port, path@));
}

/// Appends the header lines.
fn push_headers(out: &mut Vec<u8>, headers: &Vec<(String, String)>)
    ensures
        final(out)@ == old(out)@ + header_lines(header_texts(headers@)),
{
    let ghost line = out@;
    let ghost hs = header_texts(headers@);
    let mut i: usize = 0;
    assert(line + header_lines(hs.take(0)) =~= line);
    while i < headers.len()
        invariant
            i <= headers@.len(),
            hs == header_texts(headers@),
            out@ == line + header_lines(hs.take(i as int)),
        decreases headers@.len() - i,
    {
        let key = headers[i].0.as_str();
        let value = headers[i].1.as_str();
        proof {
            assert(hs.take(i + 1).drop_last() =~= hs.take(i as int));
            assert(hs.take(i + 1).last() == (key@, value@));
        }
        if !text_eq(key, "Host") {
            push_text(out, key);
            push_text(out, ": ");
            push_text(out, value);
            push_text(out, EMPTYLINE);
        }
        assert(out@ =~= line + header_lines(hs.take(i + 1)));
        i = i + 1;
    }
    assert(hs.take(headers@.len() as int) =~= hs);
}

/// Appends `Content-Length` for a non-empty body, the empty line and the body.
fn push_body(out: &mut Vec<u8>, body: &[u8])
    ensures
        final(out)@ == old(out)@ + body_bytes(body@),
{
    if body.len() > 0 {
        push_text(out, "Content-Length: ");
        push_decimal(out, body.len());
        push_text(out, EMPTYLINE);
    }
    push_text(out, EMPTYLINE);
    push_bytes(out, body);
    assert(final(out)@ =~= old(out)@ + body_bytes(body@));
}

impl Request {
    /// A request with a timeout of 200 ticks.
    pub fn new(method: METHOD, url: String, headers: Vec<(String, String)>, body: &[u8]) -> (r: Self)
        ensures
            r@.method == method,
            r@.url == url@,
            r@.headers == header_texts(headers@),
            r@.body == body@,
            r@.timeout == 200,
    {
        let body = copy_range(body, 0, body.len());
        assert(body@ =~= body@.subrange(0, body@.len() as int));
        Request { method, url, headers, body, timeout: 200 }
    }

    /// The request's URL.
    pub fn url(&self) -> (r: &str)
        ensures
            r@ == self@.url,
    {
        self.url.as_str()
    }

    /// The request's bytes; `None` when its URL does not parse.
    pub fn build(&self) -> (r: Option<Vec<u8>>)
        requires
            url_port_valid(self@.url),
        ensures
            match parse_url_spec(self@.url) {
                Some((_, host, port, path)) => r matches Some(b) && b@ == request_bytes(self@.method, host, port, path, self@.headers, self@.body),
                None => r is None,
            },
    {
        let parsed = match parse_url(self.url.as_str()) {
            Some(p) => p,
            None => return None,
        };
        let mut out: Vec<u8> = Vec::new();
        push_head(&mut out, self.method, parsed.host, parsed.port, parsed.path);
        push_headers(&mut out, &self.headers);
        push_body(&mut out, self.body.as_slice());
        assert(out@ =~= request_bytes(self@.method, parsed.host@, parsed.port, parsed.path@, self@.headers, self@.body));
        Some(out)
    }
}

} // verus!
