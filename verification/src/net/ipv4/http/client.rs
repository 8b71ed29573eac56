//! An HTTP connection over the TCP table: the target's address, the connection's tuple, and
//! the decisions taken while it opens.
use vstd::prelude::*;
use vstd::string::StrSliceExecFns;
use crate::net::state::Network;
use crate::net::ipv4::protocol::can_send_to;
use crate::net::ipv4::http::constants::HttpError;
use crate::net::ipv4::http::decimal::{parse_unsigned, parse_unsigned_str, parse_usize_str};
use crate::net::ipv4::http::request::{Request, request_bytes};
use crate::net::ipv4::http::response::{split_lines, str_from_utf8};
use crate::net::ipv4::http::url_parser::{parse_url_spec, url_port_valid};
use vstd::utf8::{decode_utf8, valid_utf8};
use crate::net::ipv4::transport::tcp::socket::{
    self as tcp, TcpSocketManager, TcpState, TcpTuple, index_of, tcp_ready, close_socket_spec, close_sends,
};
use crate::net::ipv4::transport::tcp::packet::flags::SYN;
use crate::text::{first_of, find_from, lemma_first_of_at, lemma_first_of_none, text_eq, trim, trimmed};

verus! {

/// The pieces of the text between the separators `c`, as `str::split` gives them.
#[verifier::opaque]
pub open spec fn split_on(s: Seq<char>, c: char) -> Seq<Seq<char>>
    decreases s.len(),
{
    match first_of(s, c, c) {
        Some(i) => if 0 <= i < s.len() {
            seq![s.take(i)] + split_on(s.skip(i + 1), c)
        } else {
            seq![s]
        },
        None => seq![s],
    }
}

/// A dotted IPv4 address: four pieces between dots, each a number of at most 255.
pub open spec fn parse_ip_spec(s: Seq<char>) -> Option<[u8; 4]> {
    let p = split_on(s, '.');
    if p.len() == 4 && forall|k: int| 0 <= k < 4 ==> #[trigger] parse_unsigned(p[k], 255) is Some {
        Some([
            parse_unsigned(p[0], 255).unwrap() as u8,
            parse_unsigned(p[1], 255).unwrap() as u8,
            parse_unsigned(p[2], 255).unwrap() as u8,
            parse_unsigned(p[3], 255).unwrap() as u8,
        ])
    } else {
        None
    }
}

/// The piece of the text from `p` up to the next dot, and the position of that dot (the
/// length when there is none).
fn next_piece(s: &str, n: usize, p: usize) -> (r: (usize, &str))
    requires
        n == s@.len(),
        p <= n,
    ensures
        p <= r.0 <= n,
        r.0 < n ==> split_on(s@.skip(p as int), '.') == seq![r.1@] + split_on(s@.skip(r.0 + 1), '.'),
        r.0 == n ==> split_on(s@.skip(p as int), '.') == seq![r.1@],
{
    let j = find_from(s, n, p, '.', '.');
    let ghost t = s@.skip(p as int);
    proof {
        reveal(split_on);
    }
    let piece = s.substring_char(p, j);
    assert(piece@ =~= t.take(j - p));
    if j < n {
        proof {
            assert forall|m: int| 0 <= m < j - p implies #[trigger] t[m] != '.' && t[m] != '.' by {
                assert(t[m] == s@[m + p]);
            }
            assert(t[j - p] == s@[j as int]);
            lemma_first_of_at(t, '.', '.', j - p);
            assert(t.skip(j - p + 1) =~= s@.skip(j + 1));
        }
    } else {
        proof {
            assert forall|m: int| 0 <= m < t.len() implies #[trigger] t[m] != '.' && t[m] != '.' by {
                assert(t[m] == s@[m + p]);
            }
            lemma_first_of_none(t, '.', '.');
            assert(t.take(j - p) =~= t);
        }
    }
    (j, piece)
}

proof fn lemma_split_nonempty(t: Seq<char>, c: char)
    ensures
        split_on(t, c).len() >= 1,
{
    reveal(split_on);
}

/// Reads a dotted IPv4 address such as `192.168.1.100`.
pub fn parse_ip(ip_str: &str) -> (r: Option<[u8; 4]>)
    ensures
        r == parse_ip_spec(ip_str@),
{
    let n = ip_str.unicode_len();
    let ghost s = ip_str@;
    let ghost all = split_on(s, '.');
    let mut vals: Vec<u8> = Vec::new();
    let ghost mut parts: Seq<Seq<char>> = Seq::empty();
    let mut p: usize = 0;
    assert(s.skip(0) =~= s);
    loop
        invariant
            p <= n,
            n == s.len(),
            s == ip_str@,
            all == split_on(s, '.'),
            vals@.len() == parts.len(),
            vals@.len() < 4,
            all == parts + split_on(s.skip(p as int), '.'),
            forall|k: int| 0 <= k < parts.len() ==> parse_unsigned(#[trigger] parts[k], 255) == Some(vals@[k] as nat),
        decreases n - p,
    {
        let (j, piece) = next_piece(ip_str, n, p);
        let ghost k = parts.len() as int;
        let v = match parse_unsigned_str(piece, 255) {
            Some(v) => v,
            None => {
                assert(all[k] == piece@);
                return None;
            },
        };
        proof {
            parts = parts.push(piece@);
        }
        vals.push(v as u8);
        if j == n {
            assert(all =~= parts);
            if vals.len() == 4 {
                let r = [vals[0], vals[1], vals[2], vals[3]];
                proof {
                    assert(parse_unsigned(all[0], 255) == Some(vals@[0] as nat));
                    assert(parse_unsigned(all[1], 255) == Some(vals@[1] as nat));
                    assert(parse_unsigned(all[2], 255) == Some(vals@[2] as nat));
                    assert(parse_unsigned(all[3], 255) == Some(vals@[3] as nat));
                }
                return Some(r);
            }
            return None;
        }
        if vals.len() == 4 {
            proof {
                lemma_split_nonempty(s.skip(j + 1), '.');
                assert(all == parts + split_on(s.skip(j + 1), '.'));
            }
            return None;
        }
        assert(all =~= parts + split_on(s.skip(j + 1), '.'));
        p = j + 1;
    }
}

/// The text holds `w` somewhere.
pub open spec fn contains_text(s: Seq<char>, w: Seq<char>) -> bool {
    exists|i: int| 0 <= i && i + w.len() <= s.len() && #[trigger] s.subrange(i, i + w.len()) == w
}

/// The text split at its first `:`.
pub open spec fn colon_split(s: Seq<char>) -> Option<(Seq<char>, Seq<char>)> {
    match first_of(s, ':', ':') {
        Some(i) => Some((s.take(i), s.skip(i + 1))),
        None => None,
    }
}

/// The body length and keep-alive flag after one more header line: a line holding
/// `Content-Length` sets the length to the number after its first `:`; a line holding
/// `Connection` sets the flag to whether the text after its first `:` is `keep-alive`.
/// `None` when such a line has no `:` or its length is not a number.
pub open spec fn framing_step(st: Option<(nat, bool)>, s: Seq<char>) -> Option<(nat, bool)> {
    match st {
        None => None,
        Some((cl, ka)) => {
            let a = if contains_text(s, "Content-Length"@) {
                match colon_split(s) {
                    None => None,
                    Some((_, v)) => match parse_unsigned(trimmed(v), usize::MAX as nat) {
                        None => None,
                        Some(n) => Some((n, ka)),
                    },
                }
            } else {
                Some((cl, ka))
            };
            match a {
                None => None,
                Some((cl2, ka2)) => if contains_text(s, "Connection"@) {
                    match colon_split(s) {
                        None => None,
                        Some((_, v)) => Some((cl2, trimmed(v) == "keep-alive"@)),
                    }
                } else {
                    Some((cl2, ka2))
                },
            }
        },
    }
}

/// The body length and keep-alive flag that the header lines give, read in order.
pub open spec fn framing_lines(lines: Seq<Seq<char>>) -> Option<(nat, bool)>
    decreases lines.len(),
{
    if lines.len() == 0 {
        Some((0, false))
    } else {
        framing_step(framing_lines(lines.drop_last()), lines.last())
    }
}

/// The headers end at position `i`: `\r\n\r\n` starts there.
pub open spec fn header_end_at(raw: Seq<u8>, i: int) -> bool {
    0 <= i && i + 4 <= raw.len() && raw[i] == 13 && raw[i + 1] == 10 && raw[i + 2] == 13 && raw[i + 3] == 10
}

/// Where the first `\r\n\r\n` starts.
#[verifier::opaque]
pub open spec fn first_header_end(raw: Seq<u8>) -> Option<int> {
    if exists|i: int| #[trigger] header_end_at(raw, i) {
        Some(choose|i: int| #[trigger] header_end_at(raw, i) && forall|k: int| 0 <= k < i ==> !#[trigger] header_end_at(raw, k))
    } else {
        None
    }
}

/// The length of the header block (through its `\r\n\r\n`), the body length and whether
/// the server keeps the connection alive. `None` when there is no `\r\n\r\n`, the header
/// block is not UTF-8, or a header line is malformed.
pub open spec fn framing_spec(raw: Seq<u8>) -> Option<(int, nat, bool)> {
    match first_header_end(raw) {
        None => None,
        Some(h) => {
            let head = raw.take(h + 4);
            if valid_utf8(head) {
                match framing_lines(split_lines(decode_utf8(head))) {
                    Some((cl, ka)) => Some((h + 4, cl, ka)),
                    None => None,
                }
            } else {
                None
            }
        },
    }
}

/// The length of the header block of a response, through its `\r\n\r\n`; `None` while
/// it has not all arrived.
pub fn header_end(raw: &[u8]) -> (r: Option<usize>)
    ensures
        match r {
            Some(e) => 4 <= e <= raw@.len() && first_header_end(raw@) == Some(e - 4),
            None => first_header_end(raw@) is None,
        },
{
    proof {
        reveal(first_header_end);
    }
    let n = raw.len();
    if n < 4 {
        proof {
            if first_header_end(raw@) is Some {
                let j = first_header_end(raw@).unwrap();
                assert(header_end_at(raw@, j));
            }
        }
        return None;
    }
    let mut i: usize = 0;
    while i <= n - 4
        invariant
            n == raw@.len(),
            n >= 4,
            i <= n - 3,
            forall|k: int| 0 <= k < i ==> !#[trigger] header_end_at(raw@, k),
        decreases n - i,
    {
        if raw[i] == 13 && raw[i + 1] == 10 && raw[i + 2] == 13 && raw[i + 3] == 10 {
            proof {
                reveal(first_header_end);
                assert(header_end_at(raw@, i as int));
                let j = first_header_end(raw@).unwrap();
                if j < i {
                    assert(!header_end_at(raw@, j));
                } else if j > i {
                    assert(!header_end_at(raw@, i as int));
                }
            }
            return Some(i + 4);
        }
        i = i + 1;
    }
    proof {
        reveal(first_header_end);
        if first_header_end(raw@) is Some {
            let j = first_header_end(raw@).unwrap();
            assert(header_end_at(raw@, j));
            assert(!header_end_at(raw@, j));
        }
    }
    None
}

/// Whether the text holds `w`.
fn contains_word(s: &str, w: &str) -> (r: bool)
    ensures
        r == contains_text(s@, w@),
{
    let n = s.unicode_len();
    let m = w.unicode_len();
    if m > n {
        assert(!contains_text(s@, w@));
        return false;
    }
    if m == 0 {
        assert(s@.subrange(0, 0 + w@.len() as int) =~= w@);
        return true;
    }
    let mut i: usize = 0;
    while i <= n - m
        invariant
            n == s@.len(),
            m == w@.len(),
            1 <= m <= n,
            i <= n - m + 1,
            forall|k: int| 0 <= k < i ==> #[trigger] s@.subrange(k, k + m) != w@,
        decreases n - i,
    {
        let piece = s.substring_char(i, i + m);
        if text_eq(piece, w) {
            return true;
        }
        i = i + 1;
    }
    proof {
        if contains_text(s@, w@) {
            let j = choose|j: int| 0 <= j && j + w@.len() <= s@.len() && #[trigger] s@.subrange(j, j + w@.len()) == w@;
            assert(s@.subrange(j, j + m) != w@);
        }
    }
    false
}

/// The text after the first `:` of the line.
fn after_colon<'a>(s: &'a str) -> (r: Option<&'a str>)
    ensures
        match colon_split(s@) {
            Some((_, v)) => r matches Some(t) && t@ == v,
            None => r is None,
        },
{
    let n = s.unicode_len();
    let i = find_from(s, n, 0, ':', ':');
    if i == n {
        proof {
            lemma_first_of_none(s@, ':', ':');
        }
        return None;
    }
    proof {
        lemma_first_of_at(s@, ':', ':', i as int);
    }
    let v = s.substring_char(i + 1, n);
    assert(v@ =~= s@.skip(i + 1));
    Some(v)
}

/// The body length and keep-alive flag after one more header line.
fn framing_line(s: &str, cl: usize, ka: bool) -> (r: Option<(usize, bool)>)
    ensures
        match framing_step(Some((cl as nat, ka)), s@) {
            Some((c, k)) => r == Some((c as usize, k)) && c <= usize::MAX,
            None => r is None,
        },
{
    let mut cl = cl;
    let mut ka = ka;
    if contains_word(s, "Content-Length") {
        let v = match after_colon(s) {
            Some(v) => v,
            None => return None,
        };
        cl = match parse_usize_str(trim(v)) {
            Some(n) => n,
            None => return None,
        };
    }
    if contains_word(s, "Connection") {
        let v = match after_colon(s) {
            Some(v) => v,
            None => return None,
        };
        ka = text_eq(trim(v), "keep-alive");
    }
    Some((cl, ka))
}

/// Reads the response's header block: its length (through `\r\n\r\n`), the body length
/// that `Content-Length` gives (0 without one) and whether `Connection` is `keep-alive`.
/// `ParseError` when the block is incomplete, not UTF-8, or has a malformed such line.
pub fn response_framing(raw: &[u8]) -> (r: Result<(usize, usize, bool), HttpError>)
    ensures
        match framing_spec(raw@) {
            Some((h, cl, ka)) => r == Ok::<(usize, usize, bool), HttpError>((h as usize, cl as usize, ka)),
            None => r == Err::<(usize, usize, bool), HttpError>(HttpError::ParseError),
        },
{
    let h = match header_end(raw) {
        Some(h) => h,
        None => return Err(HttpError::ParseError),
    };
    let head = &raw[0..h];
    assert(head@ =~= raw@.take(h as int));
    let ghost h0 = first_header_end(raw@).unwrap();
    assert(h0 + 4 == h);
    let text = match str_from_utf8(head) {
        Some(t) => t,
        None => return Err(HttpError::ParseError),
    };
    proof {
        vstd::utf8::encode_utf8_decode_utf8(text@);
    }
    match framing_text(text) {
        Some((cl, ka)) => Ok((h, cl, ka)),
        None => Err(HttpError::ParseError),
    }
}

/// The body length and keep-alive flag that the lines of the header block give.
#[verifier::rlimit(40)]
fn framing_text(t: &str) -> (r: Option<(usize, bool)>)
    ensures
        match framing_lines(split_lines(t@)) {
            Some((c, k)) => r == Some((c as usize, k)),
            None => r is None,
        },
{
    let n = t.unicode_len();
    let ghost all = split_lines(t@);
    let ghost mut seen: Seq<Seq<char>> = Seq::empty();
    let mut cl: usize = 0;
    let mut ka = false;
    let mut p: usize = 0;
    assert(t@.skip(0) =~= t@);
    loop
        invariant
            p <= n,
            n == t@.len(),
            all == split_lines(t@),
            all == seen + split_lines(t@.skip(p as int)),
            framing_lines(seen) == Some((cl as nat, ka)),
        decreases n - p,
    {
        let (j, line) = crate::net::ipv4::http::response::next_line(t, n, p);
        let ghost before = seen;
        proof {
            seen = seen.push(line@);
            assert(seen.drop_last() =~= before);
            if j < n {
                assert(all =~= seen + split_lines(t@.skip(j + 2)));
            } else {
                assert(all =~= seen);
            }
            assert(all.take(seen.len() as int) =~= seen);
        }
        match framing_line(line, cl, ka) {
            Some((c, k)) => {
                cl = c;
                ka = k;
            },
            None => {
                proof {
                    lemma_framing_fails(all, seen);
                }
                return None;
            },
        }
        if j == n {
            return Some((cl, ka));
        }
        p = j + 2;
    }
}

/// Once the lines read so far fail, all lines fail.
proof fn lemma_framing_fails(all: Seq<Seq<char>>, prefix: Seq<Seq<char>>)
    requires
        framing_lines(prefix) is None,
        prefix.len() <= all.len(),
        all.take(prefix.len() as int) == prefix,
    ensures
        framing_lines(all) is None,
    decreases all.len() - prefix.len(),
{
    if all.len() > prefix.len() {
        assert(all.drop_last().take(prefix.len() as int) =~= prefix);
        lemma_framing_fails(all.drop_last(), prefix);
    } else {
        assert(all =~= prefix);
    }
}

/// How far a response has arrived: still in its header block, or in a body that ends at
/// byte `total`.
#[derive(Clone, Copy, Debug, PartialEq, Eq, Structural)]
pub enum ReadState {
    Headers,
    Body { total: usize, keep_alive: bool },
}

/// What the caller does next while receiving a response.
#[derive(Clone, Copy, Debug)]
pub enum ReadAction {
    /// Read more bytes (then check the time limit with `timed_out`).
    Read,
    /// Give up with this error.
    Fail(HttpError),
    /// The response is complete; close the connection when `close` holds.
    Done { close: bool },
}

/// The next step with the bytes `raw` received so far: in the header block, read until it
/// is complete, then take the body length and keep-alive flag from it (a malformed block
/// fails); in the body, read until `total` bytes have arrived. The connection is closed at
/// the end unless the server keeps it alive or the caller forces it open.
pub open spec fn read_step_spec(state: ReadState, raw: Seq<u8>, force_keep_alive: bool) -> (ReadState, ReadAction) {
    match state {
        ReadState::Headers => match framing_spec(raw) {
            None => if first_header_end(raw) is None {
                (state, ReadAction::Read)
            } else {
                (state, ReadAction::Fail(HttpError::ParseError))
            },
            Some((h, cl, ka)) => {
                let total = (h + cl) as usize;
                if raw.len() < total {
                    (ReadState::Body { total, keep_alive: ka }, ReadAction::Read)
                } else {
                    (ReadState::Body { total, keep_alive: ka }, ReadAction::Done { close: !ka && !force_keep_alive })
                }
            },
        },
        ReadState::Body { total, keep_alive } => if raw.len() < total {
            (state, ReadAction::Read)
        } else {
            (state, ReadAction::Done { close: !keep_alive && !force_keep_alive })
        },
    }
}

/// The next step while receiving a response (see `read_step_spec`). The header block's
/// length and body length must add up within `usize`.
pub fn read_step(state: ReadState, raw: &[u8], force_keep_alive: bool) -> (r: (ReadState, ReadAction))
    requires
        state is Headers ==> (framing_spec(raw@) matches Some((h, cl, _)) ==> h + cl <= usize::MAX),
    ensures
        r == read_step_spec(state, raw@, force_keep_alive),
{
    match state {
        ReadState::Headers => {
            if header_end(raw).is_none() {
                return (state, ReadAction::Read);
            }
            match response_framing(raw) {
                Err(e) => (state, ReadAction::Fail(e)),
                Ok((h, cl, ka)) => {
                    let total = h + cl;
                    if raw.len() < total {
                        (ReadState::Body { total, keep_alive: ka }, ReadAction::Read)
                    } else {
                        (ReadState::Body { total, keep_alive: ka }, ReadAction::Done { close: !ka && !force_keep_alive })
                    }
                },
            }
        },
        ReadState::Body { total, keep_alive } => {
            if raw.len() < total {
                (state, ReadAction::Read)
            } else {
                (state, ReadAction::Done { close: !keep_alive && !force_keep_alive })
            }
        },
    }
}

/// Whether more than `timeout` ticks have passed from `start` to `now`.
pub fn timed_out(start: u64, now: u64, timeout: usize) -> (r: bool)
    requires
        start <= now,
    ensures
        r == (now - start > timeout),
{
    let elapsed = now - start;
    if elapsed > usize::MAX as u64 {
        return true;
    }
    elapsed as usize > timeout
}

/// The bytes to send for `request`; `ParseError` when its URL does not parse.
pub fn encode_request(request: &Request) -> (r: Result<Vec<u8>, HttpError>)
    requires
        url_port_valid(request@.url),
    ensures
        match parse_url_spec(request@.url) {
            Some((_, host, port, path)) => r matches Ok(b) && b@ == request_bytes(
                request@.method,
                host,
                port,
                path,
                request@.headers,
                request@.body,
            ),
            None => r == Err::<Vec<u8>, HttpError>(HttpError::ParseError),
        },
{
    match request.build() {
        Some(b) => Ok(b),
        None => Err(HttpError::ParseError),
    }
}

/// One check while waiting, before sending, for the connection to be established, after
/// `retry` earlier waits: `Some(Ok)` once it is, `Some(Err(ConnectionFailed))` when it is not
/// and this would be the twentieth wait, else `None` (wait and check again).
pub fn send_wait_step(open: bool, retry: u32) -> (r: Option<Result<(), HttpError>>)
    requires
        retry < 20,
    ensures
        open ==> r == Some(Ok::<(), HttpError>(())),
        !open && retry + 1 >= 20 ==> r == Some(Err::<(), HttpError>(HttpError::ConnectionFailed)),
        !open && retry + 1 < 20 ==> r is None,
{
    if open {
        Some(Ok(()))
    } else if retry + 1 >= 20 {
        Some(Err(HttpError::ConnectionFailed))
    } else {
        None
    }
}

#[allow(non_camel_case_types)]
pub struct connection<'a> {
    pub host: &'a str,
    pub remote_ip: [u8; 4],
    pub remote_port: u16,
    pub local_port: u16,
    pub force_keep_alive: bool,
}

impl<'a> connection<'a> {
    /// The connection's TCP tuple.
    pub open spec fn tuple_spec(&self) -> TcpTuple {
        TcpTuple { local_port: self.local_port, remote_ip: self.remote_ip, remote_port: self.remote_port }
    }

    /// A connection to `host:port`, not yet opened. The address is the host itself when it is a
    /// dotted IPv4 address, else `dns_answer` (what a DNS lookup of the host gave); with
    /// neither, `DnsError`.
    pub fn new(host: &'a str, port: u16, force_ka: bool, dns_answer: Option<[u8; 4]>) -> (r: Result<Self, HttpError>)
        ensures
            match (if parse_ip_spec(host@) is Some { parse_ip_spec(host@) } else { dns_answer }) {
                Some(ip) => r matches Ok(c) && c.host@ == host@ && c.remote_ip == ip && c.remote_port == port
                    && c.local_port == 0 && c.force_keep_alive == force_ka,
                None => r == Err::<Self, HttpError>(HttpError::DnsError),
            },
    {
        let ip = match parse_ip(host) {
            Some(ip) => ip,
            None => match dns_answer {
                Some(ip) => ip,
                None => return Err(HttpError::DnsError),
            },
        };
        Ok(connection { host, remote_ip: ip, remote_port: port, local_port: 0, force_keep_alive: force_ka })
    }

    /// A connection to `ip:port`, not yet opened.
    pub fn new_with_ip(host: &'a str, ip: [u8; 4], port: u16, force_ka: bool) -> (r: Self)
        ensures
            r.host@ == host@,
            r.remote_ip == ip,
            r.remote_port == port,
            r.local_port == 0,
            r.force_keep_alive == force_ka,
    {
        connection { host, remote_ip: ip, remote_port: port, local_port: 0, force_keep_alive: force_ka }
    }

    /// The connection's TCP tuple.
    pub fn tuple(&self) -> (r: TcpTuple)
        ensures
            r == self.tuple_spec(),
    {
        TcpTuple { local_port: self.local_port, remote_ip: self.remote_ip, remote_port: self.remote_port }
    }

    /// Starts opening the connection: sends SYN from a port chosen by `random` with initial
    /// sequence number `isn` (see `tcp::connect`). `ConnectionFailed` when the interface has
    /// no address, with nothing changed; `SocketNotFound` when the new connection is not in the
    /// table.
    pub fn connect(&mut self, net: &mut Network, manager: &mut TcpSocketManager, random: u16, isn: u32) -> (r: Result<(), HttpError>)
        requires
            old(net).wf(),
            old(manager).wf(),
            old(net).interface.ip_addr is Some ==> can_send_to(old(net)@, old(self).remote_ip),
        ensures
            final(net).wf(),
            final(manager).wf(),
            final(self).remote_ip == old(self).remote_ip,
            final(self).remote_port == old(self).remote_port,
            final(self).host == old(self).host,
            final(self).force_keep_alive == old(self).force_keep_alive,
            old(net).interface.ip_addr is None ==> {
                &&& r == Err::<(), HttpError>(HttpError::ConnectionFailed)
                &&& final(self).local_port == 0
                &&& final(manager)@ == old(manager)@
                &&& final(net)@ == old(net)@
            },
            old(net).interface.ip_addr is Some ==> {
                let m = tcp::connect_socket(old(self).remote_ip, old(self).remote_port, random, isn);
                &&& final(self).local_port == m.tuple.local_port
                &&& final(net)@ == tcp::send_segment_spec(old(net)@, old(net)@.iface.ip_addr.unwrap(), m.tuple, tcp::bare(isn, 0, SYN))
                &&& forall|x: tcp::TcpSocketView| tcp::has(final(manager)@, x) <==> (x == m || (tcp::has(old(manager)@, x) && x.tuple != m.tuple))
                &&& r is Ok <==> index_of(final(manager)@, final(self).tuple_spec()) is Some
                &&& r is Err ==> r == Err::<(), HttpError>(HttpError::SocketNotFound)
            },
    {
        self.local_port = tcp::connect(net, manager, &self.remote_ip, self.remote_port, random, isn);
        if self.local_port == 0 {
            return Err(HttpError::ConnectionFailed);
        }
        let tuple = self.tuple();
        match manager.find(&tuple) {
            Some(_) => Ok(()),
            None => Err(HttpError::SocketNotFound),
        }
    }

    /// One check while waiting for the connection to open, after `retry` earlier checks:
    /// `Some(Ok)` once it is established; `Some(Err(ConnectionFailed))` at the fiftieth
    /// check without it, the connection then dropped from the table; `None` to wait and check
    /// again.
    pub fn connect_step(&self, manager: &mut TcpSocketManager, retry: u32) -> (r: Option<Result<(), HttpError>>)
        requires
            old(manager).wf(),
            retry < 50,
        ensures
            final(manager).wf(),
            match index_of(old(manager)@, self.tuple_spec()) {
                Some(i) => if old(manager)@[i].state == TcpState::Established {
                    r == Some(Ok::<(), HttpError>(())) && final(manager)@ == old(manager)@
                } else if retry + 1 >= 50 {
                    r == Some(Err::<(), HttpError>(HttpError::ConnectionFailed)) && final(manager)@ == old(manager)@.remove(i)
                } else {
                    r is None && final(manager)@ == old(manager)@
                },
                None => if retry + 1 >= 50 {
                    r == Some(Err::<(), HttpError>(HttpError::ConnectionFailed)) && final(manager)@ == old(manager)@
                } else {
                    r is None && final(manager)@ == old(manager)@
                },
            },
    {
        let tuple = self.tuple();
        match manager.state_of(&tuple) {
            Some(TcpState::Established) => return Some(Ok(())),
            _ => {},
        }
        if retry + 1 >= 50 {
            manager.remove(&tuple);
            return Some(Err(HttpError::ConnectionFailed));
        }
        None
    }

    /// Starts closing the connection (sends FIN when it is open); nothing when it is not in
    /// the table.
    pub fn close(&self, net: &mut Network, manager: &mut TcpSocketManager)
        requires
            old(net).wf(),
            old(manager).wf(),
            tcp_ready(old(net)@) && close_sends(old(manager)@, self.tuple_spec()) ==> can_send_to(old(net)@, self.remote_ip),
        ensures
            final(net).wf(),
            final(manager).wf(),
            (final(manager)@, final(net)@) == (
                close_socket_spec(old(manager)@, old(net)@, self.tuple_spec()).1,
                close_socket_spec(old(manager)@, old(net)@, self.tuple_spec()).2,
            ),
    {
        let tuple = self.tuple();
        let _ = manager.close_socket(net, &tuple);
    }

    /// The first check before sending: `SocketNotFound` when the connection is not in the
    /// table.
    pub fn check_socket(&self, manager: &TcpSocketManager) -> (r: Result<(), HttpError>)
        requires
            manager.wf(),
        ensures
            index_of(manager@, self.tuple_spec()) is Some ==> r is Ok,
            index_of(manager@, self.tuple_spec()) is None ==> r == Err::<(), HttpError>(HttpError::SocketNotFound),
    {
        let tuple = self.tuple();
        match manager.find(&tuple) {
            Some(_) => Ok(()),
            None => Err(HttpError::SocketNotFound),
        }
    }

    /// Whether the connection is in the table and established.
    pub fn is_open(&self, manager: &TcpSocketManager) -> (r: bool)
        requires
            manager.wf(),
        ensures
            r == match index_of(manager@, self.tuple_spec()) {
                Some(i) => manager@[i].state == TcpState::Established,
                None => false,
            },
    {
        let tuple = self.tuple();
        match manager.state_of(&tuple) {
            Some(TcpState::Established) => true,
            _ => false,
        }
    }
}

} // verus!
