//! Resolving names: building the query, choosing the client port, and reading the server's
//! response. Sending, waiting and retrying are left to the caller.
use vstd::prelude::*;
use vstd::string::StringSliceAdditionalSpecFns;
use crate::net::ipv4::transport::udp::dns::packet::{
    DnsHeader, DnsResourceRecord, DnsResourceRecordHeader, dns_header_bytes, dns_header_from, labels, encode_labels, record_spec, record_faults,
    DNS_HEADER_LEN,
};
use crate::net::ipv4::transport::udp::dns::packet::constants::{CLASS_IN, FLAG_RD, TYPE_A};
use crate::net::wire::{u16_le, swap16, swap32, swap_u16, swap_u32, push_u16_le, push_bytes};

verus! {

/// Size in bytes of the buffer a query is built in.
pub const QUERY_BUFFER_LEN: usize = 512;

/// The unit type through which names are resolved.
pub struct DnsResolver;

/// The client port: the one chosen before, or a new ephemeral port (49152 to 65535) chosen by
/// `random` and remembered.
pub fn get_dns_port(dns_port: &mut u16, random: u16) -> (r: u16)
    ensures
        *old(dns_port) != 0 ==> r == *old(dns_port) && *final(dns_port) == *old(dns_port),
        *old(dns_port) == 0 ==> r == 49152 + random % 16384 && *final(dns_port) == r,
{
    let port = *dns_port;
    if port != 0 {
        return port;
    }
    let new_port = 49152 + (random % 16384);
    *dns_port = new_port;
    new_port
}

/// The length-prefixed labels of every dot-separated part of `domain`, then a zero.
pub fn parse_to_label_length(domain: &str) -> (r: Vec<u8>)
    ensures
        r@ == labels(domain.spec_bytes(), false).push(0),
{
    let mut encoded = encode_labels(domain.as_bytes(), false);
    encoded.push(0);
    encoded
}

/// The query that `build_query` builds: header, encoded name, type A, class IN.
pub open spec fn query_bytes(domain: Seq<u8>, id: u16) -> Seq<u8> {
    dns_header_bytes(
        DnsHeader { id: swap16(id), flags: swap16(FLAG_RD), qdcount: swap16(1), ancount: 0, nscount: 0, arcount: 0 },
    ) + labels(domain, false).push(0) + u16_le(swap16(TYPE_A)) + u16_le(swap16(CLASS_IN))
}

/// A recursive query for the address of `domain` with identifier `id`.
pub fn build_query(domain: &str, id: u16) -> (r: Vec<u8>)
    requires
        query_bytes(domain.spec_bytes(), id).len() <= QUERY_BUFFER_LEN,
    ensures
        r@ == query_bytes(domain.spec_bytes(), id),
{
    let label_name = parse_to_label_length(domain);
    let header = DnsHeader::new(id, FLAG_RD);
    let mut packet = header.as_bytes();
    push_bytes(&mut packet, label_name.as_slice());
    push_u16_le(&mut packet, swap_u16(TYPE_A));
    push_u16_le(&mut packet, swap_u16(CLASS_IN));
    assert(packet@ =~= query_bytes(domain.spec_bytes(), id));
    packet
}

/// Where the question section of a response ends (it starts after the header).
pub open spec fn skip_q(p: Seq<u8>, pos: int) -> int
    decreases if pos < p.len() { p.len() - pos } else { 0 },
{
    if pos < 0 || pos >= p.len() || p[pos] == 0 {
        pos + 5
    } else if p[pos] & 0xC0 == 0xC0 {
        pos + 2
    } else {
        skip_q(p, pos + p[pos] + 1)
    }
}

pub proof fn lemma_skip_q(p: Seq<u8>, pos: int)
    requires
        0 <= pos,
    ensures
        skip_q(p, pos) <= if pos > p.len() { pos + 5 } else { p.len() + 261int },
    decreases if pos < p.len() { p.len() - pos } else { 0 },
{
    if 0 <= pos < p.len() && p[pos] != 0 && !(p[pos] & 0xC0 == 0xC0) {
        lemma_skip_q(p, pos + p[pos] + 1);
    }
}

/// The position after the question section of a response.
pub fn skip_question_section(payload: &[u8]) -> (r: usize)
    requires
        payload@.len() <= 0x7FFF_FFFF,
    ensures
        r == skip_q(payload@, 12),
{
    let mut pos: usize = 12;
    let len = payload.len();
    proof {
        lemma_skip_q(payload@, 12);
    }
    while pos < len && payload[pos] != 0
        invariant
            12 <= pos,
            len == payload@.len(),
            len <= 0x7FFF_FFFF,
            skip_q(payload@, 12) == skip_q(payload@, pos as int),
            pos <= len + 256,
        decreases if pos < len { len - pos } else { 0 },
    {
        if (payload[pos] & 0xC0) == 0xC0 {
            pos = pos + 2;
            return pos;
        }
        pos = pos + (payload[pos] as usize) + 1;
    }
    pos = pos + 1;
    pos = pos + 4;
    pos
}

/// What a received response means for the query with identifier `id`.
#[derive(Clone, Copy, Debug)]
pub enum DnsReply {
    /// Not an answer to this query (or no address in it): keep waiting.
    Skip,
    /// The server answered with no records: this attempt has failed.
    NoAnswers,
    /// An address record: the address and its time to live.
    Address([u8; 4], u32),
}

/// The first address record among the `k` records from `pos`.
pub open spec fn scan_answers(p: Seq<u8>, pos: int, k: nat) -> Option<([u8; 4], u32)>
    decreases k,
{
    if k == 0 {
        None
    } else {
        match record_spec(p, pos) {
            None => None,
            Some((_name, h, data, next)) => if swap16(h.rtype) == TYPE_A && swap16(h.rdlength) == 4 {
                Some(([data[0], data[1], data[2], data[3]], swap32(h.ttl)))
            } else {
                scan_answers(p, next, (k - 1) as nat)
            },
        }
    }
}

/// Whether a record is an address record: type A with 4 bytes of data.
pub open spec fn is_address_record(h: DnsResourceRecordHeader) -> bool {
    swap16(h.rtype) == TYPE_A && swap16(h.rdlength) == 4
}

/// The header and data of the record `j` places after the one at `pos`, each record
/// starting where the one before it ends.
pub open spec fn nth_record(p: Seq<u8>, pos: int, j: nat) -> Option<(DnsResourceRecordHeader, Seq<u8>)>
    decreases j,
{
    match record_spec(p, pos) {
        None => None,
        Some((_name, h, data, next)) => if j == 0 {
            Some((h, data))
        } else {
            nth_record(p, next, (j - 1) as nat)
        },
    }
}

/// Scanning `k` records finds the first address record among them: when the records before
/// record `j` (with `j < k`) are all well formed and none is an address record, and record `j`
/// is one, the scan gives record `j`'s address and time to live, whatever follows it.
pub proof fn lemma_scan_finds_first_address(p: Seq<u8>, pos: int, k: nat, j: nat)
    requires
        j < k,
        nth_record(p, pos, j) matches Some((h, _)) && is_address_record(h),
        forall|i: nat| i < j ==> (#[trigger] nth_record(p, pos, i) matches Some((hi, _)) && !is_address_record(hi)),
    ensures
        ({
            let (h, d) = nth_record(p, pos, j).unwrap();
            scan_answers(p, pos, k) == Some(([d[0], d[1], d[2], d[3]], swap32(h.ttl)))
        }),
    decreases j,
{
    if j > 0 {
        assert(nth_record(p, pos, 0) matches Some((h0, _)) && !is_address_record(h0));
        let next = record_spec(p, pos).unwrap().3;
        assert forall|i: nat| i < (j - 1) as nat implies (#[trigger] nth_record(p, next, i) matches Some((hi, _))
            && !is_address_record(hi)) by {
            assert(nth_record(p, pos, i + 1) == nth_record(p, next, i));
        }
        assert(nth_record(p, pos, j) == nth_record(p, next, (j - 1) as nat));
        lemma_scan_finds_first_address(p, next, (k - 1) as nat, (j - 1) as nat);
    }
}

/// Scanning `k` well-formed records none of which is an address record finds nothing.
pub proof fn lemma_scan_without_address(p: Seq<u8>, pos: int, k: nat)
    requires
        forall|i: nat| i < k ==> (#[trigger] nth_record(p, pos, i) matches Some((hi, _)) && !is_address_record(hi)),
    ensures
        scan_answers(p, pos, k) is None,
    decreases k,
{
    if k > 0 {
        assert(nth_record(p, pos, 0) matches Some((h0, _)) && !is_address_record(h0));
        let next = record_spec(p, pos).unwrap().3;
        assert forall|i: nat| i < (k - 1) as nat implies (#[trigger] nth_record(p, next, i) matches Some((hi, _))
            && !is_address_record(hi)) by {
            assert(nth_record(p, pos, i + 1) == nth_record(p, next, i));
        }
        lemma_scan_without_address(p, next, (k - 1) as nat);
    }
}

/// A response to the query `id` resolves to its first address record: when the answers
/// before answer `j` are well-formed records of other types (a CNAME, say) and answer `j` is
/// an address record, the response gives answer `j`'s address and time to live.
pub proof fn lemma_response_first_address(p: Seq<u8>, id: u16, j: nat)
    requires
        p.len() >= DNS_HEADER_LEN,
        swap16(dns_header_from(p).id) == id,
        j < swap16(dns_header_from(p).ancount),
        nth_record(p, skip_q(p, 12), j) matches Some((h, _)) && is_address_record(h),
        forall|i: nat| i < j ==> (#[trigger] nth_record(p, skip_q(p, 12), i) matches Some((hi, _)) && !is_address_record(hi)),
    ensures
        ({
            let (h, d) = nth_record(p, skip_q(p, 12), j).unwrap();
            response_spec(p, id) == DnsReply::Address([d[0], d[1], d[2], d[3]], swap32(h.ttl))
        }),
{
    lemma_scan_finds_first_address(p, skip_q(p, 12), swap16(dns_header_from(p).ancount) as nat, j);
}

/// A response that is not for the query `id` (too short, or another identifier) is skipped;
/// one for it with no answers means the attempt failed; one whose answers are all
/// well-formed records of other types is skipped too (the lookup keeps waiting).
pub proof fn lemma_response_without_address(p: Seq<u8>, id: u16)
    ensures
        (p.len() < DNS_HEADER_LEN || swap16(dns_header_from(p).id) != id) ==> response_spec(p, id) is Skip,
        (p.len() >= DNS_HEADER_LEN && swap16(dns_header_from(p).id) == id && swap16(dns_header_from(p).ancount) == 0)
            ==> response_spec(p, id) is NoAnswers,
        (p.len() >= DNS_HEADER_LEN && swap16(dns_header_from(p).id) == id && forall|i: nat|
            i < swap16(dns_header_from(p).ancount) ==> (#[trigger] nth_record(p, skip_q(p, 12), i) matches Some((hi, _))
                && !is_address_record(hi))) ==> response_spec(p, id) is Skip || response_spec(p, id) is NoAnswers,
{
    if p.len() >= DNS_HEADER_LEN && swap16(dns_header_from(p).id) == id && forall|i: nat|
        i < swap16(dns_header_from(p).ancount) ==> (#[trigger] nth_record(p, skip_q(p, 12), i) matches Some((hi, _))
            && !is_address_record(hi)) {
        lemma_scan_without_address(p, skip_q(p, 12), swap16(dns_header_from(p).ancount) as nat);
    }
}

/// Whether scanning the `k` records from `pos` would index past the end of the message.
pub open spec fn scan_faults(p: Seq<u8>, pos: int, k: nat) -> bool
    decreases k,
{
    if k == 0 {
        false
    } else if record_faults(p, pos) {
        true
    } else {
        match record_spec(p, pos) {
            None => false,
            Some((_name, h, _data, next)) => if swap16(h.rtype) == TYPE_A && swap16(h.rdlength) == 4 {
                false
            } else {
                scan_faults(p, next, (k - 1) as nat)
            },
        }
    }
}

/// The meaning of `payload` for the query with identifier `id`.
pub open spec fn response_spec(p: Seq<u8>, id: u16) -> DnsReply {
    if p.len() < DNS_HEADER_LEN {
        DnsReply::Skip
    } else {
        let h = dns_header_from(p);
        if swap16(h.id) != id {
            DnsReply::Skip
        } else if swap16(h.ancount) == 0 {
            DnsReply::NoAnswers
        } else {
            match scan_answers(p, skip_q(p, 12), swap16(h.ancount) as nat) {
                Some((ip, ttl)) => DnsReply::Address(ip, ttl),
                None => DnsReply::Skip,
            }
        }
    }
}

/// Whether reading `payload` as a response to `id` would index past its end.
pub open spec fn response_faults(p: Seq<u8>, id: u16) -> bool {
    p.len() >= DNS_HEADER_LEN && swap16(dns_header_from(p).id) == id && scan_faults(
        p,
        skip_q(p, 12),
        swap16(dns_header_from(p).ancount) as nat,
    )
}

/// Scans the records of a response: reports whether reading them would run past the end of
/// the message, and otherwise the first address record.
#[verifier::rlimit(40)]
fn scan(payload: &[u8], start: usize, count: u16) -> (r: (bool, Option<([u8; 4], u32)>))
    requires
        payload@.len() <= 0x7FFF_FFFF,
        start <= payload@.len() + 261,
    ensures
        r.0 == scan_faults(payload@, start as int, count as nat),
        !r.0 ==> r.1 == scan_answers(payload@, start as int, count as nat),
{
    let mut pos = start;
    let mut k: u16 = count;
    while k > 0
        invariant
            payload@.len() <= 0x7FFF_FFFF,
            scan_faults(payload@, start as int, count as nat) == scan_faults(payload@, pos as int, k as nat),
            scan_answers(payload@, start as int, count as nat) == scan_answers(payload@, pos as int, k as nat),
        decreases k,
    {
        if pos > payload.len() || !name_fits(payload, pos) {
            assert(record_faults(payload@, pos as int));
            return (true, None);
        }
        let ghost rs = record_spec(payload@, pos as int);
        let rec = DnsResourceRecord::parse(payload, pos);
        match rec {
            None => {
                assert(rs is None);
                return (false, None);
            },
            Some((record, next_pos)) => {
                proof {
                    let e = crate::net::ipv4::transport::udp::dns::packet::name_end(payload@, pos as int);
                    crate::net::ipv4::transport::udp::dns::packet::lemma_name_end(payload@, pos as int);
                    assert(rs is Some);
                    assert(record.data@ == rs.unwrap().2);
                    assert(record.header == rs.unwrap().1);
                    assert(rs.unwrap().2.len() == swap16(record.header.rdlength));
                }
                let rtype = swap_u16(record.header.rtype);
                let rdlength = swap_u16(record.header.rdlength);
                if rtype == TYPE_A && rdlength == 4 {
                    assert(record.data@.len() == 4);
                    let ip = [record.data[0], record.data[1], record.data[2], record.data[3]];
                    return (false, Some((ip, swap_u32(record.header.ttl))));
                }
                assert(scan_faults(payload@, pos as int, k as nat) == scan_faults(payload@, next_pos as int, (k - 1) as nat));
                assert(scan_answers(payload@, pos as int, k as nat) == scan_answers(payload@, next_pos as int, (k - 1) as nat));
                pos = next_pos;
            },
        }
        k = k - 1;
    }
    (false, None)
}

/// Whether the name at `pos` ends within the message.
fn name_fits(payload: &[u8], pos: usize) -> (r: bool)
    requires
        payload@.len() <= 0x7FFF_FFFF,
        pos <= payload@.len(),
    ensures
        r == (crate::net::ipv4::transport::udp::dns::packet::name_end(payload@, pos as int) <= payload@.len()),
{
    let len = payload.len();
    let mut p = pos;
    proof {
        crate::net::ipv4::transport::udp::dns::packet::lemma_name_end(payload@, pos as int);
    }
    while p < len
        invariant
            pos <= p,
            len == payload@.len(),
            len <= 0x7FFF_FFFF,
            p <= len + 256,
            crate::net::ipv4::transport::udp::dns::packet::name_end(payload@, pos as int)
                == crate::net::ipv4::transport::udp::dns::packet::name_end(payload@, p as int),
        decreases if p < len { len - p } else { 0 },
    {
        let b = payload[p];
        if b & 0xC0 == 0xC0 {
            return p + 2 <= len;
        } else if b == 0 {
            return p + 1 <= len;
        }
        proof {
            crate::net::ipv4::transport::udp::dns::packet::lemma_name_end(payload@, p + b + 1);
        }
        p = p + (b as usize) + 1;
    }
    p <= len
}

/// Whether reading `payload` as a response to `id` would fault (see `response_faults`).
pub fn check_response_faults(payload: &[u8], id: u16) -> (r: bool)
    requires
        payload@.len() <= 0x7FFF_FFFF,
    ensures
        r == response_faults(payload@, id),
{
    let header = match DnsHeader::from_bytes(payload) {
        Some(h) => h,
        None => return false,
    };
    if swap_u16(header.id) != id {
        return false;
    }
    let pos = skip_question_section(payload);
    proof {
        lemma_skip_q(payload@, 12);
    }
    scan(payload, pos, swap_u16(header.ancount)).0
}

/// Reads a response to the query with identifier `id`.
pub fn examine_response(payload: &[u8], id: u16) -> (r: DnsReply)
    requires
        payload@.len() <= 0x7FFF_FFFF,
        !response_faults(payload@, id),
    ensures
        r == response_spec(payload@, id),
{
    let header = match DnsHeader::from_bytes(payload) {
        Some(h) => h,
        None => return DnsReply::Skip,
    };
    if swap_u16(header.id) != id {
        return DnsReply::Skip;
    }
    let ancount = swap_u16(header.ancount);
    if ancount == 0 {
        return DnsReply::NoAnswers;
    }
    let pos = skip_question_section(payload);
    proof {
        lemma_skip_q(payload@, 12);
    }
    match scan(payload, pos, ancount).1 {
        Some((ip, ttl)) => DnsReply::Address(ip, ttl),
        None => DnsReply::Skip,
    }
}

} // verus!
