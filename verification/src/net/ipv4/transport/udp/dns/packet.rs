//! DNS messages: the header, questions and resource records. Multi-byte fields are held as
//! the target machine stores them; `new` writes them with `to_be`.
use vstd::prelude::*;
use crate::net::wire::{u16_le, u32_le, swap16, swap_u16, push_u16_le, be16, be32};

pub mod constants;

verus! {

/// Size in bytes of a DNS header.
pub const DNS_HEADER_LEN: usize = 12;
/// Size in bytes of the fixed part of a resource record after its name.
pub const RR_HEADER_LEN: usize = 10;

pub struct DnsHeader {
    pub id: u16,
    pub flags: u16,
    pub qdcount: u16,
    pub ancount: u16,
    pub nscount: u16,
    pub arcount: u16,
}

/// The 12 header bytes as laid out in memory.
pub open spec fn dns_header_bytes(h: DnsHeader) -> Seq<u8> {
    u16_le(h.id) + u16_le(h.flags) + u16_le(h.qdcount) + u16_le(h.ancount) + u16_le(h.nscount) + u16_le(h.arcount)
}

/// The header that reading 12 bytes of memory gives.
pub open spec fn dns_header_from(b: Seq<u8>) -> DnsHeader {
    DnsHeader {
        id: be16(b[1], b[0]),
        flags: be16(b[3], b[2]),
        qdcount: be16(b[5], b[4]),
        ancount: be16(b[7], b[6]),
        nscount: be16(b[9], b[8]),
        arcount: be16(b[11], b[10]),
    }
}

impl DnsHeader {
    /// A query header with one question.
    pub fn new(id: u16, flags: u16) -> (r: Self)
        ensures
            r == (DnsHeader { id: swap16(id), flags: swap16(flags), qdcount: swap16(1), ancount: 0, nscount: 0, arcount: 0 }),
    {
        Self { id: swap_u16(id), flags: swap_u16(flags), qdcount: swap_u16(1), ancount: 0, nscount: 0, arcount: 0 }
    }

    /// The header's bytes as they lie in memory.
    pub fn as_bytes(&self) -> (r: Vec<u8>)
        ensures
            r@ == dns_header_bytes(*self),
    {
        let mut b: Vec<u8> = Vec::new();
        push_u16_le(&mut b, self.id);
        push_u16_le(&mut b, self.flags);
        push_u16_le(&mut b, self.qdcount);
        push_u16_le(&mut b, self.ancount);
        push_u16_le(&mut b, self.nscount);
        push_u16_le(&mut b, self.arcount);
        assert(b@ =~= dns_header_bytes(*self));
        b
    }

    /// Reads a header from the first 12 bytes of `data`; shorter data is refused.
    pub fn from_bytes(data: &[u8]) -> (r: Option<Self>)
        ensures
            r is None <==> data@.len() < DNS_HEADER_LEN,
            r matches Some(h) ==> h == dns_header_from(data@),
    {
        if data.len() < DNS_HEADER_LEN {
            return None;
        }
        Some(Self {
            id: (data[1] as u16) * 256 + data[0] as u16,
            flags: (data[3] as u16) * 256 + data[2] as u16,
            qdcount: (data[5] as u16) * 256 + data[4] as u16,
            ancount: (data[7] as u16) * 256 + data[6] as u16,
            nscount: (data[9] as u16) * 256 + data[8] as u16,
            arcount: (data[11] as u16) * 256 + data[10] as u16,
        })
    }
}

pub struct DnsQuestionFooter {
    pub qtype: u16,
    pub qclass: u16,
}

pub struct DnsQuestion<'a> {
    pub name: &'a [u8],
    pub footer: DnsQuestionFooter,
}

/// The index of the first '.' in `s`, or its length.
pub open spec fn first_dot(s: Seq<u8>) -> int
    decreases s.len(),
{
    if s.len() == 0 {
        0
    } else if s[0] == 0x2E {
        0
    } else {
        1 + first_dot(s.skip(1))
    }
}

pub proof fn lemma_first_dot(s: Seq<u8>)
    ensures
        0 <= first_dot(s) <= s.len(),
        first_dot(s) < s.len() ==> s[first_dot(s)] == 0x2E,
        forall|i: int| 0 <= i < first_dot(s) ==> s[i] != 0x2E,
    decreases s.len(),
{
    if s.len() > 0 && s[0] != 0x2E {
        lemma_first_dot(s.skip(1));
        assert forall|i: int| 0 <= i < first_dot(s) implies s[i] != 0x2E by {
            if i > 0 {
                assert(s[i] == s.skip(1)[i - 1]);
            }
        }
    }
}

/// The length-prefixed labels of the dot-separated parts of `name`; with `skip_empty` the
/// empty parts are left out.
pub open spec fn labels(name: Seq<u8>, skip_empty: bool) -> Seq<u8>
    decreases name.len(),
{
    let i = first_dot(name);
    let part = name.take(i);
    let this = if skip_empty && part.len() == 0 { Seq::empty() } else { seq![part.len() as u8] + part };
    if 0 <= i < name.len() {
        proof {
            lemma_first_dot(name);
        }
        this + labels(name.skip(i + 1), skip_empty)
    } else {
        this
    }
}

/// The bytes that `write_to_buffer` writes: labels, the terminating zero, type and class.
pub open spec fn question_bytes(q: Seq<u8>, qtype: u16, qclass: u16) -> Seq<u8> {
    labels(q, true) + seq![0u8] + u16_le(qtype) + u16_le(qclass)
}

impl<'a> DnsQuestion<'a> {
    /// A question for `name` with the given type and class (stored in network order).
    pub fn new(name: &'a [u8], qtype: u16, qclass: u16) -> (r: Self)
        ensures
            r.name@ == name@,
            r.footer.qtype == swap16(qtype),
            r.footer.qclass == swap16(qclass),
    {
        Self { name, footer: DnsQuestionFooter { qtype: swap_u16(qtype), qclass: swap_u16(qclass) } }
    }

    /// Writes the encoded question at the start of `buffer`; returns its length.
    pub fn write_to_buffer(&self, buffer: &mut [u8]) -> (r: usize)
        requires
            question_bytes(self.name@, self.footer.qtype, self.footer.qclass).len() <= old(buffer)@.len(),
        ensures
            r == question_bytes(self.name@, self.footer.qtype, self.footer.qclass).len(),
            final(buffer)@ == question_bytes(self.name@, self.footer.qtype, self.footer.qclass) + old(buffer)@.skip(r as int),
    {
        let encoded = encode_labels(self.name, true);
        let mut out = encoded;
        out.push(0);
        push_u16_le(&mut out, self.footer.qtype);
        push_u16_le(&mut out, self.footer.qclass);
        let ghost start = buffer@;
        let n = out.len();
        let mut i: usize = 0;
        while i < n
            invariant
                i <= n,
                n == out@.len(),
                n <= start.len(),
                buffer@.len() == start.len(),
                buffer@ == out@.take(i as int) + start.skip(i as int),
            decreases n - i,
        {
            buffer[i] = out[i];
            i = i + 1;
            assert(buffer@ =~= out@.take(i as int) + start.skip(i as int));
        }
        assert(out@.take(n as int) =~= out@);
        n
    }
}

/// Encodes the dot-separated parts of `name` as length-prefixed labels.
pub fn encode_labels(name: &[u8], skip_empty: bool) -> (r: Vec<u8>)
    ensures
        r@ == labels(name@, skip_empty),
{
    let mut out: Vec<u8> = Vec::new();
    let mut start: usize = 0;
    let n = name.len();
    assert(name@.skip(0) =~= name@);
    loop
        invariant_except_break
            start <= n,
            n == name@.len(),
            labels(name@, skip_empty) == out@ + labels(name@.skip(start as int), skip_empty),
        ensures
            out@ == labels(name@, skip_empty),
        decreases n - start,
    {
        let ghost rest = name@.skip(start as int);
        let ghost before = out@;
        let mut end = start;
        while end < n && name[end] != 0x2E
            invariant
                start <= end <= n,
                n == name@.len(),
                forall|k: int| start <= k < end ==> name@[k] != 0x2E,
            decreases n - end,
        {
            end = end + 1;
        }
        proof {
            lemma_first_dot(rest);
            assert forall|k: int| 0 <= k < end - start implies rest[k] != 0x2E by {
                assert(rest[k] == name@[start + k]);
            }
            if end < n {
                assert(rest[end - start] == 0x2E);
            }
            assert(first_dot(rest) == end - start);
            assert(rest.take(end - start) =~= name@.subrange(start as int, end as int));
        }
        let part_len = end - start;
        if !(skip_empty && part_len == 0) {
            out.push(part_len as u8);
            let mut k = start;
            while k < end
                invariant
                    start <= k <= end <= n,
                    n == name@.len(),
                    out@ == before.push(part_len as u8) + name@.subrange(start as int, k as int),
                decreases end - k,
            {
                out.push(name[k]);
                k = k + 1;
                assert(out@ =~= before.push(part_len as u8) + name@.subrange(start as int, k as int));
            }
            assert(out@ =~= before + (seq![part_len as u8] + rest.take(end - start)));
        } else {
            assert(out@ =~= before + Seq::<u8>::empty());
        }
        if end < n {
            proof {
                assert(rest.skip(end - start + 1) =~= name@.skip(end + 1));
            }
            start = end + 1;
        } else {
            break;
        }
    }
    out
}

pub struct DnsResourceRecordHeader {
    pub rtype: u16,
    pub rclass: u16,
    pub ttl: u32,
    pub rdlength: u16,
}

pub struct DnsResourceRecord<'a> {
    pub name: &'a [u8],
    pub header: DnsResourceRecordHeader,
    pub data: &'a [u8],
}

/// Where the name starting at `pos` ends: after a compression pointer (two bytes), after the
/// terminating zero, or where the bytes run out.
pub open spec fn name_end(p: Seq<u8>, pos: int) -> int
    decreases if pos < p.len() { p.len() - pos } else { 0 },
{
    if pos < 0 || pos >= p.len() {
        pos
    } else if p[pos] & 0xC0 == 0xC0 {
        pos + 2
    } else if p[pos] == 0 {
        pos + 1
    } else {
        name_end(p, pos + p[pos] + 1)
    }
}

pub proof fn lemma_name_end(p: Seq<u8>, pos: int)
    requires
        0 <= pos,
    ensures
        name_end(p, pos) >= pos,
        pos < p.len() ==> name_end(p, pos) > pos,
        name_end(p, pos) <= if pos > p.len() { pos } else { p.len() + 256int },
    decreases if pos < p.len() { p.len() - pos } else { 0 },
{
    if pos < p.len() && !(p[pos] & 0xC0 == 0xC0) && p[pos] != 0 {
        lemma_name_end(p, pos + p[pos] + 1);
    }
}

/// Whether parsing a record at `pos` would index past the end of the message.
pub open spec fn record_faults(p: Seq<u8>, pos: int) -> bool {
    pos > p.len() || name_end(p, pos) > p.len()
}

/// The fixed fields of a record as read from memory at `at`.
pub open spec fn rr_header_from(p: Seq<u8>, at: int) -> DnsResourceRecordHeader {
    DnsResourceRecordHeader {
        rtype: be16(p[at + 1], p[at]),
        rclass: be16(p[at + 3], p[at + 2]),
        ttl: be32(p[at + 7], p[at + 6], p[at + 5], p[at + 4]),
        rdlength: be16(p[at + 9], p[at + 8]),
    }
}

/// The record at `pos`: name bytes, fixed fields, data, and the position after it.
pub open spec fn record_spec(p: Seq<u8>, pos: int) -> Option<(Seq<u8>, DnsResourceRecordHeader, Seq<u8>, int)> {
    let e = name_end(p, pos);
    if e + 10 > p.len() {
        None
    } else {
        let h = rr_header_from(p, e);
        let len = swap16(h.rdlength) as int;
        if e + 10 + len > p.len() {
            None
        } else {
            Some((p.subrange(pos, e), h, p.subrange(e + 10, e + 10 + len), e + 10 + len))
        }
    }
}

impl<'a> DnsResourceRecord<'a> {
    /// Reads the resource record at `pos`; returns it and the position after it, or nothing
    /// when the message ends before the record does.
    pub fn parse(packet: &'a [u8], pos: usize) -> (r: Option<(Self, usize)>)
        requires
            !record_faults(packet@, pos as int),
            packet@.len() <= 0x7FFF_FFFF,
        ensures
            match record_spec(packet@, pos as int) {
                None => r is None,
                Some((name, h, data, next)) => r matches Some((rec, n)) && rec.name@ == name && rec.header == h
                    && rec.data@ == data && n == next,
            },
    {
        let start_name = pos;
        let mut pos = pos;
        let len = packet.len();
        proof {
            lemma_name_end(packet@, start_name as int);
        }
        while pos < len
            invariant_except_break
                start_name <= pos,
                len == packet@.len(),
                len <= 0x7FFF_FFFF,
                name_end(packet@, start_name as int) == name_end(packet@, pos as int),
                name_end(packet@, pos as int) <= len,
            ensures
                pos == name_end(packet@, start_name as int),
                start_name <= pos <= len,
            decreases len - pos,
        {
            let b = packet[pos];
            if b & 0xC0 == 0xC0 {
                pos = pos + 2;
                break;
            } else if b == 0 {
                pos = pos + 1;
                break;
            } else {
                proof {
                    lemma_name_end(packet@, pos + b + 1);
                }
                pos = pos + (b as usize) + 1;
            }
        }
        let name_slice = &packet[start_name..pos];
        if pos + 10 > len {
            return None;
        }
        let header = DnsResourceRecordHeader {
            rtype: (packet[pos + 1] as u16) * 256 + packet[pos] as u16,
            rclass: (packet[pos + 3] as u16) * 256 + packet[pos + 2] as u16,
            ttl: (packet[pos + 7] as u32) * 0x100_0000 + (packet[pos + 6] as u32) * 0x1_0000 + (packet[pos + 5] as u32) * 256
                + packet[pos + 4] as u32,
            rdlength: (packet[pos + 9] as u16) * 256 + packet[pos + 8] as u16,
        };
        let pos = pos + 10;
        let rdlength = swap_u16(header.rdlength) as usize;
        if pos + rdlength > len {
            return None;
        }
        let data = &packet[pos..pos + rdlength];
        Some((Self { name: name_slice, header, data }, pos + rdlength))
    }
}

} // verus!
