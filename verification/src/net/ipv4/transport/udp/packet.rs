//! UDP datagrams: the 8-byte header (in network order) and its checksum.
use vstd::prelude::*;
use crate::net::checksum::{word_sum, complement16, fold_sum, sum_words, complement, MAX_SUM_LEN};
use crate::net::wire::{u16_be, be16, read_u16_be};

verus! {

/// Size in bytes of a UDP header.
pub const UDP_HEADER_LEN: usize = 8;

/// A received datagram as queued on a socket.
pub struct UdpPacketData {
    pub src_ip: [u8; 4],
    pub src_port: u16,
    pub payload: Vec<u8>,
}

impl UdpPacketData {
    pub fn new(src_ip: [u8; 4], src_port: u16, payload: Vec<u8>) -> (r: Self)
        ensures
            r.src_ip == src_ip,
            r.src_port == src_port,
            r.payload@ == payload@,
    {
        Self { src_ip, src_port, payload }
    }
}

#[derive(Clone, Copy)]
pub struct UdpHeader {
    pub src_port: u16,
    pub dst_port: u16,
    pub length: u16,
    pub checksum: u16,
}

/// The 8 header bytes in network order.
pub open spec fn udp_header_bytes(h: UdpHeader) -> Seq<u8> {
    u16_be(h.src_port) + u16_be(h.dst_port) + u16_be(h.length) + u16_be(h.checksum)
}

/// The header decoded from 8 network-order bytes.
pub open spec fn udp_header_from(b: Seq<u8>) -> UdpHeader {
    UdpHeader { src_port: be16(b[0], b[1]), dst_port: be16(b[2], b[3]), length: be16(b[4], b[5]), checksum: be16(b[6], b[7]) }
}

/// The sum over pseudo-header, header (without its checksum) and payload.
pub open spec fn udp_sum(h: UdpHeader, src_ip: [u8; 4], dst_ip: [u8; 4], payload: Seq<u8>) -> nat {
    be16(src_ip[0], src_ip[1]) as nat + be16(dst_ip[0], dst_ip[1]) as nat + be16(src_ip[2], src_ip[3]) as nat
        + be16(dst_ip[2], dst_ip[3]) as nat + 17 + h.length as nat + h.src_port as nat + h.dst_port as nat
        + h.length as nat + word_sum(payload)
}

/// The checksum of a datagram; a computed zero is sent as 0xFFFF (zero means "no checksum").
pub open spec fn udp_checksum(h: UdpHeader, src_ip: [u8; 4], dst_ip: [u8; 4], payload: Seq<u8>) -> u16 {
    let c = complement16(udp_sum(h, src_ip, dst_ip, payload));
    if c == 0 { 0xFFFF } else { c }
}

/// The header that `serialize` leaves: length and checksum set for the payload.
pub open spec fn udp_serialized(h: UdpHeader, src_ip: [u8; 4], dst_ip: [u8; 4], payload: Seq<u8>) -> UdpHeader {
    let h1 = UdpHeader { length: (8 + payload.len()) as u16, checksum: 0, ..h };
    UdpHeader { checksum: udp_checksum(h1, src_ip, dst_ip, payload), ..h1 }
}

impl UdpHeader {
    /// A header for an empty datagram between the given ports.
    pub fn new(src_port: u16, dst_port: u16) -> (r: Self)
        ensures
            r == (UdpHeader { src_port, dst_port, length: 8, checksum: 0 }),
    {
        Self { src_port, dst_port, length: 8, checksum: 0 }
    }

    /// The header's bytes in network order.
    pub fn to_bytes(&self) -> (r: [u8; 8])
        ensures
            r@ == udp_header_bytes(*self),
    {
        let r = [
            (self.src_port / 256) as u8,
            (self.src_port % 256) as u8,
            (self.dst_port / 256) as u8,
            (self.dst_port % 256) as u8,
            (self.length / 256) as u8,
            (self.length % 256) as u8,
            (self.checksum / 256) as u8,
            (self.checksum % 256) as u8,
        ];
        assert(r@ =~= udp_header_bytes(*self));
        r
    }

    /// Decodes a header from the first 8 bytes of `data`.
    pub fn from_bytes(data: &[u8]) -> (r: Self)
        requires
            data@.len() >= UDP_HEADER_LEN,
        ensures
            r == udp_header_from(data@),
    {
        Self {
            src_port: read_u16_be(data, 0),
            dst_port: read_u16_be(data, 2),
            length: read_u16_be(data, 4),
            checksum: read_u16_be(data, 6),
        }
    }

    /// The checksum of this header with the given addresses and payload (its own checksum
    /// field does not take part).
    pub fn calculate_checksum(&self, src_ip: &[u8; 4], dst_ip: &[u8; 4], payload: &[u8]) -> (r: u16)
        requires
            payload@.len() <= MAX_SUM_LEN,
        ensures
            r == udp_checksum(*self, *src_ip, *dst_ip, payload@),
    {
        let mut sum: u32 = 0;
        sum += (src_ip[0] as u32) * 256 + src_ip[1] as u32;
        sum += (dst_ip[0] as u32) * 256 + dst_ip[1] as u32;
        sum += (src_ip[2] as u32) * 256 + src_ip[3] as u32;
        sum += (dst_ip[2] as u32) * 256 + dst_ip[3] as u32;
        sum += 17u32;
        sum += self.length as u32;
        sum += self.src_port as u32;
        sum += self.dst_port as u32;
        sum += self.length as u32;
        proof {
            crate::net::checksum::lemma_short_sum_fits(payload@, sum as nat);
        }
        let total = sum_words(payload, sum);
        let result = complement(fold_sum(total));
        if result == 0 { 0xFFFF } else { result }
    }

    /// Sets length and checksum for `payload` and returns the header bytes.
    pub fn serialize(&mut self, src_ip: &[u8; 4], dst_ip: &[u8; 4], payload: &[u8]) -> (r: [u8; 8])
        requires
            payload@.len() <= MAX_SUM_LEN,
        ensures
            *final(self) == udp_serialized(*old(self), *src_ip, *dst_ip, payload@),
            r@ == udp_header_bytes(*final(self)),
    {
        self.length = (8 + payload.len()) as u16;
        self.checksum = 0;
        self.checksum = self.calculate_checksum(src_ip, dst_ip, payload);
        self.to_bytes()
    }
}

/// Decoding the bytes of a header gives the header back.
pub proof fn lemma_udp_header_roundtrip(h: UdpHeader)
    ensures
        udp_header_bytes(h).len() == 8,
        udp_header_from(udp_header_bytes(h)) == h,
{
    crate::net::wire::lemma_u16_be_roundtrip(h.src_port);
    crate::net::wire::lemma_u16_be_roundtrip(h.dst_port);
    crate::net::wire::lemma_u16_be_roundtrip(h.length);
    crate::net::wire::lemma_u16_be_roundtrip(h.checksum);
}

/// The checksum of a serialized header, recomputed by a receiver, matches the stored one.
pub proof fn lemma_serialized_checksum_matches(h: UdpHeader, src_ip: [u8; 4], dst_ip: [u8; 4], payload: Seq<u8>)
    ensures
        ({
            let s = udp_serialized(h, src_ip, dst_ip, payload);
            s.checksum != 0 && s.checksum == udp_checksum(s, src_ip, dst_ip, payload)
        }),
{
}

} // verus!
