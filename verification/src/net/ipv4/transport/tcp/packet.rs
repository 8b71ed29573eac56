//! The TCP header and checksums over the IPv4 pseudo-header. The header is held as the target
//! machine stores it: `new` writes its multi-byte fields byte-swapped (`to_be`), so `as_bytes`
//! shows them in network order.
use vstd::prelude::*;
use crate::net::checksum::{word_sum, fold16, complement16, fold_sum, sum_words, complement, MAX_SUM_LEN};
use crate::net::wire::{u16_le, u32_le, u16_be, be16, swap16, swap32, swap_u16, swap_u32, push_u16_le, push_u32_le};

pub mod flags;

verus! {

/// Size in bytes of a TCP header without options.
pub const HEADER_LEN: usize = 20;
pub const PROTOCOL: u8 = 6;

#[derive(Debug, Clone, Copy)]
pub struct TcpHeader {
    pub src_port: u16,
    pub dst_port: u16,
    pub seq_num: u32,
    pub ack_num: u32,
    pub data_offset_res: u8,
    pub flags: u8,
    pub window_size: u16,
    pub checksum: u16,
    pub urgent_pointer: u16,
}

pub enum TcpState {
    Closed,
    Listen,
    SynSent,
    SynReceived,
    Established,
    FinWait1,
    FinWait2,
    Closing,
    TimeWait,
    CloseWait,
    LastAck,
}

/// The 20 bytes of a header as laid out in memory.
pub open spec fn tcp_header_bytes(h: TcpHeader) -> Seq<u8> {
    u16_le(h.src_port) + u16_le(h.dst_port) + u32_le(h.seq_num) + u32_le(h.ack_num)
        + seq![h.data_offset_res, h.flags] + u16_le(h.window_size) + u16_le(h.checksum)
        + u16_le(h.urgent_pointer)
}

/// The header that reading 20 bytes of memory gives.
pub open spec fn tcp_header_from(b: Seq<u8>) -> TcpHeader {
    TcpHeader {
        src_port: be16(b[1], b[0]),
        dst_port: be16(b[3], b[2]),
        seq_num: crate::net::wire::be32(b[7], b[6], b[5], b[4]),
        ack_num: crate::net::wire::be32(b[11], b[10], b[9], b[8]),
        data_offset_res: b[12],
        flags: b[13],
        window_size: be16(b[15], b[14]),
        checksum: be16(b[17], b[16]),
        urgent_pointer: be16(b[19], b[18]),
    }
}

/// The header that `new` builds.
pub open spec fn tcp_new(src_port: u16, dst_port: u16, seq: u32, ack: u32, tcp_flags: u8) -> TcpHeader {
    TcpHeader {
        src_port: swap16(src_port),
        dst_port: swap16(dst_port),
        seq_num: swap32(seq),
        ack_num: swap32(ack),
        data_offset_res: 0x50,
        flags: tcp_flags,
        window_size: swap16(1024),
        checksum: 0,
        urgent_pointer: 0,
    }
}

/// The sum of the IPv4 pseudo-header: both addresses, the protocol and the segment length.
pub open spec fn pseudo_sum(src_ip: [u8; 4], dst_ip: [u8; 4], seg_len: nat) -> nat {
    be16(src_ip[0], src_ip[1]) as nat + be16(src_ip[2], src_ip[3]) as nat + be16(dst_ip[0], dst_ip[1]) as nat
        + be16(dst_ip[2], dst_ip[3]) as nat + PROTOCOL as nat + seg_len
}

/// The header with its checksum field set to `c`.
pub open spec fn tcp_with_checksum(h: TcpHeader, c: u16) -> TcpHeader {
    TcpHeader { checksum: c, ..h }
}

/// The checksum that `calculate_checksum` stores (byte-swapped for memory, like `to_be`).
pub open spec fn tcp_checksum(h: TcpHeader, src_ip: [u8; 4], dst_ip: [u8; 4], payload: Seq<u8>) -> u16 {
    swap16(
        complement16(
            pseudo_sum(src_ip, dst_ip, ((20 + payload.len()) as u16) as nat)
                + word_sum(tcp_header_bytes(tcp_with_checksum(h, 0)) + payload),
        ),
    )
}

/// Whether a whole segment (header and payload) carries a correct checksum.
pub open spec fn segment_checksum_ok(src_ip: [u8; 4], dst_ip: [u8; 4], seg: Seq<u8>) -> bool {
    fold16(pseudo_sum(src_ip, dst_ip, seg.len()) + word_sum(seg)) == 0xFFFF
}

/// Sum of the pseudo-header, computed at run time.
fn pseudo_header_sum(src_ip: &[u8; 4], dst_ip: &[u8; 4], seg_len: u32) -> (r: u32)
    requires
        seg_len <= 0x1_0000,
    ensures
        r as nat == pseudo_sum(*src_ip, *dst_ip, seg_len as nat),
        r <= 0x6_0000,
{
    let mut sum: u32 = 0;
    sum += (src_ip[0] as u32) * 256 + src_ip[1] as u32;
    sum += (src_ip[2] as u32) * 256 + src_ip[3] as u32;
    sum += (dst_ip[0] as u32) * 256 + dst_ip[1] as u32;
    sum += (dst_ip[2] as u32) * 256 + dst_ip[3] as u32;
    sum += PROTOCOL as u32;
    sum += seg_len;
    sum
}

impl TcpHeader {
    /// A header with data offset 5 words, window 1024 and zero checksum; the ports and
    /// sequence numbers are stored in network order.
    pub fn new(src_port: u16, dst_port: u16, seq: u32, ack: u32, tcp_flags: u8) -> (r: Self)
        ensures
            r == tcp_new(src_port, dst_port, seq, ack, tcp_flags),
    {
        Self {
            src_port: swap_u16(src_port),
            dst_port: swap_u16(dst_port),
            seq_num: swap_u32(seq),
            ack_num: swap_u32(ack),
            data_offset_res: 5 * 16,
            flags: tcp_flags,
            window_size: swap_u16(1024),
            checksum: 0,
            urgent_pointer: 0,
        }
    }

    /// Computes and stores the checksum over pseudo-header, header and payload; returns the
    /// stored field.
    pub fn calculate_checksum(&mut self, src_ip: &[u8; 4], dst_ip: &[u8; 4], payload: &[u8]) -> (r: u16)
        requires
            payload@.len() <= MAX_SUM_LEN,
        ensures
            r == tcp_checksum(*old(self), *src_ip, *dst_ip, payload@),
            *final(self) == tcp_with_checksum(*old(self), r),
    {
        self.checksum = 0;
        let tcp_length = (HEADER_LEN + payload.len()) as u16;
        let start = pseudo_header_sum(src_ip, dst_ip, tcp_length as u32);
        let header_bytes = self.as_bytes();
        proof {
            crate::net::checksum::lemma_short_sum_fits(header_bytes@, start as nat);
        }
        let s1 = sum_words(header_bytes.as_slice(), start);
        proof {
            crate::net::checksum::lemma_word_sum_bound(header_bytes@);
        }
        proof {
            crate::net::checksum::lemma_short_sum_fits(payload@, s1 as nat);
        }
        let s2 = sum_words(payload, s1);
        proof {
            crate::net::checksum::lemma_word_sum_concat(header_bytes@, payload@);
        }
        self.checksum = swap_u16(complement(fold_sum(s2)));
        self.checksum
    }

    /// Whether the header, with the given addresses and payload, carries a correct checksum.
    pub fn verify_checksum(&self, src_ip: &[u8; 4], dst_ip: &[u8; 4], payload: &[u8]) -> (r: bool)
        requires
            payload@.len() <= MAX_SUM_LEN,
        ensures
            r == (fold16(
                pseudo_sum(*src_ip, *dst_ip, ((20 + payload@.len()) as u16) as nat)
                    + word_sum(tcp_header_bytes(*self) + payload@),
            ) == 0xFFFF),
    {
        let tcp_length = (HEADER_LEN + payload.len()) as u16;
        let start = pseudo_header_sum(src_ip, dst_ip, tcp_length as u32);
        let header_bytes = self.as_bytes();
        proof {
            crate::net::checksum::lemma_short_sum_fits(header_bytes@, start as nat);
        }
        let s1 = sum_words(header_bytes.as_slice(), start);
        proof {
            crate::net::checksum::lemma_word_sum_bound(header_bytes@);
        }
        proof {
            crate::net::checksum::lemma_short_sum_fits(payload@, s1 as nat);
        }
        let s2 = sum_words(payload, s1);
        proof {
            crate::net::checksum::lemma_word_sum_concat(header_bytes@, payload@);
        }
        fold_sum(s2) == 0xFFFF
    }

    /// The header's 20 bytes as they lie in memory.
    pub fn as_bytes(&self) -> (r: Vec<u8>)
        ensures
            r@ == tcp_header_bytes(*self),
    {
        let mut b: Vec<u8> = Vec::new();
        push_u16_le(&mut b, self.src_port);
        push_u16_le(&mut b, self.dst_port);
        push_u32_le(&mut b, self.seq_num);
        push_u32_le(&mut b, self.ack_num);
        b.push(self.data_offset_res);
        b.push(self.flags);
        push_u16_le(&mut b, self.window_size);
        push_u16_le(&mut b, self.checksum);
        push_u16_le(&mut b, self.urgent_pointer);
        assert(b@ =~= tcp_header_bytes(*self));
        b
    }

    /// Reads a header from the first 20 bytes of `slice`, as an unaligned read of memory does.
    pub fn from_bytes(slice: &[u8]) -> (r: Self)
        requires
            slice@.len() >= HEADER_LEN,
        ensures
            r == tcp_header_from(slice@),
    {
        Self {
            src_port: (slice[1] as u16) * 256 + slice[0] as u16,
            dst_port: (slice[3] as u16) * 256 + slice[2] as u16,
            seq_num: crate::net::wire::read_u32_be(&[slice[7], slice[6], slice[5], slice[4]], 0),
            ack_num: crate::net::wire::read_u32_be(&[slice[11], slice[10], slice[9], slice[8]], 0),
            data_offset_res: slice[12],
            flags: slice[13],
            window_size: (slice[15] as u16) * 256 + slice[14] as u16,
            checksum: (slice[17] as u16) * 256 + slice[16] as u16,
            urgent_pointer: (slice[19] as u16) * 256 + slice[18] as u16,
        }
    }
}

/// Whether a received segment (header and payload) carries a correct checksum.
pub fn verify_segment_checksum(src_ip: &[u8; 4], dst_ip: &[u8; 4], tcp_segment: &[u8]) -> (r: bool)
    requires
        tcp_segment@.len() <= MAX_SUM_LEN,
    ensures
        r == segment_checksum_ok(*src_ip, *dst_ip, tcp_segment@),
{
    let mut start: u32 = 0;
    start += (src_ip[0] as u32) * 256 + src_ip[1] as u32;
    start += (src_ip[2] as u32) * 256 + src_ip[3] as u32;
    start += (dst_ip[0] as u32) * 256 + dst_ip[1] as u32;
    start += (dst_ip[2] as u32) * 256 + dst_ip[3] as u32;
    start += PROTOCOL as u32;
    start += tcp_segment.len() as u32;
    proof {
        crate::net::checksum::lemma_short_sum_fits(tcp_segment@, start as nat);
    }
    let sum = sum_words(tcp_segment, start);
    fold_sum(sum) == 0xFFFF
}

/// The checksum law for TCP: a header whose checksum was calculated for a payload verifies,
/// both on its own and as the start of the whole segment.
pub proof fn lemma_calculated_checksum_verifies(h: TcpHeader, src_ip: [u8; 4], dst_ip: [u8; 4], payload: Seq<u8>)
    requires
        20 + payload.len() <= 0xFFFF,
    ensures
        ({
            let h2 = tcp_with_checksum(h, tcp_checksum(h, src_ip, dst_ip, payload));
            &&& fold16(pseudo_sum(src_ip, dst_ip, ((20 + payload.len()) as u16) as nat) + word_sum(tcp_header_bytes(h2) + payload)) == 0xFFFF
            &&& segment_checksum_ok(src_ip, dst_ip, tcp_header_bytes(h2) + payload)
        }),
{
    let h0 = tcp_with_checksum(h, 0);
    let extra = pseudo_sum(src_ip, dst_ip, ((20 + payload.len()) as u16) as nat);
    let c = complement16(extra + word_sum(tcp_header_bytes(h0) + payload));
    let h2 = tcp_with_checksum(h, swap16(c));
    let p = u16_le(h.src_port) + u16_le(h.dst_port) + u32_le(h.seq_num) + u32_le(h.ack_num)
        + seq![h.data_offset_res, h.flags] + u16_le(h.window_size);
    let q = u16_le(h.urgent_pointer) + payload;
    crate::net::wire::lemma_swap16_le(c);
    crate::net::wire::lemma_swap16_le(0);
    assert(tcp_header_bytes(h0) + payload =~= p + u16_be(0) + q);
    assert(tcp_header_bytes(h2) + payload =~= p + u16_be(c) + q);
    crate::net::checksum::lemma_checksum_verifies(extra, p, q);
    assert(((20 + payload.len()) as u16) as nat == 20 + payload.len());
    assert((tcp_header_bytes(h2) + payload).len() == 20 + payload.len());
}

} // verus!
