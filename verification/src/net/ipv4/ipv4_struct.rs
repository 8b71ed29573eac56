//! The IPv4 header, held as the target machine stores it: the multi-byte fields keep the
//! values that were written into them, so a field set with `to_be()` holds the byte-swapped
//! number and shows its big-endian bytes in `to_bytes`.
use vstd::prelude::*;
use crate::net::checksum::{word_sum, fold16, complement16, fold_sum, sum_words, complement};
use crate::net::wire::{u16_le, u16_be, swap16, swap_u16, push_u16_le, push_bytes, be16, read_u16_be};

verus! {

/// Size in bytes of an IPv4 header without options.
pub const HEADER_LEN: usize = 20;

#[allow(non_camel_case_types)]
#[derive(Clone, Copy)]
pub struct ip_Header {
    /// Version (high 4 bits) and header length in 32-bit words (low 4 bits).
    pub version_ihl: u8,
    pub tos: u8,
    pub total_length: u16,
    pub id: u16,
    /// Flags (3 bits) and fragment offset (13 bits).
    pub flags_fragment: u16,
    pub ttl: u8,
    pub protocol: u8,
    pub checksum: u16,
    pub src_ip: [u8; 4],
    pub dst_ip: [u8; 4],
}

/// The 20 bytes of a header as laid out in memory.
pub open spec fn header_bytes(h: ip_Header) -> Seq<u8> {
    seq![h.version_ihl, h.tos] + u16_le(h.total_length) + u16_le(h.id) + u16_le(h.flags_fragment)
        + seq![h.ttl, h.protocol] + u16_le(h.checksum) + h.src_ip@ + h.dst_ip@
}

/// The header with its checksum field set to `c`.
pub open spec fn with_checksum(h: ip_Header, c: u16) -> ip_Header {
    ip_Header { checksum: c, ..h }
}

/// The checksum that `calculate_checksum` stores (byte-swapped for memory, like `to_be`).
pub open spec fn header_checksum(h: ip_Header) -> u16 {
    swap16(complement16(word_sum(header_bytes(with_checksum(h, 0)))))
}

/// The header that reading 20 bytes of memory gives.
pub open spec fn header_from(b: Seq<u8>) -> ip_Header {
    ip_Header {
        version_ihl: b[0],
        tos: b[1],
        total_length: be16(b[3], b[2]),
        id: be16(b[5], b[4]),
        flags_fragment: be16(b[7], b[6]),
        ttl: b[8],
        protocol: b[9],
        checksum: be16(b[11], b[10]),
        src_ip: [b[12], b[13], b[14], b[15]],
        dst_ip: [b[16], b[17], b[18], b[19]],
    }
}

impl ip_Header {
    pub fn version(&self) -> (r: u8)
        ensures
            r == self.version_ihl / 16,
    {
        let v = self.version_ihl;
        assert(v >> 4 == v / 16) by (bit_vector);
        v >> 4
    }

    pub fn ihl(&self) -> (r: u8)
        ensures
            r == self.version_ihl % 16,
    {
        let v = self.version_ihl;
        assert(v & 0x0F == v % 16) by (bit_vector);
        v & 0x0F
    }

    pub fn flags(&self) -> (r: u16)
        ensures
            r == self.flags_fragment / 8192,
    {
        let v = self.flags_fragment;
        assert(v >> 13 == v / 8192) by (bit_vector);
        v >> 13
    }

    pub fn fragment(&self) -> (r: u16)
        ensures
            r == self.flags_fragment % 8192,
    {
        let v = self.flags_fragment;
        assert(v & 0x1FFF == v % 8192) by (bit_vector);
        v & 0x1FFF
    }

    /// The header's 20 bytes as they lie in memory.
    pub fn to_bytes(&self) -> (r: Vec<u8>)
        ensures
            r@ == header_bytes(*self),
    {
        let mut b: Vec<u8> = Vec::new();
        b.push(self.version_ihl);
        b.push(self.tos);
        push_u16_le(&mut b, self.total_length);
        push_u16_le(&mut b, self.id);
        push_u16_le(&mut b, self.flags_fragment);
        b.push(self.ttl);
        b.push(self.protocol);
        push_u16_le(&mut b, self.checksum);
        push_bytes(&mut b, self.src_ip.as_slice());
        push_bytes(&mut b, self.dst_ip.as_slice());
        assert(b@ =~= header_bytes(*self));
        b
    }

    /// Reads a header from the first 20 bytes of `data`, as an unaligned read of memory does.
    pub fn from_bytes(data: &[u8]) -> (r: Self)
        requires
            data@.len() >= 20,
        ensures
            r == header_from(data@),
    {
        ip_Header {
            version_ihl: data[0],
            tos: data[1],
            total_length: read_u16_be(data, 2) % 256 * 256 + read_u16_be(data, 2) / 256,
            id: (data[5] as u16) * 256 + data[4] as u16,
            flags_fragment: (data[7] as u16) * 256 + data[6] as u16,
            ttl: data[8],
            protocol: data[9],
            checksum: (data[11] as u16) * 256 + data[10] as u16,
            src_ip: [data[12], data[13], data[14], data[15]],
            dst_ip: [data[16], data[17], data[18], data[19]],
        }
    }

    /// Computes the header checksum over the header with a zero checksum field and stores it.
    /// Afterwards the header's words sum (folded) to 0xFFFF.
    pub fn calculate_checksum(&mut self)
        ensures
            *final(self) == with_checksum(*old(self), header_checksum(*old(self))),
            fold16(word_sum(header_bytes(*final(self)))) == 0xFFFF,
    {
        self.checksum = 0;
        let bytes = self.to_bytes();
        proof {
            crate::net::checksum::lemma_short_sum_fits(bytes@, 0 as nat);
        }
        let sum = sum_words(bytes.as_slice(), 0);
        let c = complement(fold_sum(sum));
        self.checksum = swap_u16(c);
        proof {
            let h0 = with_checksum(*old(self), 0);
            assert(*self == with_checksum(*old(self), header_checksum(*old(self))));
            let p = seq![h0.version_ihl, h0.tos] + u16_le(h0.total_length) + u16_le(h0.id)
                + u16_le(h0.flags_fragment) + seq![h0.ttl, h0.protocol];
            let q = h0.src_ip@ + h0.dst_ip@;
            crate::net::wire::lemma_swap16_le(c);
            crate::net::wire::lemma_swap16_le(0);
            assert(swap16(0) == 0);
            assert(header_bytes(h0) =~= p + u16_be(0) + q);
            assert(header_bytes(*self) =~= p + u16_be(c) + q);
            crate::net::checksum::lemma_checksum_verifies(0, p, q);
            assert(c == complement16(0 + word_sum(p + u16_be(0) + q)));
        }
    }

    /// Writes the header followed by `payload` at the start of `target_buffer`; returns the
    /// number of bytes written.
    pub fn serialize(&self, payload: &[u8], target_buffer: &mut [u8]) -> (r: usize)
        requires
            HEADER_LEN + payload@.len() <= old(target_buffer)@.len(),
        ensures
            r == HEADER_LEN + payload@.len(),
            final(target_buffer)@ == header_bytes(*self) + payload@ + old(target_buffer)@.skip(r as int),
    {
        let header = self.to_bytes();
        let tl = target_buffer.len();
        let total = HEADER_LEN + payload.len();
        let ghost start = target_buffer@;
        let mut i: usize = 0;
        while i < HEADER_LEN
            invariant
                i <= HEADER_LEN,
                header@.len() == HEADER_LEN,
                target_buffer@.len() == start.len(),
                HEADER_LEN + payload@.len() <= start.len(),
                target_buffer@ == header@.take(i as int) + start.skip(i as int),
            decreases HEADER_LEN - i,
        {
            target_buffer[i] = header[i];
            i = i + 1;
            assert(target_buffer@ =~= header@.take(i as int) + start.skip(i as int));
        }
        let mut j: usize = 0;
        while j < payload.len()
            invariant
                j <= payload@.len(),
                header@.len() == HEADER_LEN,
                target_buffer@.len() == start.len(),
                HEADER_LEN + payload@.len() <= start.len(),
                start.len() == tl,
                target_buffer@ == header@ + payload@.take(j as int) + start.skip(HEADER_LEN + j),
            decreases payload@.len() - j,
        {
            target_buffer[HEADER_LEN + j] = payload[j];
            j = j + 1;
            assert(target_buffer@ =~= header@ + payload@.take(j as int) + start.skip(HEADER_LEN + j));
        }
        assert(payload@.take(j as int) =~= payload@);
        total
    }
}

/// Reading back the bytes of a header gives the header.
pub proof fn lemma_header_roundtrip(h: ip_Header)
    ensures
        header_bytes(h).len() == 20,
        header_from(header_bytes(h)) == h,
{
    let b = header_bytes(h);
    assert(b.len() == 20);
    let r = header_from(b);
    assert(r.src_ip =~= h.src_ip);
    assert(r.dst_ip =~= h.dst_ip);
}

} // verus!
