//! ICMP echo (ping): building requests, answering requests, and noting replies.
use vstd::prelude::*;
use crate::net::checksum::{word_sum, fold16, complement16, fold_sum, sum_words, complement, with_checksum_field, fill_checksum_field, lemma_filled_verifies};
use crate::net::wire::{u16_be, u16_le, swap16, swap_u16, push_u16_le, push_bytes, be16, read_u16_be};
use crate::net::state::{Network, NetView};
use crate::net::interface::MAX_IP_PAYLOAD;
use crate::net::ipv4::protocol::{send, ipv4_send_spec, can_send_to};

verus! {

pub const ICMP_TYPE_ECHO_REPLY: u8 = 0;
pub const ICMP_TYPE_ECHO_REQUEST: u8 = 8;
/// Size in bytes of an ICMP echo header.
pub const ICMP_HEADER_LEN: usize = 8;

/// An ICMP echo header; `to_bytes` lays out its fields as the target machine stores them.
#[derive(Clone, Copy, Debug)]
pub struct IcmpPacket {
    pub typ: u8,
    pub code: u8,
    pub checksum: u16,
    pub id: u16,
    pub sequence: u16,
}

/// The 8 bytes of a header as laid out in memory.
pub open spec fn icmp_bytes(p: IcmpPacket) -> Seq<u8> {
    seq![p.typ, p.code] + u16_le(p.checksum) + u16_le(p.id) + u16_le(p.sequence)
}

/// The echo request that `new_ping` builds.
pub open spec fn ping_bytes(id: u16, seq: u16, payload: Seq<u8>) -> Seq<u8> {
    with_checksum_field(icmp_bytes(IcmpPacket { typ: 8, code: 0, checksum: 0, id: swap16(id), sequence: swap16(seq) }) + payload)
}

/// The echo reply that `reply_to_ping` sends for a decoded request.
pub open spec fn echo_reply_bytes(request: IcmpPacket, data: Seq<u8>) -> Seq<u8> {
    with_checksum_field(icmp_bytes(IcmpPacket { typ: 0, code: 0, checksum: 0, id: request.id, sequence: request.sequence }) + data)
}

/// The header decoded from received bytes, 16-bit fields in host order.
pub open spec fn icmp_decode(b: Seq<u8>) -> IcmpPacket {
    IcmpPacket { typ: b[0], code: b[1], checksum: be16(b[2], b[3]), id: be16(b[4], b[5]), sequence: be16(b[6], b[7]) }
}

impl IcmpPacket {
    /// An echo request with the given identifier, sequence number and payload, checksum set.
    pub fn new_ping(id: u16, seq: u16, payload: &[u8]) -> (r: Vec<u8>)
        requires
            word_sum(icmp_bytes(IcmpPacket { typ: 8, code: 0, checksum: 0, id: swap16(id), sequence: swap16(seq) }) + payload@)
                <= u32::MAX,
        ensures
            r@ == ping_bytes(id, seq, payload@),
            fold16(word_sum(r@)) == 0xFFFF,
    {
        let header = IcmpPacket { typ: ICMP_TYPE_ECHO_REQUEST, code: 0, checksum: 0, id: swap_u16(id), sequence: swap_u16(seq) };
        let mut packet_data = header.to_bytes();
        push_bytes(&mut packet_data, payload);
        fill_checksum_field(&mut packet_data);
        proof {
            lemma_filled_verifies(icmp_bytes(header) + payload@);
        }
        packet_data
    }

    /// The header's 8 bytes as they lie in memory.
    pub fn to_bytes(&self) -> (r: Vec<u8>)
        ensures
            r@ == icmp_bytes(*self),
    {
        let mut b: Vec<u8> = Vec::new();
        b.push(self.typ);
        b.push(self.code);
        push_u16_le(&mut b, self.checksum);
        push_u16_le(&mut b, self.id);
        push_u16_le(&mut b, self.sequence);
        assert(b@ =~= icmp_bytes(*self));
        b
    }

    /// Decodes a received header; messages shorter than 8 bytes are refused.
    pub fn from_bytes(data: &[u8]) -> (r: Option<Self>)
        ensures
            r is None <==> data@.len() < ICMP_HEADER_LEN,
            r matches Some(p) ==> p == icmp_decode(data@),
    {
        if data.len() < ICMP_HEADER_LEN {
            return None;
        }
        Some(Self {
            typ: data[0],
            code: data[1],
            checksum: read_u16_be(data, 2),
            id: read_u16_be(data, 4),
            sequence: read_u16_be(data, 6),
        })
    }

    /// The Internet checksum of `data`: 0 exactly when a message with its checksum verifies.
    pub fn calculate_checksum_raw(data: &[u8]) -> (r: u16)
        requires
            word_sum(data@) <= u32::MAX,
        ensures
            r == complement16(word_sum(data@)),
    {
        let sum = sum_words(data, 0);
        complement(fold_sum(sum))
    }
}

/// A ping built by `new_ping` has checksum 0 when checked again.
pub proof fn lemma_ping_verifies(id: u16, seq: u16, payload: Seq<u8>)
    ensures
        complement16(word_sum(ping_bytes(id, seq, payload))) == 0,
{
    let body = icmp_bytes(IcmpPacket { typ: 8, code: 0, checksum: 0, id: swap16(id), sequence: swap16(seq) }) + payload;
    lemma_filled_verifies(body);
}

/// Whether a received ICMP message is an echo request.
pub open spec fn is_echo_request(payload: Seq<u8>) -> bool {
    payload.len() >= ICMP_HEADER_LEN && payload[0] == ICMP_TYPE_ECHO_REQUEST
}

/// The network after `reply_to_ping`.
pub open spec fn reply_spec(n: NetView, target_ip: [u8; 4], request: IcmpPacket, data: Seq<u8>) -> NetView {
    ipv4_send_spec(n, target_ip, 1, echo_reply_bytes(request, data))
}

/// Sends the echo reply for a request to `target_ip`.
pub fn reply_to_ping(net: &mut Network, target_ip: [u8; 4], request: IcmpPacket, data: &[u8])
    requires
        old(net).wf(),
        can_send_to(old(net)@, target_ip),
        ICMP_HEADER_LEN + data@.len() <= MAX_IP_PAYLOAD,
    ensures
        final(net).wf(),
        final(net)@ == reply_spec(old(net)@, target_ip, request, data@),
{
    let reply = IcmpPacket { typ: ICMP_TYPE_ECHO_REPLY, code: 0, checksum: 0, id: request.id, sequence: request.sequence };
    let mut full_payload = reply.to_bytes();
    push_bytes(&mut full_payload, data);
    proof {
        crate::net::checksum::lemma_short_sum_fits(full_payload@, 0);
    }
    fill_checksum_field(&mut full_payload);
    send(net, target_ip, 1, full_payload.as_slice());
}

/// The outcome of `handle_icmp_packet`: the network, the last echo reply seen, and whether
/// an echo request was answered.
pub open spec fn handle_icmp_spec(
    n: NetView,
    ping_reply: Option<([u8; 4], u16)>,
    src_ip: [u8; 4],
    payload: Seq<u8>,
) -> (NetView, Option<([u8; 4], u16)>, bool) {
    if payload.len() < ICMP_HEADER_LEN {
        (n, ping_reply, false)
    } else {
        let icmp = icmp_decode(payload);
        if icmp.typ == ICMP_TYPE_ECHO_REPLY {
            (n, Some((src_ip, icmp.sequence)), false)
        } else if icmp.typ == ICMP_TYPE_ECHO_REQUEST {
            (reply_spec(n, src_ip, icmp, payload.skip(8)), ping_reply, true)
        } else {
            (n, ping_reply, false)
        }
    }
}

/// Handles a received ICMP message: an echo reply is recorded in `ping_reply`, an echo
/// request is answered. Returns whether a request was answered.
pub fn handle_icmp_packet(
    net: &mut Network,
    ping_reply: &mut Option<([u8; 4], u16)>,
    src_ip: [u8; 4],
    payload: &[u8],
) -> (r: bool)
    requires
        old(net).wf(),
        is_echo_request(payload@) ==> can_send_to(old(net)@, src_ip) && payload@.len() <= MAX_IP_PAYLOAD,
    ensures
        final(net).wf(),
        (final(net)@, *final(ping_reply), r) == handle_icmp_spec(old(net)@, *old(ping_reply), src_ip, payload@),
{
    if let Some(icmp) = IcmpPacket::from_bytes(payload) {
        if icmp.typ == ICMP_TYPE_ECHO_REPLY {
            *ping_reply = Some((src_ip, icmp.sequence));
            false
        } else if icmp.typ == ICMP_TYPE_ECHO_REQUEST {
            let data = &payload[8..payload.len()];
            reply_to_ping(net, src_ip, icmp, data);
            true
        } else {
            false
        }
    } else {
        false
    }
}

} // verus!
