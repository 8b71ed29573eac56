//! Ethernet II frames: a 14-byte header (destination, source, EtherType) and a payload.
use vstd::prelude::*;
use crate::net::wire::{be16, u16_be, push_bytes, push_u16_be};

verus! {

/// A decoded Ethernet frame; the payload borrows from the frame.
pub struct EthernetPacket<'a> {
    pub dst_mac: [u8; 6],
    pub src_mac: [u8; 6],
    pub ether_type: u16,
    pub payload: &'a [u8],
}

/// The bytes of a frame with the given header fields and payload.
pub open spec fn frame_bytes(dst_mac: Seq<u8>, src_mac: Seq<u8>, ether_type: u16, payload: Seq<u8>) -> Seq<u8> {
    dst_mac + src_mac + u16_be(ether_type) + payload
}

/// Splits a frame into header fields and payload; frames shorter than a header are refused.
pub fn parse(frame: &[u8]) -> (r: Option<EthernetPacket<'_>>)
    ensures
        r is None <==> frame@.len() < 14,
        r matches Some(p) ==> {
            &&& p.dst_mac@ == frame@.subrange(0, 6)
            &&& p.src_mac@ == frame@.subrange(6, 12)
            &&& p.ether_type == be16(frame@[12], frame@[13])
            &&& p.payload@ == frame@.subrange(14, frame@.len() as int)
        },
{
    if frame.len() < 14 {
        return None;
    }
    let dst_mac = [frame[0], frame[1], frame[2], frame[3], frame[4], frame[5]];
    let src_mac = [frame[6], frame[7], frame[8], frame[9], frame[10], frame[11]];
    let ether_type = (frame[12] as u16) * 256 + frame[13] as u16;
    let payload = &frame[14..frame.len()];
    assert(dst_mac@ =~= frame@.subrange(0, 6));
    assert(src_mac@ =~= frame@.subrange(6, 12));
    Some(EthernetPacket { dst_mac, src_mac, ether_type, payload })
}

/// Lays out an Ethernet frame.
pub fn build(dst_mac: [u8; 6], src_mac: [u8; 6], ether_type: u16, payload: &[u8]) -> (r: Vec<u8>)
    ensures
        r@ == frame_bytes(dst_mac@, src_mac@, ether_type, payload@),
{
    let mut frame: Vec<u8> = Vec::new();
    push_bytes(&mut frame, dst_mac.as_slice());
    push_bytes(&mut frame, src_mac.as_slice());
    push_u16_be(&mut frame, ether_type);
    push_bytes(&mut frame, payload);
    assert(frame@ =~= frame_bytes(dst_mac@, src_mac@, ether_type, payload@));
    frame
}

/// Parsing a built frame gives back its header fields and payload.
pub proof fn lemma_parse_build(dst_mac: Seq<u8>, src_mac: Seq<u8>, ether_type: u16, payload: Seq<u8>)
    requires
        dst_mac.len() == 6,
        src_mac.len() == 6,
    ensures
        ({
            let f = frame_bytes(dst_mac, src_mac, ether_type, payload);
            &&& f.len() >= 14
            &&& f.subrange(0, 6) == dst_mac
            &&& f.subrange(6, 12) == src_mac
            &&& be16(f[12], f[13]) == ether_type
            &&& f.subrange(14, f.len() as int) == payload
        }),
{
    let f = frame_bytes(dst_mac, src_mac, ether_type, payload);
    assert(f.subrange(0, 6) =~= dst_mac);
    assert(f.subrange(6, 12) =~= src_mac);
    assert(f.subrange(14, f.len() as int) =~= payload);
    crate::net::wire::lemma_u16_be_roundtrip(ether_type);
}

} // verus!
