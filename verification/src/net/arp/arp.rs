//! ARP packets for IPv4 over Ethernet, held as the target machine stores them: `new` writes
//! the 16-bit fields byte-swapped (`to_be`), so `as_bytes` shows them in network order.
use vstd::prelude::*;
use crate::net::wire::{u16_le, swap16, swap_u16, push_u16_le, push_bytes, be16, read_u16_be};

verus! {

/// Size in bytes of an ARP packet for IPv4 over Ethernet.
pub const ARP_PACKET_LEN: usize = 28;

#[derive(Clone, Copy)]
pub struct ArpPacket {
    pub hardware_type: u16,
    pub protocol_type: u16,
    pub hw_addr_len: u8,
    pub proto_addr_len: u8,
    pub operation: u16,
    pub sender_hw_addr: [u8; 6],
    pub sender_proto_addr: [u8; 4],
    pub target_hw_addr: [u8; 6],
    pub target_proto_addr: [u8; 4],
}

#[derive(Clone, Copy, Debug, PartialEq, Eq, Structural)]
pub enum HardwareType {
    Ethernet,
}

#[derive(Clone, Copy, Debug, PartialEq, Eq, Structural)]
pub enum ProtocolType {
    Ipv4,
}

#[derive(Clone, Copy, Debug, PartialEq, Eq, Structural)]
pub enum ArpOperation {
    Request,
    Reply,
}

/// The wire number of an ARP operation.
pub open spec fn op_code(op: ArpOperation) -> u16 {
    match op {
        ArpOperation::Request => 1,
        ArpOperation::Reply => 2,
    }
}

impl HardwareType {
    /// The wire number of the hardware type (Ethernet is 1).
    pub fn value(self) -> (r: u16)
        ensures
            r == 1,
    {
        match self {
            HardwareType::Ethernet => 1,
        }
    }
}

impl ProtocolType {
    /// The wire number of the protocol type (IPv4 is 0x0800).
    pub fn value(self) -> (r: u16)
        ensures
            r == 0x0800,
    {
        match self {
            ProtocolType::Ipv4 => 0x0800,
        }
    }
}

impl ArpOperation {
    /// The wire number of the operation (request 1, reply 2).
    pub fn value(self) -> (r: u16)
        ensures
            r == op_code(self),
    {
        match self {
            ArpOperation::Request => 1,
            ArpOperation::Reply => 2,
        }
    }
}

/// The packet that `ArpPacket::new` builds.
pub open spec fn arp_new(
    operation: ArpOperation,
    sender_hw_addr: [u8; 6],
    sender_proto_addr: [u8; 4],
    target_hw_addr: [u8; 6],
    target_proto_addr: [u8; 4],
) -> ArpPacket {
    ArpPacket {
        hardware_type: swap16(1),
        protocol_type: swap16(0x0800),
        hw_addr_len: 6,
        proto_addr_len: 4,
        operation: swap16(op_code(operation)),
        sender_hw_addr,
        sender_proto_addr,
        target_hw_addr,
        target_proto_addr,
    }
}

/// The 28 bytes of a packet as laid out in memory.
pub open spec fn arp_bytes(p: ArpPacket) -> Seq<u8> {
    u16_le(p.hardware_type) + u16_le(p.protocol_type) + seq![p.hw_addr_len, p.proto_addr_len]
        + u16_le(p.operation) + p.sender_hw_addr@ + p.sender_proto_addr@ + p.target_hw_addr@
        + p.target_proto_addr@
}

/// The packet decoded from network-order bytes, with its 16-bit fields in host order.
pub open spec fn arp_decode(b: Seq<u8>) -> ArpPacket {
    ArpPacket {
        hardware_type: be16(b[0], b[1]),
        protocol_type: be16(b[2], b[3]),
        hw_addr_len: b[4],
        proto_addr_len: b[5],
        operation: be16(b[6], b[7]),
        sender_hw_addr: [b[8], b[9], b[10], b[11], b[12], b[13]],
        sender_proto_addr: [b[14], b[15], b[16], b[17]],
        target_hw_addr: [b[18], b[19], b[20], b[21], b[22], b[23]],
        target_proto_addr: [b[24], b[25], b[26], b[27]],
    }
}

impl ArpPacket {
    /// An Ethernet/IPv4 ARP packet with the given operation and addresses, ready to be sent.
    pub fn new(
        operation: ArpOperation,
        sender_hw_addr: [u8; 6],
        sender_proto_addr: [u8; 4],
        target_hw_addr: [u8; 6],
        target_proto_addr: [u8; 4],
    ) -> (r: Self)
        ensures
            r == arp_new(operation, sender_hw_addr, sender_proto_addr, target_hw_addr, target_proto_addr),
    {
        Self {
            hardware_type: swap_u16(HardwareType::Ethernet.value()),
            protocol_type: swap_u16(ProtocolType::Ipv4.value()),
            hw_addr_len: 6,
            proto_addr_len: 4,
            operation: swap_u16(operation.value()),
            sender_hw_addr,
            sender_proto_addr,
            target_hw_addr,
            target_proto_addr,
        }
    }

    /// Decodes a received packet; its 16-bit fields come out in host order.
    pub fn from_bytes(data: &[u8]) -> (r: Option<Self>)
        ensures
            r is None <==> data@.len() < ARP_PACKET_LEN,
            r matches Some(p) ==> p == arp_decode(data@),
    {
        if data.len() < ARP_PACKET_LEN {
            return None;
        }
        Some(Self {
            hardware_type: read_u16_be(data, 0),
            protocol_type: read_u16_be(data, 2),
            hw_addr_len: data[4],
            proto_addr_len: data[5],
            operation: read_u16_be(data, 6),
            sender_hw_addr: [data[8], data[9], data[10], data[11], data[12], data[13]],
            sender_proto_addr: [data[14], data[15], data[16], data[17]],
            target_hw_addr: [data[18], data[19], data[20], data[21], data[22], data[23]],
            target_proto_addr: [data[24], data[25], data[26], data[27]],
        })
    }

    /// The packet's bytes as they lie in memory.
    pub fn as_bytes(&self) -> (r: Vec<u8>)
        ensures
            r@ == arp_bytes(*self),
    {
        let mut b: Vec<u8> = Vec::new();
        push_u16_le(&mut b, self.hardware_type);
        push_u16_le(&mut b, self.protocol_type);
        b.push(self.hw_addr_len);
        b.push(self.proto_addr_len);
        push_u16_le(&mut b, self.operation);
        push_bytes(&mut b, self.sender_hw_addr.as_slice());
        push_bytes(&mut b, self.sender_proto_addr.as_slice());
        push_bytes(&mut b, self.target_hw_addr.as_slice());
        push_bytes(&mut b, self.target_proto_addr.as_slice());
        assert(b@ =~= arp_bytes(*self));
        b
    }
}

/// Decoding the bytes of a packet built by `new` gives its fields in host order: hardware type
/// 1, protocol 0x0800, address lengths 6 and 4, the operation's number, and the addresses.
pub proof fn lemma_new_bytes_decode(
    operation: ArpOperation,
    sender_hw_addr: [u8; 6],
    sender_proto_addr: [u8; 4],
    target_hw_addr: [u8; 6],
    target_proto_addr: [u8; 4],
)
    ensures
        ({
            let b = arp_bytes(arp_new(operation, sender_hw_addr, sender_proto_addr, target_hw_addr, target_proto_addr));
            &&& b.len() == ARP_PACKET_LEN
            &&& arp_decode(b) == ArpPacket {
                hardware_type: 1,
                protocol_type: 0x0800,
                hw_addr_len: 6,
                proto_addr_len: 4,
                operation: op_code(operation),
                sender_hw_addr,
                sender_proto_addr,
                target_hw_addr,
                target_proto_addr,
            }
        }),
{
    let p = arp_new(operation, sender_hw_addr, sender_proto_addr, target_hw_addr, target_proto_addr);
    let b = arp_bytes(p);
    crate::net::wire::lemma_swap16_le(1);
    crate::net::wire::lemma_swap16_le(0x0800);
    crate::net::wire::lemma_swap16_le(op_code(operation));
    crate::net::wire::lemma_u16_be_roundtrip(1);
    crate::net::wire::lemma_u16_be_roundtrip(0x0800);
    crate::net::wire::lemma_u16_be_roundtrip(op_code(operation));
    let d = arp_decode(b);
    assert(d.sender_hw_addr =~= sender_hw_addr);
    assert(d.sender_proto_addr =~= sender_proto_addr);
    assert(d.target_hw_addr =~= target_hw_addr);
    assert(d.target_proto_addr =~= target_proto_addr);
}

} // verus!
