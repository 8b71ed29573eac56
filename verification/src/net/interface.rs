//! The network interface: addresses and the queues of frames received and to be sent.
use vstd::prelude::*;
use std::collections::VecDeque;
use crate::net::arp::arp::{ArpPacket, arp_bytes};
use crate::net::ipv4::ipv4_struct::{ip_Header, header_bytes, with_checksum, header_checksum, HEADER_LEN};
use crate::net::wire::{push_bytes, zeros};

verus! {

/// Smallest Ethernet frame the interface sends; shorter frames are padded with zeros.
pub const MIN_FRAME_LEN: usize = 60;
/// Largest payload an Ethernet frame carries.
pub const MAX_FRAME_PAYLOAD: usize = 1500;
/// Largest IP payload `send_ipv4` accepts (its staging buffer holds 1480 bytes).
pub const MAX_IP_PAYLOAD: usize = 1460;

pub struct Interface {
    pub hw_addr: Option<[u8; 6]>,
    pub ip_addr: Option<[u8; 4]>,
    pub subnet_mask: Option<[u8; 4]>,
    pub gateway_ip: Option<[u8; 4]>,
    pub dns: Option<[u8; 4]>,
    pub rx_queue: VecDeque<Vec<u8>>,
    pub tx_queue: VecDeque<Vec<u8>>,
}

/// The addresses of an interface and the contents of its queues.
pub struct InterfaceView {
    pub hw_addr: Option<[u8; 6]>,
    pub ip_addr: Option<[u8; 4]>,
    pub subnet_mask: Option<[u8; 4]>,
    pub gateway_ip: Option<[u8; 4]>,
    pub dns: Option<[u8; 4]>,
    pub rx: Seq<Seq<u8>>,
    pub tx: Seq<Seq<u8>>,
}

/// The contents of a queue of frames.
pub open spec fn frames(q: Seq<Vec<u8>>) -> Seq<Seq<u8>> {
    q.map_values(|f: Vec<u8>| f@)
}

impl View for Interface {
    type V = InterfaceView;

    open spec fn view(&self) -> InterfaceView {
        InterfaceView {
            hw_addr: self.hw_addr,
            ip_addr: self.ip_addr,
            subnet_mask: self.subnet_mask,
            gateway_ip: self.gateway_ip,
            dns: self.dns,
            rx: frames(self.rx_queue@),
            tx: frames(self.tx_queue@),
        }
    }
}

/// The interface with one more frame queued for sending.
pub open spec fn with_sent(v: InterfaceView, frame: Seq<u8>) -> InterfaceView {
    InterfaceView { tx: v.tx.push(frame), ..v }
}

/// Whether `target` is on the interface's subnet (false until address and mask are set).
pub open spec fn is_local_spec(v: InterfaceView, target: [u8; 4]) -> bool {
    &&& v.ip_addr is Some
    &&& v.subnet_mask is Some
    &&& forall|i: int| 0 <= i < 4 ==> #[trigger] same_masked(v.ip_addr.unwrap(), v.subnet_mask.unwrap(), target, i)
}

/// Whether two addresses agree on byte `i` under a mask.
pub open spec fn same_masked(a: [u8; 4], mask: [u8; 4], b: [u8; 4], i: int) -> bool {
    (a[i] & mask[i]) == (b[i] & mask[i])
}

/// The frame that the interface sends: Ethernet header, payload, zero padding up to 60 bytes.
pub open spec fn padded_frame(dst: Seq<u8>, src: Seq<u8>, ether_type: Seq<u8>, payload: Seq<u8>) -> Seq<u8> {
    let f = dst + src + ether_type + payload;
    if f.len() < MIN_FRAME_LEN {
        f + Seq::new((MIN_FRAME_LEN - f.len()) as nat, |_i: int| 0u8)
    } else {
        f
    }
}

/// The broadcast hardware address.
pub open spec fn broadcast_mac() -> [u8; 6] {
    [0xFF, 0xFF, 0xFF, 0xFF, 0xFF, 0xFF]
}

/// The frame that `send_arp_to` queues.
pub open spec fn arp_frame(src_mac: [u8; 6], dest_mac: [u8; 6], p: ArpPacket) -> Seq<u8> {
    padded_frame(dest_mac@, src_mac@, seq![0x08u8, 0x06u8], arp_bytes(p))
}

/// The frame that `send_ipv4` queues.
pub open spec fn ipv4_frame(src_mac: [u8; 6], dest_mac: [u8; 6], h: ip_Header, payload: Seq<u8>) -> Seq<u8> {
    padded_frame(
        dest_mac@,
        src_mac@,
        seq![0x08u8, 0x00u8],
        header_bytes(with_checksum(h, header_checksum(h))) + payload,
    )
}

pub proof fn lemma_frames_push(q: Seq<Vec<u8>>, f: Vec<u8>)
    ensures
        frames(q.push(f)) == frames(q).push(f@),
{
    assert(frames(q.push(f)) =~= frames(q).push(f@));
}

impl Interface {
    /// An interface with no addresses and empty queues.
    pub fn new() -> (r: Self)
        ensures
            r.hw_addr is None,
            r.ip_addr is None,
            r.subnet_mask is None,
            r.gateway_ip is None,
            r.dns is None,
            r@.rx.len() == 0,
            r@.tx.len() == 0,
    {
        Interface {
            hw_addr: None,
            ip_addr: None,
            subnet_mask: None,
            gateway_ip: None,
            dns: None,
            rx_queue: VecDeque::new(),
            tx_queue: VecDeque::new(),
        }
    }

    /// Whether `target_ip` shares the interface's network prefix.
    pub fn is_local(&self, target_ip: [u8; 4]) -> (r: bool)
        ensures
            r == is_local_spec(self@, target_ip),
    {
        match (self.ip_addr, self.subnet_mask) {
            (Some(ip), Some(mask)) => {
                let mut i: usize = 0;
                while i < 4
                    invariant
                        i <= 4,
                        self.ip_addr == Some(ip),
                        self.subnet_mask == Some(mask),
                        forall|k: int| 0 <= k < i ==> #[trigger] same_masked(ip, mask, target_ip, k),
                    decreases 4 - i,
                {
                    if (ip[i] & mask[i]) != (target_ip[i] & mask[i]) {
                        assert(!same_masked(ip, mask, target_ip, i as int));
                        assert(self@.ip_addr.unwrap() == ip);
                        assert(self@.subnet_mask.unwrap() == mask);
                        assert(!is_local_spec(self@, target_ip));
                        return false;
                    }
                    i = i + 1;
                }
                true
            },
            _ => false,
        }
    }

    /// Stores the header checksum, then sends header and payload in an IPv4 frame.
    pub fn send_ipv4(&mut self, header: ip_Header, payload: &[u8], target_mac: [u8; 6])
        requires
            old(self).hw_addr is Some,
            payload@.len() <= MAX_IP_PAYLOAD,
        ensures
            final(self)@ == with_sent(old(self)@, ipv4_frame(old(self).hw_addr.unwrap(), target_mac, header, payload@)),
    {
        let mut header = header;
        header.calculate_checksum();
        let mut ip_payload: Vec<u8> = vec![0u8; 1480];
        let ip_size = header.serialize(payload, ip_payload.as_mut_slice());
        let packet = &ip_payload.as_slice()[0..ip_size];
        assert(packet@ =~= header_bytes(header) + payload@);
        self.send_ethernet(target_mac, [0x08, 0x00], packet);
    }

    /// Broadcasts an ARP packet.
    pub fn send_arp(&mut self, arp_packet: &ArpPacket)
        requires
            old(self).hw_addr is Some,
        ensures
            final(self)@ == with_sent(old(self)@, arp_frame(old(self).hw_addr.unwrap(), broadcast_mac(), *arp_packet)),
    {
        let broadcast = [0xFFu8; 6];
        assert(broadcast =~= broadcast_mac());
        self.send_arp_to(arp_packet, broadcast);
    }

    /// Sends an ARP packet to one hardware address.
    pub fn send_arp_to(&mut self, arp_packet: &ArpPacket, dest_mac: [u8; 6])
        requires
            old(self).hw_addr is Some,
        ensures
            final(self)@ == with_sent(old(self)@, arp_frame(old(self).hw_addr.unwrap(), dest_mac, *arp_packet)),
    {
        let arp_bytes = arp_packet.as_bytes();
        self.send_ethernet(dest_mac, [0x08, 0x06], arp_bytes.as_slice());
    }

    /// Queues an Ethernet frame from this interface, padded to the minimum frame size.
    fn send_ethernet(&mut self, dest_mac: [u8; 6], ether_type: [u8; 2], payload: &[u8])
        requires
            old(self).hw_addr is Some,
            payload@.len() <= MAX_FRAME_PAYLOAD,
        ensures
            final(self)@ == with_sent(
                old(self)@,
                padded_frame(dest_mac@, old(self).hw_addr.unwrap()@, ether_type@, payload@),
            ),
    {
        let src_mac = match self.hw_addr {
            Some(m) => m,
            None => [0u8; 6],
        };
        let mut frame: Vec<u8> = Vec::new();
        push_bytes(&mut frame, dest_mac.as_slice());
        push_bytes(&mut frame, src_mac.as_slice());
        push_bytes(&mut frame, ether_type.as_slice());
        push_bytes(&mut frame, payload);
        let total_size = 14 + payload.len();
        if total_size < MIN_FRAME_LEN {
            let pad = zeros(MIN_FRAME_LEN - total_size);
            push_bytes(&mut frame, pad.as_slice());
        }
        assert(frame@ =~= padded_frame(dest_mac@, src_mac@, ether_type@, payload@));
        let ghost q = self.tx_queue@;
        self.tx_queue.push_back(frame);
        proof {
            lemma_frames_push(q, frame);
        }
    }
}

} // verus!
