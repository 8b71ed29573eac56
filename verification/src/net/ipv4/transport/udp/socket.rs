//! UDP sockets: the table of bound ports, delivery of received datagrams, and sending.
use vstd::prelude::*;
use std::collections::{BTreeMap, VecDeque};
use crate::net::checksum::MAX_SUM_LEN;
use crate::net::state::{Network, NetView};
use crate::net::interface::MAX_IP_PAYLOAD;
use crate::net::ipv4::protocol::{send, ipv4_send_spec, can_send_to};
use crate::net::ipv4::transport::udp::packet::{
    UdpHeader, UdpPacketData, udp_header_bytes, udp_header_from, udp_serialized, udp_checksum, UDP_HEADER_LEN,
};
use crate::net::wire::{push_bytes, copy_range};

verus! {

broadcast use vstd::laws_cmp::group_laws_cmp;

pub const PROTOCOL: u8 = 17;

pub struct UdpSocket {
    pub local_port: u16,
    pub rx_queue: VecDeque<UdpPacketData>,
    pub max_queue_size: usize,
}

/// A queued datagram: source address, source port and payload.
pub open spec fn datagram_view(d: UdpPacketData) -> ([u8; 4], u16, Seq<u8>) {
    (d.src_ip, d.src_port, d.payload@)
}

/// A socket's port, queue of received datagrams and queue limit.
#[verifier::ext_equal]
pub struct UdpSocketView {
    pub local_port: u16,
    pub rx: Seq<([u8; 4], u16, Seq<u8>)>,
    pub max_queue_size: usize,
}

impl View for UdpSocket {
    type V = UdpSocketView;

    open spec fn view(&self) -> UdpSocketView {
        UdpSocketView {
            local_port: self.local_port,
            rx: self.rx_queue@.map_values(|d: UdpPacketData| datagram_view(d)),
            max_queue_size: self.max_queue_size,
        }
    }
}

/// The datagram that `send_to` sends.
pub open spec fn udp_datagram(src_ip: [u8; 4], local_port: u16, dst_ip: [u8; 4], dst_port: u16, data: Seq<u8>) -> Seq<u8> {
    udp_header_bytes(
        udp_serialized(UdpHeader { src_port: local_port, dst_port, length: 8, checksum: 0 }, src_ip, dst_ip, data),
    ) + data
}

impl UdpSocket {
    /// Binds a new socket to `port` in the table; a port already in use is refused.
    pub fn bind(manager: &mut UdpSocketManager, port: u16) -> (r: Result<(), &'static str>)
        requires
            old(manager).wf(),
        ensures
            final(manager).wf(),
            old(manager)@.contains_key(port) ==> (r matches Err(e) && e@ == "Port already in use"@) && final(manager)@ == old(manager)@,
            !old(manager)@.contains_key(port) ==> r is Ok && final(manager)@ == old(manager)@.insert(
                port,
                UdpSocketView { local_port: port, rx: Seq::empty(), max_queue_size: 128 },
            ),
    {
        if manager.contains(port) {
            return Err("Port already in use");
        }
        manager.insert_if_absent(UdpSocket::new(port));
        Ok(())
    }

    /// An empty socket on `port` holding at most 128 datagrams.
    fn new(port: u16) -> (r: Self)
        ensures
            r@ == (UdpSocketView { local_port: port, rx: Seq::empty(), max_queue_size: 128 }),
    {
        let r = Self { local_port: port, rx_queue: VecDeque::new(), max_queue_size: 128 };
        assert(r@ =~= (UdpSocketView { local_port: port, rx: Seq::empty(), max_queue_size: 128 }));
        r
    }

    /// Takes the oldest received datagram, if any.
    pub fn receive(&mut self) -> (r: Option<UdpPacketData>)
        ensures
            old(self)@.rx.len() == 0 ==> r is None && final(self)@ == old(self)@,
            old(self)@.rx.len() > 0 ==> {
                &&& r matches Some(d) && datagram_view(d) == old(self)@.rx[0]
                &&& final(self)@ == (UdpSocketView { rx: old(self)@.rx.skip(1), ..old(self)@ })
            },
    {
        if self.rx_queue.len() == 0 {
            return None;
        }
        let ghost q = self.rx_queue@;
        let r = self.rx_queue.pop_front();
        assert(self@ =~= (UdpSocketView { rx: old(self)@.rx.skip(1), ..old(self)@ }));
        r
    }

    /// Sends `data` from this socket's port to `dst_ip:dst_port`.
    pub fn send_to(&mut self, net: &mut Network, dst_ip: [u8; 4], dst_port: u16, data: &[u8])
        requires
            old(net).wf(),
            can_send_to(old(net)@, dst_ip),
            UDP_HEADER_LEN + data@.len() <= MAX_IP_PAYLOAD,
        ensures
            final(net).wf(),
            final(self)@ == old(self)@,
            final(net)@ == ipv4_send_spec(
                old(net)@,
                dst_ip,
                PROTOCOL,
                udp_datagram(old(net)@.iface.ip_addr.unwrap(), old(self).local_port, dst_ip, dst_port, data@),
            ),
    {
        let src_ip = match net.interface.ip_addr {
            Some(ip) => ip,
            None => [0u8; 4],
        };
        let mut packet_header = UdpHeader::new(self.local_port, dst_port);
        let serialized_header = packet_header.serialize(&src_ip, &dst_ip, data);
        let mut udp_datagram: Vec<u8> = Vec::new();
        push_bytes(&mut udp_datagram, serialized_header.as_slice());
        push_bytes(&mut udp_datagram, data);
        send(net, dst_ip, PROTOCOL, udp_datagram.as_slice());
    }
}

/// A new socket for `port`, not yet bound in any table.
pub fn create_socket(port: u16) -> (r: UdpSocket)
    ensures
        r@ == (UdpSocketView { local_port: port, rx: Seq::empty(), max_queue_size: 128 }),
{
    UdpSocket::new(port)
}

/// The table of bound UDP sockets, by port.
pub struct UdpSocketManager {
    sockets: BTreeMap<u16, UdpSocket>,
}

impl View for UdpSocketManager {
    type V = Map<u16, UdpSocketView>;

    closed spec fn view(&self) -> Map<u16, UdpSocketView> {
        self.sockets@.map_values(|s: UdpSocket| s@)
    }
}

impl UdpSocketManager {
    /// Each socket is stored under its own port.
    pub closed spec fn wf(&self) -> bool {
        forall|p: u16| #[trigger] self.sockets@.contains_key(p) ==> self.sockets@[p].local_port == p
    }

    /// An empty table.
    pub fn new() -> (r: Self)
        ensures
            r.wf(),
            r@ == Map::<u16, UdpSocketView>::empty(),
    {
        let r = UdpSocketManager { sockets: BTreeMap::new() };
        assert(r@ =~= Map::<u16, UdpSocketView>::empty());
        r
    }

    /// Whether a socket is bound to `port`.
    pub fn contains(&self, port: u16) -> (r: bool)
        ensures
            r == self@.contains_key(port),
    {
        self.sockets.contains_key(&port)
    }

    /// Binds `socket` to its port; a socket already bound there stays.
    pub fn insert_if_absent(&mut self, socket: UdpSocket)
        requires
            old(self).wf(),
        ensures
            final(self).wf(),
            old(self)@.contains_key(socket@.local_port) ==> final(self)@ == old(self)@,
            !old(self)@.contains_key(socket@.local_port) ==> final(self)@ == old(self)@.insert(socket@.local_port, socket@),
    {
        let port = socket.local_port;
        if !self.sockets.contains_key(&port) {
            let ghost s = self.sockets@;
            self.sockets.insert(port, socket);
            assert(self@ =~= old(self)@.insert(port, socket@));
        }
    }

    /// Takes the oldest datagram received on `port`, if a socket is bound there.
    pub fn receive(&mut self, port: u16) -> (r: Option<UdpPacketData>)
        requires
            old(self).wf(),
        ensures
            final(self).wf(),
            !old(self)@.contains_key(port) ==> r is None && final(self)@ == old(self)@,
            old(self)@.contains_key(port) ==> {
                let m = old(self)@[port];
                &&& m.rx.len() == 0 ==> r is None && final(self)@ == old(self)@
                &&& m.rx.len() > 0 ==> {
                    &&& r matches Some(d) && datagram_view(d) == m.rx[0]
                    &&& final(self)@ == old(self)@.insert(port, UdpSocketView { rx: m.rx.skip(1), ..m })
                }
            },
    {
        match self.sockets.remove(&port) {
            None => None,
            Some(mut socket) => {
                let ghost m = socket@;
                let r = socket.receive();
                self.sockets.insert(port, socket);
                proof {
                    if m.rx.len() == 0 {
                        assert(self@ =~= old(self)@);
                    } else {
                        assert(self@ =~= old(self)@.insert(port, UdpSocketView { rx: m.rx.skip(1), ..m }));
                    }
                }
                r
            },
        }
    }
}

/// The payload that `handle_udp_packet` takes: what the length field declares, within the
/// bytes received.
pub open spec fn udp_payload(raw: Seq<u8>) -> Seq<u8> {
    let h = udp_header_from(raw);
    let declared: int = if h.length >= 8 { h.length - 8 } else { 0 };
    let n = if declared < raw.len() - 8 { declared } else { raw.len() - 8 };
    raw.subrange(8, 8 + n)
}

/// The socket table after `handle_udp_packet`.
pub open spec fn handle_udp_spec(s: Map<u16, UdpSocketView>, src_ip: [u8; 4], dst_ip: [u8; 4], raw: Seq<u8>) -> Map<u16, UdpSocketView> {
    if raw.len() < 8 {
        s
    } else {
        let h = udp_header_from(raw);
        let payload = udp_payload(raw);
        if h.checksum != 0 && h.checksum != udp_checksum(h, src_ip, dst_ip, payload) {
            s
        } else {
            if !s.contains_key(h.dst_port) {
                s
            } else {
                let m = s[h.dst_port];
                if m.rx.len() < m.max_queue_size {
                    s.insert(h.dst_port, UdpSocketView { rx: m.rx.push((src_ip, h.src_port, payload)), ..m })
                } else {
                    s
                }
            }
        }
    }
}

/// Delivers a received datagram to the socket bound to its destination port: short
/// datagrams, bad checksums (a zero checksum is not checked), unbound ports and full
/// queues drop it.
pub fn handle_udp_packet(manager: &mut UdpSocketManager, src_ip: &[u8; 4], dst_ip: &[u8; 4], raw_packet: &[u8])
    requires
        old(manager).wf(),
        raw_packet@.len() <= MAX_SUM_LEN,
    ensures
        final(manager).wf(),
        final(manager)@ == handle_udp_spec(old(manager)@, *src_ip, *dst_ip, raw_packet@),
{
    if raw_packet.len() < UDP_HEADER_LEN {
        return;
    }
    let header = UdpHeader::from_bytes(raw_packet);
    let declared = (header.length as usize).saturating_sub(8);
    let available = raw_packet.len() - 8;
    let payload_len = if declared < available { declared } else { available };
    let payload = &raw_packet[8..8 + payload_len];
    let checksum = header.checksum;
    let dst_port = header.dst_port;
    if checksum != 0 && checksum != header.calculate_checksum(src_ip, dst_ip, payload) {
        return;
    }
    let src_port = header.src_port;
    let packet_data = UdpPacketData::new(*src_ip, src_port, copy_range(raw_packet, 8, 8 + payload_len));
    if let Some(mut socket) = manager.sockets.remove(&dst_port) {
        let ghost m = socket@;
        if socket.rx_queue.len() < socket.max_queue_size {
            let ghost q = socket.rx_queue@;
            socket.rx_queue.push_back(packet_data);
            assert(socket@.rx =~= q.map_values(|d: UdpPacketData| datagram_view(d)).push((*src_ip, src_port, payload@)));
        }
        manager.sockets.insert(dst_port, socket);
        assert(manager@ =~= handle_udp_spec(old(manager)@, *src_ip, *dst_ip, raw_packet@));
    } else {
        assert(manager@ =~= old(manager)@);
    }
}

/// A datagram built by `send_to`, received with the same addresses, reaches the socket bound
/// to its destination port with the sent payload (if that socket's queue has room).
pub proof fn lemma_sent_datagram_delivered(
    s: Map<u16, UdpSocketView>,
    src_ip: [u8; 4],
    local_port: u16,
    dst_ip: [u8; 4],
    dst_port: u16,
    data: Seq<u8>,
)
    requires
        8 + data.len() <= 0xFFFF,
    ensures
        ({
            let raw = udp_datagram(src_ip, local_port, dst_ip, dst_port, data);
            let r = handle_udp_spec(s, src_ip, dst_ip, raw);
            &&& s.contains_key(dst_port) && s[dst_port].rx.len() < s[dst_port].max_queue_size ==> r[dst_port].rx
                == s[dst_port].rx.push((src_ip, local_port, data))
            &&& !s.contains_key(dst_port) ==> r == s
        }),
{
    let h = udp_serialized(UdpHeader { src_port: local_port, dst_port, length: 8, checksum: 0 }, src_ip, dst_ip, data);
    let raw = udp_header_bytes(h) + data;
    crate::net::ipv4::transport::udp::packet::lemma_udp_header_roundtrip(h);
    assert(raw.subrange(0, 8) =~= udp_header_bytes(h));
    assert(udp_header_from(raw) == udp_header_from(udp_header_bytes(h)));
    assert(udp_payload(raw) =~= data);
}

} // verus!
