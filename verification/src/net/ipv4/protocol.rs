//! Sending IPv4 packets: header construction, next-hop choice and hardware address resolution.
use vstd::prelude::*;
use crate::net::state::{Network, NetView};
use crate::net::interface::{is_local_spec, with_sent, ipv4_frame, MAX_IP_PAYLOAD};
use crate::net::arp::protocol::{resolve_mac, resolve_spec};
use crate::net::ipv4::ipv4_struct::{ip_Header, with_checksum, header_checksum};
use crate::net::wire::{swap16, swap_u16};

verus! {

/// The header that `send` builds, checksum included.
pub open spec fn send_header(id: u16, src_ip: [u8; 4], dst_ip: [u8; 4], protocol: u8, payload_len: nat) -> ip_Header {
    let h = ip_Header {
        version_ihl: 0x45,
        tos: 0,
        total_length: swap16((20 + payload_len) as u16),
        id: swap16(id),
        flags_fragment: 0,
        ttl: 64,
        protocol,
        checksum: 0,
        src_ip,
        dst_ip,
    };
    with_checksum(h, header_checksum(h))
}

/// Whether the interface is configured to send to `dst_ip`: it has addresses, and a gateway
/// when `dst_ip` is not on its subnet.
pub open spec fn can_send_to(n: NetView, dst_ip: [u8; 4]) -> bool {
    &&& n.iface.ip_addr is Some
    &&& n.iface.hw_addr is Some
    &&& (is_local_spec(n.iface, dst_ip) || n.iface.gateway_ip is Some)
}

impl Network {
    /// Whether the interface is configured to send to `dst_ip`.
    pub fn can_send_to(&self, dst_ip: [u8; 4]) -> (r: bool)
        ensures
            r == can_send_to(self@, dst_ip),
    {
        self.interface.ip_addr.is_some() && self.interface.hw_addr.is_some() && (self.interface.is_local(dst_ip)
            || self.interface.gateway_ip.is_some())
    }
}

/// The next hop for `dst_ip`: itself on the local subnet, the gateway otherwise.
pub open spec fn next_hop(n: NetView, dst_ip: [u8; 4]) -> [u8; 4] {
    if is_local_spec(n.iface, dst_ip) {
        dst_ip
    } else {
        n.iface.gateway_ip.unwrap()
    }
}

/// The network after `send`: the identification advances; if the next hop's hardware address
/// is known the packet is queued in a frame to it, otherwise the ARP exchange starts (or is
/// already pending) and the packet is dropped.
pub open spec fn ipv4_send_spec(n: NetView, dst_ip: [u8; 4], protocol: u8, payload: Seq<u8>) -> NetView {
    let src_ip = n.iface.ip_addr.unwrap();
    let src_mac = n.iface.hw_addr.unwrap();
    let h = send_header(n.ip_id, src_ip, dst_ip, protocol, payload.len());
    let (mac, arp, iface) = resolve_spec(n.arp, n.iface, next_hop(n, dst_ip), src_ip, src_mac);
    NetView {
        iface: match mac {
            Some(m) => with_sent(iface, ipv4_frame(src_mac, m, h, payload)),
            None => iface,
        },
        arp,
        ip_id: n.ip_id.wrapping_add(1),
    }
}

/// Sends `payload` to `dst_ip` with the given protocol number.
pub fn send(net: &mut Network, dst_ip: [u8; 4], protocol: u8, payload: &[u8])
    requires
        old(net).wf(),
        can_send_to(old(net)@, dst_ip),
        payload@.len() <= MAX_IP_PAYLOAD,
    ensures
        final(net).wf(),
        final(net)@ == ipv4_send_spec(old(net)@, dst_ip, protocol, payload@),
{
    let id = net.ip_packet_id;
    net.ip_packet_id = id.wrapping_add(1);
    let src_ip = match net.interface.ip_addr {
        Some(ip) => ip,
        None => [0u8; 4],
    };
    let src_mac = match net.interface.hw_addr {
        Some(m) => m,
        None => [0u8; 6],
    };
    let target = if net.interface.is_local(dst_ip) {
        dst_ip
    } else {
        match net.interface.gateway_ip {
            Some(g) => g,
            None => dst_ip,
        }
    };
    let mut header = ip_Header {
        version_ihl: 0x45,
        tos: 0,
        total_length: swap_u16((20 + payload.len()) as u16),
        id: swap_u16(id),
        flags_fragment: 0,
        ttl: 64,
        protocol,
        checksum: 0,
        src_ip,
        dst_ip,
    };
    header.calculate_checksum();
    assert(header == send_header(id, src_ip, dst_ip, protocol, payload@.len()));
    assert(target == next_hop(old(net)@, dst_ip));
    if let Some(mac) = resolve_mac(&mut net.arp_table, &mut net.interface, &target, src_ip, src_mac) {
        net.interface.send_ipv4(header, payload, mac);
    }
}

} // verus!
