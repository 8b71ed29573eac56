//! Hands each received frame to its protocol: ARP to the ARP table, IPv4 (after its header
//! checks) to ICMP or UDP.
use vstd::prelude::*;
use crate::net::state::{Network, NetView};
use crate::net::ethernet;
use crate::net::wire::be16;
use crate::net::interface::MAX_IP_PAYLOAD;
use crate::net::arp::arp::{ArpPacket, arp_decode, ARP_PACKET_LEN};
use crate::net::arp::protocol::{handle_packet, handle_spec};
use crate::net::ipv4::ipv4_struct::{ip_Header, header_from};
use crate::net::ipv4::protocol::can_send_to;
use crate::net::ipv4::transport::icmp::icmp::{handle_icmp_packet, handle_icmp_spec, is_echo_request};
use crate::net::ipv4::transport::udp::socket::{UdpSocketManager, UdpSocketView, handle_udp_packet, handle_udp_spec};

verus! {

pub const ETHERTYPE_ARP: u16 = 0x0806;
pub const ETHERTYPE_IPV4: u16 = 0x0800;

/// The header and payload of an IPv4 packet that passes the checks: at least 20 bytes, a
/// header length (IHL) of at least 20 bytes within the packet, a total length between the
/// header length and the packet's length, and not a fragment. The payload runs from the end
/// of the header to the total length.
pub open spec fn ipv4_packet(p: Seq<u8>) -> Option<(ip_Header, Seq<u8>)> {
    if p.len() < 20 {
        None
    } else {
        let h = header_from(p);
        let hl = (p[0] % 16) as int * 4;
        let total = be16(p[2], p[3]) as int;
        let ff = be16(p[6], p[7]);
        if hl < 20 || p.len() < hl || total < hl || p.len() < total {
            None
        } else if (ff & 0x2000) != 0 || (ff & 0x1FFF) != 0 {
            None
        } else {
            Some((h, p.subrange(hl, total)))
        }
    }
}

/// What handling a frame does: the network, the UDP sockets and the last echo reply after
/// it, and the address whose echo request was answered, if one was.
pub open spec fn dispatch_spec(
    n: NetView,
    u: Map<u16, UdpSocketView>,
    ping: Option<([u8; 4], u16)>,
    f: Seq<u8>,
) -> (NetView, Map<u16, UdpSocketView>, Option<([u8; 4], u16)>, Option<[u8; 4]>) {
    if f.len() < 14 {
        (n, u, ping, None)
    } else {
        let et = be16(f[12], f[13]);
        let payload = f.skip(14);
        if et == ETHERTYPE_ARP {
            if payload.len() < ARP_PACKET_LEN {
                (n, u, ping, None)
            } else {
                let (t, i) = handle_spec(n.arp, n.iface, arp_decode(payload));
                (NetView { iface: i, arp: t, ..n }, u, ping, None)
            }
        } else if et == ETHERTYPE_IPV4 {
            match ipv4_packet(payload) {
                None => (n, u, ping, None),
                Some((h, pl)) => if h.protocol == 1 {
                    let (n2, ping2, answered) = handle_icmp_spec(n, ping, h.src_ip, pl);
                    (n2, u, ping2, if answered { Some(h.src_ip) } else { None })
                } else if h.protocol == 17 {
                    (n, handle_udp_spec(u, h.src_ip, h.dst_ip, pl), ping, None)
                } else {
                    (n, u, ping, None)
                },
            }
        } else {
            (n, u, ping, None)
        }
    }
}

/// Handling the frame needs no address the interface lacks: an echo request in it can be
/// answered (the interface has its addresses and a route to the sender) and fits in one
/// packet.
pub open spec fn dispatch_safe(n: NetView, f: Seq<u8>) -> bool {
    f.len() >= 14 && be16(f[12], f[13]) == ETHERTYPE_IPV4 ==> match ipv4_packet(f.skip(14)) {
        Some((h, pl)) => h.protocol == 1 && is_echo_request(pl) ==> can_send_to(n, h.src_ip) && pl.len() <= MAX_IP_PAYLOAD,
        None => true,
    }
}

/// The header and payload of an IPv4 packet that passes the checks.
fn check_ipv4(p: &[u8]) -> (r: Option<(ip_Header, &[u8])>)
    ensures
        match ipv4_packet(p@) {
            Some((h, pl)) => r matches Some(x) && x.0 == h && x.1@ == pl,
            None => r is None,
        },
{
    if p.len() < 20 {
        return None;
    }
    let h = ip_Header::from_bytes(p);
    let hl = (h.ihl() as usize) * 4;
    assert(h.version_ihl == p@[0]);
    let total = (p[2] as usize) * 256 + p[3] as usize;
    assert(total == be16(p@[2], p@[3]));
    if hl < 20 || p.len() < hl || total < hl || p.len() < total {
        return None;
    }
    let ff: u16 = (p[6] as u16) * 256 + p[7] as u16;
    assert(ff == be16(p@[6], p@[7]));
    if (ff & 0x2000) != 0 || (ff & 0x1FFF) != 0 {
        return None;
    }
    Some((h, &p[hl..total]))
}

/// Whether handling the frame needs no address the interface lacks.
pub fn frame_safe(net: &Network, frame: &[u8]) -> (r: bool)
    ensures
        r == dispatch_safe(net@, frame@),
{
    if frame.len() < 14 {
        return true;
    }
    let et: u16 = (frame[12] as u16) * 256 + frame[13] as u16;
    assert(et == be16(frame@[12], frame@[13]));
    if et != ETHERTYPE_IPV4 {
        return true;
    }
    let payload = &frame[14..frame.len()];
    match check_ipv4(payload) {
        None => true,
        Some((h, pl)) => {
            if h.protocol != 1 || pl.len() < 8 || pl[0] != 8 {
                return true;
            }
            if pl.len() > MAX_IP_PAYLOAD {
                return false;
            }
            net.can_send_to(h.src_ip)
        },
    }
}

/// Handles one received frame (see `dispatch_spec`): returns the sender whose echo request
/// was answered, if one was.
pub fn dispatch_frame(
    net: &mut Network,
    udp: &mut UdpSocketManager,
    ping_reply: &mut Option<([u8; 4], u16)>,
    frame: &[u8],
) -> (r: Option<[u8; 4]>)
    requires
        old(net).wf(),
        old(udp).wf(),
        dispatch_safe(old(net)@, frame@),
    ensures
        final(net).wf(),
        final(udp).wf(),
        (final(net)@, final(udp)@, *final(ping_reply), r) == dispatch_spec(old(net)@, old(udp)@, *old(ping_reply), frame@),
{
    let decoded = match ethernet::parse(frame) {
        Some(d) => d,
        None => return None,
    };
    if decoded.ether_type == ETHERTYPE_ARP {
        if let Some(arp_packet) = ArpPacket::from_bytes(decoded.payload) {
            handle_packet(&mut net.arp_table, &mut net.interface, arp_packet);
        }
        None
    } else if decoded.ether_type == ETHERTYPE_IPV4 {
        match check_ipv4(decoded.payload) {
            None => None,
            Some((h, payload)) => {
                if h.protocol == 1 {
                    if handle_icmp_packet(net, ping_reply, h.src_ip, payload) {
                        Some(h.src_ip)
                    } else {
                        None
                    }
                } else if h.protocol == 17 {
                    handle_udp_packet(udp, &h.src_ip, &h.dst_ip, payload);
                    None
                } else {
                    None
                }
            },
        }
    } else {
        None
    }
}

/// Takes the next received frame and handles it: `None` when no frame is waiting, else what
/// `dispatch_frame` returned.
pub fn poll_one(
    net: &mut Network,
    udp: &mut UdpSocketManager,
    ping_reply: &mut Option<([u8; 4], u16)>,
) -> (r: Option<Option<[u8; 4]>>)
    requires
        old(net).wf(),
        old(udp).wf(),
        old(net)@.iface.rx.len() > 0 ==> dispatch_safe(old(net)@, old(net)@.iface.rx[0]),
    ensures
        final(net).wf(),
        final(udp).wf(),
        old(net)@.iface.rx.len() == 0 ==> r is None && final(net)@ == old(net)@ && final(udp)@ == old(udp)@
            && *final(ping_reply) == *old(ping_reply),
        old(net)@.iface.rx.len() > 0 ==> {
            let n1 = NetView { iface: crate::net::interface::InterfaceView { rx: old(net)@.iface.rx.drop_first(), ..old(net)@.iface }, ..old(net)@ };
            let (n2, u2, p2, a) = dispatch_spec(n1, old(udp)@, *old(ping_reply), old(net)@.iface.rx[0]);
            &&& r == Some(a)
            &&& final(net)@ == n2
            &&& final(udp)@ == u2
            &&& *final(ping_reply) == p2
        },
{
    let ghost n0 = net@;
    let frame = match net.interface.rx_queue.pop_front() {
        Some(f) => f,
        None => return None,
    };
    proof {
        assert(net@.iface.rx =~= n0.iface.rx.drop_first());
        assert(net@ == NetView { iface: crate::net::interface::InterfaceView { rx: n0.iface.rx.drop_first(), ..n0.iface }, ..n0 });
        assert(frame@ == n0.iface.rx[0]);
    }
    Some(dispatch_frame(net, udp, ping_reply, frame.as_slice()))
}

} // verus!
