//! The client side of the DHCP exchange (DISCOVER, OFFER, REQUEST, ACK): building and sending
//! the requests, recognising the server's answers, and applying the assigned configuration.
//! Waiting for answers and retrying after timeouts is left to the caller.
use vstd::prelude::*;
use crate::net::state::{Network, NetView};
use crate::net::interface::InterfaceView;
use crate::net::ipv4::protocol::{ipv4_send_spec, can_send_to};
use crate::net::ipv4::transport::udp::socket::{UdpSocketManager, UdpSocketView, create_socket, udp_datagram, PROTOCOL};
use crate::net::ipv4::transport::udp::dhcp::packet::{
    DhcpPacket, decoded_from, option_data, received_options, dhcp_bytes, is_base_header, discover_options,
    request_options, FIXED_LEN,
};
use crate::net::ipv4::transport::udp::dhcp::packet::constants::{
    DHCPACK, DHCPOFFER, OPT_MESSAGE_TYPE, OPT_SERVER_IDENTIFIER, DHCP_CLIENT_PORT, DHCP_SERVER_PORT, DHCP_MAGIC_COOKIE,
};
use crate::net::wire::{swap16, swap32, swap_u32, be32};

verus! {

/// The limited broadcast address.
pub open spec fn broadcast_ip() -> [u8; 4] {
    [255u8, 255u8, 255u8, 255u8]
}

/// Binds the DHCP client socket (port 68) unless it is bound already.
pub fn create(manager: &mut UdpSocketManager)
    requires
        old(manager).wf(),
    ensures
        final(manager).wf(),
        old(manager)@.contains_key(68) ==> final(manager)@ == old(manager)@,
        !old(manager)@.contains_key(68) ==> final(manager)@ == old(manager)@.insert(
            68,
            UdpSocketView { local_port: 68, rx: Seq::empty(), max_queue_size: 128 },
        ),
{
    if !manager.contains(DHCP_CLIENT_PORT) {
        manager.insert_if_absent(create_socket(DHCP_CLIENT_PORT));
    }
}

/// The bytes of a message, as the client sends them.
pub open spec fn dhcp_send_spec(n: NetView, payload: Seq<u8>) -> NetView {
    ipv4_send_spec(
        n,
        broadcast_ip(),
        PROTOCOL,
        udp_datagram(n.iface.ip_addr.unwrap(), DHCP_CLIENT_PORT, broadcast_ip(), DHCP_SERVER_PORT, payload),
    )
}

/// Broadcasts `packet` from port 68 to port 67.
fn broadcast_packet(net: &mut Network, packet: &DhcpPacket)
    requires
        old(net).wf(),
        can_send_to(old(net)@, broadcast_ip()),
    ensures
        final(net).wf(),
        final(net)@ == dhcp_send_spec(old(net)@, dhcp_bytes(*packet)),
{
    let data = packet.as_bytes();
    let mut socket = create_socket(DHCP_CLIENT_PORT);
    let broadcast = [255u8, 255, 255, 255];
    assert(broadcast =~= broadcast_ip());
    socket.send_to(net, broadcast, DHCP_SERVER_PORT, data.as_slice());
}

/// Broadcasts a DISCOVER for transaction `xid`.
pub fn discover(net: &mut Network, xid: u32)
    requires
        old(net).wf(),
        old(net).interface.hw_addr is Some,
        can_send_to(old(net)@, broadcast_ip()),
    ensures
        final(net).wf(),
        exists|p: DhcpPacket|
            is_base_header(p.header, xid, old(net).interface.hw_addr.unwrap()) && p.magic_cookie@ == DHCP_MAGIC_COOKIE@
                && p.options@ == discover_options() && final(net)@ == dhcp_send_spec(old(net)@, dhcp_bytes(p)),
{
    let hw = match net.interface.hw_addr {
        Some(m) => m,
        None => [0u8; 6],
    };
    let packet = DhcpPacket::new_discover(xid, hw);
    broadcast_packet(net, &packet);
}

/// Broadcasts a REQUEST for transaction `xid`, asking `server_ip` for `requested_ip`.
pub fn request(net: &mut Network, xid: u32, requested_ip: &[u8; 4], server_ip: &[u8; 4])
    requires
        old(net).wf(),
        old(net).interface.hw_addr is Some,
        can_send_to(old(net)@, broadcast_ip()),
    ensures
        final(net).wf(),
        exists|p: DhcpPacket|
            is_base_header(p.header, xid, old(net).interface.hw_addr.unwrap()) && p.magic_cookie@ == DHCP_MAGIC_COOKIE@
                && p.options@ == request_options(*requested_ip, *server_ip) && final(net)@ == dhcp_send_spec(
                old(net)@,
                dhcp_bytes(p),
            ),
{
    let hw = match net.interface.hw_addr {
        Some(m) => m,
        None => [0u8; 6],
    };
    let packet = DhcpPacket::new_request(xid, requested_ip, server_ip, hw);
    broadcast_packet(net, &packet);
}

/// Whether a received payload is a DHCP message of transaction `xid` (cookie present, same
/// transaction identifier), with its options area.
pub open spec fn answer_options(payload: Seq<u8>, xid: u32) -> Option<Seq<u8>> {
    if payload.len() < FIXED_LEN || payload.subrange(236, 240) != DHCP_MAGIC_COOKIE@ {
        None
    } else if be32(payload[7], payload[6], payload[5], payload[4]) != swap32(xid) {
        None
    } else {
        Some(received_options(payload))
    }
}

/// Whether reading the message type of an answer fails (the option is empty).
pub open spec fn bad_message_type(opts: Seq<u8>) -> bool {
    option_data(opts, OPT_MESSAGE_TYPE) matches Some(d) && d.len() == 0
}

/// Whether option `tag` is present but too short to hold an address.
pub open spec fn short_address(opts: Seq<u8>, tag: u8) -> bool {
    option_data(opts, tag) matches Some(d) && d.len() < 4
}

/// Whether an answer is a message of type `t`.
pub open spec fn has_type(opts: Seq<u8>, t: u8) -> bool {
    option_data(opts, OPT_MESSAGE_TYPE) matches Some(d) && d.len() > 0 && d[0] == t
}

/// Whether examining `payload` as an offer faults: an empty message type, or an offer with a
/// server identifier shorter than an address.
pub open spec fn offer_faults(payload: Seq<u8>, xid: u32) -> bool {
    answer_options(payload, xid) matches Some(opts) && (bad_message_type(opts) || (has_type(opts, DHCPOFFER)
        && short_address(opts, OPT_SERVER_IDENTIFIER)))
}

/// The first four bytes of an option as an address.
pub open spec fn addr_of(d: Seq<u8>) -> [u8; 4] {
    [d[0], d[1], d[2], d[3]]
}

/// The offered address and the server's identifier, if `payload` is an offer for `xid`.
pub open spec fn offer_spec(payload: Seq<u8>, xid: u32) -> Option<([u8; 4], [u8; 4])> {
    match answer_options(payload, xid) {
        Some(opts) => if has_type(opts, DHCPOFFER) && option_data(opts, OPT_SERVER_IDENTIFIER) is Some {
            Some(
                (
                    [payload[16], payload[17], payload[18], payload[19]],
                    addr_of(option_data(opts, OPT_SERVER_IDENTIFIER).unwrap()),
                ),
            )
        } else {
            None
        },
        None => None,
    }
}

/// Whether examining `payload` as an acknowledgement faults: an empty message type, or an ACK
/// whose subnet mask, router or DNS server option is shorter than an address.
pub open spec fn ack_faults(payload: Seq<u8>, xid: u32) -> bool {
    answer_options(payload, xid) matches Some(opts) && (bad_message_type(opts) || (has_type(opts, DHCPACK) && (
    short_address(opts, 1) || short_address(opts, 3) || short_address(opts, 6))))
}

/// Option `tag` as an address, or `default` when absent.
pub open spec fn addr_or(opts: Seq<u8>, tag: u8, default: [u8; 4]) -> [u8; 4] {
    match option_data(opts, tag) {
        Some(d) => addr_of(d),
        None => default,
    }
}

/// The assigned address, subnet mask (default 255.255.255.0), gateway (default 0.0.0.0) and
/// DNS server (default 8.8.8.8), if `payload` is an ACK for `xid`.
pub open spec fn ack_spec(payload: Seq<u8>, xid: u32) -> Option<([u8; 4], [u8; 4], [u8; 4], [u8; 4])> {
    match answer_options(payload, xid) {
        Some(opts) => if has_type(opts, DHCPACK) {
            Some(
                (
                    [payload[16], payload[17], payload[18], payload[19]],
                    addr_or(opts, 1, [255u8, 255u8, 255u8, 0u8]),
                    addr_or(opts, 3, [0u8, 0u8, 0u8, 0u8]),
                    addr_or(opts, 6, [8u8, 8u8, 8u8, 8u8]),
                ),
            )
        } else {
            None
        },
        None => None,
    }
}

/// What an acknowledgement configures: for an ACK of transaction `xid`, the assigned address
/// is the message's `yiaddr` field; the subnet mask, router and DNS server are the first four
/// bytes of options 1, 3 and 6 when the server sent them, and 255.255.255.0, 0.0.0.0 and
/// 8.8.8.8 when it did not. Any other message of the transaction configures nothing.
pub proof fn lemma_ack_configuration(payload: Seq<u8>, xid: u32)
    requires
        answer_options(payload, xid) is Some,
    ensures
        ({
            let opts = answer_options(payload, xid).unwrap();
            let r = ack_spec(payload, xid);
            &&& !has_type(opts, DHCPACK) ==> r is None
            &&& has_type(opts, DHCPACK) ==> {
                &&& r is Some
                &&& r.unwrap().0 == [payload[16], payload[17], payload[18], payload[19]]
                &&& (option_data(opts, 1) matches Some(d) ==> r.unwrap().1 == [d[0], d[1], d[2], d[3]])
                &&& (option_data(opts, 1) is None ==> r.unwrap().1 == [255u8, 255u8, 255u8, 0u8])
                &&& (option_data(opts, 3) matches Some(d) ==> r.unwrap().2 == [d[0], d[1], d[2], d[3]])
                &&& (option_data(opts, 3) is None ==> r.unwrap().2 == [0u8, 0u8, 0u8, 0u8])
                &&& (option_data(opts, 6) matches Some(d) ==> r.unwrap().3 == [d[0], d[1], d[2], d[3]])
                &&& (option_data(opts, 6) is None ==> r.unwrap().3 == [8u8, 8u8, 8u8, 8u8])
            }
        }),
{
}

/// What an offer gives: for an OFFER of transaction `xid` that names its server, the offered
/// address is the message's `yiaddr` field and the server is the first four bytes of the
/// server identifier option; anything else gives nothing.
pub proof fn lemma_offer_contents(payload: Seq<u8>, xid: u32)
    requires
        answer_options(payload, xid) is Some,
    ensures
        ({
            let opts = answer_options(payload, xid).unwrap();
            let r = offer_spec(payload, xid);
            &&& has_type(opts, DHCPOFFER) ==> (option_data(opts, OPT_SERVER_IDENTIFIER) matches Some(d) ==> r == Some(
                ([payload[16], payload[17], payload[18], payload[19]], [d[0], d[1], d[2], d[3]]),
            ))
            &&& !(has_type(opts, DHCPOFFER) && option_data(opts, OPT_SERVER_IDENTIFIER) is Some) ==> r is None
        }),
{
}

/// Decodes `payload` as an answer to transaction `xid`.
fn decode_answer(payload: &[u8], expected_xid: u32) -> (r: Option<DhcpPacket>)
    ensures
        match answer_options(payload@, expected_xid) {
            Some(opts) => r matches Some(p) && decoded_from(p, payload@) && p.options@ == opts,
            None => r is None,
        },
{
    match DhcpPacket::from_bytes(payload) {
        Some(p) => {
            if p.header.xid == swap_u32(expected_xid) {
                Some(p)
            } else {
                None
            }
        },
        None => None,
    }
}

/// Whether examining `payload` as an offer would fault (see `offer_faults`).
pub fn check_offer_faults(payload: &[u8], expected_xid: u32) -> (r: bool)
    ensures
        r == offer_faults(payload@, expected_xid),
{
    match decode_answer(payload, expected_xid) {
        None => false,
        Some(p) => match p.get_option(OPT_MESSAGE_TYPE) {
            None => false,
            Some(t) => {
                if t.len() == 0 {
                    return true;
                }
                if t[0] != DHCPOFFER {
                    return false;
                }
                match p.get_option(OPT_SERVER_IDENTIFIER) {
                    Some(s) => s.len() < 4,
                    None => false,
                }
            },
        },
    }
}

/// The offer in `payload` for transaction `xid`: offered address and server identifier.
pub fn parse_offer(payload: &[u8], expected_xid: u32) -> (r: Option<([u8; 4], [u8; 4])>)
    requires
        !offer_faults(payload@, expected_xid),
    ensures
        r == offer_spec(payload@, expected_xid),
{
    let dhcp = match decode_answer(payload, expected_xid) {
        Some(p) => p,
        None => return None,
    };
    let msg_type = match dhcp.get_option(OPT_MESSAGE_TYPE) {
        Some(t) => t,
        None => return None,
    };
    if msg_type[0] != DHCPOFFER {
        return None;
    }
    let offered_ip = dhcp.header.yiaddr;
    match dhcp.get_option(OPT_SERVER_IDENTIFIER) {
        Some(server_id_bytes) => {
            let server_ip = [server_id_bytes[0], server_id_bytes[1], server_id_bytes[2], server_id_bytes[3]];
            assert(offered_ip =~= [payload@[16], payload@[17], payload@[18], payload@[19]]);
            Some((offered_ip, server_ip))
        },
        None => None,
    }
}

/// Option `tag` as an address, or `default` when absent.
fn option_addr_or(p: &DhcpPacket, tag: u8, default: [u8; 4]) -> (r: [u8; 4])
    requires
        !short_address(p.options@, tag),
    ensures
        r == addr_or(p.options@, tag, default),
{
    match p.get_option(tag) {
        Some(b) => [b[0], b[1], b[2], b[3]],
        None => default,
    }
}

/// Whether examining `payload` as an acknowledgement would fault (see `ack_faults`).
pub fn check_ack_faults(payload: &[u8], expected_xid: u32) -> (r: bool)
    ensures
        r == ack_faults(payload@, expected_xid),
{
    match decode_answer(payload, expected_xid) {
        None => false,
        Some(p) => match p.get_option(OPT_MESSAGE_TYPE) {
            None => false,
            Some(t) => {
                if t.len() == 0 {
                    return true;
                }
                if t[0] != DHCPACK {
                    return false;
                }
                let m = match p.get_option(1) {
                    Some(s) => s.len() < 4,
                    None => false,
                };
                let g = match p.get_option(3) {
                    Some(s) => s.len() < 4,
                    None => false,
                };
                let d = match p.get_option(6) {
                    Some(s) => s.len() < 4,
                    None => false,
                };
                m || g || d
            },
        },
    }
}

/// The acknowledgement in `payload` for transaction `xid`: assigned address, subnet mask,
/// gateway and DNS server.
pub fn parse_ack(payload: &[u8], expected_xid: u32) -> (r: Option<([u8; 4], [u8; 4], [u8; 4], [u8; 4])>)
    requires
        !ack_faults(payload@, expected_xid),
    ensures
        r == ack_spec(payload@, expected_xid),
{
    let dhcp = match decode_answer(payload, expected_xid) {
        Some(p) => p,
        None => return None,
    };
    let msg_type = match dhcp.get_option(OPT_MESSAGE_TYPE) {
        Some(t) => t,
        None => return None,
    };
    if msg_type[0] != DHCPACK {
        return None;
    }
    let assigned_ip = dhcp.header.yiaddr;
    assert(assigned_ip =~= [payload@[16], payload@[17], payload@[18], payload@[19]]);
    let subnet_mask = option_addr_or(&dhcp, 1, [255, 255, 255, 0]);
    let gateway = option_addr_or(&dhcp, 3, [0, 0, 0, 0]);
    let dns = option_addr_or(&dhcp, 6, [8, 8, 8, 8]);
    Some((assigned_ip, subnet_mask, gateway, dns))
}

/// Applies an acknowledged configuration to the interface.
pub fn configure(net: &mut Network, assigned_ip: [u8; 4], subnet_mask: [u8; 4], gateway: [u8; 4], dns: [u8; 4])
    requires
        old(net).wf(),
    ensures
        final(net).wf(),
        final(net)@ == (NetView {
            iface: InterfaceView {
                ip_addr: Some(assigned_ip),
                subnet_mask: Some(subnet_mask),
                gateway_ip: Some(gateway),
                dns: Some(dns),
                ..old(net)@.iface
            },
            ..old(net)@
        }),
{
    net.interface.ip_addr = Some(assigned_ip);
    net.interface.subnet_mask = Some(subnet_mask);
    net.interface.gateway_ip = Some(gateway);
    net.interface.dns = Some(dns);
}

} // verus!
