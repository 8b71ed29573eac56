use swagos::net::arp::arp::{ArpOperation, ArpPacket};
use swagos::net::arp::protocol::{handle_packet, is_resolved, resolve_mac, ArpTableEntry, EntryState};
use swagos::net::checksum::{complement, fold_sum, sum_words};
use swagos::net::dispatcher::{dispatch_frame, frame_safe, poll_one};
use swagos::net::ethernet;
use swagos::net::ipv4::ipv4_struct::ip_Header;
use swagos::net::ipv4::protocol::send;
use swagos::net::ipv4::http::client::connection;
use swagos::net::ipv4::transport::icmp::icmp::IcmpPacket;
use swagos::net::ipv4::http::constants::HttpError;
use swagos::net::ipv4::transport::tcp::packet::flags::{ACK, FIN, PSH, SYN};
use swagos::net::ipv4::transport::tcp::packet::{verify_segment_checksum, TcpHeader};
use swagos::net::ipv4::transport::tcp::socket::{handle_tcp_packet, tcp_tick, TcpSocketManager, TcpState, TcpTuple};
use swagos::net::ipv4::transport::udp::dhcp::packet::DhcpPacket;
use swagos::net::ipv4::transport::udp::dhcp::protocol::{check_ack_faults, check_offer_faults, configure, parse_ack, parse_offer};
use swagos::net::ipv4::transport::udp::dns::cache::{get_from_cache, DnsCache, DnsCacheEntry};
use swagos::net::ipv4::transport::udp::dns::solver::{build_query, examine_response, get_dns_port, DnsReply};
use swagos::net::ipv4::transport::udp::packet::UdpHeader;
use swagos::net::ipv4::transport::udp::socket::{create_socket, UdpSocket, UdpSocketManager};
use swagos::net::ipv4::transport::udp::dhcp::client::{dhcp_begin, dhcp_on_datagram, dhcp_on_poll, DhcpAction, DhcpPhase};
use swagos::net::ipv4::transport::udp::dns::lookup::{lookup_on_poll, lookup_on_reply, lookup_start, DnsAction, DnsPhase};
use swagos::net::state::Network;

const OUR_IP: [u8; 4] = [10, 0, 0, 2];
const OUR_MAC: [u8; 6] = [2, 0, 0, 0, 0, 2];
const PEER_IP: [u8; 4] = [10, 0, 0, 1];
const PEER_MAC: [u8; 6] = [2, 0, 0, 0, 0, 1];

fn host(ip: [u8; 4], mac: [u8; 6], peer_ip: [u8; 4], peer_mac: [u8; 6]) -> Network {
    let mut n = Network::new();
    n.interface.hw_addr = Some(mac);
    configure(&mut n, ip, [255, 255, 255, 0], [10, 0, 0, 254], [10, 0, 0, 53]);
    n.arp_table.insert(peer_ip, ArpTableEntry { mac_address: Some(peer_mac), state: EntryState::SOLVED });
    n
}

fn take_sent(n: &mut Network) -> Vec<u8> {
    n.interface.tx_queue.pop_front().unwrap()
}

#[test]
fn checksum_of_known_header() {
    let h: [u8; 20] = [0x45, 0, 0, 0x73, 0, 0, 0x40, 0, 0x40, 0x11, 0, 0, 0xc0, 0xa8, 0, 1, 0xc0, 0xa8, 0, 0xc7];
    assert_eq!(complement(fold_sum(sum_words(&h, 0))), 0xb861);
}

#[test]
fn ethernet_round_trip() {
    let f = ethernet::build(PEER_MAC, OUR_MAC, 0x0800, b"abc");
    let p = ethernet::parse(&f).unwrap();
    assert_eq!(p.dst_mac, PEER_MAC);
    assert_eq!(p.src_mac, OUR_MAC);
    assert_eq!(p.ether_type, 0x0800);
    assert_eq!(p.payload, b"abc");
    assert!(ethernet::parse(&f[..13]).is_none());
}

#[test]
fn arp_bytes_round_trip() {
    let a = ArpPacket::new(ArpOperation::Request, OUR_MAC, OUR_IP, [0; 6], PEER_IP);
    let b = a.as_bytes();
    assert_eq!(b.len(), 28);
    assert_eq!(&b[0..8], &[0, 1, 8, 0, 6, 4, 0, 1]);
    let d = ArpPacket::from_bytes(&b).unwrap();
    assert_eq!(d.sender_hw_addr, OUR_MAC);
    assert_eq!(d.sender_proto_addr, OUR_IP);
    assert_eq!(d.target_proto_addr, PEER_IP);
    assert!(ArpPacket::from_bytes(&b[..27]).is_none());
}

#[test]
fn arp_request_answered_and_reply_resolves() {
    let mut us = Network::new();
    us.interface.hw_addr = Some(OUR_MAC);
    us.interface.ip_addr = Some(OUR_IP);
    let q = [10, 0, 0, 9];
    assert_eq!(resolve_mac(&mut us.arp_table, &mut us.interface, &q, OUR_IP, OUR_MAC), None);
    assert_eq!(us.interface.tx_queue.len(), 1);
    assert_eq!(resolve_mac(&mut us.arp_table, &mut us.interface, &q, OUR_IP, OUR_MAC), None);
    assert_eq!(us.interface.tx_queue.len(), 1);
    assert!(!is_resolved(&us.arp_table, &q));
    let reply = ArpPacket::new(ArpOperation::Reply, [2, 0, 0, 0, 0, 9], q, OUR_MAC, OUR_IP);
    let unread = ArpPacket::new(ArpOperation::Reply, [2, 0, 0, 0, 0, 9], q, OUR_MAC, OUR_IP);
    handle_packet(&mut us.arp_table, &mut us.interface, unread);
    assert!(!is_resolved(&us.arp_table, &q));
    let reply = ArpPacket::from_bytes(&reply.as_bytes()).unwrap();
    handle_packet(&mut us.arp_table, &mut us.interface, reply);
    assert!(is_resolved(&us.arp_table, &q));
    assert_eq!(resolve_mac(&mut us.arp_table, &mut us.interface, &q, OUR_IP, OUR_MAC), Some([2, 0, 0, 0, 0, 9]));
    let request = ArpPacket::new(ArpOperation::Request, PEER_MAC, PEER_IP, [0; 6], OUR_IP);
    let request = ArpPacket::from_bytes(&request.as_bytes()).unwrap();
    handle_packet(&mut us.arp_table, &mut us.interface, request);
    assert_eq!(us.interface.tx_queue.len(), 2);
    let f = us.interface.tx_queue.back().unwrap().clone();
    let p = ethernet::parse(&f).unwrap();
    assert_eq!(p.dst_mac, PEER_MAC);
    assert_eq!(p.ether_type, 0x0806);
    let a = ArpPacket::from_bytes(p.payload).unwrap();
    assert_eq!(a.sender_hw_addr, OUR_MAC);
    assert_eq!(a.target_proto_addr, PEER_IP);
}

#[test]
fn ipv4_header_checksum_verifies() {
    let mut us = host(OUR_IP, OUR_MAC, PEER_IP, PEER_MAC);
    send(&mut us, PEER_IP, 17, b"payload!");
    let f = take_sent(&mut us);
    let p = ethernet::parse(&f).unwrap();
    let ip = &p.payload[..20];
    assert_eq!(complement(fold_sum(sum_words(ip, 0))), 0);
    let h = ip_Header::from_bytes(p.payload);
    assert_eq!(h.version(), 4);
    assert_eq!(h.ihl(), 5);
    assert_eq!(h.src_ip, OUR_IP);
    assert_eq!(h.dst_ip, PEER_IP);
    assert_eq!(h.protocol, 17);
    assert_eq!(f.len(), 60);
}

#[test]
fn ping_request_verifies() {
    let p = IcmpPacket::new_ping(7, 1, b"abcd");
    assert_eq!(p[0], 8);
    assert_eq!(&p[4..8], &[0, 7, 0, 1]);
    assert_eq!(IcmpPacket::calculate_checksum_raw(&p), 0);
}

#[test]
fn ping_round_trip_through_dispatcher() {
    let mut us = host(OUR_IP, OUR_MAC, PEER_IP, PEER_MAC);
    let mut peer = host(PEER_IP, PEER_MAC, OUR_IP, OUR_MAC);
    let mut udp_us = UdpSocketManager::new();
    let mut udp_peer = UdpSocketManager::new();
    let mut ping_us = None;
    let mut ping_peer = None;
    let ping = IcmpPacket::new_ping(7, 1, b"hello");
    send(&mut peer, OUR_IP, 1, &ping);
    let req = take_sent(&mut peer);
    assert!(frame_safe(&us, &req));
    assert_eq!(dispatch_frame(&mut us, &mut udp_us, &mut ping_us, &req), Some(PEER_IP));
    let reply = take_sent(&mut us);
    assert_eq!(dispatch_frame(&mut peer, &mut udp_peer, &mut ping_peer, &reply), None);
    assert_eq!(ping_peer, Some((OUR_IP, 0x0100)));
    assert_eq!(ping_us, None);
}

#[test]
fn echo_request_without_address_is_unsafe() {
    let mut peer = host(PEER_IP, PEER_MAC, OUR_IP, OUR_MAC);
    let ping = IcmpPacket::new_ping(1, 1, b"x");
    send(&mut peer, OUR_IP, 1, &ping);
    let req = take_sent(&mut peer);
    let fresh = Network::new();
    assert!(!frame_safe(&fresh, &req));
}

#[test]
fn udp_datagram_delivered_through_dispatcher() {
    let mut us = host(OUR_IP, OUR_MAC, PEER_IP, PEER_MAC);
    let mut peer = host(PEER_IP, PEER_MAC, OUR_IP, OUR_MAC);
    let mut sock = create_socket(40000);
    sock.send_to(&mut us, PEER_IP, 7777, b"hi there");
    let frame = take_sent(&mut us);
    let mut udp_peer = UdpSocketManager::new();
    assert!(UdpSocket::bind(&mut udp_peer, 7777).is_ok());
    assert!(UdpSocket::bind(&mut udp_peer, 7777).is_err());
    peer.interface.rx_queue.push_back(frame);
    let mut ping = None;
    assert_eq!(poll_one(&mut peer, &mut udp_peer, &mut ping), Some(None));
    assert_eq!(poll_one(&mut peer, &mut udp_peer, &mut ping), None);
    let d = udp_peer.receive(7777).unwrap();
    assert_eq!(d.src_ip, OUR_IP);
    assert_eq!(d.src_port, 40000);
    assert_eq!(d.payload, b"hi there".to_vec());
    assert!(udp_peer.receive(7777).is_none());
}

#[test]
fn udp_bad_checksum_dropped() {
    let mut us = host(OUR_IP, OUR_MAC, PEER_IP, PEER_MAC);
    let mut sock = create_socket(40000);
    sock.send_to(&mut us, PEER_IP, 7777, b"data");
    let mut frame = take_sent(&mut us);
    let last = 14 + 20 + 8 + 3;
    frame[last] ^= 0xff;
    let mut peer = host(PEER_IP, PEER_MAC, OUR_IP, OUR_MAC);
    let mut udp_peer = UdpSocketManager::new();
    UdpSocket::bind(&mut udp_peer, 7777).unwrap();
    let mut ping = None;
    dispatch_frame(&mut peer, &mut udp_peer, &mut ping, &frame);
    assert!(udp_peer.receive(7777).is_none());
}

#[test]
fn udp_header_checksum_matches_manual_sum() {
    let mut h = UdpHeader::new(1000, 2000);
    let b = h.serialize(&OUR_IP, &PEER_IP, b"ab");
    assert_eq!(&b[0..4], &[0x03, 0xe8, 0x07, 0xd0]);
    assert_eq!(&b[4..6], &[0, 10]);
    let cs = h.calculate_checksum(&OUR_IP, &PEER_IP, b"ab");
    assert_eq!(u16::from_be_bytes([b[6], b[7]]), cs);
    assert_ne!(cs, 0);
}

#[test]
fn tcp_handshake_and_close() {
    let mut us = host(OUR_IP, OUR_MAC, PEER_IP, PEER_MAC);
    let mut mgr = TcpSocketManager::new();
    let mut c = connection::new_with_ip("peer", PEER_IP, 80, false);
    assert!(c.connect(&mut us, &mut mgr, 5, 1000).is_ok());
    assert_eq!(c.local_port, 49157);
    let syn = take_sent(&mut us);
    let seg = &syn[34..];
    assert!(verify_segment_checksum(&OUR_IP, &PEER_IP, &seg[..20]));
    let t = TcpTuple { local_port: 49157, remote_ip: PEER_IP, remote_port: 80 };
    assert_eq!(mgr.state_of(&t), Some(TcpState::SynSent));
    assert!(!c.is_open(&mgr));
    assert_eq!(c.connect_step(&mut mgr, 0), None);
    let mut h = TcpHeader::new(80, 49157, 5000, 1001, SYN | ACK);
    h.calculate_checksum(&PEER_IP, &OUR_IP, &[]);
    let bytes = h.as_bytes();
    handle_tcp_packet(&mut us, &mut mgr, &PEER_IP, &bytes);
    assert_eq!(mgr.state_of(&t), Some(TcpState::Established));
    assert!(c.is_open(&mgr));
    assert!(matches!(c.connect_step(&mut mgr, 3), Some(Ok(()))));
    let ack = take_sent(&mut us);
    let th = TcpHeader::from_bytes(&ack[34..]);
    assert_eq!(th.ack_num, 5001u32.to_be());
    c.close(&mut us, &mut mgr);
    assert_eq!(mgr.state_of(&t), Some(TcpState::FinWait1));
    let fin = take_sent(&mut us);
    let fh = TcpHeader::from_bytes(&fin[34..]);
    assert_eq!(fh.flags & FIN, FIN);
}

#[test]
fn tcp_connect_gives_up_after_fifty_checks() {
    let mut us = host(OUR_IP, OUR_MAC, PEER_IP, PEER_MAC);
    let mut mgr = TcpSocketManager::new();
    let mut c = connection::new_with_ip("peer", PEER_IP, 80, false);
    c.connect(&mut us, &mut mgr, 9, 1).unwrap();
    assert_eq!(c.connect_step(&mut mgr, 48), None);
    assert!(matches!(c.connect_step(&mut mgr, 49), Some(Err(_))));
    assert_eq!(mgr.len(), 0);
}

#[test]
fn tcp_socket_read_write_through_table() {
    let mut us = host(OUR_IP, OUR_MAC, PEER_IP, PEER_MAC);
    let mut mgr = TcpSocketManager::new();
    let mut c = connection::new_with_ip("peer", PEER_IP, 80, false);
    c.connect(&mut us, &mut mgr, 1, 100).unwrap();
    let t = c.tuple();
    assert!(mgr.write_to(&t, b"GET"));
    let mut buf = [0u8; 4];
    assert_eq!(mgr.read_from(&t, &mut buf), Some(0));
    let other = TcpTuple { local_port: 1, remote_ip: PEER_IP, remote_port: 80 };
    assert!(!mgr.write_to(&other, b"x"));
    assert_eq!(mgr.read_from(&other, &mut buf), None);
    assert!(mgr.remove(&t));
    assert!(!mgr.remove(&t));
}

fn offer_bytes(xid: u32, yiaddr: [u8; 4], server: [u8; 4], ack: bool) -> Vec<u8> {
    let mut b = DhcpPacket::new_discover(xid, PEER_MAC).as_bytes();
    b[0] = 2;
    b[16..20].copy_from_slice(&yiaddr);
    for x in b[240..].iter_mut() {
        *x = 0;
    }
    let mut opts = vec![53, 1, if ack { 5 } else { 2 }, 54, 4, server[0], server[1], server[2], server[3]];
    if ack {
        opts.extend_from_slice(&[1, 4, 255, 255, 255, 0, 3, 4, 10, 0, 0, 254, 6, 4, 8, 8, 8, 8]);
    }
    opts.push(255);
    b[240..240 + opts.len()].copy_from_slice(&opts);
    b
}

#[test]
fn dhcp_discover_layout() {
    let b = DhcpPacket::new_discover(0x11223344, OUR_MAC).as_bytes();
    assert_eq!(b.len(), 548);
    assert_eq!(&b[0..4], &[1, 1, 6, 0]);
    assert_eq!(&b[4..8], &[0x11, 0x22, 0x33, 0x44]);
    assert_eq!(&b[28..34], &OUR_MAC);
    assert_eq!(&b[236..240], &[99, 130, 83, 99]);
    assert_eq!(&b[240..243], &[53, 1, 1]);
}

#[test]
fn dhcp_offer_and_ack() {
    let offer = offer_bytes(0xABCD, [10, 0, 0, 7], [10, 0, 0, 1], false);
    assert!(!check_offer_faults(&offer, 0xABCD));
    assert_eq!(parse_offer(&offer, 0xABCD), Some(([10, 0, 0, 7], [10, 0, 0, 1])));
    assert_eq!(parse_offer(&offer, 0xABCE), None);
    let ack = offer_bytes(0xABCD, [10, 0, 0, 7], [10, 0, 0, 1], true);
    assert!(!check_ack_faults(&ack, 0xABCD));
    assert_eq!(parse_ack(&ack, 0xABCD), Some(([10, 0, 0, 7], [255, 255, 255, 0], [10, 0, 0, 254], [8, 8, 8, 8])));
    assert_eq!(parse_ack(&offer, 0xABCD), None);
    let r = DhcpPacket::new_request(0xABCD, &[10, 0, 0, 7], &[10, 0, 0, 1], OUR_MAC);
    let rb = r.as_bytes();
    assert_eq!(r.get_option(50), Some(&[10u8, 0, 0, 7][..]));
    assert_eq!(r.get_option(54), Some(&[10u8, 0, 0, 1][..]));
    assert_eq!(&rb[240..243], &[53, 1, 3]);
}

#[test]
fn dns_query_and_answer() {
    let q = build_query("example.com", 0x1234);
    assert_eq!(&q[0..4], &[0x12, 0x34, 0x01, 0x00]);
    assert_eq!(&q[12..], &[7, b'e', b'x', b'a', b'm', b'p', b'l', b'e', 3, b'c', b'o', b'm', 0, 0, 1, 0, 1]);
    let mut r = q.clone();
    r[2] = 0x81;
    r[3] = 0x80;
    r[7] = 1;
    r.extend_from_slice(&[0xc0, 0x0c, 0, 1, 0, 1, 0, 0, 0x0e, 0x10, 0, 4, 93, 184, 216, 34]);
    assert!(matches!(examine_response(&r, 0x1234), DnsReply::Address([93, 184, 216, 34], 3600)));
    assert!(matches!(examine_response(&r, 0x1235), DnsReply::Skip));
    let mut none = q.clone();
    none[2] = 0x81;
    assert!(matches!(examine_response(&none, 0x1234), DnsReply::NoAnswers));
}

#[test]
fn dns_cache_expiry() {
    let mut c = DnsCache::new();
    c.insert("a.com", DnsCacheEntry { ip: [1, 1, 1, 1], expiration_tick: 100 });
    assert_eq!(get_from_cache(&mut c, "a.com", 50), Some([1, 1, 1, 1]));
    assert_eq!(get_from_cache(&mut c, "b.com", 50), None);
    assert_eq!(get_from_cache(&mut c, "a.com", 150), None);
    assert_eq!(get_from_cache(&mut c, "a.com", 50), None);
}

#[test]
fn dns_port_advances() {
    let mut port = 0u16;
    let first = get_dns_port(&mut port, 7);
    assert!(first >= 49152);
    assert_eq!(first, 49159);
    assert_eq!(get_dns_port(&mut port, 100), first);
    assert_eq!(port, first);
}

#[test]
fn dhcp_client_exchange() {
    let (p, a) = dhcp_begin(0xABCD, 100);
    assert_eq!(p, DhcpPhase::Offering { xid: 0xABCD, start: 100 });
    assert!(matches!(a, DhcpAction::Discover(0xABCD)));
    let (p2, a2) = dhcp_on_poll(p, 200);
    assert_eq!(p2, p);
    assert!(matches!(a2, DhcpAction::Sleep(10)));
    let ack = offer_bytes(0xABCD, [10, 0, 0, 7], [10, 0, 0, 1], true);
    let (p3, a3) = dhcp_on_datagram(p, &ack, 300);
    assert_eq!(p3, p);
    assert!(matches!(a3, DhcpAction::Continue));
    let offer = offer_bytes(0xABCD, [10, 0, 0, 7], [10, 0, 0, 1], false);
    let (p4, a4) = dhcp_on_datagram(p, &offer, 400);
    assert_eq!(p4, DhcpPhase::Acking { xid: 0xABCD, start: 400 });
    assert!(matches!(a4, DhcpAction::Request { xid: 0xABCD, requested_ip: [10, 0, 0, 7], server_ip: [10, 0, 0, 1] }));
    let (p5, a5) = dhcp_on_datagram(p4, &ack, 500);
    assert_eq!(p5, DhcpPhase::Configured);
    assert!(matches!(a5, DhcpAction::Configure { ip: [10, 0, 0, 7], mask: [255, 255, 255, 0], gateway: [10, 0, 0, 254], dns: [8, 8, 8, 8] }));
    let (p6, a6) = dhcp_on_poll(p4, 5401);
    assert_eq!(p6, DhcpPhase::Start);
    assert!(matches!(a6, DhcpAction::Sleep(2000)));
    assert!(matches!(dhcp_on_poll(p4, 5400).1, DhcpAction::Sleep(10)));
    assert!(matches!(dhcp_on_poll(DhcpPhase::Configured, 1).1, DhcpAction::Sleep(10000)));
}

#[test]
fn dns_lookup_retries_then_gives_up() {
    let (mut p, a) = lookup_start(0);
    assert!(matches!(a, DnsAction::SendQuery));
    let mut sent = 1;
    let mut now = 0;
    loop {
        now += 6000;
        let (np, na) = lookup_on_poll(p, now);
        p = np;
        match na {
            DnsAction::Sleep(100) => {
                let (np, na) = lookup_on_poll(p, now);
                p = np;
                match na {
                    DnsAction::SendQuery => sent += 1,
                    DnsAction::GiveUp => break,
                    _ => panic!("unexpected action"),
                }
            },
            _ => panic!("unexpected action"),
        }
    }
    assert_eq!(sent, 3);
    assert_eq!(p, DnsPhase::Finished);
}

#[test]
fn dns_lookup_finds_address() {
    let (p, _) = lookup_start(10);
    let (p1, a1) = lookup_on_reply(p, DnsReply::Skip, 20);
    assert_eq!(p1, p);
    assert!(matches!(a1, DnsAction::Continue));
    let (p2, a2) = lookup_on_reply(p, DnsReply::NoAnswers, 20);
    assert_eq!(p2, DnsPhase::Backoff { attempt: 1 });
    assert!(matches!(a2, DnsAction::Sleep(100)));
    let (p3, a3) = lookup_on_reply(p, DnsReply::Address([1, 2, 3, 4], 3600), 20);
    assert_eq!(p3, DnsPhase::Finished);
    assert!(matches!(a3, DnsAction::Found { ip: [1, 2, 3, 4], expiration_tick: 3620 }));
}

#[test]
fn shell_type_then_delete_restores_line() {
    let mut sh = swagos::shell::shell::Shell::new();
    sh.add_char('a');
    sh.add_char('b');
    sh.move_index_left();
    let before = (sh.buffer.clone(), sh.index);
    sh.add_char('z');
    assert_eq!(sh.buffer, "azb");
    sh.delete_char();
    assert_eq!((sh.buffer.clone(), sh.index), before);
}

#[test]
fn tcp_tick_resends_syn_after_interval() {
    let mut us = host(OUR_IP, OUR_MAC, PEER_IP, PEER_MAC);
    let mut mgr = TcpSocketManager::new();
    let mut c = connection::new_with_ip("peer", PEER_IP, 80, false);
    c.connect(&mut us, &mut mgr, 5, 1000).unwrap();
    let first = take_sent(&mut us);
    for _ in 0..249 {
        tcp_tick(&mut us, &mut mgr);
    }
    assert!(us.interface.tx_queue.is_empty());
    assert_eq!(mgr.socket_at(0).retransmit_ticks, 498);
    tcp_tick(&mut us, &mut mgr);
    let again = take_sent(&mut us);
    let h = TcpHeader::from_bytes(&again[34..]);
    assert_eq!(h.flags, SYN);
    assert_eq!(h.seq_num, 1000u32.to_be());
    assert_eq!(again[34..38], first[34..38]);
    assert_eq!(mgr.socket_at(0).retransmit_ticks, 0);
}

#[test]
fn tcp_tick_sends_queued_data() {
    let mut us = host(OUR_IP, OUR_MAC, PEER_IP, PEER_MAC);
    let mut mgr = TcpSocketManager::new();
    let mut c = connection::new_with_ip("peer", PEER_IP, 80, false);
    c.connect(&mut us, &mut mgr, 5, 1000).unwrap();
    take_sent(&mut us);
    let mut h = TcpHeader::new(80, 49157, 5000, 1001, SYN | ACK);
    h.calculate_checksum(&PEER_IP, &OUR_IP, &[]);
    handle_tcp_packet(&mut us, &mut mgr, &PEER_IP, &h.as_bytes());
    take_sent(&mut us);
    assert!(mgr.write_to(&c.tuple(), b"GET"));
    tcp_tick(&mut us, &mut mgr);
    let data = take_sent(&mut us);
    let th = TcpHeader::from_bytes(&data[34..]);
    assert_eq!(th.flags, ACK | PSH);
    assert_eq!(th.seq_num, 1001u32.to_be());
    assert_eq!(data.len(), 60);
    assert_eq!(&data[54..57], b"GET");
    assert!(verify_segment_checksum(&OUR_IP, &PEER_IP, &data[34..57]));
    tcp_tick(&mut us, &mut mgr);
    assert!(us.interface.tx_queue.is_empty());
    assert_eq!(mgr.socket_at(0).retransmit_ticks, 1);
}

#[test]
fn icmp_raw_checksum_example() {
    assert_eq!(IcmpPacket::calculate_checksum_raw(&[8, 0, 0, 0, 0, 1, 0, 1]), 0xF7FD);
    assert_eq!(IcmpPacket::calculate_checksum_raw(&[8, 0, 0xF7, 0xFD, 0, 1, 0, 1]), 0);
}

#[test]
fn icmp_raw_checksum_of_long_message() {
    let data = vec![0xFFu8; 131072];
    assert_eq!(IcmpPacket::calculate_checksum_raw(&data), 0);
    let mut odd = vec![0u8; 131073];
    odd[131072] = 1;
    assert_eq!(IcmpPacket::calculate_checksum_raw(&odd), !0x0100u16);
}

#[test]
fn tcp_segment_without_reply_needs_no_route() {
    let mut us = Network::new();
    us.interface.hw_addr = Some(OUR_MAC);
    us.interface.ip_addr = Some(OUR_IP);
    let mut mgr = TcpSocketManager::new();
    handle_tcp_packet(&mut us, &mut mgr, &PEER_IP, &[]);
    assert!(us.interface.tx_queue.is_empty());
    assert_eq!(mgr.len(), 0);
}

#[test]
fn tcp_check_socket_before_send() {
    let mut us = host(OUR_IP, OUR_MAC, PEER_IP, PEER_MAC);
    let mut mgr = TcpSocketManager::new();
    let mut c = connection::new_with_ip("peer", PEER_IP, 80, false);
    assert_eq!(c.check_socket(&mgr), Err(HttpError::SocketNotFound));
    c.connect(&mut us, &mut mgr, 5, 1000).unwrap();
    assert_eq!(c.check_socket(&mgr), Ok(()));
}

#[test]
fn tcp_connect_without_address_changes_nothing() {
    let mut us = Network::new();
    let mut mgr = TcpSocketManager::new();
    let mut c = connection::new_with_ip("peer", PEER_IP, 80, false);
    assert_eq!(c.connect(&mut us, &mut mgr, 5, 1000), Err(HttpError::ConnectionFailed));
    assert_eq!(c.local_port, 0);
    assert_eq!(mgr.len(), 0);
    assert!(us.interface.tx_queue.is_empty());
}

#[test]
fn tcp_tick_preview_matches_tick() {
    let mut us = host(OUR_IP, OUR_MAC, PEER_IP, PEER_MAC);
    let mut mgr = TcpSocketManager::new();
    let mut c = connection::new_with_ip("peer", PEER_IP, 80, false);
    c.connect(&mut us, &mut mgr, 5, 1000).unwrap();
    take_sent(&mut us);
    for _ in 0..249 {
        assert!(mgr.socket_at(0).timer_fits());
        assert!(!mgr.socket_at(0).tick_sends());
        tcp_tick(&mut us, &mut mgr);
    }
    assert!(mgr.socket_at(0).tick_sends());
    tcp_tick(&mut us, &mut mgr);
    assert!(!us.interface.tx_queue.is_empty());
}
