//! Address resolution: the table of known and pending IPv4-to-hardware mappings, and the
//! handling of ARP requests and replies.
use vstd::prelude::*;
use crate::net::arp::arp::{ArpPacket, ArpOperation, arp_new, arp_bytes, arp_decode, lemma_new_bytes_decode};
use crate::net::interface::{Interface, InterfaceView, with_sent, arp_frame, broadcast_mac};
use std::collections::BTreeMap;
use crate::net::wire::eq4;

verus! {

broadcast use vstd::laws_cmp::group_laws_cmp;

#[derive(Clone, Copy, PartialEq, Eq, Structural)]
pub enum EntryState {
    SOLVED,
    PENDING,
}

#[derive(Clone, Copy)]
pub struct ArpTableEntry {
    pub mac_address: Option<[u8; 6]>,
    pub state: EntryState,
}

/// The table of address mappings, one entry per IPv4 address, ordered by address (the
/// address's bytes as a tuple, which orders as the byte array does).
pub struct ArpTable {
    entries: BTreeMap<(u8, u8, u8, u8), ArpTableEntry>,
}

/// The key under which an address is stored.
pub open spec fn ip_key(ip: [u8; 4]) -> (u8, u8, u8, u8) {
    (ip[0], ip[1], ip[2], ip[3])
}

impl View for ArpTable {
    type V = Map<[u8; 4], ArpTableEntry>;

    closed spec fn view(&self) -> Map<[u8; 4], ArpTableEntry> {
        Map::new(|ip: [u8; 4]| self.entries@.contains_key(ip_key(ip)), |ip: [u8; 4]| self.entries@[ip_key(ip)])
    }
}

/// The entry recorded while a request is outstanding.
pub open spec fn pending_entry() -> ArpTableEntry {
    ArpTableEntry { mac_address: None, state: EntryState::PENDING }
}

/// What `resolve_mac` answers for a known entry: its address once solved, nothing before.
pub open spec fn resolved_mac(e: ArpTableEntry) -> Option<[u8; 6]> {
    if e.state == EntryState::SOLVED {
        e.mac_address
    } else {
        None
    }
}

impl ArpTable {
    /// Every table is well formed: keyed by address, it holds at most one entry per address.
    pub closed spec fn wf(&self) -> bool {
        true
    }

    /// An empty table.
    pub fn new() -> (r: Self)
        ensures
            r.wf(),
            r@ == Map::<[u8; 4], ArpTableEntry>::empty(),
    {
        let r = ArpTable { entries: BTreeMap::new() };
        assert(r@ =~= Map::<[u8; 4], ArpTableEntry>::empty());
        r
    }

    /// The entry for `ip`, if any.
    pub fn get(&self, ip: &[u8; 4]) -> (r: Option<ArpTableEntry>)
        requires
            self.wf(),
        ensures
            r == self@.get(*ip),
    {
        let key = (ip[0], ip[1], ip[2], ip[3]);
        match self.entries.get(&key) {
            Some(e) => Some(*e),
            None => None,
        }
    }

    /// Sets the entry for `ip`, replacing any earlier one.
    pub fn insert(&mut self, ip: [u8; 4], entry: ArpTableEntry)
        requires
            old(self).wf(),
        ensures
            final(self).wf(),
            final(self)@ == old(self)@.insert(ip, entry),
    {
        let key = (ip[0], ip[1], ip[2], ip[3]);
        self.entries.insert(key, entry);
        proof {
            assert forall|x: [u8; 4]| ip_key(x) == ip_key(ip) implies x == ip by {
                assert(x =~= ip);
            }
            assert(self@ =~= old(self)@.insert(ip, entry));
        }
    }
}

/// The all-zero hardware address of a request's unknown target.
pub open spec fn zero_mac() -> [u8; 6] {
    [0u8, 0u8, 0u8, 0u8, 0u8, 0u8]
}

/// The outcome of `resolve_mac`: the answer, and the table and interface afterwards.
pub open spec fn resolve_spec(
    table: Map<[u8; 4], ArpTableEntry>,
    iface: InterfaceView,
    ip_target: [u8; 4],
    sender_ip: [u8; 4],
    sender_hw_address: [u8; 6],
) -> (Option<[u8; 6]>, Map<[u8; 4], ArpTableEntry>, InterfaceView) {
    match table.get(ip_target) {
        Some(e) => (resolved_mac(e), table, iface),
        None => (
            None,
            table.insert(ip_target, pending_entry()),
            with_sent(
                iface,
                arp_frame(
                    iface.hw_addr.unwrap(),
                    broadcast_mac(),
                    arp_new(ArpOperation::Request, sender_hw_address, sender_ip, zero_mac(), ip_target),
                ),
            ),
        ),
    }
}

/// Answers the hardware address of `ip_target` if it is known. An unknown address is recorded
/// as pending and a broadcast ARP request for it is queued on the interface.
pub fn resolve_mac(
    table: &mut ArpTable,
    iface: &mut Interface,
    ip_target: &[u8; 4],
    sender_ip: [u8; 4],
    sender_hw_address: [u8; 6],
) -> (r: Option<[u8; 6]>)
    requires
        old(table).wf(),
        !old(table)@.contains_key(*ip_target) ==> old(iface).hw_addr is Some,
    ensures
        final(table).wf(),
        (r, final(table)@, final(iface)@) == resolve_spec(old(table)@, old(iface)@, *ip_target, sender_ip, sender_hw_address),
{
    if let Some(entry) = table.get(ip_target) {
        if entry.state == EntryState::SOLVED {
            return entry.mac_address;
        }
        return None;
    }
    table.insert(*ip_target, ArpTableEntry { mac_address: None, state: EntryState::PENDING });
    let zero = [0u8; 6];
    assert(zero =~= zero_mac());
    let arp_packet = ArpPacket::new(ArpOperation::Request, sender_hw_address, sender_ip, zero, *ip_target);
    iface.send_arp(&arp_packet);
    None
}

/// Whether `ip` has a solved entry.
pub fn is_resolved(table: &ArpTable, ip: &[u8; 4]) -> (r: bool)
    requires
        table.wf(),
    ensures
        r == (table@.contains_key(*ip) && table@[*ip].state == EntryState::SOLVED),
{
    match table.get(ip) {
        Some(e) => e.state == EntryState::SOLVED,
        None => false,
    }
}

/// The outcome of `handle_packet`: the table and interface afterwards.
pub open spec fn handle_spec(
    table: Map<[u8; 4], ArpTableEntry>,
    iface: InterfaceView,
    p: ArpPacket,
) -> (Map<[u8; 4], ArpTableEntry>, InterfaceView) {
    if p.operation == 1 {
        if iface.ip_addr is Some && iface.hw_addr is Some && p.target_proto_addr == iface.ip_addr.unwrap() {
            (
                table,
                with_sent(
                    iface,
                    arp_frame(
                        iface.hw_addr.unwrap(),
                        p.sender_hw_addr,
                        arp_new(
                            ArpOperation::Reply,
                            iface.hw_addr.unwrap(),
                            iface.ip_addr.unwrap(),
                            p.sender_hw_addr,
                            p.sender_proto_addr,
                        ),
                    ),
                ),
            )
        } else {
            (table, iface)
        }
    } else if p.operation == 2 {
        (
            table.insert(
                p.sender_proto_addr,
                ArpTableEntry { mac_address: Some(p.sender_hw_addr), state: EntryState::SOLVED },
            ),
            iface,
        )
    } else {
        (table, iface)
    }
}

/// Handles a decoded ARP packet: a request for our address is answered to its sender; a reply
/// records the sender's hardware address as solved; other operations are ignored.
pub fn handle_packet(table: &mut ArpTable, iface: &mut Interface, arp_packet: ArpPacket)
    requires
        old(table).wf(),
    ensures
        final(table).wf(),
        (final(table)@, final(iface)@) == handle_spec(old(table)@, old(iface)@, arp_packet),
{
    if arp_packet.operation == ArpOperation::Request.value() {
        let our_ip = iface.ip_addr;
        let our_mac = iface.hw_addr;
        if let (Some(our_ip), Some(our_mac)) = (our_ip, our_mac) {
            if eq4(&arp_packet.target_proto_addr, &our_ip) {
                let reply = ArpPacket::new(
                    ArpOperation::Reply,
                    our_mac,
                    our_ip,
                    arp_packet.sender_hw_addr,
                    arp_packet.sender_proto_addr,
                );
                iface.send_arp_to(&reply, arp_packet.sender_hw_addr);
            }
        }
    } else if arp_packet.operation == ArpOperation::Reply.value() {
        table.insert(
            arp_packet.sender_proto_addr,
            ArpTableEntry { mac_address: Some(arp_packet.sender_hw_addr), state: EntryState::SOLVED },
        );
    }
}

/// The answer to a request for our address: one frame is queued, sent from our hardware
/// address to the requester's, of type ARP, carrying a reply that gives our hardware and IPv4
/// addresses as the sender's and the requester's as the target's; the table and the rest of
/// the interface stay as they were. A request for another address is not answered.
pub proof fn lemma_request_answered_with_our_address(
    table: Map<[u8; 4], ArpTableEntry>,
    iface: InterfaceView,
    p: ArpPacket,
)
    requires
        p.operation == 1,
        iface.ip_addr is Some,
        iface.hw_addr is Some,
    ensures
        ({
            let (t, i) = handle_spec(table, iface, p);
            let f = i.tx.last();
            &&& t == table
            &&& p.target_proto_addr != iface.ip_addr.unwrap() ==> i == iface
            &&& p.target_proto_addr == iface.ip_addr.unwrap() ==> {
                &&& i == InterfaceView { tx: iface.tx.push(f), ..iface }
                &&& f.len() >= 42
                &&& f.subrange(0, 6) == p.sender_hw_addr@
                &&& f.subrange(6, 12) == iface.hw_addr.unwrap()@
                &&& f[12] == 0x08 && f[13] == 0x06
                &&& arp_decode(f.subrange(14, 42)) == ArpPacket {
                    hardware_type: 1,
                    protocol_type: 0x0800,
                    hw_addr_len: 6,
                    proto_addr_len: 4,
                    operation: 2,
                    sender_hw_addr: iface.hw_addr.unwrap(),
                    sender_proto_addr: iface.ip_addr.unwrap(),
                    target_hw_addr: p.sender_hw_addr,
                    target_proto_addr: p.sender_proto_addr,
                }
            }
        }),
{
    if p.target_proto_addr == iface.ip_addr.unwrap() {
        let our_mac = iface.hw_addr.unwrap();
        let our_ip = iface.ip_addr.unwrap();
        let reply = arp_new(ArpOperation::Reply, our_mac, our_ip, p.sender_hw_addr, p.sender_proto_addr);
        lemma_new_bytes_decode(ArpOperation::Reply, our_mac, our_ip, p.sender_hw_addr, p.sender_proto_addr);
        let b = arp_bytes(reply);
        let (t, i) = handle_spec(table, iface, p);
        let f = i.tx.last();
        let g = p.sender_hw_addr@ + our_mac@ + seq![0x08u8, 0x06u8] + b;
        assert(f.subrange(0, g.len() as int) =~= g);
        assert(f.subrange(0, 6) =~= p.sender_hw_addr@);
        assert(f.subrange(6, 12) =~= our_mac@);
        assert(f.subrange(14, 42) =~= b);
        assert(i =~= InterfaceView { tx: iface.tx.push(f), ..iface });
    }
}

/// After a reply from `ip` is handled, `ip` is resolved to the replying hardware address.
pub proof fn lemma_reply_resolves(
    table: Map<[u8; 4], ArpTableEntry>,
    iface: InterfaceView,
    p: ArpPacket,
    sender_ip: [u8; 4],
    sender_hw_address: [u8; 6],
)
    requires
        p.operation == 2,
    ensures
        ({
            let (t, i) = handle_spec(table, iface, p);
            let (r, t2, i2) = resolve_spec(t, i, p.sender_proto_addr, sender_ip, sender_hw_address);
            &&& t.contains_key(p.sender_proto_addr)
            &&& t[p.sender_proto_addr].state == EntryState::SOLVED
            &&& r == Some(p.sender_hw_addr)
            &&& t2 == t
            &&& i2 == i
        }),
{
}

/// Asking twice for an unknown address sends one request: the second call finds it pending,
/// answers nothing and sends nothing.
pub proof fn lemma_pending_not_resent(
    table: Map<[u8; 4], ArpTableEntry>,
    iface: InterfaceView,
    ip: [u8; 4],
    sender_ip: [u8; 4],
    sender_hw_address: [u8; 6],
)
    requires
        !table.contains_key(ip),
    ensures
        ({
            let (r1, t1, i1) = resolve_spec(table, iface, ip, sender_ip, sender_hw_address);
            let (r2, t2, i2) = resolve_spec(t1, i1, ip, sender_ip, sender_hw_address);
            &&& r1 is None && r2 is None
            &&& i1.tx.len() == iface.tx.len() + 1
            &&& t2 == t1
            &&& i2 == i1
        }),
{
}

} // verus!
