//! The state shared by the network layers: the interface, the ARP table and the IPv4
//! identification counter.
use vstd::prelude::*;
use crate::net::interface::{Interface, InterfaceView};
use crate::net::arp::protocol::{ArpTable, ArpTableEntry};

verus! {

pub struct Network {
    pub interface: Interface,
    pub arp_table: ArpTable,
    /// Identification of the next IPv4 packet sent.
    pub ip_packet_id: u16,
}

pub struct NetView {
    pub iface: InterfaceView,
    pub arp: Map<[u8; 4], ArpTableEntry>,
    pub ip_id: u16,
}

impl View for Network {
    type V = NetView;

    open spec fn view(&self) -> NetView {
        NetView { iface: self.interface@, arp: self.arp_table@, ip_id: self.ip_packet_id }
    }
}

impl Network {
    pub open spec fn wf(&self) -> bool {
        self.arp_table.wf()
    }

    /// An unconfigured interface, an empty ARP table and identification 0.
    pub fn new() -> (r: Self)
        ensures
            r.wf(),
            r@.arp == Map::<[u8; 4], ArpTableEntry>::empty(),
            r@.ip_id == 0,
            r.interface.hw_addr is None,
            r.interface.ip_addr is None,
            r@.iface.rx.len() == 0,
            r@.iface.tx.len() == 0,
    {
        Network { interface: Interface::new(), arp_table: ArpTable::new(), ip_packet_id: 0 }
    }
}

} // verus!
