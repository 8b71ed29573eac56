//! The DHCP client's decisions over time: which message to send, how long to wait for the
//! server's answer, when to give up and start again, and when the configuration is final. The
//! caller performs each action (sending, sleeping, configuring) and reports what happened.
use vstd::prelude::*;
use crate::net::ipv4::transport::udp::dhcp::protocol::{
    ack_faults, ack_spec, offer_faults, offer_spec, parse_ack, parse_offer,
};

verus! {

/// Ticks to wait for an OFFER or an ACK.
pub const ANSWER_TIMEOUT: u64 = 5000;
/// Ticks between looks at the socket while waiting.
pub const POLL_INTERVAL: u64 = 10;
/// Ticks to wait before starting over after a timeout.
pub const RETRY_DELAY: u64 = 2000;
/// Ticks to sleep between looks once configured.
pub const IDLE_INTERVAL: u64 = 10000;

/// Where the client stands: not started (or starting over), waiting for an OFFER or an ACK for
/// transaction `xid` since tick `start`, or configured.
#[derive(Clone, Copy, Debug, PartialEq, Eq, Structural)]
pub enum DhcpPhase {
    Start,
    Offering { xid: u32, start: u64 },
    Acking { xid: u32, start: u64 },
    Configured,
}

/// What the caller does next.
#[derive(Clone, Copy, Debug)]
pub enum DhcpAction {
    /// Broadcast a DISCOVER for the transaction.
    Discover(u32),
    /// Broadcast a REQUEST for the offered address to the offering server.
    Request { xid: u32, requested_ip: [u8; 4], server_ip: [u8; 4] },
    /// Apply the assigned address, mask, gateway and DNS server.
    Configure { ip: [u8; 4], mask: [u8; 4], gateway: [u8; 4], dns: [u8; 4] },
    /// Sleep this many ticks, then poll.
    Sleep(u64),
    /// Go on with the next received datagram, if any.
    Continue,
}

/// Starting (again) with a fresh transaction `xid` at tick `now`.
pub open spec fn begin_spec(xid: u32, now: u64) -> (DhcpPhase, DhcpAction) {
    (DhcpPhase::Offering { xid, start: now }, DhcpAction::Discover(xid))
}

/// A datagram received on the client port at tick `now`: a matching OFFER leads to a REQUEST,
/// a matching ACK to the configuration; anything else is passed over.
pub open spec fn datagram_spec(phase: DhcpPhase, payload: Seq<u8>, now: u64) -> (DhcpPhase, DhcpAction) {
    match phase {
        DhcpPhase::Offering { xid, start } => match offer_spec(payload, xid) {
            Some((ip, server)) => (
                DhcpPhase::Acking { xid, start: now },
                DhcpAction::Request { xid, requested_ip: ip, server_ip: server },
            ),
            None => (phase, DhcpAction::Continue),
        },
        DhcpPhase::Acking { xid, start } => match ack_spec(payload, xid) {
            Some((ip, mask, gateway, dns)) => (DhcpPhase::Configured, DhcpAction::Configure { ip, mask, gateway, dns }),
            None => (phase, DhcpAction::Continue),
        },
        _ => (phase, DhcpAction::Continue),
    }
}

/// A poll at tick `now` after the received datagrams are handled: while waiting, more than
/// `ANSWER_TIMEOUT` ticks without an answer start the exchange over after `RETRY_DELAY`;
/// otherwise the client sleeps `POLL_INTERVAL`. Once configured it sleeps `IDLE_INTERVAL`.
pub open spec fn poll_spec(phase: DhcpPhase, now: u64) -> (DhcpPhase, DhcpAction) {
    match phase {
        DhcpPhase::Offering { xid, start } | DhcpPhase::Acking { xid, start } => if now - start > ANSWER_TIMEOUT {
            (DhcpPhase::Start, DhcpAction::Sleep(RETRY_DELAY))
        } else {
            (phase, DhcpAction::Sleep(POLL_INTERVAL))
        },
        DhcpPhase::Configured => (phase, DhcpAction::Sleep(IDLE_INTERVAL)),
        DhcpPhase::Start => (phase, DhcpAction::Continue),
    }
}

/// Whether reading the datagram in this phase would index past its end.
pub open spec fn datagram_faults(phase: DhcpPhase, payload: Seq<u8>) -> bool {
    match phase {
        DhcpPhase::Offering { xid, .. } => offer_faults(payload, xid),
        DhcpPhase::Acking { xid, .. } => ack_faults(payload, xid),
        _ => false,
    }
}

/// Starts a transaction `xid` at tick `now`.
pub fn dhcp_begin(xid: u32, now: u64) -> (r: (DhcpPhase, DhcpAction))
    ensures
        r == begin_spec(xid, now),
{
    (DhcpPhase::Offering { xid, start: now }, DhcpAction::Discover(xid))
}

/// Whether reading the datagram in this phase would fault (see `datagram_faults`).
pub fn dhcp_datagram_faults(phase: DhcpPhase, payload: &[u8]) -> (r: bool)
    ensures
        r == datagram_faults(phase, payload@),
{
    match phase {
        DhcpPhase::Offering { xid, .. } => crate::net::ipv4::transport::udp::dhcp::protocol::check_offer_faults(payload, xid),
        DhcpPhase::Acking { xid, .. } => crate::net::ipv4::transport::udp::dhcp::protocol::check_ack_faults(payload, xid),
        _ => false,
    }
}

/// Handles a datagram received on the client port at tick `now` (see `datagram_spec`).
pub fn dhcp_on_datagram(phase: DhcpPhase, payload: &[u8], now: u64) -> (r: (DhcpPhase, DhcpAction))
    requires
        !datagram_faults(phase, payload@),
    ensures
        r == datagram_spec(phase, payload@, now),
{
    match phase {
        DhcpPhase::Offering { xid, start } => match parse_offer(payload, xid) {
            Some((ip, server)) => (
                DhcpPhase::Acking { xid, start: now },
                DhcpAction::Request { xid, requested_ip: ip, server_ip: server },
            ),
            None => (phase, DhcpAction::Continue),
        },
        DhcpPhase::Acking { xid, start } => match parse_ack(payload, xid) {
            Some((ip, mask, gateway, dns)) => (DhcpPhase::Configured, DhcpAction::Configure { ip, mask, gateway, dns }),
            None => (phase, DhcpAction::Continue),
        },
        _ => (phase, DhcpAction::Continue),
    }
}

/// Polls at tick `now`, which is not before the phase's start (see `poll_spec`).
pub fn dhcp_on_poll(phase: DhcpPhase, now: u64) -> (r: (DhcpPhase, DhcpAction))
    requires
        phase matches DhcpPhase::Offering { start, .. } ==> start <= now,
        phase matches DhcpPhase::Acking { start, .. } ==> start <= now,
    ensures
        r == poll_spec(phase, now),
{
    match phase {
        DhcpPhase::Offering { xid, start } | DhcpPhase::Acking { xid, start } => {
            if now - start > ANSWER_TIMEOUT {
                (DhcpPhase::Start, DhcpAction::Sleep(RETRY_DELAY))
            } else {
                (phase, DhcpAction::Sleep(POLL_INTERVAL))
            }
        },
        DhcpPhase::Configured => (phase, DhcpAction::Sleep(IDLE_INTERVAL)),
        DhcpPhase::Start => (phase, DhcpAction::Continue),
    }
}

/// Once configured the client stays configured, whatever it receives or however long it
/// waits.
pub proof fn lemma_configured_is_final(payload: Seq<u8>, now: u64)
    ensures
        datagram_spec(DhcpPhase::Configured, payload, now).0 == DhcpPhase::Configured,
        poll_spec(DhcpPhase::Configured, now).0 == DhcpPhase::Configured,
{
}

/// A matching OFFER and then a matching ACK configure the client with what the ACK assigns.
pub proof fn lemma_offer_then_ack_configures(xid: u32, t0: u64, offer: Seq<u8>, t1: u64, ack: Seq<u8>, t2: u64)
    requires
        offer_spec(offer, xid) is Some,
        ack_spec(ack, xid) is Some,
    ensures
        ({
            let p1 = datagram_spec(begin_spec(xid, t0).0, offer, t1).0;
            let (p2, a2) = datagram_spec(p1, ack, t2);
            let (ip, mask, gateway, dns) = ack_spec(ack, xid).unwrap();
            p2 == DhcpPhase::Configured && a2 == (DhcpAction::Configure { ip, mask, gateway, dns })
        }),
{
}

} // verus!
