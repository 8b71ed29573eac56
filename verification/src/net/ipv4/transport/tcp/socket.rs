//! TCP connections: the per-connection state machine, the table of open connections, and
//! the periodic retransmission and sending of queued data.
use vstd::prelude::*;
use std::collections::VecDeque;
use vstd::math::min;
use crate::net::checksum::MAX_SUM_LEN;
use crate::net::state::{Network, NetView};
use crate::net::ipv4::protocol::{send, ipv4_send_spec, can_send_to};
use crate::net::ipv4::transport::tcp::packet::{
    TcpHeader, tcp_header_bytes, tcp_with_checksum, tcp_checksum, tcp_new, tcp_header_from,
    segment_checksum_ok, verify_segment_checksum, PROTOCOL, HEADER_LEN,
};
use crate::net::ipv4::transport::tcp::packet::flags::{FIN, SYN, ACK, PSH};
use crate::net::wire::{swap16, swap32, swap_u16, swap_u32, push_bytes, eq4};

verus! {

pub const SYN_RETRANSMIT_INTERVAL: u32 = 500;
pub const DATA_RETRANSMIT_INTERVAL: u32 = 1000;
pub const MSS: usize = 536;
/// Upper bound on the congestion window and queue limit that keeps window arithmetic in range.
pub const CWND_LIMIT: u32 = 0xFFFB_0000;

#[derive(Clone, Copy, PartialEq, Eq, Debug, Structural)]
pub enum TcpState {
    Closed,
    Listen,
    SynSent,
    SynReceived,
    Established,
    FinWait1,
    FinWait2,
    Closing,
    TimeWait,
    CloseWait,
    LastAck,
}

#[derive(Debug, Clone, Copy, PartialEq, Eq, Structural)]
pub enum TcpError {
    NotReady,
    WrongState,
    BufferFull,
}

#[derive(Hash, Eq, PartialEq, Clone, Copy, PartialOrd, Ord, Debug)]
pub struct TcpTuple {
    pub local_port: u16,
    pub remote_ip: [u8; 4],
    pub remote_port: u16,
}

pub struct TcpSocket {
    pub tuple: TcpTuple,
    pub state: TcpState,
    pub send_unacked: u32,
    pub local_seq: u32,
    pub remote_seq: u32,
    pub rx_queue: VecDeque<u8>,
    pub tx_queue: VecDeque<u8>,
    pub retransmit_ticks: u32,
    pub max_queue_size: usize,
    pub cwnd: u32,
    pub ssthresh: u32,
}

/// A connection's state with its queues as sequences.
#[verifier::ext_equal]
pub struct TcpSocketView {
    pub tuple: TcpTuple,
    pub state: TcpState,
    pub send_unacked: u32,
    pub local_seq: u32,
    pub remote_seq: u32,
    pub rx: Seq<u8>,
    pub tx: Seq<u8>,
    pub retransmit_ticks: u32,
    pub max_queue_size: usize,
    pub cwnd: u32,
    pub ssthresh: u32,
}

impl View for TcpSocket {
    type V = TcpSocketView;

    open spec fn view(&self) -> TcpSocketView {
        TcpSocketView {
            tuple: self.tuple,
            state: self.state,
            send_unacked: self.send_unacked,
            local_seq: self.local_seq,
            remote_seq: self.remote_seq,
            rx: self.rx_queue@,
            tx: self.tx_queue@,
            retransmit_ticks: self.retransmit_ticks,
            max_queue_size: self.max_queue_size,
            cwnd: self.cwnd,
            ssthresh: self.ssthresh,
        }
    }
}

/// The window arithmetic stays in range: the congestion window and the queue limit are
/// positive and at most `CWND_LIMIT`.
pub open spec fn socket_wf(m: TcpSocketView) -> bool {
    &&& 0 < m.cwnd <= CWND_LIMIT
    &&& 0 < m.max_queue_size <= CWND_LIMIT
}

/// Room left in the send queue.
pub open spec fn queue_space(m: TcpSocketView) -> int {
    if m.max_queue_size >= m.tx.len() { m.max_queue_size - m.tx.len() } else { 0 }
}

/// Bytes sent but not yet acknowledged.
pub open spec fn sent_len(m: TcpSocketView) -> nat {
    m.local_seq.wrapping_sub(m.send_unacked) as nat
}

/// What `pop_front` repeated `n` times leaves of a queue.
pub open spec fn drop_front(q: Seq<u8>, n: nat) -> Seq<u8> {
    if n <= q.len() { q.skip(n as int) } else { Seq::empty() }
}

/// The congestion window after an acknowledgement: slow start below the threshold,
/// congestion avoidance above, capped by the queue limit.
pub open spec fn grown_cwnd(m: TcpSocketView) -> u32 {
    let c: int = if m.cwnd < m.ssthresh { m.cwnd + MSS } else { m.cwnd + (MSS * MSS) / (m.cwnd as int) };
    if c < m.max_queue_size { c as u32 } else { m.max_queue_size as u32 }
}

/// Whether an acknowledgement number acknowledges new, previously sent data.
pub open spec fn acks_new_data(m: TcpSocketView, ack_num: u32) -> bool {
    let b = ack_num.wrapping_sub(m.send_unacked) as nat;
    b > 0 && b <= sent_len(m)
}

/// The state machine on a segment received for this connection: the new state, and the
/// (sequence, acknowledgement, flags) of the empty segment to answer with, if any.
pub open spec fn on_segment_spec(m: TcpSocketView, flags: u8, seq_num: u32, ack_num: u32, payload: Seq<u8>)
    -> (TcpSocketView, Option<(u32, u32, u8)>)
{
    match m.state {
        TcpState::SynSent => {
            if flags & (SYN | ACK) != (SYN | ACK) {
                (m, None)
            } else {
                let m1 = TcpSocketView {
                    remote_seq: seq_num.wrapping_add(1),
                    send_unacked: ack_num,
                    local_seq: ack_num,
                    state: TcpState::Established,
                    ..m
                };
                (m1, Some((ack_num, m1.remote_seq, ACK)))
            }
        },
        TcpState::Established => {
            let m1 = if flags & ACK != 0 && acks_new_data(m, ack_num) {
                TcpSocketView {
                    tx: drop_front(m.tx, ack_num.wrapping_sub(m.send_unacked) as nat),
                    cwnd: grown_cwnd(m),
                    send_unacked: ack_num,
                    retransmit_ticks: 0,
                    ..m
                }
            } else {
                m
            };
            let m2 = if payload.len() > 0 {
                TcpSocketView {
                    rx: m1.rx + payload,
                    remote_seq: m1.remote_seq.wrapping_add(payload.len() as u32),
                    ..m1
                }
            } else {
                m1
            };
            if flags & FIN != 0 {
                let m3 = TcpSocketView { remote_seq: m2.remote_seq.wrapping_add(1), state: TcpState::CloseWait, ..m2 };
                (m3, Some((m3.local_seq, m3.remote_seq, ACK)))
            } else if payload.len() > 0 {
                (m2, Some((m2.local_seq, m2.remote_seq, ACK)))
            } else {
                (m2, None)
            }
        },
        TcpState::FinWait1 => {
            if flags & ACK != 0 && ack_num == m.local_seq {
                (TcpSocketView { state: TcpState::FinWait2, ..m }, None)
            } else {
                (m, None)
            }
        },
        TcpState::FinWait2 => {
            if flags & FIN != 0 {
                let m1 = TcpSocketView { remote_seq: m.remote_seq.wrapping_add(1), state: TcpState::Closed, ..m };
                (m1, Some((m1.local_seq, m1.remote_seq, ACK)))
            } else {
                (m, None)
            }
        },
        TcpState::LastAck => {
            if flags & ACK != 0 && acks_new_data(m, ack_num) {
                (
                    TcpSocketView {
                        tx: drop_front(m.tx, ack_num.wrapping_sub(m.send_unacked) as nat),
                        send_unacked: ack_num,
                        retransmit_ticks: 0,
                        ..m
                    },
                    None,
                )
            } else {
                (m, None)
            }
        },
        _ => (m, None),
    }
}

/// A segment to send: sequence and acknowledgement numbers, flags and payload.
pub struct Segment {
    pub seq: u32,
    pub ack: u32,
    pub flags: u8,
    pub payload: Seq<u8>,
}

/// Adding to a 32-bit sequence number wraps around modulo 2^32.
proof fn lemma_wrapping_add_mod(x: u32, y: u32)
    ensures
        x.wrapping_add(y) as int == (x as int + y as int) % 0x1_0000_0000,
{
    let s = x as int + y as int;
    if s > u32::MAX {
        vstd::arithmetic::div_mod::lemma_fundamental_div_mod(s, 0x1_0000_0000);
        assert(s / 0x1_0000_0000 == 1) by {
            vstd::arithmetic::div_mod::lemma_div_is_ordered(0x1_0000_0000, s, 0x1_0000_0000);
            vstd::arithmetic::div_mod::lemma_div_is_ordered(s, 0x2_0000_0000, 0x1_0000_0000);
        }
    } else {
        vstd::arithmetic::div_mod::lemma_small_mod(s as nat, 0x1_0000_0000);
    }
}

/// The receiving law of an established connection: every segment's payload, FIN or not, is
/// appended to the receive queue, and the expected sequence number advances by the payload's
/// length plus one for a FIN (modulo 2^32). A FIN moves the connection to CloseWait; a segment
/// with data or a FIN is acknowledged up to the new expected sequence number from the
/// unchanged send sequence, and any other segment gets no answer.
pub proof fn lemma_established_receives(m: TcpSocketView, flags: u8, seq_num: u32, ack_num: u32, payload: Seq<u8>)
    requires
        m.state == TcpState::Established,
        payload.len() <= u32::MAX,
    ensures
        ({
            let (r, reply) = on_segment_spec(m, flags, seq_num, ack_num, payload);
            let fin: int = if flags & FIN != 0 { 1 } else { 0 };
            &&& r.rx == m.rx + payload
            &&& r.remote_seq as int == (m.remote_seq as int + payload.len() + fin) % 0x1_0000_0000
            &&& r.state == (if fin == 1 { TcpState::CloseWait } else { TcpState::Established })
            &&& r.local_seq == m.local_seq
            &&& r.tuple == m.tuple
            &&& (payload.len() > 0 || fin == 1) ==> reply == Some((m.local_seq, r.remote_seq, ACK))
            &&& (payload.len() == 0 && fin == 0) ==> reply is None
        }),
{
    let n = payload.len() as u32;
    let mid = m.remote_seq.wrapping_add(n);
    lemma_wrapping_add_mod(m.remote_seq, n);
    lemma_wrapping_add_mod(mid, 1);
    if payload.len() == 0 {
        vstd::arithmetic::div_mod::lemma_small_mod(m.remote_seq as nat, 0x1_0000_0000);
        vstd::arithmetic::div_mod::lemma_add_mod_noop(m.remote_seq as int, 1, 0x1_0000_0000);
        vstd::arithmetic::div_mod::lemma_small_mod(1, 0x1_0000_0000);
    } else {
        vstd::arithmetic::div_mod::lemma_add_mod_noop(m.remote_seq as int + payload.len(), 1, 0x1_0000_0000);
        vstd::arithmetic::div_mod::lemma_small_mod(1, 0x1_0000_0000);
        vstd::arithmetic::div_mod::lemma_mod_twice(m.remote_seq as int + payload.len(), 0x1_0000_0000);
    }
}

/// Subtracting 32-bit sequence numbers wraps around modulo 2^32.
proof fn lemma_wrapping_sub_mod(x: u32, y: u32)
    ensures
        x.wrapping_sub(y) as int == (x as int - y as int) % 0x1_0000_0000,
{
    let d = x as int - y as int;
    if d < 0 {
        vstd::arithmetic::div_mod::lemma_mod_add_multiples_vanish(d, 0x1_0000_0000);
        vstd::arithmetic::div_mod::lemma_small_mod((d + 0x1_0000_0000) as nat, 0x1_0000_0000);
    } else {
        vstd::arithmetic::div_mod::lemma_small_mod(d as nat, 0x1_0000_0000);
    }
}

/// The acknowledgement law of a (well-formed) established connection: with `a` the bytes the ACK number
/// acknowledges and `sent` the bytes in flight (both modulo 2^32), an ACK with
/// `0 < a <= sent` drops `a` bytes from the front of the send queue, moves the unacknowledged
/// mark to the ACK number, resets the retransmission timer and grows the congestion window
/// (by one segment below the slow-start threshold, by MSS*MSS/cwnd above it, capped by the
/// queue limit); any other segment leaves all four as they were. The threshold and the send
/// sequence never change on receipt.
pub proof fn lemma_established_acknowledges(m: TcpSocketView, flags: u8, seq_num: u32, ack_num: u32, payload: Seq<u8>)
    requires
        m.state == TcpState::Established,
        socket_wf(m),
    ensures
        ({
            let r = on_segment_spec(m, flags, seq_num, ack_num, payload).0;
            let a: int = (ack_num as int - m.send_unacked as int) % 0x1_0000_0000;
            let sent: int = (m.local_seq as int - m.send_unacked as int) % 0x1_0000_0000;
            let grown: int = if m.cwnd < m.ssthresh { m.cwnd + 536 } else { m.cwnd + 287296int / (m.cwnd as int) };
            &&& r.ssthresh == m.ssthresh
            &&& r.local_seq == m.local_seq
            &&& r.max_queue_size == m.max_queue_size
            &&& (flags & ACK != 0 && 0 < a <= sent) ==> {
                &&& r.tx == (if a <= m.tx.len() { m.tx.skip(a) } else { Seq::empty() })
                &&& r.send_unacked == ack_num
                &&& r.retransmit_ticks == 0
                &&& r.cwnd as int == (if grown < m.max_queue_size { grown } else { m.max_queue_size as int })
            }
            &&& !(flags & ACK != 0 && 0 < a <= sent) ==> {
                &&& r.tx == m.tx
                &&& r.send_unacked == m.send_unacked
                &&& r.retransmit_ticks == m.retransmit_ticks
                &&& r.cwnd == m.cwnd
            }
        }),
{
    lemma_wrapping_sub_mod(ack_num, m.send_unacked);
    lemma_wrapping_sub_mod(m.local_seq, m.send_unacked);
}

/// The handshake law: a connection waiting for the SYN-ACK (SynSent) that receives a
/// segment with both SYN and ACK becomes established, expects the byte after the server's
/// initial sequence number, takes the ACK number as its send sequence, and acknowledges the
/// server's SYN; any other segment changes nothing and is not answered.
pub proof fn lemma_syn_sent_handshake(m: TcpSocketView, flags: u8, seq_num: u32, ack_num: u32, payload: Seq<u8>)
    requires
        m.state == TcpState::SynSent,
    ensures
        ({
            let (r, reply) = on_segment_spec(m, flags, seq_num, ack_num, payload);
            &&& (flags & SYN != 0 && flags & ACK != 0) ==> {
                &&& r.state == TcpState::Established
                &&& r.remote_seq as int == (seq_num as int + 1) % 0x1_0000_0000
                &&& r.send_unacked == ack_num && r.local_seq == ack_num
                &&& r.rx == m.rx && r.tx == m.tx && r.tuple == m.tuple
                &&& reply == Some((ack_num, r.remote_seq, ACK))
            }
            &&& !(flags & SYN != 0 && flags & ACK != 0) ==> r == m && reply is None
        }),
{
    lemma_wrapping_add_mod(seq_num, 1);
    vstd::arithmetic::div_mod::lemma_small_mod(1, 0x1_0000_0000);
    assert((flags & (SYN | ACK) == (SYN | ACK)) == (flags & SYN != 0 && flags & ACK != 0)) by (bit_vector);
}

/// Whether a tick's timer increments stay within `u32`: the timer advances only while data
/// is unacknowledged or a FIN is pending, and by one more in SynSent.
pub open spec fn tick_fits(m: TcpSocketView) -> bool {
    let closing = m.state == TcpState::FinWait1 || m.state == TcpState::LastAck;
    (sent_len(m) > 0 || closing) ==> if m.state == TcpState::SynSent {
        m.retransmit_ticks <= u32::MAX - 2
    } else {
        m.retransmit_ticks <= u32::MAX - 1
    }
}

/// What one tick of the retransmission timer does to a connection, and the segment it sends.
pub open spec fn tick_spec(m: TcpSocketView) -> (TcpSocketView, Option<Segment>) {
    let closing = m.state == TcpState::FinWait1 || m.state == TcpState::LastAck;
    let rt1: u32 = if sent_len(m) > 0 || closing { (m.retransmit_ticks + 1) as u32 } else { 0 };
    let m1 = TcpSocketView { retransmit_ticks: rt1, ..m };
    match m.state {
        TcpState::SynSent => {
            let rt2 = (rt1 + 1) as u32;
            if rt2 >= SYN_RETRANSMIT_INTERVAL {
                (
                    TcpSocketView { retransmit_ticks: 0, ..m1 },
                    Some(Segment { seq: m.send_unacked, ack: 0, flags: SYN, payload: Seq::empty() }),
                )
            } else {
                (TcpSocketView { retransmit_ticks: rt2, ..m1 }, None)
            }
        },
        TcpState::Established => {
            let sent = sent_len(m);
            let unsent: nat = if m.tx.len() >= sent { (m.tx.len() - sent) as nat } else { 0 };
            if rt1 >= DATA_RETRANSMIT_INTERVAL {
                let half = sent / 2;
                let thresh = if half > 2 * MSS { half } else { 2 * MSS as nat };
                let n = if sent < MSS { sent } else { MSS as nat };
                (
                    TcpSocketView { retransmit_ticks: 0, ssthresh: thresh as u32, cwnd: MSS as u32, ..m1 },
                    Some(Segment { seq: m.send_unacked, ack: m.remote_seq, flags: ACK | PSH, payload: m.tx.take(min(n as int, m.tx.len() as int)) }),
                )
            } else if sent >= m.cwnd {
                (m1, None)
            } else {
                let free = (m.cwnd - sent) as nat;
                let n = min(min(unsent as int, MSS as int), free as int) as nat;
                if n > 0 {
                    (
                        TcpSocketView { local_seq: m.local_seq.wrapping_add(n as u32), ..m1 },
                        Some(Segment { seq: m.local_seq, ack: m.remote_seq, flags: ACK | PSH, payload: m.tx.subrange(sent as int, (sent + n) as int) }),
                    )
                } else {
                    (m1, None)
                }
            }
        },
        TcpState::FinWait1 | TcpState::LastAck => {
            if rt1 >= DATA_RETRANSMIT_INTERVAL {
                (
                    TcpSocketView { retransmit_ticks: 0, ..m1 },
                    Some(Segment { seq: m.local_seq.wrapping_sub(1), ack: m.remote_seq, flags: FIN | ACK, payload: Seq::empty() }),
                )
            } else {
                (m1, None)
            }
        },
        _ => (m1, None),
    }
}

impl TcpSocket {
    /// A closed connection to `remote_ip:remote_port` from an ephemeral local port chosen by
    /// `random` (49152 to 65535).
    fn new(remote_ip: &[u8; 4], remote_port: u16, random: u16) -> (r: Self)
        ensures
            r@.tuple == (TcpTuple { local_port: (49152 + random % 16384) as u16, remote_ip: *remote_ip, remote_port }),
            r@.state == TcpState::Closed,
            r@.send_unacked == 0 && r@.local_seq == 0 && r@.remote_seq == 0,
            r@.rx.len() == 0 && r@.tx.len() == 0,
            r@.retransmit_ticks == 0,
            r@.max_queue_size == 65536,
            r@.cwnd == MSS,
            r@.ssthresh == u32::MAX,
            socket_wf(r@),
    {
        let tuple = TcpTuple { local_port: 49152 + random % 16384, remote_ip: *remote_ip, remote_port };
        Self {
            tuple,
            state: TcpState::Closed,
            send_unacked: 0,
            local_seq: 0,
            remote_seq: 0,
            rx_queue: VecDeque::new(),
            tx_queue: VecDeque::new(),
            retransmit_ticks: 0,
            max_queue_size: 65536,
            cwnd: 536,
            ssthresh: u32::MAX,
        }
    }

    /// Moves received bytes into `buffer`, as many as fit; returns how many.
    pub fn read(&mut self, buffer: &mut [u8]) -> (n: usize)
        ensures
            n == min(old(buffer)@.len() as int, old(self)@.rx.len() as int),
            final(buffer)@ == old(self)@.rx.take(n as int) + old(buffer)@.skip(n as int),
            final(self)@ == (TcpSocketView { rx: old(self)@.rx.skip(n as int), ..old(self)@ }),
    {
        let mut n: usize = 0;
        let ghost rx0 = self.rx_queue@;
        let ghost buf0 = buffer@;
        assert(self@ =~= (TcpSocketView { rx: rx0.skip(0), ..old(self)@ }));
        assert(buffer@ =~= rx0.take(0) + buf0.skip(0));
        while n < buffer.len()
            invariant_except_break
                n <= buf0.len(),
                n <= rx0.len(),
                buffer@.len() == buf0.len(),
                buffer@ == rx0.take(n as int) + buf0.skip(n as int),
                self.rx_queue@ == rx0.skip(n as int),
                self@ == (TcpSocketView { rx: rx0.skip(n as int), ..old(self)@ }),
            ensures
                n == min(buf0.len() as int, rx0.len() as int),
                buffer@ == rx0.take(n as int) + buf0.skip(n as int),
                self@ == (TcpSocketView { rx: rx0.skip(n as int), ..old(self)@ }),
            decreases buf0.len() - n,
        {
            match self.rx_queue.pop_front() {
                Some(byte) => {
                    buffer[n] = byte;
                    n = n + 1;
                    assert(buffer@ =~= rx0.take(n as int) + buf0.skip(n as int));
                    assert(self@ =~= (TcpSocketView { rx: rx0.skip(n as int), ..old(self)@ }));
                },
                None => {
                    break;
                },
            }
        }
        n
    }

    /// Queues as much of `data` for sending as the queue limit leaves room for.
    pub fn write(&mut self, data: &[u8])
        ensures
            final(self)@ == (TcpSocketView {
                tx: old(self)@.tx + data@.take(min(data@.len() as int, queue_space(old(self)@))),
                ..old(self)@
            }),
    {
        if data.len() == 0 {
            assert(self@ =~= (TcpSocketView { tx: old(self)@.tx + data@.take(0), ..old(self)@ }));
            return;
        }
        let space = self.max_queue_size.saturating_sub(self.tx_queue.len());
        let k = if data.len() < space { data.len() } else { space };
        let ghost tx0 = self.tx_queue@;
        let mut i: usize = 0;
        assert(self@ =~= (TcpSocketView { tx: tx0 + data@.take(0), ..old(self)@ }));
        while i < k
            invariant
                i <= k <= data@.len(),
                self@ == (TcpSocketView { tx: tx0 + data@.take(i as int), ..old(self)@ }),
            decreases k - i,
        {
            self.tx_queue.push_back(data[i]);
            i = i + 1;
            assert(self@ =~= (TcpSocketView { tx: tx0 + data@.take(i as int), ..old(self)@ }));
        }
        assert(k == min(data@.len() as int, queue_space(old(self)@)));
    }

    /// Bytes sent but not yet acknowledged.
    fn sent_unacked_len(&self) -> (r: usize)
        ensures
            r == sent_len(self@),
    {
        self.local_seq.wrapping_sub(self.send_unacked) as usize
    }

    /// Drops `n` bytes from the front of the send queue (fewer if it is shorter).
    fn drop_acked(&mut self, n: usize)
        ensures
            final(self)@ == (TcpSocketView { tx: drop_front(old(self)@.tx, n as nat), ..old(self)@ }),
    {
        let ghost tx0 = self.tx_queue@;
        let mut i: usize = 0;
        assert(self@ =~= (TcpSocketView { tx: drop_front(tx0, 0), ..old(self)@ }));
        while i < n
            invariant
                i <= n,
                self@ == (TcpSocketView { tx: drop_front(tx0, i as nat), ..old(self)@ }),
            decreases n - i,
        {
            let _ = self.tx_queue.pop_front();
            proof {
                if i < tx0.len() {
                    assert(self.tx_queue@ =~= tx0.skip(i + 1));
                } else {
                    assert(self.tx_queue@ =~= drop_front(tx0, (i + 1) as nat));
                }
                assert(self@ =~= (TcpSocketView { tx: drop_front(tx0, (i + 1) as nat), ..old(self)@ }));
            }
            i = i + 1;
        }
    }

    /// Appends received bytes to the receive queue.
    fn extend_rx(&mut self, data: &[u8])
        ensures
            final(self)@ == (TcpSocketView { rx: old(self)@.rx + data@, ..old(self)@ }),
    {
        let ghost rx0 = self.rx_queue@;
        let mut i: usize = 0;
        assert(self@ =~= (TcpSocketView { rx: rx0 + data@.take(0), ..old(self)@ }));
        while i < data.len()
            invariant
                i <= data@.len(),
                self@ == (TcpSocketView { rx: rx0 + data@.take(i as int), ..old(self)@ }),
            decreases data@.len() - i,
        {
            self.rx_queue.push_back(data[i]);
            i = i + 1;
            assert(self@ =~= (TcpSocketView { rx: rx0 + data@.take(i as int), ..old(self)@ }));
        }
        assert(data@.take(i as int) =~= data@);
    }

    /// Runs the state machine on a segment received for this connection; returns the
    /// (sequence, acknowledgement, flags) of the empty segment to answer with, if any.
    pub fn on_segment(&mut self, flags: u8, seq_num: u32, ack_num: u32, payload: &[u8]) -> (r: Option<(u32, u32, u8)>)
        requires
            socket_wf(old(self)@),
            payload@.len() <= MAX_SUM_LEN,
        ensures
            (final(self)@, r) == on_segment_spec(old(self)@, flags, seq_num, ack_num, payload@),
            socket_wf(final(self)@),
            final(self)@.tuple == old(self)@.tuple,
    {
        match self.state {
            TcpState::SynSent => {
                if (flags & (SYN | ACK)) != (SYN | ACK) {
                    return None;
                }
                self.remote_seq = seq_num.wrapping_add(1);
                self.send_unacked = ack_num;
                self.local_seq = ack_num;
                self.state = TcpState::Established;
                Some((ack_num, self.remote_seq, ACK))
            },
            TcpState::Established => {
                if (flags & ACK) != 0 {
                    let bytes_acked = ack_num.wrapping_sub(self.send_unacked) as usize;
                    if bytes_acked > 0 && bytes_acked <= self.sent_unacked_len() {
                        let ghost m = self@;
                        self.drop_acked(bytes_acked);
                        if self.cwnd < self.ssthresh {
                            self.cwnd = self.cwnd + MSS as u32;
                        } else {
                            self.cwnd = self.cwnd + (MSS * MSS) as u32 / self.cwnd;
                        }
                        self.send_unacked = ack_num;
                        self.retransmit_ticks = 0;
                        let cap = self.max_queue_size as u32;
                        if cap < self.cwnd {
                            self.cwnd = cap;
                        }
                        assert(self.cwnd == grown_cwnd(m));
                    }
                }
                let mut send_data_ack = false;
                if payload.len() > 0 {
                    self.extend_rx(payload);
                    self.remote_seq = self.remote_seq.wrapping_add(payload.len() as u32);
                    send_data_ack = true;
                }
                if (flags & FIN) != 0 {
                    self.remote_seq = self.remote_seq.wrapping_add(1);
                    self.state = TcpState::CloseWait;
                    Some((self.local_seq, self.remote_seq, ACK))
                } else if send_data_ack {
                    Some((self.local_seq, self.remote_seq, ACK))
                } else {
                    None
                }
            },
            TcpState::FinWait1 => {
                if (flags & ACK) != 0 && ack_num == self.local_seq {
                    self.state = TcpState::FinWait2;
                }
                None
            },
            TcpState::FinWait2 => {
                if (flags & FIN) != 0 {
                    self.remote_seq = self.remote_seq.wrapping_add(1);
                    self.state = TcpState::Closed;
                    Some((self.local_seq, self.remote_seq, ACK))
                } else {
                    None
                }
            },
            TcpState::LastAck => {
                let bytes_acked = ack_num.wrapping_sub(self.send_unacked) as usize;
                if (flags & ACK) != 0 && bytes_acked > 0 && bytes_acked <= self.sent_unacked_len() {
                    self.drop_acked(bytes_acked);
                    self.send_unacked = ack_num;
                    self.retransmit_ticks = 0;
                }
                None
            },
            _ => None,
        }
    }
}

} // verus!

verus! {

/// Lexicographic order of IPv4 addresses.
pub open spec fn ip_lt(a: [u8; 4], b: [u8; 4]) -> bool {
    a[0] < b[0] || (a[0] == b[0] && (a[1] < b[1] || (a[1] == b[1] && (a[2] < b[2] || (a[2] == b[2]
        && a[3] < b[3])))))
}

/// The order of connection tuples: local port, then remote address, then remote port.
pub open spec fn tuple_lt(a: TcpTuple, b: TcpTuple) -> bool {
    a.local_port < b.local_port || (a.local_port == b.local_port && (ip_lt(a.remote_ip, b.remote_ip) || (
    a.remote_ip == b.remote_ip && a.remote_port < b.remote_port)))
}

pub proof fn lemma_tuple_order(a: TcpTuple, b: TcpTuple, c: TcpTuple)
    ensures
        !tuple_lt(a, a),
        tuple_lt(a, b) && tuple_lt(b, c) ==> tuple_lt(a, c),
        tuple_lt(a, b) ==> !tuple_lt(b, a),
        !tuple_lt(a, b) && !tuple_lt(b, a) ==> a == b,
{
    if !tuple_lt(a, b) && !tuple_lt(b, a) {
        assert(a.remote_ip =~= b.remote_ip);
    }
}

/// Whether two tuples are equal.
pub fn tuple_eq(a: &TcpTuple, b: &TcpTuple) -> (r: bool)
    ensures
        r == (*a == *b),
{
    a.local_port == b.local_port && eq4(&a.remote_ip, &b.remote_ip) && a.remote_port == b.remote_port
}

/// Whether `a` orders before `b`.
pub fn tuple_less(a: &TcpTuple, b: &TcpTuple) -> (r: bool)
    ensures
        r == tuple_lt(*a, *b),
{
    if a.local_port != b.local_port {
        return a.local_port < b.local_port;
    }
    let x = a.remote_ip;
    let y = b.remote_ip;
    if x[0] != y[0] {
        return x[0] < y[0];
    }
    if x[1] != y[1] {
        return x[1] < y[1];
    }
    if x[2] != y[2] {
        return x[2] < y[2];
    }
    if x[3] != y[3] {
        return x[3] < y[3];
    }
    assert(x =~= y);
    a.remote_port < b.remote_port
}

/// The connections, sorted by tuple, each with its window arithmetic in range.
pub open spec fn sockets_wf(s: Seq<TcpSocketView>) -> bool {
    &&& forall|i: int, j: int| 0 <= i < j < s.len() ==> tuple_lt(#[trigger] s[i].tuple, #[trigger] s[j].tuple)
    &&& forall|i: int| 0 <= i < s.len() ==> socket_wf(#[trigger] s[i])
}

/// Whether a connection is in the table.
pub open spec fn has(s: Seq<TcpSocketView>, m: TcpSocketView) -> bool {
    exists|i: int| 0 <= i < s.len() && s[i] == m
}

/// The index of the connection with the given tuple.
pub open spec fn index_of(s: Seq<TcpSocketView>, key: TcpTuple) -> Option<int> {
    if exists|i: int| 0 <= i < s.len() && #[trigger] s[i].tuple == key {
        Some(choose|i: int| 0 <= i < s.len() && #[trigger] s[i].tuple == key)
    } else {
        None
    }
}

/// The table of open connections, in tuple order.
pub struct TcpSocketManager {
    sockets: Vec<TcpSocket>,
}

impl View for TcpSocketManager {
    type V = Seq<TcpSocketView>;

    closed spec fn view(&self) -> Seq<TcpSocketView> {
        self.sockets@.map_values(|s: TcpSocket| s@)
    }
}

pub proof fn lemma_index_unique(s: Seq<TcpSocketView>, i: int, key: TcpTuple)
    requires
        sockets_wf(s),
        0 <= i < s.len(),
        s[i].tuple == key,
    ensures
        index_of(s, key) == Some(i),
{
    let j = choose|j: int| 0 <= j < s.len() && #[trigger] s[j].tuple == key;
    if j != i {
        if j < i {
            lemma_tuple_order(s[j].tuple, s[i].tuple, s[i].tuple);
        } else {
            lemma_tuple_order(s[i].tuple, s[j].tuple, s[j].tuple);
        }
    }
}

/// Whether closing the connection with tuple `key` sends a FIN: it is in the table,
/// Established or CloseWait.
pub open spec fn close_sends(s: Seq<TcpSocketView>, key: TcpTuple) -> bool {
    index_of(s, key) matches Some(i) && (s[i].state == TcpState::Established || s[i].state == TcpState::CloseWait)
}

/// Closing the connection with tuple `key` in the table: what `close_socket` returns, the
/// table and the network afterwards. Established goes to FinWait1 and CloseWait to LastAck,
/// with FIN sent, when the interface has an address; otherwise nothing changes.
pub open spec fn close_socket_spec(s: Seq<TcpSocketView>, n: NetView, key: TcpTuple) -> (Option<Result<(), TcpError>>, Seq<TcpSocketView>, NetView) {
    match index_of(s, key) {
        None => (None, s, n),
        Some(i) => {
            let m = s[i];
            if !(m.state == TcpState::Established || m.state == TcpState::CloseWait) {
                (Some(Err(TcpError::WrongState)), s, n)
            } else if !tcp_ready(n) {
                (Some(Err(TcpError::NotReady)), s, n)
            } else {
                (
                    Some(Ok(())),
                    s.update(i, TcpSocketView {
                        local_seq: m.local_seq.wrapping_add(1),
                        state: if m.state == TcpState::Established { TcpState::FinWait1 } else { TcpState::LastAck },
                        ..m
                    }),
                    send_segment_spec(n, n.iface.ip_addr.unwrap(), m.tuple, bare(m.local_seq, m.remote_seq, FIN | ACK)),
                )
            }
        },
    }
}

/// Replacing a connection by one with the same tuple keeps the table in order.
proof fn lemma_replace_keeps_order(s: Seq<TcpSocketView>, i: int, m: TcpSocketView)
    requires
        sockets_wf(s),
        0 <= i < s.len(),
        m.tuple == s[i].tuple,
        socket_wf(m),
    ensures
        sockets_wf(s.update(i, m)),
{
    let t = s.update(i, m);
    assert forall|a: int, b: int| 0 <= a < b < t.len() implies tuple_lt(#[trigger] t[a].tuple, #[trigger] t[b].tuple) by {
        assert(t[a].tuple == s[a].tuple && t[b].tuple == s[b].tuple);
    }
}

impl TcpSocketManager {
    pub closed spec fn wf(&self) -> bool {
        sockets_wf(self@)
    }

    /// An empty table.
    pub fn new() -> (r: Self)
        ensures
            r.wf(),
            r@.len() == 0,
    {
        let r = TcpSocketManager { sockets: Vec::new() };
        assert(r@ =~= Seq::<TcpSocketView>::empty());
        r
    }

    /// Number of open connections.
    pub fn len(&self) -> (r: usize)
        ensures
            r == self@.len(),
    {
        self.sockets.len()
    }

    /// The connection at position `i` of the table.
    pub fn socket_at(&self, i: usize) -> (r: &TcpSocket)
        requires
            i < self@.len(),
        ensures
            r@ == self@[i as int],
    {
        &self.sockets[i]
    }

    /// The index of the connection with tuple `key`, if any.
    pub fn find(&self, key: &TcpTuple) -> (r: Option<usize>)
        requires
            self.wf(),
        ensures
            match r {
                Some(i) => index_of(self@, *key) == Some(i as int),
                None => index_of(self@, *key) is None,
            },
    {
        let mut i: usize = 0;
        while i < self.sockets.len()
            invariant
                i <= self@.len(),
                self@.len() == self.sockets@.len(),
                sockets_wf(self@),
                forall|k: int| 0 <= k < i ==> #[trigger] self@[k].tuple != *key,
            decreases self@.len() - i,
        {
            assert(self@[i as int] == self.sockets@[i as int]@);
            if tuple_eq(&self.sockets[i].tuple, key) {
                proof {
                    lemma_index_unique(self@, i as int, *key);
                }
                return Some(i);
            }
            i = i + 1;
        }
        None
    }

    /// The state of the connection with tuple `key`, if any.
    pub fn state_of(&self, key: &TcpTuple) -> (r: Option<TcpState>)
        requires
            self.wf(),
        ensures
            match index_of(self@, *key) {
                Some(i) => r == Some(self@[i].state),
                None => r is None,
            },
    {
        match self.find(key) {
            Some(i) => {
                assert(self@[i as int] == self.sockets@[i as int]@);
                Some(self.sockets[i].state)
            },
            None => None,
        }
    }

    /// Adds a connection, replacing one with the same tuple.
    pub fn insert(&mut self, socket: TcpSocket)
        requires
            old(self).wf(),
            socket_wf(socket@),
        ensures
            final(self).wf(),
            forall|x: TcpSocketView| has(final(self)@, x) <==> (x == socket@ || (has(old(self)@, x) && x.tuple != socket@.tuple)),
    {
        let ghost s = self@;
        let ghost m = socket@;
        let mut p: usize = 0;
        while p < self.sockets.len() && tuple_less(&self.sockets[p].tuple, &socket.tuple)
            invariant
                p <= s.len(),
                self@ == s,
                m == socket@,
                sockets_wf(s),
                socket_wf(m),
                self.sockets@.len() == s.len(),
                forall|k: int| 0 <= k < p ==> tuple_lt(#[trigger] s[k].tuple, m.tuple),
            decreases s.len() - p,
        {
            assert(s[p as int] == self.sockets@[p as int]@);
            assert(tuple_lt(s[p as int].tuple, m.tuple));
            p = p + 1;
        }
        if p < self.sockets.len() && tuple_eq(&self.sockets[p].tuple, &socket.tuple) {
            assert(s[p as int] == self.sockets@[p as int]@);
            self.sockets.set(p, socket);
            proof {
                assert(self@ =~= s.update(p as int, m));
                assert forall|i: int, j: int| 0 <= i < j < self@.len() implies tuple_lt(#[trigger] self@[i].tuple, #[trigger] self@[j].tuple) by {
                    assert(s[i].tuple == self@[i].tuple && s[j].tuple == self@[j].tuple);
                }
                assert forall|x: TcpSocketView| #[trigger] has(self@, x) implies (x == m || (has(s, x) && x.tuple != m.tuple)) by {
                    let i = choose|i: int| 0 <= i < self@.len() && self@[i] == x;
                    if i != p {
                        assert(s[i] == x);
                        if i < p {
                            lemma_tuple_order(s[i].tuple, s[p as int].tuple, s[p as int].tuple);
                        } else {
                            lemma_tuple_order(s[p as int].tuple, s[i].tuple, s[i].tuple);
                        }
                        assert(has(s, x));
                    }
                }
                assert forall|x: TcpSocketView| x == m || (has(s, x) && x.tuple != m.tuple) implies #[trigger] has(self@, x) by {
                    if x == m {
                        assert(self@[p as int] == x);
                    } else {
                        let i = choose|i: int| 0 <= i < s.len() && s[i] == x;
                        assert(i != p);
                        assert(self@[i] == x);
                    }
                }
            }
            assert(forall|x: TcpSocketView| has(self@, x) <==> (x == m || (has(s, x) && x.tuple != m.tuple)));
        } else {
            proof {
                if p < s.len() {
                    assert(s[p as int] == self.sockets@[p as int]@);
                    lemma_tuple_order(s[p as int].tuple, m.tuple, m.tuple);
                    assert(tuple_lt(m.tuple, s[p as int].tuple));
                }
            }
            self.sockets.insert(p, socket);
            proof {
                assert(self@ =~= s.insert(p as int, m));
                assert forall|i: int, j: int| 0 <= i < j < self@.len() implies tuple_lt(#[trigger] self@[i].tuple, #[trigger] self@[j].tuple) by {
                    if j < p {
                    } else if i < p && j == p {
                    } else if i < p && j > p {
                        assert(self@[j] == s[j - 1]);
                        lemma_tuple_order(s[i].tuple, m.tuple, s[p as int].tuple);
                        if j - 1 > p {
                            lemma_tuple_order(m.tuple, s[p as int].tuple, s[j - 1].tuple);
                        }
                        lemma_tuple_order(s[i].tuple, m.tuple, s[j - 1].tuple);
                    } else if i == p {
                        assert(self@[j] == s[j - 1]);
                        if j - 1 > p {
                            lemma_tuple_order(m.tuple, s[p as int].tuple, s[j - 1].tuple);
                        }
                    } else {
                        assert(self@[i] == s[i - 1] && self@[j] == s[j - 1]);
                    }
                }
                assert forall|x: TcpSocketView| #[trigger] has(self@, x) implies (x == m || (has(s, x) && x.tuple != m.tuple)) by {
                    let i = choose|i: int| 0 <= i < self@.len() && self@[i] == x;
                    if i < p {
                        assert(s[i] == x);
                        lemma_tuple_order(s[i].tuple, m.tuple, m.tuple);
                        assert(has(s, x));
                    } else if i > p {
                        assert(s[i - 1] == x);
                        if i - 1 > p {
                            lemma_tuple_order(m.tuple, s[p as int].tuple, s[i - 1].tuple);
                        }
                        lemma_tuple_order(m.tuple, s[i - 1].tuple, s[i - 1].tuple);
                        assert(has(s, x));
                    }
                }
                assert forall|x: TcpSocketView| x == m || (has(s, x) && x.tuple != m.tuple) implies #[trigger] has(self@, x) by {
                    if x == m {
                        assert(self@[p as int] == x);
                    } else {
                        let i = choose|i: int| 0 <= i < s.len() && s[i] == x;
                        if i < p {
                            assert(self@[i] == x);
                        } else {
                            assert(self@[i + 1] == x);
                        }
                    }
                }
            }
            assert(forall|x: TcpSocketView| has(self@, x) <==> (x == m || (has(s, x) && x.tuple != m.tuple)));
        }
        assert(forall|x: TcpSocketView| has(self@, x) <==> (x == m || (has(s, x) && x.tuple != m.tuple)));
        assert(s == old(self)@);
    }

    /// Moves received bytes of the connection with tuple `key` into `buffer`, as many as fit;
    /// returns how many, or `None` (and changes nothing) when there is no such connection.
    pub fn read_from(&mut self, key: &TcpTuple, buffer: &mut [u8]) -> (r: Option<usize>)
        requires
            old(self).wf(),
        ensures
            final(self).wf(),
            match index_of(old(self)@, *key) {
                None => r is None && final(self)@ == old(self)@ && final(buffer)@ == old(buffer)@,
                Some(i) => {
                    let m = old(self)@[i];
                    let n = min(old(buffer)@.len() as int, m.rx.len() as int);
                    &&& r == Some(n as usize)
                    &&& final(buffer)@ == m.rx.take(n) + old(buffer)@.skip(n)
                    &&& final(self)@ == old(self)@.update(i, TcpSocketView { rx: m.rx.skip(n), ..m })
                },
            },
    {
        let i = match self.find(key) {
            Some(i) => i,
            None => return None,
        };
        let ghost s = self@;
        assert(s[i as int] == self.sockets@[i as int]@);
        let mut sock = self.sockets.remove(i);
        let n = sock.read(buffer);
        self.sockets.insert(i, sock);
        proof {
            assert(self@ =~= s.update(i as int, sock@));
            lemma_replace_keeps_order(s, i as int, sock@);
        }
        Some(n)
    }

    /// Queues `data` for sending on the connection with tuple `key`, as much as its queue limit
    /// leaves room for; `false` (and nothing changes) when there is no such connection.
    pub fn write_to(&mut self, key: &TcpTuple, data: &[u8]) -> (r: bool)
        requires
            old(self).wf(),
        ensures
            final(self).wf(),
            match index_of(old(self)@, *key) {
                None => !r && final(self)@ == old(self)@,
                Some(i) => {
                    let m = old(self)@[i];
                    &&& r
                    &&& final(self)@ == old(self)@.update(i, TcpSocketView {
                        tx: m.tx + data@.take(min(data@.len() as int, queue_space(m))),
                        ..m
                    })
                },
            },
    {
        let i = match self.find(key) {
            Some(i) => i,
            None => return false,
        };
        let ghost s = self@;
        assert(s[i as int] == self.sockets@[i as int]@);
        let mut sock = self.sockets.remove(i);
        sock.write(data);
        self.sockets.insert(i, sock);
        proof {
            assert(self@ =~= s.update(i as int, sock@));
            lemma_replace_keeps_order(s, i as int, sock@);
        }
        true
    }

    /// Starts closing the connection with tuple `key` (see `TcpSocket::close`); `None` when
    /// there is no such connection.
    #[verifier::rlimit(40)]
    pub fn close_socket(&mut self, net: &mut Network, key: &TcpTuple) -> (r: Option<Result<(), TcpError>>)
        requires
            old(self).wf(),
            old(net).wf(),
            tcp_ready(old(net)@) && close_sends(old(self)@, *key) ==> can_send_to(old(net)@, key.remote_ip),
        ensures
            final(self).wf(),
            final(net).wf(),
            (r, final(self)@, final(net)@) == close_socket_spec(old(self)@, old(net)@, *key),
    {
        let i = match self.find(key) {
            Some(i) => i,
            None => return None,
        };
        let ghost s = self@;
        assert(s[i as int] == self.sockets@[i as int]@);
        let mut sock = self.sockets.remove(i);
        let r = sock.close(net);
        self.sockets.insert(i, sock);
        proof {
            assert(self@ =~= s.update(i as int, sock@));
            lemma_replace_keeps_order(s, i as int, sock@);
            if sock@ == s[i as int] {
                assert(self@ =~= s);
            }
        }
        Some(r)
    }

    /// Drops the connection with tuple `key` from the table; `false` when there is none.
    pub fn remove(&mut self, key: &TcpTuple) -> (r: bool)
        requires
            old(self).wf(),
        ensures
            final(self).wf(),
            match index_of(old(self)@, *key) {
                None => !r && final(self)@ == old(self)@,
                Some(i) => r && final(self)@ == old(self)@.remove(i),
            },
    {
        let i = match self.find(key) {
            Some(i) => i,
            None => return false,
        };
        let ghost s = self@;
        self.sockets.remove(i);
        proof {
            assert(self@ =~= s.remove(i as int));
            assert forall|a: int, b: int| 0 <= a < b < self@.len() implies tuple_lt(#[trigger] self@[a].tuple, #[trigger] self@[b].tuple) by {
                let a2 = if a < i { a } else { a + 1 };
                let b2 = if b < i { b } else { b + 1 };
                assert(self@[a] == s[a2] && self@[b] == s[b2]);
            }
            assert forall|a: int| 0 <= a < self@.len() implies socket_wf(#[trigger] self@[a]) by {
                let a2 = if a < i { a } else { a + 1 };
                assert(self@[a] == s[a2]);
            }
        }
        true
    }
}

} // verus!

verus! {

/// The bytes of a segment from `src_ip` on connection `t`, checksum included.
pub open spec fn segment_bytes(src_ip: [u8; 4], t: TcpTuple, seg: Segment) -> Seq<u8> {
    let h = tcp_new(t.local_port, t.remote_port, seg.seq, seg.ack, seg.flags);
    tcp_header_bytes(tcp_with_checksum(h, tcp_checksum(h, src_ip, t.remote_ip, seg.payload))) + seg.payload
}

/// The network after sending a segment on connection `t`.
pub open spec fn send_segment_spec(n: NetView, src_ip: [u8; 4], t: TcpTuple, seg: Segment) -> NetView {
    ipv4_send_spec(n, t.remote_ip, PROTOCOL, segment_bytes(src_ip, t, seg))
}

/// An empty segment.
pub open spec fn bare(seq: u32, ack: u32, flags: u8) -> Segment {
    Segment { seq, ack, flags, payload: Seq::empty() }
}

/// Whether the interface has an address other than 0.0.0.0.
pub open spec fn tcp_ready(n: NetView) -> bool {
    n.iface.ip_addr is Some && n.iface.ip_addr.unwrap() != [0u8, 0u8, 0u8, 0u8]
}

/// The interface addresses agree (queues and tables may differ).
pub open spec fn same_config(a: NetView, b: NetView) -> bool {
    &&& a.iface.ip_addr == b.iface.ip_addr
    &&& a.iface.hw_addr == b.iface.hw_addr
    &&& a.iface.subnet_mask == b.iface.subnet_mask
    &&& a.iface.gateway_ip == b.iface.gateway_ip
}

/// Whether a returned segment is the specified one.
pub open spec fn seg_matches(r: Option<(u32, u32, u8, Vec<u8>)>, s: Option<Segment>) -> bool {
    match (r, s) {
        (Some((q, a, f, p)), Some(g)) => q == g.seq && a == g.ack && f == g.flags && p@ == g.payload,
        (None, None) => true,
        _ => false,
    }
}

/// Sends one segment with the given header fields and payload.
fn send_segment(
    net: &mut Network,
    src_ip: &[u8; 4],
    remote_ip: [u8; 4],
    local_port: u16,
    remote_port: u16,
    seq: u32,
    ack: u32,
    flags: u8,
    payload: &[u8],
)
    requires
        old(net).wf(),
        can_send_to(old(net)@, remote_ip),
        payload@.len() <= MSS,
    ensures
        final(net).wf(),
        final(net)@ == send_segment_spec(
            old(net)@,
            *src_ip,
            TcpTuple { local_port, remote_ip, remote_port },
            Segment { seq, ack, flags, payload: payload@ },
        ),
        same_config(final(net)@, old(net)@),
{
    let mut header = TcpHeader::new(local_port, remote_port, seq, ack, flags);
    header.calculate_checksum(src_ip, &remote_ip, payload);
    let mut packet = header.as_bytes();
    push_bytes(&mut packet, payload);
    send(net, remote_ip, PROTOCOL, packet.as_slice());
}

/// A copy of `q[from..from + count]`.
fn copy_queue(q: &VecDeque<u8>, from: usize, count: usize) -> (r: Vec<u8>)
    requires
        from + count <= q@.len(),
    ensures
        r@ == q@.subrange(from as int, from + count),
{
    let ql = q.len();
    let mut r: Vec<u8> = Vec::new();
    let mut i: usize = 0;
    while i < count
        invariant
            i <= count,
            from + count <= q@.len(),
            ql == q@.len(),
            r@ == q@.subrange(from as int, from + i),
        decreases count - i,
    {
        r.push(q[from + i]);
        i = i + 1;
        assert(r@ =~= q@.subrange(from as int, from + i));
    }
    r
}

/// The timer law of an established connection, with `sent` the bytes in flight (modulo
/// 2^32) and the timer advanced by one while data is in flight (reset to 0 otherwise):
/// once the advanced timer reaches `DATA_RETRANSMIT_INTERVAL`, the oldest unacknowledged
/// bytes (at most one segment) are sent again from the unacknowledged mark, the timer is
/// reset, the window drops to one segment and the threshold to half the bytes in flight (at
/// least two segments). Otherwise, while the window has room, the next unsent bytes (at most
/// one segment, at most the room left) are sent from the send sequence, which advances past
/// them. Nothing else changes and no other segment is sent.
pub proof fn lemma_established_tick(m: TcpSocketView)
    requires
        m.state == TcpState::Established,
        tick_fits(m),
    ensures
        ({
            let (r, seg) = tick_spec(m);
            let sent: int = (m.local_seq as int - m.send_unacked as int) % 0x1_0000_0000;
            let timer: int = if sent > 0 { m.retransmit_ticks + 1 } else { 0 };
            let unsent: int = if m.tx.len() >= sent { m.tx.len() - sent } else { 0 };
            let room: int = m.cwnd - sent;
            let n: int = min(min(unsent, 536), room);
            &&& r.state == m.state && r.tuple == m.tuple && r.tx == m.tx && r.rx == m.rx
            &&& r.remote_seq == m.remote_seq && r.send_unacked == m.send_unacked
            &&& timer >= 1000 ==> {
                &&& seg == Some(Segment {
                    seq: m.send_unacked,
                    ack: m.remote_seq,
                    flags: ACK | PSH,
                    payload: m.tx.take(min(min(sent, 536), m.tx.len() as int)),
                })
                &&& r.retransmit_ticks == 0 && r.cwnd == 536 && r.local_seq == m.local_seq
                &&& r.ssthresh as int == (if sent / 2 > 1072 { sent / 2 } else { 1072 })
            }
            &&& timer < 1000 ==> {
                &&& r.retransmit_ticks == timer && r.cwnd == m.cwnd && r.ssthresh == m.ssthresh
                &&& (room > 0 && n > 0) ==> {
                    &&& seg == Some(Segment {
                        seq: m.local_seq,
                        ack: m.remote_seq,
                        flags: ACK | PSH,
                        payload: m.tx.subrange(sent, sent + n),
                    })
                    &&& r.local_seq as int == (m.local_seq as int + n) % 0x1_0000_0000
                }
                &&& !(room > 0 && n > 0) ==> seg is None && r.local_seq == m.local_seq
            }
        }),
{
    lemma_wrapping_sub_mod(m.local_seq, m.send_unacked);
    let sent = sent_len(m);
    if sent < m.cwnd {
        let unsent: nat = if m.tx.len() >= sent { (m.tx.len() - sent) as nat } else { 0 };
        let n = min(min(unsent as int, MSS as int), (m.cwnd - sent) as int);
        if n > 0 {
            lemma_wrapping_add_mod(m.local_seq, n as u32);
        }
    }
}

/// The timer law of a connection waiting for the SYN-ACK: the timer advances by two per
/// tick while the SYN is unacknowledged (by one when nothing is in flight); once it reaches
/// `SYN_RETRANSMIT_INTERVAL`, the SYN is sent again from the unacknowledged mark and the timer
/// is reset. Nothing else changes.
pub proof fn lemma_syn_sent_tick(m: TcpSocketView)
    requires
        m.state == TcpState::SynSent,
        tick_fits(m),
    ensures
        ({
            let (r, seg) = tick_spec(m);
            let timer: int = if m.local_seq != m.send_unacked { m.retransmit_ticks + 2 } else { 1 };
            &&& r == TcpSocketView { retransmit_ticks: r.retransmit_ticks, ..m }
            &&& timer >= 500 ==> r.retransmit_ticks == 0 && seg == Some(
                Segment { seq: m.send_unacked, ack: 0, flags: SYN, payload: Seq::empty() },
            )
            &&& timer < 500 ==> r.retransmit_ticks == timer && seg is None
        }),
{
    lemma_wrapping_sub_mod(m.local_seq, m.send_unacked);
}

impl TcpSocket {
    /// Whether the next tick's timer increments fit in `u32` (see `tick_fits`).
    pub fn timer_fits(&self) -> (r: bool)
        ensures
            r == tick_fits(self@),
    {
        let closing = self.state == TcpState::FinWait1 || self.state == TcpState::LastAck;
        if !(self.sent_unacked_len() > 0 || closing) {
            return true;
        }
        match self.state {
            TcpState::SynSent => self.retransmit_ticks <= u32::MAX - 2,
            _ => self.retransmit_ticks <= u32::MAX - 1,
        }
    }

    /// Whether the next tick sends a segment for this connection.
    pub fn tick_sends(&self) -> (r: bool)
        requires
            tick_fits(self@),
        ensures
            r == tick_spec(self@).1 is Some,
    {
        let closing = self.state == TcpState::FinWait1 || self.state == TcpState::LastAck;
        let sent = self.sent_unacked_len();
        let rt1: u32 = if sent > 0 || closing { self.retransmit_ticks + 1 } else { 0 };
        match self.state {
            TcpState::SynSent => rt1 + 1 >= SYN_RETRANSMIT_INTERVAL,
            TcpState::Established => {
                if rt1 >= DATA_RETRANSMIT_INTERVAL {
                    true
                } else if sent >= self.cwnd as usize {
                    false
                } else {
                    let unsent = self.tx_queue.len().saturating_sub(sent);
                    unsent > 0
                }
            },
            TcpState::FinWait1 | TcpState::LastAck => rt1 >= DATA_RETRANSMIT_INTERVAL,
            _ => false,
        }
    }

    /// One tick of the retransmission timer: advances the timer, retransmits on timeout, and
    /// sends new data within the congestion window. Returns the segment to send.
    fn tick(&mut self) -> (r: Option<(u32, u32, u8, Vec<u8>)>)
        requires
            socket_wf(old(self)@),
            tick_fits(old(self)@),
        ensures
            final(self)@ == tick_spec(old(self)@).0,
            seg_matches(r, tick_spec(old(self)@).1),
            socket_wf(final(self)@),
    {
        let closing = self.state == TcpState::FinWait1 || self.state == TcpState::LastAck;
        if self.sent_unacked_len() > 0 || closing {
            self.retransmit_ticks = self.retransmit_ticks + 1;
        } else {
            self.retransmit_ticks = 0;
        }
        match self.state {
            TcpState::SynSent => {
                self.retransmit_ticks = self.retransmit_ticks + 1;
                if self.retransmit_ticks >= SYN_RETRANSMIT_INTERVAL {
                    self.retransmit_ticks = 0;
                    let r = Some((self.send_unacked, 0, SYN, Vec::new()));
                    assert(seg_matches(r, tick_spec(old(self)@).1));
                    r
                } else {
                    None
                }
            },
            TcpState::Established => {
                let sent = self.sent_unacked_len();
                let unsent = self.tx_queue.len().saturating_sub(sent);
                if self.retransmit_ticks >= DATA_RETRANSMIT_INTERVAL {
                    self.retransmit_ticks = 0;
                    let half = sent / 2;
                    let thresh = if half > 2 * MSS { half } else { 2 * MSS };
                    self.ssthresh = thresh as u32;
                    self.cwnd = MSS as u32;
                    let n = if sent < MSS { sent } else { MSS };
                    let k = if n < self.tx_queue.len() { n } else { self.tx_queue.len() };
                    let segment = copy_queue(&self.tx_queue, 0, k);
                    assert(self.tx_queue@.subrange(0, k as int) =~= self.tx_queue@.take(k as int));
                    Some((self.send_unacked, self.remote_seq, ACK | PSH, segment))
                } else {
                    if sent >= self.cwnd as usize {
                        return None;
                    }
                    let free = self.cwnd as usize - sent;
                    let a = if unsent < MSS { unsent } else { MSS };
                    let to_send = if a < free { a } else { free };
                    if to_send > 0 {
                        let segment = copy_queue(&self.tx_queue, sent, to_send);
                        let r = Some((self.local_seq, self.remote_seq, ACK | PSH, segment));
                        self.local_seq = self.local_seq.wrapping_add(to_send as u32);
                        r
                    } else {
                        None
                    }
                }
            },
            TcpState::FinWait1 | TcpState::LastAck => {
                if self.retransmit_ticks >= DATA_RETRANSMIT_INTERVAL {
                    self.retransmit_ticks = 0;
                    let r = Some((self.local_seq.wrapping_sub(1), self.remote_seq, FIN | ACK, Vec::new()));
                    assert(seg_matches(r, tick_spec(old(self)@).1));
                    r
                } else {
                    None
                }
            },
            _ => None,
        }
    }

    /// Starts closing the connection: sends FIN from Established (to FinWait1) or CloseWait
    /// (to LastAck). Other states give `WrongState`; an interface without an address (or with
    /// 0.0.0.0) gives `NotReady`; in both cases nothing changes.
    pub fn close(&mut self, net: &mut Network) -> (r: Result<(), TcpError>)
        requires
            old(net).wf(),
            (old(self).state == TcpState::Established || old(self).state == TcpState::CloseWait)
                && tcp_ready(old(net)@) ==> can_send_to(old(net)@, old(self).tuple.remote_ip),
        ensures
            final(net).wf(),
            !(old(self).state == TcpState::Established || old(self).state == TcpState::CloseWait) ==> {
                &&& r == Err::<(), TcpError>(TcpError::WrongState)
                &&& final(self)@ == old(self)@
                &&& final(net)@ == old(net)@
            },
            (old(self).state == TcpState::Established || old(self).state == TcpState::CloseWait) && !tcp_ready(old(net)@) ==> {
                &&& r == Err::<(), TcpError>(TcpError::NotReady)
                &&& final(self)@ == old(self)@
                &&& final(net)@ == old(net)@
            },
            (old(self).state == TcpState::Established || old(self).state == TcpState::CloseWait) && tcp_ready(old(net)@) ==> {
                &&& r == Ok::<(), TcpError>(())
                &&& final(net)@ == send_segment_spec(
                    old(net)@,
                    old(net)@.iface.ip_addr.unwrap(),
                    old(self).tuple,
                    bare(old(self).local_seq, old(self).remote_seq, FIN | ACK),
                )
                &&& final(self)@ == (TcpSocketView {
                    local_seq: old(self).local_seq.wrapping_add(1),
                    state: if old(self).state == TcpState::Established { TcpState::FinWait1 } else { TcpState::LastAck },
                    ..old(self)@
                })
            },
    {
        let next_state = match self.state {
            TcpState::Established => TcpState::FinWait1,
            TcpState::CloseWait => TcpState::LastAck,
            _ => return Err(TcpError::WrongState),
        };
        let src_ip = match net.interface.ip_addr {
            Some(ip) => {
                if eq4(&ip, &[0, 0, 0, 0]) {
                    return Err(TcpError::NotReady);
                }
                ip
            },
            None => return Err(TcpError::NotReady),
        };
        let empty: Vec<u8> = Vec::new();
        send_segment(
            net,
            &src_ip,
            self.tuple.remote_ip,
            self.tuple.local_port,
            self.tuple.remote_port,
            self.local_seq,
            self.remote_seq,
            FIN | ACK,
            empty.as_slice(),
        );
        self.local_seq = self.local_seq.wrapping_add(1);
        self.state = next_state;
        Ok(())
    }
}

} // verus!

verus! {

/// The connection that `connect` opens, as entered in the table.
pub open spec fn connect_socket(remote_ip: [u8; 4], remote_port: u16, random: u16, isn: u32) -> TcpSocketView {
    TcpSocketView {
        tuple: TcpTuple { local_port: (49152 + random % 16384) as u16, remote_ip, remote_port },
        state: TcpState::SynSent,
        send_unacked: isn,
        local_seq: isn.wrapping_add(1),
        remote_seq: 0,
        rx: Seq::empty(),
        tx: Seq::empty(),
        retransmit_ticks: 0,
        max_queue_size: 65536,
        cwnd: MSS as u32,
        ssthresh: u32::MAX,
    }
}

/// Opens a connection to `remote_ip:remote_port` from an ephemeral port chosen by `random`,
/// with initial sequence number `isn`: sends SYN and enters the connection (SynSent) in the
/// table, replacing one with the same tuple. Returns the local port, or 0 when the interface
/// has no address (then nothing changes).
pub fn connect(
    net: &mut Network,
    manager: &mut TcpSocketManager,
    remote_ip: &[u8; 4],
    remote_port: u16,
    random: u16,
    isn: u32,
) -> (r: u16)
    requires
        old(net).wf(),
        old(manager).wf(),
        old(net).interface.ip_addr is Some ==> can_send_to(old(net)@, *remote_ip),
    ensures
        final(net).wf(),
        final(manager).wf(),
        old(net).interface.ip_addr is None ==> r == 0 && final(net)@ == old(net)@ && final(manager)@ == old(manager)@,
        old(net).interface.ip_addr is Some ==> {
            let m = connect_socket(*remote_ip, remote_port, random, isn);
            &&& r == m.tuple.local_port
            &&& final(net)@ == send_segment_spec(old(net)@, old(net)@.iface.ip_addr.unwrap(), m.tuple, bare(isn, 0, SYN))
            &&& forall|x: TcpSocketView| has(final(manager)@, x) <==> (x == m || (has(old(manager)@, x) && x.tuple != m.tuple))
        },
{
    let mut socket = TcpSocket::new(remote_ip, remote_port, random);
    socket.send_unacked = isn;
    socket.local_seq = isn.wrapping_add(1);
    let src_ip = match net.interface.ip_addr {
        Some(ip) => ip,
        None => return 0,
    };
    let empty: Vec<u8> = Vec::new();
    send_segment(net, &src_ip, *remote_ip, socket.tuple.local_port, remote_port, isn, 0, SYN, empty.as_slice());
    socket.state = TcpState::SynSent;
    let local_port = socket.tuple.local_port;
    assert(socket@ =~= connect_socket(*remote_ip, remote_port, random, isn));
    manager.insert(socket);
    local_port
}

/// The network and connection table after `handle_tcp_packet`.
pub open spec fn handle_tcp_spec(n: NetView, socks: Seq<TcpSocketView>, src_ip: [u8; 4], raw: Seq<u8>)
    -> (NetView, Seq<TcpSocketView>)
{
    if raw.len() < 20 || n.iface.ip_addr is None {
        (n, socks)
    } else {
        let dst_ip = n.iface.ip_addr.unwrap();
        if !segment_checksum_ok(src_ip, dst_ip, raw) {
            (n, socks)
        } else {
            let h = tcp_header_from(raw);
            let hl = (h.data_offset_res / 16) as nat * 4;
            if raw.len() < hl {
                (n, socks)
            } else {
                let key = TcpTuple { local_port: swap16(h.dst_port), remote_ip: src_ip, remote_port: swap16(h.src_port) };
                match index_of(socks, key) {
                    None => (n, socks),
                    Some(i) => {
                        let (m, reply) = on_segment_spec(socks[i], h.flags, swap32(h.seq_num), swap32(h.ack_num), raw.skip(hl as int));
                        (
                            match reply {
                                Some((s, a, f)) => send_segment_spec(n, dst_ip, m.tuple, bare(s, a, f)),
                                None => n,
                            },
                            socks.update(i, m),
                        )
                    },
                }
            }
        }
    }
}

/// Whether `handle_tcp_packet` answers the segment `raw` from `src_ip`: it passes the checks
/// and its connection's state machine gives a segment to send back.
pub open spec fn tcp_reply_due(n: NetView, socks: Seq<TcpSocketView>, src_ip: [u8; 4], raw: Seq<u8>) -> bool {
    &&& raw.len() >= 20
    &&& n.iface.ip_addr is Some
    &&& segment_checksum_ok(src_ip, n.iface.ip_addr.unwrap(), raw)
    &&& {
        let h = tcp_header_from(raw);
        let hl = (h.data_offset_res / 16) as nat * 4;
        let key = TcpTuple { local_port: swap16(h.dst_port), remote_ip: src_ip, remote_port: swap16(h.src_port) };
        &&& raw.len() >= hl
        &&& index_of(socks, key) matches Some(i)
        &&& on_segment_spec(socks[i], h.flags, swap32(h.seq_num), swap32(h.ack_num), raw.skip(hl as int)).1 is Some
    }
}

/// Handles a received TCP segment from `src_ip`: drops it if short, without a local address,
/// with a bad checksum, shorter than its declared header, or for no known connection;
/// otherwise runs the connection's state machine and sends its answer.
#[verifier::rlimit(60)]
pub fn handle_tcp_packet(net: &mut Network, manager: &mut TcpSocketManager, src_ip: &[u8; 4], raw_packet: &[u8])
    requires
        old(net).wf(),
        old(manager).wf(),
        raw_packet@.len() <= MAX_SUM_LEN,
        tcp_reply_due(old(net)@, old(manager)@, *src_ip, raw_packet@) ==> can_send_to(old(net)@, *src_ip),
    ensures
        final(net).wf(),
        final(manager).wf(),
        (final(net)@, final(manager)@) == handle_tcp_spec(old(net)@, old(manager)@, *src_ip, raw_packet@),
{
    if raw_packet.len() < 20 {
        return;
    }
    let dst_ip = match net.interface.ip_addr {
        Some(ip) => ip,
        None => return,
    };
    if !verify_segment_checksum(src_ip, &dst_ip, raw_packet) {
        return;
    }
    let header = TcpHeader::from_bytes(raw_packet);
    let src_port = swap_u16(header.src_port);
    let dst_port = swap_u16(header.dst_port);
    let seq_num = swap_u32(header.seq_num);
    let ack_num = swap_u32(header.ack_num);
    let tcp_header_len = ((header.data_offset_res / 16) as usize) * 4;
    if raw_packet.len() < tcp_header_len {
        return;
    }
    let payload = &raw_packet[tcp_header_len..raw_packet.len()];
    let key = TcpTuple { local_port: dst_port, remote_ip: *src_ip, remote_port: src_port };
    let i = match manager.find(&key) {
        Some(i) => i,
        None => return,
    };
    let ghost socks = manager@;
    assert(socks[i as int] == manager.sockets@[i as int]@);
    let mut socket = manager.sockets.remove(i);
    let reply = socket.on_segment(header.flags, seq_num, ack_num, payload);
    let t = socket.tuple;
    manager.sockets.insert(i, socket);
    proof {
        assert(manager@ =~= socks.update(i as int, socket@));
        assert forall|a: int, b: int| 0 <= a < b < manager@.len() implies tuple_lt(#[trigger] manager@[a].tuple, #[trigger] manager@[b].tuple) by {
            assert(manager@[a].tuple == socks[a].tuple && manager@[b].tuple == socks[b].tuple);
        }
    }
    if let Some((s, a, f)) = reply {
        let empty: Vec<u8> = Vec::new();
        send_segment(net, &dst_ip, t.remote_ip, t.local_port, t.remote_port, s, a, f, empty.as_slice());
    }
}

/// The connections after a tick, in order.
pub open spec fn ticked(socks: Seq<TcpSocketView>) -> Seq<TcpSocketView> {
    socks.map_values(|m: TcpSocketView| tick_spec(m).0)
}

/// The connections that are not closed, in order.
pub open spec fn open_only(s: Seq<TcpSocketView>) -> Seq<TcpSocketView>
    decreases s.len(),
{
    if s.len() == 0 {
        s
    } else {
        let r = open_only(s.drop_last());
        if s.last().state == TcpState::Closed { r } else { r.push(s.last()) }
    }
}

/// The network after each connection, in order, sent what its tick produced.
pub open spec fn tick_net(n: NetView, src_ip: [u8; 4], socks: Seq<TcpSocketView>) -> NetView
    decreases socks.len(),
{
    if socks.len() == 0 {
        n
    } else {
        let n1 = tick_net(n, src_ip, socks.drop_last());
        let m = socks.last();
        match tick_spec(m).1 {
            Some(seg) => send_segment_spec(n1, src_ip, m.tuple, seg),
            None => n1,
        }
    }
}

/// Keeping the open connections of a sorted table keeps it sorted, and keeps only its members.
pub proof fn lemma_open_only(s: Seq<TcpSocketView>)
    requires
        sockets_wf(s),
    ensures
        sockets_wf(open_only(s)),
        forall|k: int| 0 <= k < open_only(s).len() ==> has(s, #[trigger] open_only(s)[k]),
        forall|x: TcpSocketView| has(open_only(s), x) <==> has(s, x) && x.state != TcpState::Closed,
    decreases s.len(),
{
    if s.len() > 0 {
        let d = s.drop_last();
        assert(sockets_wf(d)) by {
            assert forall|i: int, j: int| 0 <= i < j < d.len() implies tuple_lt(#[trigger] d[i].tuple, #[trigger] d[j].tuple) by {
                assert(d[i] == s[i] && d[j] == s[j]);
            }
        }
        lemma_open_only(d);
        let r = open_only(d);
        assert forall|k: int| 0 <= k < r.len() implies tuple_lt(#[trigger] r[k].tuple, s.last().tuple) by {
            assert(has(d, r[k]));
            let j = choose|j: int| 0 <= j < d.len() && d[j] == r[k];
            assert(s[j] == d[j]);
        }
        assert forall|x: TcpSocketView| has(open_only(s), x) <==> has(s, x) && x.state != TcpState::Closed by {
            if has(s, x) {
                let j = choose|j: int| 0 <= j < s.len() && s[j] == x;
                if j < s.len() - 1 {
                    assert(d[j] == x);
                }
            }
            if has(d, x) {
                let j = choose|j: int| 0 <= j < d.len() && d[j] == x;
                assert(s[j] == x);
            }
            if s.last().state != TcpState::Closed {
                let o = r.push(s.last());
                if has(r, x) {
                    let j = choose|j: int| 0 <= j < r.len() && r[j] == x;
                    assert(o[j] == x);
                }
                if has(o, x) {
                    let j = choose|j: int| 0 <= j < o.len() && o[j] == x;
                    if j < r.len() {
                        assert(r[j] == x);
                    }
                }
                if x == s.last() {
                    assert(o[r.len() as int] == x);
                }
            }
        }
        assert forall|k: int| 0 <= k < open_only(s).len() implies has(s, #[trigger] open_only(s)[k]) by {
            assert(has(open_only(s), open_only(s)[k]));
        }
    }
}

/// Ticks the connection at index `i` and sends what it produces.
fn tick_at(net: &mut Network, manager: &mut TcpSocketManager, i: usize, src_ip: &[u8; 4])
    requires
        old(net).wf(),
        i < old(manager)@.len(),
        old(manager).sockets@.len() == old(manager)@.len(),
        socket_wf(old(manager)@[i as int]),
        tick_fits(old(manager)@[i as int]),
        tick_spec(old(manager)@[i as int]).1 is Some ==> can_send_to(old(net)@, old(manager)@[i as int].tuple.remote_ip),
    ensures
        final(net).wf(),
        same_config(final(net)@, old(net)@),
        final(manager).sockets@.len() == old(manager)@.len(),
        final(manager)@ == old(manager)@.update(i as int, tick_spec(old(manager)@[i as int]).0),
        final(net)@ == match tick_spec(old(manager)@[i as int]).1 {
            Some(seg) => send_segment_spec(old(net)@, *src_ip, old(manager)@[i as int].tuple, seg),
            None => old(net)@,
        },
{
    let ghost before = manager@;
    assert(before[i as int] == manager.sockets@[i as int]@);
    let mut socket = manager.sockets.remove(i);
    let seg = socket.tick();
    let t = socket.tuple;
    manager.sockets.insert(i, socket);
    assert(manager@ =~= before.update(i as int, socket@));
    match seg {
        Some((s, a, f, p)) => {
            send_segment(net, src_ip, t.remote_ip, t.local_port, t.remote_port, s, a, f, p.as_slice());
        },
        None => {},
    }
}

/// One tick of the TCP timer over all connections: each connection, in tuple order, advances
/// its timer and sends what it must; closed connections then leave the table. Nothing
/// happens while the interface has no address (or 0.0.0.0).
pub fn tcp_tick(net: &mut Network, manager: &mut TcpSocketManager)
    requires
        old(net).wf(),
        old(manager).wf(),
        tcp_ready(old(net)@) ==> forall|i: int| 0 <= i < old(manager)@.len() ==> #[trigger] tick_fits(old(manager)@[i]),
        tcp_ready(old(net)@) ==> forall|i: int|
            0 <= i < old(manager)@.len() && (#[trigger] tick_spec(old(manager)@[i])).1 is Some ==> can_send_to(
                old(net)@,
                old(manager)@[i].tuple.remote_ip,
            ),
    ensures
        final(net).wf(),
        final(manager).wf(),
        !tcp_ready(old(net)@) ==> final(net)@ == old(net)@ && final(manager)@ == old(manager)@,
        tcp_ready(old(net)@) ==> {
            &&& final(net)@ == tick_net(old(net)@, old(net)@.iface.ip_addr.unwrap(), old(manager)@)
            &&& final(manager)@ == open_only(ticked(old(manager)@))
        },
{
    let src_ip = match net.interface.ip_addr {
        Some(ip) => {
            if eq4(&ip, &[0, 0, 0, 0]) {
                return;
            }
            ip
        },
        None => return,
    };
    let ghost n0 = net@;
    let ghost s0 = manager@;
    let mut i: usize = 0;
    while i < manager.sockets.len()
        invariant
            i <= s0.len(),
            net.wf(),
            tcp_ready(n0),
            n0.iface.ip_addr == Some(src_ip),
            same_config(net@, n0),
            forall|k: int| 0 <= k < s0.len() ==> #[trigger] tick_fits(s0[k]),
            forall|k: int| 0 <= k < s0.len() && (#[trigger] tick_spec(s0[k])).1 is Some ==> can_send_to(n0, s0[k].tuple.remote_ip),
            sockets_wf(s0),
            manager@.len() == s0.len(),
            manager.sockets@.len() == s0.len(),
            forall|k: int| 0 <= k < i ==> #[trigger] manager@[k] == tick_spec(s0[k]).0,
            forall|k: int| i <= k < s0.len() ==> #[trigger] manager@[k] == s0[k],
            net@ == tick_net(n0, src_ip, s0.take(i as int)),
        decreases s0.len() - i,
    {
        proof {
            assert(s0.take(i + 1).drop_last() =~= s0.take(i as int));
            assert(s0.take(i + 1).last() == s0[i as int]);
        }
        tick_at(net, manager, i, &src_ip);
        i = i + 1;
    }
    proof {
        assert(s0.take(s0.len() as int) =~= s0);
        assert(manager@ =~= ticked(s0));
        assert(sockets_wf(ticked(s0))) by {
            assert forall|a: int, b: int| 0 <= a < b < s0.len() implies tuple_lt(#[trigger] ticked(s0)[a].tuple, #[trigger] ticked(s0)[b].tuple) by {
                assert(s0[a].tuple == ticked(s0)[a].tuple && s0[b].tuple == ticked(s0)[b].tuple);
            }
        }
        lemma_open_only(ticked(s0));
    }
    let ghost t0 = manager@;
    let mut kept: Vec<TcpSocket> = Vec::new();
    let mut old_sockets: Vec<TcpSocket> = Vec::new();
    std::mem::swap(&mut old_sockets, &mut manager.sockets);
    assert(old_sockets@.map_values(|s: TcpSocket| s@) == t0);
    let n = old_sockets.len();
    let mut j: usize = 0;
    proof {
        assert(kept@.map_values(|s: TcpSocket| s@) =~= open_only(t0.take(0)));
    }
    while j < n
        invariant
            j <= n,
            n == t0.len(),
            old_sockets@.len() == n - j,
            forall|k: int| 0 <= k < n - j ==> #[trigger] old_sockets@[k]@ == t0[j + k],
            kept@.map_values(|s: TcpSocket| s@) == open_only(t0.take(j as int)),
        decreases n - j,
    {
        let ghost pre = kept@;
        let ghost before_rm = old_sockets@;
        assert(old_sockets@[0]@ == t0[j as int]);
        let s = old_sockets.remove(0);
        proof {
            assert(t0.take(j + 1).drop_last() =~= t0.take(j as int));
            assert(t0.take(j + 1).last() == t0[j as int]);
            assert forall|k: int| 0 <= k < n - (j + 1) implies #[trigger] old_sockets@[k]@ == t0[(j + 1) + k] by {
                assert(old_sockets@[k] == before_rm[k + 1]);
            }
        }
        if s.state != TcpState::Closed {
            kept.push(s);
            proof {
                assert(kept@.map_values(|s: TcpSocket| s@) =~= pre.map_values(|s: TcpSocket| s@).push(s@));
            }
        }
        j = j + 1;
    }
    proof {
        assert(t0.take(n as int) =~= t0);
    }
    manager.sockets = kept;
}

} // verus!
