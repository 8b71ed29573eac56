//! The resolver's decisions over time: sending the query, waiting for the answer, retrying,
//! and what to remember of an answer. The caller sends, sleeps and caches as told.
use vstd::prelude::*;
use crate::net::ipv4::transport::udp::dns::solver::DnsReply;

verus! {

/// Ticks to wait for the answer to one query.
pub const ANSWER_TIMEOUT: u64 = 5000;
/// Ticks between looks at the socket while waiting.
pub const POLL_INTERVAL: u64 = 10;
/// Ticks to wait after a failed attempt.
pub const RETRY_DELAY: u64 = 100;
/// Queries sent before giving up.
pub const ATTEMPTS: u32 = 3;

/// Where a lookup stands: waiting for the answer to attempt `attempt` (counted from 0) since
/// tick `start`, pausing before attempt `attempt`, or over.
#[derive(Clone, Copy, Debug, PartialEq, Eq, Structural)]
pub enum DnsPhase {
    Waiting { attempt: u32, start: u64 },
    Backoff { attempt: u32 },
    Finished,
}

/// What the caller does next.
#[derive(Clone, Copy, Debug)]
pub enum DnsAction {
    /// Send the query to the DNS server.
    SendQuery,
    /// Sleep this many ticks, then poll.
    Sleep(u64),
    /// Go on with the next received datagram, if any.
    Continue,
    /// The address is found: remember it until the given tick, and answer it.
    Found { ip: [u8; 4], expiration_tick: u32 },
    /// Every attempt failed: the name is not resolved.
    GiveUp,
}

/// A lookup starting at tick `now`: the first query goes out.
pub open spec fn lookup_start_spec(now: u64) -> (DnsPhase, DnsAction) {
    (DnsPhase::Waiting { attempt: 0, start: now }, DnsAction::SendQuery)
}

/// A failed attempt: pause before the next one.
pub open spec fn failed_spec(attempt: u32) -> (DnsPhase, DnsAction) {
    (DnsPhase::Backoff { attempt: (attempt + 1) as u32 }, DnsAction::Sleep(RETRY_DELAY))
}

/// A response to the query at tick `now`: an address ends the lookup (remembered for its
/// time to live, counted from `now` as a 32-bit tick); a reply without records fails the
/// attempt; anything else is passed over.
pub open spec fn reply_spec(phase: DnsPhase, reply: DnsReply, now: u64) -> (DnsPhase, DnsAction) {
    match phase {
        DnsPhase::Waiting { attempt, start } => match reply {
            DnsReply::Skip => (phase, DnsAction::Continue),
            DnsReply::NoAnswers => failed_spec(attempt),
            DnsReply::Address(ip, ttl) => (DnsPhase::Finished, DnsAction::Found { ip, expiration_tick: (ttl + (now as u32)) as u32 }),
        },
        _ => (phase, DnsAction::Continue),
    }
}

/// A poll at tick `now` after the received datagrams are handled: a wait longer than
/// `ANSWER_TIMEOUT` fails the attempt, a shorter one goes on after `POLL_INTERVAL`; after the
/// pause the next query goes out, unless `ATTEMPTS` have failed.
pub open spec fn lookup_poll_spec(phase: DnsPhase, now: u64) -> (DnsPhase, DnsAction) {
    match phase {
        DnsPhase::Waiting { attempt, start } => if now - start > ANSWER_TIMEOUT {
            failed_spec(attempt)
        } else {
            (phase, DnsAction::Sleep(POLL_INTERVAL))
        },
        DnsPhase::Backoff { attempt } => if attempt < ATTEMPTS {
            (DnsPhase::Waiting { attempt, start: now }, DnsAction::SendQuery)
        } else {
            (DnsPhase::Finished, DnsAction::GiveUp)
        },
        DnsPhase::Finished => (phase, DnsAction::Continue),
    }
}

/// Starts a lookup at tick `now`.
pub fn lookup_start(now: u64) -> (r: (DnsPhase, DnsAction))
    ensures
        r == lookup_start_spec(now),
{
    (DnsPhase::Waiting { attempt: 0, start: now }, DnsAction::SendQuery)
}

/// Handles a response at tick `now` (see `reply_spec`).
pub fn lookup_on_reply(phase: DnsPhase, reply: DnsReply, now: u64) -> (r: (DnsPhase, DnsAction))
    requires
        phase matches DnsPhase::Waiting { attempt, .. } ==> attempt < ATTEMPTS,
        reply matches DnsReply::Address(_, ttl) ==> ttl + (now as u32) <= u32::MAX,
    ensures
        r == reply_spec(phase, reply, now),
{
    match phase {
        DnsPhase::Waiting { attempt, start } => match reply {
            DnsReply::Skip => (phase, DnsAction::Continue),
            DnsReply::NoAnswers => (DnsPhase::Backoff { attempt: attempt + 1 }, DnsAction::Sleep(RETRY_DELAY)),
            DnsReply::Address(ip, ttl) => (DnsPhase::Finished, DnsAction::Found { ip, expiration_tick: ttl + (now as u32) }),
        },
        _ => (phase, DnsAction::Continue),
    }
}

/// Polls at tick `now`, which is not before the wait's start (see `lookup_poll_spec`).
pub fn lookup_on_poll(phase: DnsPhase, now: u64) -> (r: (DnsPhase, DnsAction))
    requires
        phase matches DnsPhase::Waiting { attempt, start } ==> attempt < ATTEMPTS && start <= now,
    ensures
        r == lookup_poll_spec(phase, now),
{
    match phase {
        DnsPhase::Waiting { attempt, start } => {
            if now - start > ANSWER_TIMEOUT {
                (DnsPhase::Backoff { attempt: attempt + 1 }, DnsAction::Sleep(RETRY_DELAY))
            } else {
                (phase, DnsAction::Sleep(POLL_INTERVAL))
            }
        },
        DnsPhase::Backoff { attempt } => {
            if attempt < ATTEMPTS {
                (DnsPhase::Waiting { attempt, start: now }, DnsAction::SendQuery)
            } else {
                (DnsPhase::Finished, DnsAction::GiveUp)
            }
        },
        DnsPhase::Finished => (phase, DnsAction::Continue),
    }
}

/// A lookup sends at most `ATTEMPTS` queries: every phase it reaches waits on an attempt
/// below `ATTEMPTS`, and a pause after the last attempt ends the lookup.
pub proof fn lemma_attempts_bounded(phase: DnsPhase, reply: DnsReply, now: u64)
    requires
        phase matches DnsPhase::Waiting { attempt, .. } ==> attempt < ATTEMPTS,
        phase matches DnsPhase::Backoff { attempt } ==> attempt <= ATTEMPTS,
    ensures
        reply_spec(phase, reply, now).0 matches DnsPhase::Waiting { attempt, .. } ==> attempt < ATTEMPTS,
        reply_spec(phase, reply, now).0 matches DnsPhase::Backoff { attempt } ==> attempt <= ATTEMPTS,
        lookup_poll_spec(phase, now).0 matches DnsPhase::Waiting { attempt, .. } ==> attempt < ATTEMPTS,
        lookup_poll_spec(phase, now).0 matches DnsPhase::Backoff { attempt } ==> attempt <= ATTEMPTS,
        phase == (DnsPhase::Backoff { attempt: ATTEMPTS }) ==> lookup_poll_spec(phase, now).0 == DnsPhase::Finished,
{
}

} // verus!
