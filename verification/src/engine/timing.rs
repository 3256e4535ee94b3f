//! Session timing, in nanoseconds, and small shared helpers.

use vstd::prelude::*;

use crate::protocol::framing;
use crate::protocol::framing::FaultKind;

verus! {

/// How often each side sends a heartbeat, and how often the receiver reports
/// statistics.
pub const HEARTBEAT: u64 = 1_000_000_000;

/// How long to wait without hearing anything before declaring the peer gone.
pub const PEER_TIMEOUT: u64 = 4_000_000_000;

/// How long a control read blocks before the loop gets a turn.
pub const CONTROL_POLL: u64 = 200_000_000;

/// How often the receiver checks for an incoming connection while idle.
pub const ACCEPT_POLL: u64 = 100_000_000;

/// How long to wait for the peer's half of the handshake.
pub const HANDSHAKE_TIMEOUT: u64 = 5_000_000_000;

/// How long the media thread sleeps when it has nothing to do.
pub const MEDIA_POLL: u64 = 500_000;

/// An identifier that distinguishes a reconnect from a second concurrent
/// sender: wall-clock nanoseconds plus a process-local counter, mixed with the
/// process id.
pub fn new_session_id(nanos: u64, counter: u64, process: u32) -> (id: u64)
    ensures
        id == session_id(nanos, counter, process),
{
    nanos.wrapping_add(counter) ^ ((process as u64) << 48)
}

/// What [`new_session_id`] gives.
pub open spec fn session_id(nanos: u64, counter: u64, process: u32) -> u64 {
    nanos.wrapping_add(counter) ^ ((process as u64) << 48)
}

/// Two calls in one process never give the same id while the clock and the
/// counter have not gone all the way round between them: the counter makes up
/// for a clock that has not moved.
pub proof fn session_ids_differ(nanos: u64, counter: u64, later: u64, next: u64, process: u32)
    requires
        nanos <= later,
        counter < next,
        (later - nanos) + (next - counter) < 0x1_0000_0000_0000_0000,
    ensures
        session_id(nanos, counter, process) != session_id(later, next, process),
{
    let a = nanos.wrapping_add(counter);
    let b = later.wrapping_add(next);
    assert(a != b);
    let p = (process as u64) << 48;
    assert(a != b ==> a ^ p != b ^ p) by (bit_vector);
}

/// True when a socket error is really just a read timeout.
pub fn is_timeout(kind: FaultKind) -> (yes: bool)
    ensures
        yes == (kind == FaultKind::WouldBlock || kind == FaultKind::TimedOut),
{
    framing::is_timeout(kind)
}

/// A moment a while after `now`; the end of time where that would be later.
pub fn later(now: u64, wait: u64) -> (t: u64)
    ensures
        t == if now + wait <= u64::MAX {
            (now + wait) as u64
        } else {
            u64::MAX
        },
{
    now.saturating_add(wait)
}

/// The moment `secs` seconds after `now`, where a number of seconds is given.
pub fn after_secs(now: u64, secs: Option<u64>) -> (deadline: Option<u64>)
    ensures
        match secs {
            None => deadline is None,
            Some(s) => deadline == Some(
                if now + s * 1_000_000_000 <= u64::MAX {
                    (now + s * 1_000_000_000) as u64
                } else {
                    u64::MAX
                },
            ),
        },
{
    match secs {
        None => None,
        Some(s) => match s.checked_mul(1_000_000_000) {
            Some(wait) => Some(later(now, wait)),
            None => Some(u64::MAX),
        },
    }
}

/// Whether a deadline, if there is one, has come.
pub fn is_past(deadline: Option<u64>, now: u64) -> (yes: bool)
    ensures
        yes == past(deadline, now),
{
    match deadline {
        Some(d) => now >= d,
        None => false,
    }
}

/// A deadline has come.
pub open spec fn past(deadline: Option<u64>, now: u64) -> bool {
    deadline matches Some(d) && now >= d
}

/// One slow beat, or two, must not drop a session.
pub proof fn peer_timeout_is_several_heartbeats()
    ensures
        PEER_TIMEOUT >= 3 * HEARTBEAT,
        CONTROL_POLL < HEARTBEAT,
{
}

/// A deadline has come from its own moment on, and not before; where there is none,
/// it never comes.
pub proof fn a_deadline_comes_at_its_moment(deadline: u64, now: u64)
    ensures
        past(Some(deadline), now) <==> deadline <= now,
        !past(None, now),
{
}

/// An id is made of the clock, the counter and the process: of one process and one
/// sum of clock and counter there is one id, and the low 48 bits are those of the
/// sum.
pub proof fn an_id_is_made_of_clock_and_counter(nanos: u64, counter: u64, process: u32)
    ensures
        session_id(nanos, counter, process) % 0x1_0000_0000_0000 == nanos.wrapping_add(counter)
            % 0x1_0000_0000_0000,
        process == 0 ==> session_id(nanos, counter, process) == nanos.wrapping_add(counter),
{
    let sum = nanos.wrapping_add(counter);
    let p = process as u64;
    assert((sum ^ (p << 48)) % 0x1_0000_0000_0000 == sum % 0x1_0000_0000_0000) by (bit_vector);
    assert(p == 0 ==> sum ^ (p << 48) == sum) by (bit_vector);
}

/// A heart beats every second, a peer that was not heard of for four is gone, and a
/// handshake takes no more than five. Whoever polls does so more often than a heart
/// beats.
pub proof fn the_times_that_peers_agree_on()
    ensures
        HEARTBEAT == 1_000_000_000,
        PEER_TIMEOUT == 4 * HEARTBEAT,
        HANDSHAKE_TIMEOUT == 5 * HEARTBEAT,
        CONTROL_POLL * 5 == HEARTBEAT,
        ACCEPT_POLL * 10 == HEARTBEAT,
        MEDIA_POLL * 2000 == HEARTBEAT,
{
}

/// A moment a while later is that much later, and never earlier: at the end of time
/// it stands still.
pub proof fn later_is_never_earlier(now: u64, wait: u64, moment: u64)
    requires
        call_ensures(later, (now, wait), moment),
    ensures
        now <= moment,
        moment == now + wait || moment == u64::MAX && now + wait > u64::MAX,
{
}

/// A deadline in seconds is that many thousand million nanoseconds away, and there is
/// none where no number was given.
pub proof fn a_deadline_is_so_many_seconds_away(
    now: u64,
    secs: Option<u64>,
    deadline: Option<u64>,
)
    requires
        call_ensures(after_secs, (now, secs), deadline),
    ensures
        deadline is None <==> secs is None,
        secs matches Some(s) ==> (deadline matches Some(d) && (d == now + 1_000_000_000 * s || d
            == u64::MAX && now + 1_000_000_000 * s > u64::MAX)),
{
}

} // verus!
