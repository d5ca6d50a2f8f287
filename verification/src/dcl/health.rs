//! The decisions of health checking: whether a node answered a heartbeat in
//! time, and when a node that keeps failing is given up as dead.

use vstd::prelude::*;

use crate::messages::ClientMessage;

verus! {

/// How many seconds after a heartbeat was sent its echo may be stamped.
pub const HEARTBEAT_WINDOW_SECS: u64 = 2;

/// How many heartbeats in a row a node may fail before it is assumed dead.
pub const MAX_FAILED_HEARTBEATS: u8 = 10;

/// Whether a node that was sent a heartbeat at `start_timestamp` answered
/// it: its reply is an `Alive` message stamped no earlier than the heartbeat
/// and at most the window after it.
pub open spec fn spec_heartbeat_answered(start_timestamp: u64, reply: Option<ClientMessage>) -> bool {
    match reply {
        Some(ClientMessage::Alive { timestamp }) => start_timestamp <= timestamp
            <= start_timestamp + HEARTBEAT_WINDOW_SECS,
        _ => false,
    }
}

/// Decides whether a heartbeat sent at `start_timestamp` was answered, given
/// the message the node sent back, or `None` when nothing usable came back.
pub fn heartbeat_answered(start_timestamp: u64, reply: Option<&ClientMessage>) -> (alive: bool)
    ensures
        alive == spec_heartbeat_answered(
            start_timestamp,
            match reply {
                Some(m) => Some(*m),
                None => None,
            },
        ),
{
    match reply {
        Some(ClientMessage::Alive { timestamp }) => {
            *timestamp >= start_timestamp && *timestamp - start_timestamp <= HEARTBEAT_WINDOW_SECS
        },
        _ => false,
    }
}

/// The failure counter of a node after one heartbeat, and whether the node
/// is now assumed dead: an answer clears the counter, a failure adds one, and
/// the node is given up when the counter reaches the limit.
pub open spec fn spec_health_step(failures: u8, alive: bool) -> (u8, bool) {
    if alive {
        (0, false)
    } else {
        ((failures + 1) as u8, failures + 1 == MAX_FAILED_HEARTBEATS)
    }
}

/// Records the outcome of one heartbeat in a node's failure counter.
pub fn health_step(failures: u8, alive: bool) -> (step: (u8, bool))
    requires
        alive || failures < u8::MAX,
    ensures
        step == spec_health_step(failures, alive),
{
    if alive {
        (0, false)
    } else {
        let next = failures + 1;
        (next, next == MAX_FAILED_HEARTBEATS)
    }
}

/// The number of heartbeats that failed since the last one that was
/// answered.
pub open spec fn trailing_failures(beats: Seq<bool>) -> nat
    decreases beats.len(),
{
    if beats.len() == 0 {
        0
    } else if beats.last() {
        0
    } else {
        trailing_failures(beats.drop_last()) + 1
    }
}

/// The failure counter after a run of heartbeats, starting from zero.
pub open spec fn counter_after(beats: Seq<bool>) -> u8
    decreases beats.len(),
{
    if beats.len() == 0 {
        0
    } else {
        spec_health_step(counter_after(beats.drop_last()), beats.last()).0
    }
}

/// After any run of heartbeats, the failure counter holds the number of
/// heartbeats failed since the last answered one, and the node is declared
/// dead at a heartbeat exactly when that number reaches the limit.
pub proof fn law_counter_counts_trailing_failures(beats: Seq<bool>)
    requires
        trailing_failures(beats) < 256,
    ensures
        counter_after(beats) == trailing_failures(beats),
        beats.len() > 0 ==> (spec_health_step(counter_after(beats.drop_last()), beats.last()).1
            <==> trailing_failures(beats) == MAX_FAILED_HEARTBEATS),
    decreases beats.len(),
{
    if beats.len() > 0 {
        let prefix = beats.drop_last();
        if !beats.last() {
            law_counter_counts_trailing_failures(prefix);
        }
    }
}

} // verus!
