//! The central control node's bookkeeping: which edge nodes are taking
//! clients, which port a client is sent to, and when an edge node that stops
//! echoing heartbeats is dropped.

use std::collections::HashSet;

use rand::Rng;

use vstd::prelude::*;
use vstd::std_specs::iter::IteratorSpec;

use crate::messages::ControlMessage;

verus! {

broadcast use vstd::std_specs::hash::group_hash_axioms;

/// How many heartbeats in a row an edge node may fail before it is dropped.
pub const MAX_FAILED_CHILD_BEATS: usize = 10;

/// The ports of the edge nodes that are currently heartbeating.
#[derive(Debug)]
pub struct ControlState {
    ports: HashSet<u16>,
}

impl View for ControlState {
    type V = Set<u16>;

    closed spec fn view(&self) -> Set<u16> {
        self.ports@
    }
}

/// Picks an index below `len` with `rand::thread_rng().gen_range(0..len)`.
/// Which index it picks is left unsaid.
#[verifier::external_body]
fn random_index(len: usize) -> (index: usize)
    requires
        len > 0,
    ensures
        index < len,
{
    rand::thread_rng().gen_range(0..len)
}

/// The answer to a port request when the heartbeating ports are listed in
/// `ports` and the one at `index` is picked: no port when there is none.
pub open spec fn spec_port_response_at(ports: Seq<u16>, index: int) -> ControlMessage {
    if ports.len() == 0 {
        ControlMessage::PortResponse { port: None }
    } else {
        ControlMessage::PortResponse { port: Some(ports[index]) }
    }
}

/// Builds the answer to a port request from the list of heartbeating ports
/// and the index picked among them.
pub fn port_response_at(ports: &[u16], index: usize) -> (response: ControlMessage)
    requires
        ports@.len() == 0 || index < ports@.len(),
    ensures
        response == spec_port_response_at(ports@, index as int),
{
    if ports.len() == 0 {
        ControlMessage::PortResponse { port: None }
    } else {
        ControlMessage::PortResponse { port: Some(ports[index]) }
    }
}

impl ControlState {
    /// A control node with no edge nodes yet.
    pub fn new() -> (state: Self)
        ensures
            state@ == Set::<u16>::empty(),
    {
        ControlState { ports: HashSet::new() }
    }

    /// Records that the edge node listening on `port` is heartbeating.
    pub fn register(&mut self, port: u16)
        ensures
            final(self)@ == old(self)@.insert(port),
    {
        self.ports.insert(port);
    }

    /// Drops the edge node listening on `port`.
    pub fn deregister(&mut self, port: u16)
        ensures
            final(self)@ == old(self)@.remove(port),
    {
        self.ports.remove(&port);
    }

    /// Whether the edge node on `port` is heartbeating.
    pub fn contains(&self, port: u16) -> (present: bool)
        ensures
            present == self@.contains(port),
    {
        self.ports.contains(&port)
    }

    /// Lists the heartbeating ports, each once, in no particular order.
    pub fn ports(&self) -> (ports: Vec<u16>)
        ensures
            ports@.to_set() == self@,
            ports@.no_duplicates(),
    {
        let ghost keys = vstd::std_specs::hash::spec_hash_keys_iter(&self.ports).remaining().unref();
        let mut ports: Vec<u16> = Vec::new();
        for p in it: self.ports.iter()
            invariant
                keys == it.seq().unref(),
                ports@ == keys.take(it.index()),
                keys.to_set() == self.ports@,
                keys.no_duplicates(),
        {
            ports.push(*p);
            assert(ports@ =~= keys.take(it.index() + 1));
        }
        assert(ports@ =~= keys);
        ports
    }

    /// Answers a port request with one of the heartbeating ports, picked at
    /// random, or with no port when none is heartbeating.
    pub fn answer_port_query(&self) -> (response: ControlMessage)
        ensures
            self@.is_empty() ==> response == (ControlMessage::PortResponse { port: None }),
            !self@.is_empty() ==> exists|p: u16|
                #![trigger self@.contains(p)]
                self@.contains(p) && response == (ControlMessage::PortResponse { port: Some(p) }),
    {
        let ports = self.ports();
        let index = if ports.len() == 0 {
            0
        } else {
            random_index(ports.len())
        };
        proof {
            if ports@.len() > 0 {
                assert(ports@.contains(ports@[index as int]));
                assert(self@.contains(ports@[index as int]));
            } else {
                assert(self@ =~= Set::<u16>::empty());
            }
        }
        port_response_at(ports.as_slice(), index)
    }
}

/// The count of failed heartbeats of an edge node after one more heartbeat,
/// and whether the node is now dropped: an echo clears the count, anything
/// else adds one, and the node is dropped when the count reaches the limit.
pub open spec fn spec_child_beat(failed_beats: usize, echoed: bool) -> (usize, bool) {
    if echoed {
        (0, false)
    } else {
        ((failed_beats + 1) as usize, failed_beats + 1 == MAX_FAILED_CHILD_BEATS)
    }
}

/// Records the outcome of one heartbeat of an edge node.
pub fn child_beat(failed_beats: usize, echoed: bool) -> (beat: (usize, bool))
    requires
        echoed || failed_beats < usize::MAX,
    ensures
        beat == spec_child_beat(failed_beats, echoed),
{
    if echoed {
        (0, false)
    } else {
        let next = failed_beats + 1;
        (next, next == MAX_FAILED_CHILD_BEATS)
    }
}

/// The number of heartbeats an edge node failed since its last echo.
pub open spec fn missed_since_echo(beats: Seq<bool>) -> nat
    decreases beats.len(),
{
    if beats.len() == 0 {
        0
    } else if beats.last() {
        0
    } else {
        missed_since_echo(beats.drop_last()) + 1
    }
}

/// The count of failed heartbeats after a run of heartbeats, from zero.
pub open spec fn failed_beats_after(beats: Seq<bool>) -> usize
    decreases beats.len(),
{
    if beats.len() == 0 {
        0
    } else {
        spec_child_beat(failed_beats_after(beats.drop_last()), beats.last()).0
    }
}

/// After any run of heartbeats, the count of failed heartbeats is the number
/// missed since the last echo, and the edge node is dropped at a heartbeat
/// exactly when that number reaches the limit.
pub proof fn law_child_dropped_after_consecutive_misses(beats: Seq<bool>)
    requires
        missed_since_echo(beats) <= usize::MAX,
    ensures
        failed_beats_after(beats) == missed_since_echo(beats),
        beats.len() > 0 ==> (spec_child_beat(failed_beats_after(beats.drop_last()), beats.last()).1
            <==> missed_since_echo(beats) == MAX_FAILED_CHILD_BEATS),
    decreases beats.len(),
{
    if beats.len() > 0 && !beats.last() {
        law_child_dropped_after_consecutive_misses(beats.drop_last());
    }
}

/// Whether an edge node echoed the heartbeat it was sent: the message read
/// back is the one written.
pub fn echoed(sent: &ControlMessage, received: &ControlMessage) -> (same: bool)
    ensures
        same == (*sent == *received),
{
    *sent == *received
}

} // verus!
