//! Rate limits for the command-line fallback of node control: a node gets at
//! most one `wpctl` call per throttle window, and at most one running at a
//! time.

use vstd::prelude::*;
use std::collections::{HashMap, HashSet};

verus! {

/// Minimum time between two command-line calls for the same node, in
/// milliseconds.
pub const CLI_THROTTLE_MS: u64 = 50;

/// Whether a call for `node_id` at time `now_ms` may run, given the time of
/// the last call that ran for each node. A clock that went backwards counts
/// as no time elapsed.
pub open spec fn throttle_allows(last_runs: Map<u32, u64>, node_id: u32, now_ms: u64) -> bool {
    !(last_runs.contains_key(node_id) && (if now_ms >= last_runs[node_id] {
        now_ms - last_runs[node_id]
    } else {
        0
    }) < CLI_THROTTLE_MS)
}

/// The time of the last command-line call that ran, per node.
#[derive(Debug)]
pub struct CliThrottle {
    last_run_ms: HashMap<u32, u64>,
}

impl CliThrottle {
    /// The time of the last call that ran, by node id.
    pub closed spec fn last_runs(&self) -> Map<u32, u64> {
        self.last_run_ms@
    }

    /// A throttle that has seen no call.
    pub fn new() -> (r: Self)
        ensures
            r.last_runs() == Map::<u32, u64>::empty(),
    {
        CliThrottle { last_run_ms: HashMap::new() }
    }

    /// Decides whether a call for `node_id` at `now_ms` may run; when it
    /// may, records `now_ms` as that node's last call.
    pub fn should_run(&mut self, node_id: u32, now_ms: u64) -> (r: bool)
        ensures
            r == throttle_allows(old(self).last_runs(), node_id, now_ms),
            r ==> final(self).last_runs() == old(self).last_runs().insert(node_id, now_ms),
            !r ==> final(self).last_runs() == old(self).last_runs(),
    {
        match self.last_run_ms.get(&node_id) {
            Some(last) => {
                let elapsed = if now_ms >= *last { now_ms - *last } else { 0 };
                if elapsed < CLI_THROTTLE_MS {
                    return false;
                }
            },
            None => {},
        }
        self.last_run_ms.insert(node_id, now_ms);
        true
    }
}

/// Once a call for a node has run, further calls for that node are refused
/// until the window has passed, and then allowed; calls for other nodes are
/// not affected.
pub proof fn law_throttle_window(last_runs: Map<u32, u64>, node_id: u32, other: u32, t: u64, later: u64)
    requires
        t <= later,
        other != node_id,
    ensures
        later - t < CLI_THROTTLE_MS ==> !throttle_allows(last_runs.insert(node_id, t), node_id, later),
        later - t >= CLI_THROTTLE_MS ==> throttle_allows(last_runs.insert(node_id, t), node_id, later),
        throttle_allows(last_runs.insert(node_id, t), other, later) == throttle_allows(last_runs, other, later),
        throttle_allows(Map::empty(), node_id, t),
{
}

/// The nodes that have a command-line operation running.
#[derive(Debug)]
pub struct InFlightNodes {
    nodes: HashSet<u32>,
}

impl InFlightNodes {
    /// The nodes with an operation running.
    pub closed spec fn running(&self) -> Set<u32> {
        self.nodes@
    }

    /// No operation running.
    pub fn new() -> (r: Self)
        ensures
            r.running() == Set::<u32>::empty(),
    {
        InFlightNodes { nodes: HashSet::new() }
    }

    /// Starts an operation for `node_id` unless one is running for it;
    /// returns whether it was started.
    pub fn try_begin(&mut self, node_id: u32) -> (r: bool)
        ensures
            r == !old(self).running().contains(node_id),
            final(self).running() == old(self).running().insert(node_id),
    {
        if self.nodes.contains(&node_id) {
            return false;
        }
        self.nodes.insert(node_id);
        true
    }

    /// Records that the operation for `node_id` has ended.
    pub fn finish(&mut self, node_id: u32)
        ensures
            final(self).running() == old(self).running().remove(node_id),
    {
        self.nodes.remove(&node_id);
    }
}

/// A node never has two operations running: once one has begun, another
/// cannot begin until it has finished, and then it can.
pub proof fn law_one_operation_per_node(running: Set<u32>, node_id: u32)
    ensures
        running.insert(node_id).contains(node_id),
        !running.insert(node_id).remove(node_id).contains(node_id),
{
}

} // verus!
