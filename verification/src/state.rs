//! The control plane as a state machine over mathematical values.
//!
//! [`TellerState`] is what a control service amounts to once the machinery is
//! forgotten: the listing of nodes, the names that still own a process
//! handle, and the liveness records. Each operation of the service is a total
//! function on it, and the executable service is specified by these
//! functions.

use crate::heartbeat::{is_stale, liveness_after_sweep};
use crate::node::{NodeStatus, NodeView};
use crate::nodes::{listing_after_heartbeat, listing_after_start, listing_after_stop, registry_wf};
use vstd::prelude::*;

verus! {

/// How an attempt to start a node ends.
pub enum StartOutcome {
    /// The node was registered.
    Started,
    /// The name was taken; nothing changed.
    AlreadyExists,
    /// The process could not be created; nothing changed.
    SpawnFailed,
}

/// The state of the control plane.
pub struct TellerState {
    /// Every registered name with its node record.
    pub nodes: Map<Seq<char>, NodeView>,
    /// The names whose entry still owns a process handle.
    pub handles: Set<Seq<char>>,
    /// For each watched name, when it was last heard from.
    pub last_seen: Map<Seq<char>, u64>,
    /// The longest silence that is tolerated.
    pub staleness_timeout: u64,
}

impl TellerState {
    /// The state of a control plane that has not registered any node.
    pub open spec fn empty(staleness_timeout: u64) -> TellerState {
        TellerState {
            nodes: Map::empty(),
            handles: Set::empty(),
            last_seen: Map::empty(),
            staleness_timeout,
        }
    }

    /// Whether `name` is registered and has not stopped.
    pub open spec fn is_live(self, name: Seq<char>) -> bool {
        self.nodes.contains_key(name) && !(self.nodes[name].status is Stopped)
    }

    /// Whether the record of `name` is stale at `now`.
    pub open spec fn is_silent(self, name: Seq<char>, now: u64) -> bool {
        self.last_seen.contains_key(name) && is_stale(
            self.last_seen[name],
            now,
            self.staleness_timeout,
        )
    }

    /// The invariant of the control plane: every record is filed under its
    /// own name, only registered names own a handle, and the watched names
    /// are exactly the nodes that have not stopped.
    pub open spec fn wf(self) -> bool {
        &&& registry_wf(self.nodes, self.handles)
        &&& forall|k: Seq<char>| #[trigger] self.last_seen.contains_key(k) <==> self.is_live(k)
    }

    /// How an attempt to start `node` ends, given whether its process could
    /// be created.
    pub open spec fn start_outcome(self, node: NodeView, spawned: bool) -> StartOutcome {
        if self.nodes.contains_key(node.name) {
            StartOutcome::AlreadyExists
        } else if spawned {
            StartOutcome::Started
        } else {
            StartOutcome::SpawnFailed
        }
    }

    /// The state after an attempt to start `node` at `now`.
    pub open spec fn start(self, node: NodeView, spawned: bool, now: u64) -> TellerState {
        if self.start_outcome(node, spawned) is Started {
            TellerState {
                nodes: listing_after_start(self.nodes, node, spawned),
                handles: self.handles.insert(node.name),
                last_seen: self.last_seen.insert(node.name, now),
                staleness_timeout: self.staleness_timeout,
            }
        } else {
            self
        }
    }

    /// The state after a heartbeat from `name` arrived at `now`.
    pub open spec fn heartbeat(self, name: Seq<char>, now: u64) -> TellerState {
        if self.last_seen.contains_key(name) {
            TellerState {
                nodes: listing_after_heartbeat(self.nodes, name),
                handles: self.handles,
                last_seen: self.last_seen.insert(name, now),
                staleness_timeout: self.staleness_timeout,
            }
        } else {
            self
        }
    }

    /// The state after the process of `name` was seen to exit, with or
    /// without success.
    pub open spec fn process_exited(self, name: Seq<char>, success: bool) -> TellerState {
        TellerState {
            nodes: listing_after_stop(self.nodes, name, !success),
            handles: self.handles.remove(name),
            last_seen: self.last_seen.remove(name),
            staleness_timeout: self.staleness_timeout,
        }
    }

    /// The state after a sweep at `now`: every silent node is stopped as
    /// crashed and no longer watched.
    pub open spec fn sweep(self, now: u64) -> TellerState {
        TellerState {
            nodes: Map::new(
                |k: Seq<char>| self.nodes.contains_key(k),
                |k: Seq<char>|
                    if self.is_silent(k, now) {
                        self.nodes[k].with_status(self.nodes[k].status.after_stop(true))
                    } else {
                        self.nodes[k]
                    },
            ),
            handles: self.handles,
            last_seen: liveness_after_sweep(self.last_seen, now, self.staleness_timeout),
            staleness_timeout: self.staleness_timeout,
        }
    }

    /// The state after the entry of `name` was removed.
    pub open spec fn remove(self, name: Seq<char>) -> TellerState {
        TellerState {
            nodes: self.nodes.remove(name),
            handles: self.handles.remove(name),
            last_seen: self.last_seen.remove(name),
            staleness_timeout: self.staleness_timeout,
        }
    }
}

/// The empty state satisfies the invariant.
pub proof fn lemma_empty_wf(staleness_timeout: u64)
    ensures
        TellerState::empty(staleness_timeout).wf(),
{
}

/// Starting a node preserves the invariant.
pub proof fn lemma_start_wf(s: TellerState, node: NodeView, spawned: bool, now: u64)
    requires
        s.wf(),
    ensures
        s.start(node, spawned, now).wf(),
{
}

/// A heartbeat preserves the invariant.
pub proof fn lemma_heartbeat_wf(s: TellerState, name: Seq<char>, now: u64)
    requires
        s.wf(),
    ensures
        s.heartbeat(name, now).wf(),
{
}

/// A process exit preserves the invariant.
pub proof fn lemma_process_exited_wf(s: TellerState, name: Seq<char>, success: bool)
    requires
        s.wf(),
    ensures
        s.process_exited(name, success).wf(),
{
}

/// A sweep preserves the invariant.
pub proof fn lemma_sweep_wf(s: TellerState, now: u64)
    requires
        s.wf(),
    ensures
        s.sweep(now).wf(),
{
}

/// Removing an entry preserves the invariant.
pub proof fn lemma_remove_wf(s: TellerState, name: Seq<char>)
    requires
        s.wf(),
    ensures
        s.remove(name).wf(),
{
}

} // verus!
