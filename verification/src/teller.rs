//! The control service: the three operations that clients reach, and the
//! reports that the process supervisor and the sweep timer feed back.
//!
//! The service performs no input or output. Whoever drives it creates the
//! processes, reads the clock and waits for exits, and tells the service what
//! happened; the service decides what the control plane's state becomes.

use crate::error::Error;
use crate::heartbeat::{names_of, HeartbeatMonitor};
use crate::node::{ListNodesResponse, Node};
use crate::nodes::NodeManager;
use crate::state::{
    lemma_heartbeat_wf, lemma_process_exited_wf, lemma_remove_wf, lemma_start_wf, lemma_sweep_wf,
    StartOutcome, TellerState,
};
use vstd::prelude::*;

verus! {

/// Whether `r` is the answer owed to an attempt to start a node that ended
/// as `outcome`, where `spawned` is what creating the process gave.
pub open spec fn answers<H>(
    r: Result<(), Error>,
    outcome: StartOutcome,
    spawned: Result<H, std::io::Error>,
) -> bool {
    match outcome {
        StartOutcome::Started => r is Ok,
        StartOutcome::AlreadyExists => r == Err::<(), Error>(Error::NodeAlreadyExists),
        StartOutcome::SpawnFailed => {
            &&& spawned matches Err(err)
            &&& r matches Err(e)
            &&& e.reports(err)
        },
    }
}

/// The interface used to talk to the teller, the manager of all nodes.
pub trait Teller {
    /// The process handle that a started node is registered with.
    type Handle;

    /// The state of the control plane behind the interface.
    spec fn state(&self) -> TellerState;

    /// The invariant of the implementation.
    spec fn valid(&self) -> bool;

    /// List all registered nodes.
    fn list_nodes(&self) -> (response: ListNodesResponse)
        requires
            self.valid(),
        ensures
            response.wf(),
            response@ == self.state().nodes,
    ;

    /// Register `node`, given at `now` the outcome of creating its process.
    fn start_node(
        &mut self,
        node: Node,
        spawned: Result<Self::Handle, std::io::Error>,
        now: u64,
    ) -> (r: Result<(), Error>)
        requires
            old(self).valid(),
        ensures
            final(self).valid(),
            final(self).state() == old(self).state().start(node@, spawned is Ok, now),
            answers(r, old(self).state().start_outcome(node@, spawned is Ok), spawned),
    ;

    /// Record that the node `node_name` was heard from at `now`.
    fn heartbeat(&mut self, node_name: String, now: u64)
        requires
            old(self).valid(),
        ensures
            final(self).valid(),
            final(self).state() == old(self).state().heartbeat(node_name@, now),
    ;
}

/// The control service over a registry and a heartbeat monitor.
pub struct TellerServer<H> {
    node_manager: NodeManager<H>,
    monitor: HeartbeatMonitor,
}

impl<H> TellerServer<H> {
    /// The state of the control plane.
    pub closed spec fn view(&self) -> TellerState {
        TellerState {
            nodes: self.node_manager@,
            handles: self.node_manager.handles(),
            last_seen: self.monitor@,
            staleness_timeout: self.monitor.timeout(),
        }
    }

    /// The representation invariants of the registry and of the monitor.
    pub closed spec fn parts_wf(&self) -> bool {
        self.node_manager.wf() && self.monitor.wf()
    }

    /// The service's invariant.
    pub open spec fn wf(&self) -> bool {
        self.parts_wf() && self@.wf()
    }

    /// A service with no node registered that tolerates a silence of
    /// `staleness_timeout` ticks.
    pub fn new(staleness_timeout: u64) -> (server: TellerServer<H>)
        ensures
            server.wf(),
            server@ == TellerState::empty(staleness_timeout),
    {
        TellerServer {
            node_manager: NodeManager::new(),
            monitor: HeartbeatMonitor::new(staleness_timeout),
        }
    }

    /// Decides whether a process may be created for `name`. To start a node,
    /// ask this first, create the process only on `Ok`, and hand the outcome
    /// to `start_node`.
    pub fn check_vacant(&self, name: &String) -> (r: Result<(), Error>)
        ensures
            r is Ok <==> !self@.nodes.contains_key(name@),
            r is Err ==> r == Err::<(), Error>(Error::NodeAlreadyExists),
    {
        self.node_manager.check_vacant(name)
    }

    /// Records that the process of `name` has exited and was reaped: the
    /// node stops, as crashed unless the exit was a success, its handle is
    /// dropped and it is no longer watched. A node that had already stopped
    /// keeps its status.
    pub fn process_exited(&mut self, name: &String, success: bool)
        requires
            old(self).wf(),
        ensures
            final(self).wf(),
            final(self)@ == old(self)@.process_exited(name@, success),
    {
        self.node_manager.mark_stopped(name, !success);
        self.node_manager.release_handle(name);
        self.monitor.forget(name);
        proof {
            lemma_process_exited_wf(old(self)@, name@, success);
        }
    }

    /// Stops every node that has been silent for longer than the staleness
    /// timeout at `now`, as crashed, and returns their names. The processes
    /// themselves are left alone.
    pub fn sweep(&mut self, now: u64) -> (expired: Vec<String>)
        requires
            old(self).wf(),
        ensures
            final(self).wf(),
            final(self)@ == old(self)@.sweep(now),
            names_of(expired@).no_duplicates(),
            forall|k: Seq<char>| names_of(expired@).contains(k) <==> old(self)@.is_silent(k, now),
    {
        let ghost before = self@;
        let expired = self.monitor.sweep(now);
        let ghost names = names_of(expired@);
        let mut i: usize = 0;
        while i < expired.len()
            invariant
                i <= expired.len(),
                names == names_of(expired@),
                before.wf(),
                self.parts_wf(),
                names.no_duplicates(),
                self@.handles == before.handles,
                self@.last_seen == before.sweep(now).last_seen,
                self@.staleness_timeout == before.staleness_timeout,
                forall|k: Seq<char>| names.contains(k) <==> before.is_silent(k, now),
                forall|k: Seq<char>| self@.nodes.contains_key(k) <==> before.nodes.contains_key(k),
                forall|k: Seq<char>| #[trigger]
                    self@.nodes.contains_key(k) ==> self@.nodes[k] == if names.take(
                        i as int,
                    ).contains(k) {
                        before.nodes[k].with_status(before.nodes[k].status.after_stop(true))
                    } else {
                        before.nodes[k]
                    },
            decreases expired.len() - i,
        {
            let ghost mid = self@.nodes;
            let ghost name = names[i as int];
            self.node_manager.mark_stopped(&expired[i], true);
            proof {
                assert(names.contains(name));
                assert(before.last_seen.contains_key(name) <==> before.is_live(name));
                assert(names.take(i + 1) =~= names.take(i as int).push(name));
                assert(!names.take(i as int).contains(name)) by {
                    if names.take(i as int).contains(name) {
                        let j = names.take(i as int).index_of(name);
                        assert(names[j] == names[i as int]);
                    }
                }
                assert forall|k: Seq<char>| #[trigger]
                    self@.nodes.contains_key(k) implies self@.nodes[k] == if names.take(
                    i + 1,
                ).contains(k) {
                    before.nodes[k].with_status(before.nodes[k].status.after_stop(true))
                } else {
                    before.nodes[k]
                } by {
                    assert(mid.contains_key(k));
                    if names.take(i as int).contains(k) {
                        let j = names.take(i as int).index_of(k);
                        assert(names.take(i + 1)[j] == k);
                    }
                    if names.take(i + 1).contains(k) && k != name {
                        let j = names.take(i + 1).index_of(k);
                        assert(names.take(i as int)[j] == k);
                    }
                    if k == name {
                        assert(names.take(i + 1)[i as int] == k);
                    }
                }
            }
            i += 1;
        }
        proof {
            assert(names.take(i as int) =~= names);
            assert(self@.nodes =~= before.sweep(now).nodes);
            lemma_sweep_wf(before, now);
        }
        expired
    }

    /// Drops the entry of `name` entirely, so that the name can be started
    /// again. Returns whether there was such an entry.
    pub fn remove_node(&mut self, name: &String) -> (removed: bool)
        requires
            old(self).wf(),
        ensures
            final(self).wf(),
            final(self)@ == old(self)@.remove(name@),
            removed == old(self)@.nodes.contains_key(name@),
    {
        let removed = self.node_manager.remove(name);
        self.monitor.forget(name);
        proof {
            lemma_remove_wf(old(self)@, name@);
        }
        removed
    }
}

impl<H> Teller for TellerServer<H> {
    type Handle = H;

    open spec fn state(&self) -> TellerState {
        self@
    }

    open spec fn valid(&self) -> bool {
        self.wf()
    }

    fn list_nodes(&self) -> (response: ListNodesResponse) {
        self.node_manager.list()
    }

    fn start_node(&mut self, node: Node, spawned: Result<H, std::io::Error>, now: u64) -> (r:
        Result<(), Error>) {
        let name = node.name.clone();
        let r = self.node_manager.start_node(node, spawned);
        if r.is_ok() {
            self.monitor.track(name, now);
        }
        proof {
            lemma_start_wf(old(self)@, node@, spawned is Ok, now);
        }
        r
    }

    fn heartbeat(&mut self, node_name: String, now: u64) {
        if self.monitor.heartbeat(&node_name, now) {
            self.node_manager.mark_running(&node_name);
        }
        proof {
            lemma_heartbeat_wf(old(self)@, node_name@, now);
        }
    }
}

} // verus!
