//! The node registry: the authoritative table from node name to node record
//! and process handle.
//!
//! The registry never creates a process itself. A caller first asks whether a
//! name is vacant, creates the process, and hands the outcome to
//! [`NodeManager::start_node`], which decides what the registry becomes.

use crate::error::Error;
use crate::node::{ListNodesResponse, Node, NodeStatus, NodeView};
use crate::table::NameTable;
use vstd::prelude::*;

verus! {

struct Entry<H> {
    node: Node,
    handle: Option<H>,
}

/// What a registry must satisfy, over its listing and the set of names that
/// own a process handle: every record is filed under its own name, and only
/// registered names own a handle.
pub open spec fn registry_wf(nodes: Map<Seq<char>, NodeView>, handles: Set<Seq<char>>) -> bool {
    &&& forall|k: Seq<char>| #[trigger] nodes.contains_key(k) ==> nodes[k].name == k
    &&& forall|k: Seq<char>| #[trigger] handles.contains(k) ==> nodes.contains_key(k)
}

/// What a registry's listing is after an attempt to start `node`, given
/// whether the process could be created.
pub open spec fn listing_after_start(
    nodes: Map<Seq<char>, NodeView>,
    node: NodeView,
    spawned: bool,
) -> Map<Seq<char>, NodeView> {
    if !nodes.contains_key(node.name) && spawned {
        nodes.insert(node.name, node.with_status(NodeStatus::Initialising))
    } else {
        nodes
    }
}

/// What a registry's listing is after a heartbeat arrived for `name`.
pub open spec fn listing_after_heartbeat(
    nodes: Map<Seq<char>, NodeView>,
    name: Seq<char>,
) -> Map<Seq<char>, NodeView> {
    if nodes.contains_key(name) {
        nodes.insert(name, nodes[name].with_status(nodes[name].status.after_heartbeat()))
    } else {
        nodes
    }
}

/// What a registry's listing is after `name` was reported stopped.
pub open spec fn listing_after_stop(
    nodes: Map<Seq<char>, NodeView>,
    name: Seq<char>,
    crashed: bool,
) -> Map<Seq<char>, NodeView> {
    if nodes.contains_key(name) {
        nodes.insert(name, nodes[name].with_status(nodes[name].status.after_stop(crashed)))
    } else {
        nodes
    }
}

/// The registry of nodes. `H` is the type of the process handle that each
/// entry owns while its process has not been reaped.
pub struct NodeManager<H> {
    entries: NameTable<Entry<H>>,
}

impl<H> NodeManager<H> {
    /// The listing: every registered name with its node record.
    pub closed spec fn view(&self) -> Map<Seq<char>, NodeView> {
        self.entries@.map_values(|e: Entry<H>| e.node@)
    }

    /// The names whose entry still owns a process handle.
    pub closed spec fn handles(&self) -> Set<Seq<char>> {
        Set::new(|k: Seq<char>| self.entries@.contains_key(k) && self.entries@[k].handle is Some)
    }

    /// The representation invariant of the underlying table.
    pub closed spec fn table_wf(&self) -> bool {
        self.entries.wf()
    }

    /// The registry's invariant.
    pub open spec fn wf(&self) -> bool {
        &&& self.table_wf()
        &&& registry_wf(self@, self.handles())
    }

    /// Creates a new node manager, with no node registered.
    pub fn new() -> (manager: NodeManager<H>)
        ensures
            manager.wf(),
            manager@ == Map::<Seq<char>, NodeView>::empty(),
            manager.handles() == Set::<Seq<char>>::empty(),
    {
        NodeManager { entries: NameTable::new() }
    }

    /// Whether an entry is registered under `name`, in any status.
    pub fn contains(&self, name: &String) -> (b: bool)
        ensures
            b == self@.contains_key(name@),
    {
        self.entries.contains_key(name)
    }

    /// Decides whether a process may be created for `name`: a name that is
    /// already registered, stopped or not, is refused.
    pub fn check_vacant(&self, name: &String) -> (r: Result<(), Error>)
        ensures
            r is Ok <==> !self@.contains_key(name@),
            r is Err ==> r == Err::<(), Error>(Error::NodeAlreadyExists),
    {
        if self.entries.contains_key(name) {
            Err(Error::NodeAlreadyExists)
        } else {
            Ok(())
        }
    }

    /// Registers `node` given the outcome of creating its process.
    ///
    /// A name that is already registered is refused and the registry is left
    /// as it was, whatever `spawned` holds. Otherwise a failed creation is
    /// reported and again nothing changes, and a successful one files the
    /// node as `Initialising` together with its handle. The status that
    /// `node` came with is ignored.
    pub fn start_node(&mut self, node: Node, spawned: Result<H, std::io::Error>) -> (r: Result<
        (),
        Error,
    >)
        requires
            old(self).wf(),
        ensures
            final(self).wf(),
            final(self)@ == listing_after_start(old(self)@, node@, spawned is Ok),
            old(self)@.contains_key(node@.name) ==> {
                &&& r == Err::<(), Error>(Error::NodeAlreadyExists)
                &&& final(self).handles() == old(self).handles()
            },
            !old(self)@.contains_key(node@.name) ==> match spawned {
                Ok(_) => {
                    &&& r is Ok
                    &&& final(self).handles() == old(self).handles().insert(node@.name)
                },
                Err(err) => {
                    &&& r matches Err(e)
                    &&& e.reports(err)
                    &&& final(self).handles() == old(self).handles()
                },
            },
    {
        if self.entries.contains_key(&node.name) {
            return Err(Error::NodeAlreadyExists);
        }
        match spawned {
            Err(err) => Err(Error::from_spawn(err)),
            Ok(handle) => {
                let mut node = node;
                node.status = NodeStatus::Initialising;
                let key = node.name.clone();
                self.entries.insert_new(key, Entry { node, handle: Some(handle) });
                assert(self@ =~= listing_after_start(old(self)@, node@, true));
                Ok(())
            },
        }
    }

    /// The status of the node registered under `name`.
    pub fn status(&self, name: &String) -> (r: Option<NodeStatus>)
        requires
            self.wf(),
        ensures
            r == if self@.contains_key(name@) {
                Some(self@[name@].status)
            } else {
                None::<NodeStatus>
            },
    {
        match self.entries.get(name) {
            Some(entry) => Some(entry.node.status),
            None => None,
        }
    }

    /// Whether the entry under `name` still owns its process handle.
    pub fn has_handle(&self, name: &String) -> (b: bool)
        requires
            self.wf(),
        ensures
            b == self.handles().contains(name@),
    {
        match self.entries.get(name) {
            Some(entry) => entry.handle.is_some(),
            None => false,
        }
    }

    /// A point-in-time snapshot of every registered node.
    pub fn list(&self) -> (snapshot: ListNodesResponse)
        requires
            self.wf(),
        ensures
            snapshot.wf(),
            snapshot@ == self@,
    {
        let mut nodes: NameTable<Node> = NameTable::new();
        let n = self.entries.len();
        let mut i: usize = 0;
        while i < n
            invariant
                self.wf(),
                n == self.entries.keys().len(),
                i <= n,
                nodes.wf(),
                nodes.keys() == self.entries.keys().take(i as int),
                nodes.values().len() == i,
                forall|j: int|
                    0 <= j < i ==> (#[trigger] nodes.values()[j])@ == self.entries.values()[j].node@,
            decreases n - i,
        {
            let key = self.entries.key_at(i).clone();
            let node = self.entries.value_at(i).node.clone();
            proof {
                assert(self.entries.keys().take(i as int).push(key@) =~= self.entries.keys().take(
                    i + 1,
                ));
            }
            nodes.insert_new(key, node);
            i += 1;
        }
        let snapshot = ListNodesResponse { nodes };
        proof {
            assert(self.entries.keys().take(n as int) =~= self.entries.keys());
            assert forall|k: Seq<char>| snapshot@.contains_key(k) <==> self@.contains_key(k) by {}
            assert forall|k: Seq<char>| snapshot@.contains_key(k) implies snapshot@[k] == self@[k] by {
                let j = nodes.keys().index_of(k);
                nodes.lemma_slot_in_view(j);
                self.entries.lemma_slot_in_view(j);
            }
        }
        snapshot
    }

    /// Files `status` for the node registered under `name`.
    fn set_status(&mut self, name: &String, status: NodeStatus)
        requires
            old(self).wf(),
            old(self)@.contains_key(name@),
        ensures
            final(self).wf(),
            final(self)@ == old(self)@.insert(name@, old(self)@[name@].with_status(status)),
            final(self).handles() == old(self).handles(),
    {
        match self.entries.remove(name) {
            Some(entry) => {
                let mut entry = entry;
                entry.node.status = status;
                let key = entry.node.name.clone();
                self.entries.insert_new(key, entry);
                assert(self@ =~= old(self)@.insert(name@, old(self)@[name@].with_status(status)));
            },
            None => {},
        }
    }

    /// Records that a heartbeat arrived for `name`: an `Initialising` node
    /// becomes `Running`. Any other node, and an unknown name, is left as it
    /// is.
    pub fn mark_running(&mut self, name: &String)
        requires
            old(self).wf(),
        ensures
            final(self).wf(),
            final(self)@ == listing_after_heartbeat(old(self)@, name@),
            final(self).handles() == old(self).handles(),
    {
        match self.status(name) {
            Some(NodeStatus::Initialising) => {
                self.set_status(name, NodeStatus::Running);
            },
            _ => {},
        }
    }

    /// Records that the node under `name` has stopped. A node that is
    /// already `Stopped` keeps the flag it stopped with, and an unknown name
    /// is ignored. The entry keeps its process handle.
    pub fn mark_stopped(&mut self, name: &String, crashed: bool)
        requires
            old(self).wf(),
        ensures
            final(self).wf(),
            final(self)@ == listing_after_stop(old(self)@, name@, crashed),
            final(self).handles() == old(self).handles(),
    {
        match self.status(name) {
            Some(NodeStatus::Stopped { .. }) | None => {},
            Some(_) => {
                self.set_status(name, NodeStatus::Stopped { crashed });
            },
        }
    }

    /// Takes the process handle out of the entry under `name`, once its
    /// process has been reaped. The node record stays.
    pub fn release_handle(&mut self, name: &String) -> (handle: Option<H>)
        requires
            old(self).wf(),
        ensures
            final(self).wf(),
            final(self)@ == old(self)@,
            final(self).handles() == old(self).handles().remove(name@),
            handle is Some <==> old(self).handles().contains(name@),
    {
        match self.entries.remove(name) {
            Some(entry) => {
                let Entry { node, handle } = entry;
                assert(old(self)@.contains_key(name@) && old(self)@[name@] == node@);
                let key = node.name.clone();
                self.entries.insert_new(key, Entry { node, handle: None });
                handle
            },
            None => {
                assert(self@ =~= old(self)@);
                None
            },
        }
    }

    /// Drops the entry under `name` entirely, so that the name can be
    /// started again. Returns whether there was such an entry.
    pub fn remove(&mut self, name: &String) -> (removed: bool)
        requires
            old(self).wf(),
        ensures
            final(self).wf(),
            final(self)@ == old(self)@.remove(name@),
            final(self).handles() == old(self).handles().remove(name@),
            removed == old(self)@.contains_key(name@),
    {
        let entry = self.entries.remove(name);
        assert(self@ =~= old(self)@.remove(name@));
        entry.is_some()
    }
}

} // verus!
