//! The data model shared by every component: a node and its observed status.

use crate::table::NameTable;
use std::path::PathBuf;
use vstd::prelude::*;

verus! {

/// `std::path::PathBuf`, carried through the registry without being read.
#[verifier::external_type_specification]
#[verifier::external_body]
pub struct ExPathBuf(std::path::PathBuf);

/// `PathBuf::clone` returns a path equal to the one it was called on.
pub assume_specification[ <std::path::PathBuf as Clone>::clone ](
    path: &std::path::PathBuf,
) -> (copy: std::path::PathBuf)
    ensures
        copy == *path,
;

/// The observed state of a node.
#[derive(Clone, Copy, Debug, PartialEq, Eq, Structural)]
pub enum NodeStatus {
    /// The process was created but the node has not reported in yet.
    Initialising,
    /// The node has sent at least one heartbeat.
    Running,
    /// The node is no longer running, either after a clean exit or a crash.
    Stopped { crashed: bool },
}

impl NodeStatus {
    /// Position of the status along `Initialising → Running → Stopped`.
    pub open spec fn rank(self) -> nat {
        match self {
            NodeStatus::Initialising => 0,
            NodeStatus::Running => 1,
            NodeStatus::Stopped { .. } => 2,
        }
    }

    /// The status a node has after a heartbeat arrived for it.
    pub open spec fn after_heartbeat(self) -> NodeStatus {
        match self {
            NodeStatus::Initialising => NodeStatus::Running,
            other => other,
        }
    }

    /// The status a node has after it was reported stopped. A stopped node
    /// keeps the flag it stopped with.
    pub open spec fn after_stop(self, crashed: bool) -> NodeStatus {
        match self {
            NodeStatus::Stopped { .. } => self,
            _ => NodeStatus::Stopped { crashed },
        }
    }

    /// Whether the status is terminal.
    pub fn is_stopped(&self) -> (b: bool)
        ensures
            b == (*self is Stopped),
    {
        match self {
            NodeStatus::Stopped { .. } => true,
            _ => false,
        }
    }
}

/// A node as the control plane sees it.
#[derive(Debug, PartialEq, Eq)]
pub struct Node {
    /// The registered name of the node, unique across the registry.
    pub name: String,
    /// The path to the executable the node is launched from.
    pub executable_path: PathBuf,
    /// The status the node is in.
    pub status: NodeStatus,
}

/// The mathematical value of a [`Node`].
pub struct NodeView {
    pub name: Seq<char>,
    pub executable_path: PathBuf,
    pub status: NodeStatus,
}

impl NodeView {
    /// The same node with another status.
    pub open spec fn with_status(self, status: NodeStatus) -> NodeView {
        NodeView { name: self.name, executable_path: self.executable_path, status }
    }
}

impl View for Node {
    type V = NodeView;

    open spec fn view(&self) -> NodeView {
        NodeView {
            name: self.name@,
            executable_path: self.executable_path,
            status: self.status,
        }
    }
}

impl Clone for Node {
    fn clone(&self) -> (copy: Node)
        ensures
            copy@ == self@,
    {
        Node {
            name: self.name.clone(),
            executable_path: self.executable_path.clone(),
            status: self.status,
        }
    }
}

impl Node {
    /// A node that has not been started yet.
    pub fn new(name: String, executable_path: PathBuf) -> (node: Node)
        ensures
            node@ == (NodeView {
                name: name@,
                executable_path,
                status: NodeStatus::Initialising,
            }),
    {
        Node { name, executable_path, status: NodeStatus::Initialising }
    }
}

/// Response to listing of all nodes.
#[derive(Debug)]
pub struct ListNodesResponse {
    /// The nodes, each filed under its name.
    pub nodes: NameTable<Node>,
}

impl ListNodesResponse {
    /// The listing as a map from names to node records.
    pub open spec fn view(&self) -> Map<Seq<char>, NodeView> {
        self.nodes@.map_values(|n: Node| n@)
    }

    /// No name occurs twice in the listing.
    pub open spec fn wf(&self) -> bool {
        self.nodes.wf()
    }

    /// The number of nodes listed.
    pub fn len(&self) -> (n: usize)
        ensures
            n == self.nodes.keys().len(),
    {
        self.nodes.len()
    }

    /// The record listed under `name`.
    pub fn get(&self, name: &String) -> (r: Option<&Node>)
        requires
            self.wf(),
        ensures
            match r {
                Some(node) => self@.contains_key(name@) && node@ == self@[name@],
                None => !self@.contains_key(name@),
            },
    {
        self.nodes.get(name)
    }
}

impl Clone for ListNodesResponse {
    fn clone(&self) -> (copy: ListNodesResponse)
        ensures
            copy.wf(),
            self.wf() ==> copy@ == self@,
    {
        let mut nodes: NameTable<Node> = NameTable::new();
        let n = self.nodes.len();
        let mut i: usize = 0;
        while i < n
            invariant
                n == self.nodes.keys().len(),
                n == self.nodes.values().len(),
                i <= n,
                nodes.wf(),
                self.wf() ==> forall|k: Seq<char>|
                    nodes@.contains_key(k) <==> self.nodes@.contains_key(k)
                        && self.nodes.keys().index_of(k) < i,
                self.wf() ==> forall|k: Seq<char>|
                    nodes@.contains_key(k) ==> nodes@[k]@ == self.nodes@[k]@,
            decreases n - i,
        {
            let key = self.nodes.key_at(i).clone();
            let node = self.nodes.value_at(i).clone();
            nodes.insert(key, node);
            proof {
                if self.wf() {
                    self.nodes.lemma_slot_in_view(i as int);
                    assert forall|k: Seq<char>|
                        nodes@.contains_key(k) <==> self.nodes@.contains_key(k)
                            && self.nodes.keys().index_of(k) < i + 1 by {
                        if self.nodes@.contains_key(k) {
                            self.nodes.lemma_key_has_slot(k);
                        }
                    }
                }
            }
            i += 1;
        }
        let copy = ListNodesResponse { nodes };
        proof {
            if self.wf() {
                assert forall|k: Seq<char>| self.nodes@.contains_key(k) implies nodes@.contains_key(
                    k,
                ) by {
                    self.nodes.lemma_key_has_slot(k);
                }
            }
        }
        copy
    }
}

} // verus!
