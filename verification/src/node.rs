//! The state of one node: who it is, whom it knows, what it has seen, and the id of the
//! last message it originated.

use crate::gossip::Strategy;
use crate::topology::{names_of, NodeId, Topology};
use crate::values::{copy_values, lemma_hash_set_finite};
use std::collections::HashSet;
use vstd::prelude::*;

verus! {

broadcast use vstd::std_specs::hash::group_hash_axioms;

/// The test that a name is not `id`.
pub open spec fn other_than(id: NodeId) -> spec_fn(NodeId) -> bool {
    |name: NodeId| name != id
}

/// `list` without every occurrence of `id`, the rest in its order.
pub open spec fn without(list: Seq<NodeId>, id: NodeId) -> Seq<NodeId> {
    list.filter(other_than(id))
}

/// The identities behind an optional list of names.
pub open spec fn opt_names_of(names: Option<Vec<String>>) -> Option<Seq<NodeId>> {
    match names {
        Some(names) => Some(names_of(names@)),
        None => None,
    }
}

/// The state of one node as contracts see it.
pub struct NodeView {
    /// The node's own identity, once it has been told.
    pub node_id: Option<NodeId>,
    /// Every node of the cluster, once the node has been told.
    pub node_ids: Option<Seq<NodeId>>,
    /// The values seen so far.
    pub messages: Set<usize>,
    /// The explicit neighbour map, once one has been supplied.
    pub topology: Option<Map<NodeId, Seq<NodeId>>>,
    /// The id of the last message that the node originated.
    pub curr_msg_id: usize,
    /// How the node spreads what it learns.
    pub strategy: Strategy,
}

impl NodeView {
    /// A node that has been told nothing yet.
    pub open spec fn initial(strategy: Strategy) -> NodeView {
        NodeView {
            node_id: None,
            node_ids: None,
            messages: Set::empty(),
            topology: None,
            curr_msg_id: 0,
            strategy,
        }
    }

    /// The state after the node has learned who it is and who its peers are.
    pub open spec fn with_identity(self, node_id: NodeId, node_ids: Seq<NodeId>) -> NodeView {
        NodeView { node_id: Some(node_id), node_ids: Some(node_ids), ..self }
    }

    /// The state after `topology` has replaced whatever neighbour map there was.
    pub open spec fn with_topology(self, topology: Map<NodeId, Seq<NodeId>>) -> NodeView {
        NodeView { topology: Some(topology), ..self }
    }

    /// The state after `value` has been seen.
    pub open spec fn with_value(self, value: usize) -> NodeView {
        NodeView { messages: self.messages.insert(value), ..self }
    }

    /// The state after every element of `values` has been seen.
    pub open spec fn with_values(self, values: Set<usize>) -> NodeView {
        NodeView { messages: self.messages.union(values), ..self }
    }

    /// The state after `count` more message ids have been issued.
    pub open spec fn with_issued(self, count: nat) -> NodeView {
        NodeView { curr_msg_id: (self.curr_msg_id + count) as usize, ..self }
    }

    /// The list that the neighbour map gives for this node, if there is a map, the node knows
    /// its identity and the map has a list for it.
    pub open spec fn neighbours_from_topology(self) -> Option<Seq<NodeId>> {
        match (self.topology, self.node_id) {
            (Some(topology), Some(node_id)) => if topology.contains_key(node_id) {
                Some(topology[node_id])
            } else {
                None
            },
            _ => None,
        }
    }

    /// The nodes that this node forwards to: its list in the neighbour map, else all its
    /// peers; in both cases without the node itself. `None` until the node has been told its
    /// identity and peers.
    pub open spec fn neighbours(self) -> Option<Seq<NodeId>> {
        match (self.node_id, self.node_ids) {
            (Some(node_id), Some(node_ids)) => Some(
                without(
                    match self.neighbours_from_topology() {
                        Some(listed) => listed,
                        None => node_ids,
                    },
                    node_id,
                ),
            ),
            _ => None,
        }
    }

    /// To how many nodes this node forwards what it learns.
    pub open spec fn fanout(self) -> nat {
        match self.neighbours() {
            Some(neighbours) => neighbours.len(),
            None => 0,
        }
    }
}

/// The mutable state of one node: who it is, whom it knows, what it has seen, and the id of
/// the last message it originated.
#[derive(Debug)]
pub struct NodeData {
    node_id: Option<String>,
    node_ids: Option<Vec<String>>,
    messages: HashSet<usize>,
    topology: Option<Topology>,
    curr_msg_id: usize,
    strategy: Strategy,
}

impl View for NodeData {
    type V = NodeView;

    closed spec fn view(&self) -> NodeView {
        NodeView {
            node_id: match self.node_id {
                Some(node_id) => Some(node_id@),
                None => None,
            },
            node_ids: opt_names_of(self.node_ids),
            messages: self.messages@,
            topology: match self.topology {
                Some(topology) => Some(topology@),
                None => None,
            },
            curr_msg_id: self.curr_msg_id,
            strategy: self.strategy,
        }
    }
}

/// An independent copy of a list of names.
fn copy_names(names: &Vec<String>) -> (copy: Vec<String>)
    ensures
        names_of(copy@) == names_of(names@),
{
    let mut copy: Vec<String> = Vec::new();
    let mut i: usize = 0;
    while i < names.len()
        invariant
            i <= names.len(),
            copy.len() == i,
            forall|j: int| 0 <= j < i ==> copy[j]@ == names[j]@,
        decreases names.len() - i,
    {
        copy.push(names[i].clone());
        i += 1;
    }
    copy
}

/// A copy of `names` that leaves out every name equal to `excluded`.
fn copy_names_without(names: &Vec<String>, excluded: &String) -> (copy: Vec<String>)
    ensures
        names_of(copy@) == without(names_of(names@), excluded@),
{
    let ghost all = names_of(names@);
    let mut copy: Vec<String> = Vec::new();
    let mut i: usize = 0;
    proof {
        reveal(Seq::filter);
    }
    while i < names.len()
        invariant
            i <= names.len(),
            all == names_of(names@),
            names_of(copy@) == without(all.subrange(0, i as int), excluded@),
        decreases names.len() - i,
    {
        proof {
            // Filtering one name more keeps or drops that name, and leaves the rest.
            reveal(Seq::filter);
            let prefix = all.subrange(0, i as int + 1);
            assert(prefix.drop_last() =~= all.subrange(0, i as int));
        }
        if names[i] != *excluded {
            copy.push(names[i].clone());
        }
        i += 1;
    }
    assert(all.subrange(0, i as int) =~= all);
    copy
}

impl NodeData {
    /// A node that has been told nothing yet and spreads values by anti-entropy.
    pub fn new() -> (node: NodeData)
        ensures
            node@ == NodeView::initial(Strategy::AntiEntropy),
    {
        NodeData::with_strategy(Strategy::AntiEntropy)
    }

    /// A node that has been told nothing yet and spreads values by `strategy`.
    pub fn with_strategy(strategy: Strategy) -> (node: NodeData)
        ensures
            node@ == NodeView::initial(strategy),
    {
        NodeData {
            node_id: None,
            node_ids: None,
            messages: HashSet::new(),
            topology: None,
            curr_msg_id: 0,
            strategy,
        }
    }

    /// Records who the node is and who its peers are, in place of what it was told before.
    pub fn set_identity(&mut self, node_id: String, node_ids: Vec<String>)
        ensures
            final(self)@ == old(self)@.with_identity(node_id@, names_of(node_ids@)),
    {
        self.node_id = Some(node_id);
        self.node_ids = Some(node_ids);
    }

    /// Replaces the neighbour map.
    pub fn set_topology(&mut self, topology: Topology)
        ensures
            final(self)@ == old(self)@.with_topology(topology@),
    {
        self.topology = Some(topology);
    }

    /// Adds `value` to the values seen, and says whether it was absent before.
    pub fn record_value(&mut self, value: usize) -> (is_new: bool)
        ensures
            final(self)@ == old(self)@.with_value(value),
            is_new == !old(self)@.messages.contains(value),
    {
        self.messages.insert(value)
    }

    /// Adds every element of `values` to the values seen, and returns those that were
    /// absent before.
    pub fn merge_values(&mut self, values: &HashSet<usize>) -> (newly_added: HashSet<usize>)
        ensures
            final(self)@ == old(self)@.with_values(values@),
            newly_added@ == values@.difference(old(self)@.messages),
    {
        let ghost before = self.messages@;
        let mut newly_added: HashSet<usize> = HashSet::new();
        for value in it: values.iter()
            invariant
                self.node_id == old(self).node_id,
                self.node_ids == old(self).node_ids,
                self.topology == old(self).topology,
                self.curr_msg_id == old(self).curr_msg_id,
                self.strategy == old(self).strategy,
                before == old(self).messages@,
                forall|x: usize| before.contains(x) ==> self.messages@.contains(x),
                forall|x: usize| #[trigger] newly_added@.contains(x) ==> values@.contains(x),
                forall|x: usize| #[trigger] newly_added@.contains(x) ==> !before.contains(x),
                forall|x: usize|
                    self.messages@.contains(x) ==> before.contains(x) || newly_added@.contains(x),
                forall|i: int| 0 <= i < it.index() ==> self.messages@.contains(*it.seq()[i]),
        {
            if self.messages.insert(*value) {
                newly_added.insert(*value);
            }
        }
        proof {
            assert(self.messages@ =~= before.union(values@));
        }
        newly_added
    }

    /// A copy of the values seen so far, which later changes to the node do not reach.
    pub fn read_values(&self) -> (snapshot: HashSet<usize>)
        ensures
            snapshot@ == self@.messages,
    {
        copy_values(&self.messages)
    }

    /// The node's own name, once it has been told.
    pub fn node_id(&self) -> (node_id: Option<&String>)
        ensures
            match node_id {
                Some(node_id) => self@.node_id == Some(node_id@),
                None => self@.node_id is None,
            },
    {
        self.node_id.as_ref()
    }

    /// The names of all nodes of the cluster, once the node has been told.
    pub fn node_ids(&self) -> (node_ids: Option<&Vec<String>>)
        ensures
            match node_ids {
                Some(node_ids) => self@.node_ids == Some(names_of(node_ids@)),
                None => self@.node_ids is None,
            },
    {
        self.node_ids.as_ref()
    }

    /// The values seen so far.
    pub fn messages(&self) -> (messages: &HashSet<usize>)
        ensures
            messages@ == self@.messages,
    {
        &self.messages
    }

    /// The neighbour map, once one has been supplied.
    pub fn topology(&self) -> (topology: Option<&Topology>)
        ensures
            match topology {
                Some(topology) => self@.topology == Some(topology@),
                None => self@.topology is None,
            },
    {
        self.topology.as_ref()
    }

    /// The id of the last message that the node originated; 0 before the first.
    pub fn curr_msg_id(&self) -> (id: usize)
        ensures
            id == self@.curr_msg_id,
    {
        self.curr_msg_id
    }

    /// How the node spreads what it learns.
    pub fn strategy(&self) -> (strategy: Strategy)
        ensures
            strategy == self@.strategy,
    {
        self.strategy
    }

    /// The values of a node in memory are finitely many.
    pub proof fn lemma_values_finite(&self)
        ensures
            self@.messages.finite(),
    {
        lemma_hash_set_finite(&self.messages);
    }

    /// Issues the next message id: one more than the last.
    pub fn next_msg_id(&mut self) -> (id: usize)
        requires
            old(self)@.curr_msg_id < usize::MAX,
        ensures
            id == old(self)@.curr_msg_id + 1,
            final(self)@ == old(self)@.with_issued(1),
    {
        self.curr_msg_id += 1;
        self.curr_msg_id
    }

    /// The list that the neighbour map gives for this node, as it stands there.
    pub fn neighbours_from_topology(&self) -> (listed: Option<Vec<String>>)
        ensures
            opt_names_of(listed) == self@.neighbours_from_topology(),
    {
        match (&self.topology, &self.node_id) {
            (Some(topology), Some(node_id)) => match topology.get(node_id) {
                Some(listed) => Some(copy_names(listed)),
                None => None,
            },
            _ => None,
        }
    }

    /// The nodes that this node forwards to, in order, never itself.
    pub fn get_neighbours(&self) -> (neighbours: Option<Vec<String>>)
        ensures
            opt_names_of(neighbours) == self@.neighbours(),
    {
        match (&self.node_id, &self.node_ids) {
            (Some(node_id), Some(node_ids)) => match self.neighbours_from_topology() {
                Some(listed) => Some(copy_names_without(&listed, node_id)),
                None => Some(copy_names_without(node_ids, node_id)),
            },
            _ => None,
        }
    }
}

} // verus!
