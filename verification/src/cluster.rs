//! Many nodes and the messages in flight between them. Messages are delivered one at a time,
//! in any order, each to the node that it is addressed to. Here it is proved that a value
//! broadcast at one node reaches every node that can be reached from it, by the time
//! nothing is left in flight, and that a flooding node forwards each value once.

use crate::dispatch::{handle_output, handle_state};
use crate::gossip::Strategy;
use crate::message::{ExtraFieldsView, MsgView};
use crate::node::NodeView;
use crate::topology::NodeId;
use vstd::prelude::*;

verus! {

/// A cluster at one moment: its nodes, and the messages that have been sent and not yet
/// delivered. Messages are delivered one at a time, in any order, and none is lost.
pub struct ClusterView {
    pub nodes: Seq<NodeView>,
    pub network: Seq<MsgView>,
}

/// Whether a message changes whom its receiver knows: its identity, peers or neighbour map.
pub open spec fn reconfigures(msg: MsgView) -> bool {
    msg.body.extra is Init || msg.body.extra is Topology
}

/// Whether a message brings `value` to a receiver that spreads by `strategy`.
pub open spec fn carries(strategy: Strategy, msg: MsgView, value: usize) -> bool {
    match msg.body.extra {
        ExtraFieldsView::Broadcast { message } => message == value,
        ExtraFieldsView::GossipBroadcast { new_message, all_messages } => new_message == value || (
        strategy is AntiEntropy && all_messages.contains(value)),
        _ => false,
    }
}

/// Whether a message is a forward of `value` under its own name.
pub open spec fn forwards_value(msg: MsgView, value: usize) -> bool {
    msg.body.extra matches ExtraFieldsView::GossipBroadcast { new_message, .. } && new_message
        == value
}

/// Whether a node, on handling `msg`, sends a forward of `value`.
pub open spec fn sends_forward_of(state: NodeView, msg: MsgView, value: usize) -> bool {
    exists|j: int|
        0 <= j < handle_output(state, msg).len() && forwards_value(
            #[trigger] handle_output(state, msg)[j],
            value,
        )
}

impl ClusterView {
    /// Whether `i` is the position of a node.
    pub open spec fn is_node(self, i: int) -> bool {
        0 <= i < self.nodes.len()
    }

    /// The name of the node at position `i`.
    pub open spec fn name(self, i: int) -> NodeId {
        self.nodes[i].node_id.unwrap()
    }

    /// Whether some node goes by the name `id`.
    pub open spec fn has_node(self, id: NodeId) -> bool {
        exists|i: int| self.is_node(i) && (#[trigger] self.nodes[i]).node_id == Some(id)
    }

    /// The position of a node that goes by the name `id`.
    pub open spec fn index_of(self, id: NodeId) -> int {
        choose|i: int| self.is_node(i) && (#[trigger] self.nodes[i]).node_id == Some(id)
    }

    /// The cluster after the message at position `k` of the network has been delivered: the
    /// node it is addressed to has handled it, and what that node sent in turn has joined
    /// the network. A message addressed to nobody in the cluster leaves the network.
    pub open spec fn deliver(self, k: int) -> ClusterView {
        if 0 <= k < self.network.len() {
            let msg = self.network[k];
            let rest = self.network.remove(k);
            if self.has_node(msg.dst) {
                let i = self.index_of(msg.dst);
                ClusterView {
                    nodes: self.nodes.update(i, handle_state(self.nodes[i], msg)),
                    network: rest + handle_output(self.nodes[i], msg),
                }
            } else {
                ClusterView { nodes: self.nodes, network: rest }
            }
        } else {
            self
        }
    }

    /// The cluster after a run: one delivery for each entry of `schedule`, in order, each
    /// entry a position in the network of its moment.
    pub open spec fn run(self, schedule: Seq<int>) -> ClusterView
        decreases schedule.len(),
    {
        if schedule.len() == 0 {
            self
        } else {
            self.run(schedule.drop_last()).deliver(schedule.last())
        }
    }

    /// A cluster past its set-up: every node knows its name, no two nodes share one, all
    /// spread by `strategy`, and no message in flight would reconfigure its receiver.
    pub open spec fn settled(self, strategy: Strategy) -> bool {
        &&& forall|i: int|
            self.is_node(i) ==> (#[trigger] self.nodes[i]).node_id is Some && self.nodes[i].strategy
                == strategy
        &&& forall|i: int, j: int|
            self.is_node(i) && self.is_node(j) && i != j ==> (#[trigger] self.nodes[i]).node_id
                != (#[trigger] self.nodes[j]).node_id
        &&& forall|k: int| 0 <= k < self.network.len() ==> !reconfigures(#[trigger] self.network[k])
    }

    /// Whether the two clusters have the same nodes with the same names, peers, neighbour
    /// maps and strategies.
    pub open spec fn same_wiring(self, other: ClusterView) -> bool {
        &&& self.nodes.len() == other.nodes.len()
        &&& forall|i: int|
            self.is_node(i) ==> {
                &&& (#[trigger] self.nodes[i]).node_id == other.nodes[i].node_id
                &&& self.nodes[i].node_ids == other.nodes[i].node_ids
                &&& self.nodes[i].topology == other.nodes[i].topology
                &&& self.nodes[i].strategy == other.nodes[i].strategy
            }
    }

    /// Whether node `b` is a neighbour of node `a`.
    pub open spec fn edge(self, a: int, b: int) -> bool {
        match self.nodes[a].neighbours() {
            Some(neighbours) => neighbours.contains(self.name(b)),
            None => false,
        }
    }

    /// Whether node `i` holds `value`.
    pub open spec fn holds(self, i: int, value: usize) -> bool {
        self.nodes[i].messages.contains(value)
    }

    /// Whether a message that brings `value` to node `i` is in flight.
    pub open spec fn awaits(self, strategy: Strategy, i: int, value: usize) -> bool {
        exists|k: int|
            0 <= k < self.network.len() && (#[trigger] self.network[k]).dst == self.name(i)
                && carries(strategy, self.network[k], value)
    }

    /// Whether `value` is on its way wherever it is due: each neighbour of a node that holds
    /// it holds it too, or has it coming.
    pub open spec fn spreading(self, strategy: Strategy, value: usize) -> bool {
        forall|a: int, b: int|
            self.is_node(a) && self.is_node(b) && self.holds(a, value) && #[trigger] self.edge(a, b)
                ==> self.holds(b, value) || self.awaits(strategy, b, value)
    }

    /// Whether `value` has been brought to node `origin`, or is on its way there.
    pub open spec fn seeded(self, strategy: Strategy, origin: int, value: usize) -> bool {
        self.holds(origin, value) || self.awaits(strategy, origin, value)
    }

    /// Whether `path` leads from node to neighbour at every step.
    pub open spec fn is_path(self, path: Seq<int>) -> bool {
        &&& path.len() > 0
        &&& forall|j: int| 0 <= j < path.len() ==> self.is_node(#[trigger] path[j])
        &&& forall|j: int| 0 < j < path.len() ==> self.edge(path[j - 1], #[trigger] path[j])
    }

    /// Whether node `to` can be reached from node `from`, neighbour by neighbour.
    pub open spec fn reaches(self, from: int, to: int) -> bool {
        exists|path: Seq<int>| #[trigger]
            self.is_path(path) && path.first() == from && path.last() == to
    }

    /// Whether every node can be reached from node `origin`.
    pub open spec fn connected_from(self, origin: int) -> bool {
        forall|i: int| self.is_node(i) ==> #[trigger] self.reaches(origin, i)
    }

    /// Whether the delivery at position `k` makes node `i` send a forward of `value`.
    pub open spec fn step_forwards(self, k: int, i: int, value: usize) -> bool {
        &&& 0 <= k < self.network.len()
        &&& self.has_node(self.network[k].dst)
        &&& self.index_of(self.network[k].dst) == i
        &&& sends_forward_of(self.nodes[i], self.network[k], value)
    }

    /// In how many deliveries of a run node `i` sends a forward of `value`.
    pub open spec fn forwarding_steps(self, schedule: Seq<int>, i: int, value: usize) -> nat
        decreases schedule.len(),
    {
        if schedule.len() == 0 {
            0
        } else {
            let earlier = self.forwarding_steps(schedule.drop_last(), i, value);
            if self.run(schedule.drop_last()).step_forwards(schedule.last(), i, value) {
                earlier + 1
            } else {
                earlier
            }
        }
    }
}

/// A message that does not reconfigure leaves name, peers, neighbour map and strategy of its
/// receiver as they were, and so its neighbours.
pub proof fn lemma_handle_keeps_wiring(state: NodeView, msg: MsgView)
    requires
        !reconfigures(msg),
    ensures
        handle_state(state, msg).node_id == state.node_id,
        handle_state(state, msg).node_ids == state.node_ids,
        handle_state(state, msg).topology == state.topology,
        handle_state(state, msg).strategy == state.strategy,
        handle_state(state, msg).neighbours() == state.neighbours(),
{
}

/// No node ever sends a message that reconfigures its receiver.
pub proof fn lemma_output_never_reconfigures(state: NodeView, msg: MsgView, j: int)
    requires
        0 <= j < handle_output(state, msg).len(),
    ensures
        !reconfigures(handle_output(state, msg)[j]),
{
}

/// A node holds a value once it has handled a message that carries it.
pub proof fn lemma_carried_value_is_held(state: NodeView, msg: MsgView, value: usize)
    requires
        carries(state.strategy, msg, value),
    ensures
        handle_state(state, msg).messages.contains(value),
{
}

/// A node that learns a value sends it on to every neighbour: the forward to the neighbour
/// at position `t` carries it, whatever the strategy of that neighbour.
pub proof fn lemma_new_value_is_forwarded(state: NodeView, msg: MsgView, value: usize, t: int)
    requires
        !state.messages.contains(value),
        handle_state(state, msg).messages.contains(value),
        state.neighbours() is Some,
        0 <= t < state.neighbours().unwrap().len(),
    ensures
        t < handle_output(state, msg).len(),
        handle_output(state, msg)[t].dst == state.neighbours().unwrap()[t],
        carries(state.strategy, handle_output(state, msg)[t], value),
{
}

/// A delivery that makes a node forward teaches that node something: it holds strictly
/// more afterwards. Under flooding it did not hold the forwarded value before.
pub proof fn forwarding_means_learning(state: NodeView, msg: MsgView, value: usize)
    requires
        sends_forward_of(state, msg, value),
    ensures
        handle_state(state, msg).messages.contains(value),
        state.messages.subset_of(handle_state(state, msg).messages),
        handle_state(state, msg).messages != state.messages,
        state.strategy is Flood ==> !state.messages.contains(value),
{
    if state.strategy is AntiEntropy {
        // The forward shows that the node has learned something: this is what it learned.
        let known = match msg.body.extra {
            ExtraFieldsView::GossipBroadcast { all_messages, .. } => all_messages,
            _ => Set::empty(),
        };
        let news = choose|x: usize| known.insert(value).contains(x) && !state.messages.contains(x);
        assert(handle_state(state, msg).messages.contains(news));
    }
}

/// One delivery in a settled cluster leaves it settled and wired as it was, and takes no
/// value from any node.
pub proof fn lemma_delivery_keeps_settled(cluster: ClusterView, strategy: Strategy, k: int)
    requires
        cluster.settled(strategy),
    ensures
        cluster.deliver(k).settled(strategy),
        cluster.same_wiring(cluster.deliver(k)),
        forall|i: int|
            cluster.is_node(i) ==> (#[trigger] cluster.nodes[i]).messages.subset_of(
                cluster.deliver(k).nodes[i].messages,
            ),
        forall|i: int|
            cluster.is_node(i) ==> (#[trigger] cluster.deliver(k).nodes[i]).neighbours()
                == cluster.nodes[i].neighbours(),
{
    let after = cluster.deliver(k);
    if 0 <= k < cluster.network.len() {
        let msg = cluster.network[k];
        let rest = cluster.network.remove(k);
        if cluster.has_node(msg.dst) {
            let j = cluster.index_of(msg.dst);
            lemma_handle_keeps_wiring(cluster.nodes[j], msg);
        }
        assert forall|n: int| 0 <= n < after.network.len() implies !reconfigures(
            #[trigger] after.network[n],
        ) by {
            if n >= rest.len() {
                let j = cluster.index_of(msg.dst);
                lemma_output_never_reconfigures(cluster.nodes[j], msg, n - rest.len());
            }
        }
    }
}

/// One delivery in a settled cluster keeps a spreading value spreading. A value that a node
/// held it holds still, and one that it had coming has arrived or is still coming.
pub proof fn lemma_delivery_keeps_spreading(
    cluster: ClusterView,
    strategy: Strategy,
    value: usize,
    k: int,
)
    requires
        cluster.settled(strategy),
        cluster.spreading(strategy, value),
    ensures
        cluster.deliver(k).spreading(strategy, value),
        forall|i: int|
            cluster.is_node(i) && cluster.holds(i, value) ==> #[trigger] cluster.deliver(k).holds(
                i,
                value,
            ),
        forall|i: int|
            cluster.is_node(i) && cluster.seeded(strategy, i, value) ==> #[trigger] cluster.deliver(
                k,
            ).seeded(strategy, i, value),
{
    let after = cluster.deliver(k);
    lemma_delivery_keeps_settled(cluster, strategy, k);
    if 0 <= k < cluster.network.len() {
        let msg = cluster.network[k];
        let rest = cluster.network.remove(k);
        let state = cluster.nodes[cluster.index_of(msg.dst)];
        assert forall|i: int|
            cluster.is_node(i) && cluster.awaits(strategy, i, value) implies after.holds(i, value)
            || after.awaits(strategy, i, value) by {
            let m = choose|m: int|
                0 <= m < cluster.network.len() && (#[trigger] cluster.network[m]).dst
                    == cluster.name(i) && carries(strategy, cluster.network[m], value);
            if m == k {
                // The message has been delivered to node `i`.
                lemma_carried_value_is_held(state, msg, value);
            } else {
                // The message is still in flight, one place earlier if it came after `k`.
                let n = if m < k {
                    m
                } else {
                    m - 1
                };
                assert(after.network[n] == cluster.network[m]);
            }
        }
        assert forall|a: int, b: int|
            after.is_node(a) && after.is_node(b) && after.holds(a, value) && #[trigger] after.edge(
                a,
                b,
            ) implies after.holds(b, value) || after.awaits(strategy, b, value) by {
            assert(cluster.is_node(a) && cluster.is_node(b));
            assert(cluster.edge(a, b));
            if !cluster.holds(a, value) {
                // Node `a` has learned the value in this delivery, and sends it on.
                let neighbours = state.neighbours().unwrap();
                let t = choose|t: int|
                    0 <= t < neighbours.len() && neighbours[t] == cluster.name(b);
                lemma_new_value_is_forwarded(state, msg, value, t);
                assert(after.network[rest.len() + t] == handle_output(state, msg)[t]);
            }
        }
    }
}

/// A whole run in a settled cluster leaves it settled and wired as it was.
pub proof fn lemma_run_keeps_settled(cluster: ClusterView, strategy: Strategy, schedule: Seq<int>)
    requires
        cluster.settled(strategy),
    ensures
        cluster.run(schedule).settled(strategy),
        cluster.same_wiring(cluster.run(schedule)),
        forall|i: int|
            cluster.is_node(i) ==> (#[trigger] cluster.nodes[i]).messages.subset_of(
                cluster.run(schedule).nodes[i].messages,
            ),
        forall|i: int|
            cluster.is_node(i) ==> (#[trigger] cluster.run(schedule).nodes[i]).neighbours()
                == cluster.nodes[i].neighbours(),
    decreases schedule.len(),
{
    if schedule.len() > 0 {
        let earlier = cluster.run(schedule.drop_last());
        lemma_run_keeps_settled(cluster, strategy, schedule.drop_last());
        lemma_delivery_keeps_settled(earlier, strategy, schedule.last());
        assert forall|i: int| cluster.is_node(i) implies (#[trigger] cluster.nodes[i])
            .messages.subset_of(cluster.run(schedule).nodes[i].messages) by {
            assert(earlier.nodes[i].messages.subset_of(cluster.run(schedule).nodes[i].messages));
        }
    }
}

/// A whole run in a settled cluster keeps a spreading value spreading.
pub proof fn lemma_run_keeps_spreading(
    cluster: ClusterView,
    strategy: Strategy,
    value: usize,
    schedule: Seq<int>,
)
    requires
        cluster.settled(strategy),
        cluster.spreading(strategy, value),
    ensures
        cluster.run(schedule).spreading(strategy, value),
        forall|i: int|
            cluster.is_node(i) && cluster.seeded(strategy, i, value) ==> #[trigger] cluster.run(
                schedule,
            ).seeded(strategy, i, value),
    decreases schedule.len(),
{
    if schedule.len() > 0 {
        let earlier = cluster.run(schedule.drop_last());
        lemma_run_keeps_settled(cluster, strategy, schedule.drop_last());
        lemma_run_keeps_spreading(cluster, strategy, value, schedule.drop_last());
        lemma_delivery_keeps_spreading(earlier, strategy, value, schedule.last());
    }
}

/// In a quiet cluster in which `value` is spreading, a node at the end of a path holds the
/// value if the node at its start does.
pub proof fn lemma_value_follows_path(
    cluster: ClusterView,
    strategy: Strategy,
    value: usize,
    path: Seq<int>,
)
    requires
        cluster.network.len() == 0,
        cluster.spreading(strategy, value),
        cluster.is_path(path),
        cluster.holds(path.first(), value),
    ensures
        cluster.holds(path.last(), value),
    decreases path.len(),
{
    if path.len() > 1 {
        // The node before the last holds the value, and nothing is in flight to the last.
        let last = path.len() - 1;
        lemma_value_follows_path(cluster, strategy, value, path.drop_last());
        assert(cluster.edge(path[last - 1], path[last]));
    }
}

/// Convergence. Take a settled cluster, a value that has been brought to one node or is on
/// its way there, and that is spreading from every node that already holds it; let every
/// node be reachable from that one node. Then, after any run that ends with nothing left in
/// flight, every node holds the value. This holds under flooding and under anti-entropy.
pub proof fn convergence(
    cluster: ClusterView,
    strategy: Strategy,
    origin: int,
    value: usize,
    schedule: Seq<int>,
)
    requires
        cluster.settled(strategy),
        cluster.is_node(origin),
        cluster.seeded(strategy, origin, value),
        cluster.spreading(strategy, value),
        cluster.connected_from(origin),
        cluster.run(schedule).network.len() == 0,
    ensures
        cluster.run(schedule).nodes.len() == cluster.nodes.len(),
        forall|i: int| cluster.is_node(i) ==> #[trigger] cluster.run(schedule).holds(i, value),
{
    let quiet = cluster.run(schedule);
    lemma_run_keeps_settled(cluster, strategy, schedule);
    lemma_run_keeps_spreading(cluster, strategy, value, schedule);
    assert(quiet.seeded(strategy, origin, value));
    assert forall|i: int| cluster.is_node(i) implies #[trigger] quiet.holds(i, value) by {
        assert(cluster.reaches(origin, i));
        let path = choose|path: Seq<int>| #[trigger]
            cluster.is_path(path) && path.first() == origin && path.last() == i;
        // The run has left the neighbours as they were, so the path is still one.
        assert(quiet.is_path(path));
        lemma_value_follows_path(quiet, strategy, value, path);
    }
}

/// Convergence from a broadcast. In a settled cluster in which no node holds `value` yet, a
/// broadcast of it to one node from which every node can be reached brings it to every
/// node: after any run that ends with nothing left in flight, every node holds it.
pub proof fn broadcast_reaches_every_node(
    cluster: ClusterView,
    strategy: Strategy,
    origin: int,
    value: usize,
    k: int,
    schedule: Seq<int>,
)
    requires
        cluster.settled(strategy),
        cluster.is_node(origin),
        forall|i: int| cluster.is_node(i) ==> !cluster.holds(i, value),
        0 <= k < cluster.network.len(),
        cluster.network[k].dst == cluster.name(origin),
        cluster.network[k].body.extra == (ExtraFieldsView::Broadcast { message: value }),
        cluster.connected_from(origin),
        cluster.run(schedule).network.len() == 0,
    ensures
        forall|i: int| cluster.is_node(i) ==> #[trigger] cluster.run(schedule).holds(i, value),
{
    convergence(cluster, strategy, origin, value, schedule);
}

/// Under flooding, a node with a neighbour that learns a value sends forwards of it.
pub proof fn lemma_flood_learning_forwards(state: NodeView, msg: MsgView, value: usize)
    requires
        state.strategy is Flood,
        !state.messages.contains(value),
        handle_state(state, msg).messages.contains(value),
        state.fanout() > 0,
    ensures
        sends_forward_of(state, msg, value),
{
    lemma_new_value_is_forwarded(state, msg, value, 0);
}

/// Under flooding, the deliveries of a run in which a node sends forwards of one value are
/// at most one, and there is one only if the node has learned the value in the run.
pub proof fn lemma_flood_forwarding_steps(
    cluster: ClusterView,
    schedule: Seq<int>,
    i: int,
    value: usize,
)
    requires
        cluster.is_node(i),
        cluster.nodes[i].strategy is Flood,
    ensures
        cluster.run(schedule).is_node(i),
        cluster.run(schedule).nodes[i].strategy is Flood,
        cluster.holds(i, value) ==> cluster.run(schedule).holds(i, value),
        cluster.forwarding_steps(schedule, i, value) <= 1,
        cluster.forwarding_steps(schedule, i, value) == 1 ==> !cluster.holds(i, value)
            && cluster.run(schedule).holds(i, value),
    decreases schedule.len(),
{
    if schedule.len() > 0 {
        let earlier = cluster.run(schedule.drop_last());
        let k = schedule.last();
        lemma_flood_forwarding_steps(cluster, schedule.drop_last(), i, value);
        if earlier.step_forwards(k, i, value) {
            forwarding_means_learning(earlier.nodes[i], earlier.network[k], value);
        }
    }
}

/// No infinite forwarding. Under flooding a node sends forwards of one value in at most one
/// delivery of any run, and in none if it held the value from the start.
pub proof fn flood_forwards_once(cluster: ClusterView, schedule: Seq<int>, i: int, value: usize)
    requires
        cluster.is_node(i),
        cluster.nodes[i].strategy is Flood,
    ensures
        cluster.forwarding_steps(schedule, i, value) <= 1,
        cluster.holds(i, value) ==> cluster.forwarding_steps(schedule, i, value) == 0,
{
    lemma_flood_forwarding_steps(cluster, schedule, i, value);
}

/// Exactly one forward per node and value. In a settled cluster that floods, a node with a
/// neighbour that learns a value in a run sends forwards of it in exactly one delivery of
/// that run.
pub proof fn flood_forwards_exactly_once(
    cluster: ClusterView,
    schedule: Seq<int>,
    i: int,
    value: usize,
)
    requires
        cluster.settled(Strategy::Flood),
        cluster.is_node(i),
        cluster.nodes[i].fanout() > 0,
        !cluster.holds(i, value),
        cluster.run(schedule).holds(i, value),
    ensures
        cluster.forwarding_steps(schedule, i, value) == 1,
    decreases schedule.len(),
{
    let earlier = cluster.run(schedule.drop_last());
    let k = schedule.last();
    lemma_run_keeps_settled(cluster, Strategy::Flood, schedule.drop_last());
    lemma_flood_forwarding_steps(cluster, schedule.drop_last(), i, value);
    if earlier.holds(i, value) {
        flood_forwards_exactly_once(cluster, schedule.drop_last(), i, value);
        if earlier.step_forwards(k, i, value) {
            forwarding_means_learning(earlier.nodes[i], earlier.network[k], value);
        }
    } else {
        // The last delivery has taught node `i` the value.
        lemma_flood_learning_forwards(earlier.nodes[i], earlier.network[k], value);
    }
}

} // verus!
