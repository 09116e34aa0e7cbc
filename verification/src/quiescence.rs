//! Every run of a cluster comes to an end: each delivery lowers a bound on the deliveries
//! that can still be made, so the network runs empty.

use crate::cluster::{
    lemma_delivery_keeps_settled, lemma_handle_keeps_wiring, lemma_run_keeps_settled, reconfigures,
    ClusterView,
};
use crate::dispatch::{answer, forwards, handle_output, handle_state};
use crate::gossip::Strategy;
use crate::message::{ExtraFieldsView, MsgView};
use crate::node::NodeView;
use vstd::prelude::*;
use vstd::set_lib::lemma_len_subset;

verus! {

/// The values that a message brings along.
pub open spec fn mentions(msg: MsgView) -> Set<usize> {
    match msg.body.extra {
        ExtraFieldsView::Broadcast { message } => Set::empty().insert(message),
        ExtraFieldsView::GossipBroadcast { new_message, all_messages } => all_messages.insert(
            new_message,
        ),
        _ => Set::empty(),
    }
}

/// What a message in flight counts for: one for its delivery, and one more for the answer
/// that its kind asks for.
pub open spec fn cost(msg: MsgView) -> nat {
    match msg.body.extra {
        ExtraFieldsView::Init { .. } => 2,
        ExtraFieldsView::Echo { .. } => 2,
        ExtraFieldsView::Generate => 2,
        ExtraFieldsView::Broadcast { .. } => 2,
        ExtraFieldsView::Read => 2,
        ExtraFieldsView::Topology { .. } => 2,
        _ => 1,
    }
}

/// What all messages in flight count for.
pub open spec fn network_cost(network: Seq<MsgView>) -> nat
    decreases network.len(),
{
    if network.len() == 0 {
        0
    } else {
        network_cost(network.drop_last()) + cost(network.last())
    }
}

/// What a node may still send: for each value of `universe` that it does not hold yet, one
/// forward to each neighbour, and one more.
pub open spec fn node_debt(state: NodeView, universe: Set<usize>) -> nat {
    (state.fanout() + 1) * universe.difference(state.messages).len()
}

/// What all nodes together may still send.
pub open spec fn nodes_debt(nodes: Seq<NodeView>, universe: Set<usize>) -> nat
    decreases nodes.len(),
{
    if nodes.len() == 0 {
        0
    } else {
        nodes_debt(nodes.drop_last(), universe) + node_debt(nodes.last(), universe)
    }
}

impl ClusterView {
    /// Whether every value in the cluster, held or in flight, belongs to `universe`.
    pub open spec fn within(self, universe: Set<usize>) -> bool {
        &&& forall|i: int|
            self.is_node(i) ==> (#[trigger] self.nodes[i]).messages.subset_of(universe)
        &&& forall|k: int|
            0 <= k < self.network.len() ==> mentions(#[trigger] self.network[k]).subset_of(
                universe,
            )
    }

    /// A bound on the deliveries that the cluster can still make: every delivery lowers it.
    pub open spec fn potential(self, universe: Set<usize>) -> nat {
        network_cost(self.network) + nodes_debt(self.nodes, universe)
    }

    /// Whether every entry of `schedule` names a message that is in flight at its moment.
    pub open spec fn admits(self, schedule: Seq<int>) -> bool
        decreases schedule.len(),
    {
        schedule.len() == 0 || (self.admits(schedule.drop_last()) && 0 <= schedule.last()
            < self.run(schedule.drop_last()).network.len())
    }
}

proof fn lemma_cost_remove(network: Seq<MsgView>, k: int)
    requires
        0 <= k < network.len(),
    ensures
        network_cost(network.remove(k)) + cost(network[k]) == network_cost(network),
    decreases network.len(),
{
    if k < network.len() - 1 {
        assert(network.remove(k).drop_last() =~= network.drop_last().remove(k));
        lemma_cost_remove(network.drop_last(), k);
    }
}

proof fn lemma_cost_concat(first: Seq<MsgView>, second: Seq<MsgView>)
    ensures
        network_cost(first + second) == network_cost(first) + network_cost(second),
    decreases second.len(),
{
    if second.len() > 0 {
        assert((first + second).drop_last() =~= first + second.drop_last());
        lemma_cost_concat(first, second.drop_last());
    }
}

proof fn lemma_cost_of_plain(network: Seq<MsgView>)
    requires
        forall|j: int| 0 <= j < network.len() ==> cost(#[trigger] network[j]) == 1,
    ensures
        network_cost(network) == network.len(),
    decreases network.len(),
{
    if network.len() > 0 {
        lemma_cost_of_plain(network.drop_last());
    }
}

proof fn lemma_debt_update(nodes: Seq<NodeView>, universe: Set<usize>, i: int, state: NodeView)
    requires
        0 <= i < nodes.len(),
    ensures
        nodes_debt(nodes.update(i, state), universe) + node_debt(nodes[i], universe) == nodes_debt(
            nodes,
            universe,
        ) + node_debt(state, universe),
    decreases nodes.len(),
{
    if i == nodes.len() - 1 {
        assert(nodes.update(i, state).drop_last() =~= nodes.drop_last());
    } else {
        assert(nodes.update(i, state).drop_last() =~= nodes.drop_last().update(i, state));
        lemma_debt_update(nodes.drop_last(), universe, i, state);
    }
}

/// A node that learns something has fewer values of the universe left to learn.
proof fn lemma_gap_shrinks(universe: Set<usize>, before: Set<usize>, after: Set<usize>)
    requires
        universe.finite(),
        before.subset_of(after),
        after.subset_of(universe),
        before != after,
    ensures
        universe.difference(after).len() < universe.difference(before).len(),
{
    if forall|x: usize| after.contains(x) ==> before.contains(x) {
        assert(before =~= after);
    }
    // One value has been learned; it is no longer left to learn.
    let x = choose|x: usize| after.contains(x) && !before.contains(x);
    let gap = universe.difference(before);
    assert(gap.contains(x));
    lemma_len_subset(universe.difference(after), gap.remove(x));
}

/// What handling one message costs a node is less than what the message counted for: the
/// cost of what the node sends, and of what it may still send, is paid for by the message
/// and by what the node has learned.
pub proof fn lemma_handling_pays(state: NodeView, msg: MsgView, universe: Set<usize>)
    requires
        universe.finite(),
        !reconfigures(msg),
        state.messages.subset_of(universe),
        mentions(msg).subset_of(universe),
    ensures
        handle_state(state, msg).messages.subset_of(universe),
        forall|j: int|
            0 <= j < handle_output(state, msg).len() ==> mentions(
                #[trigger] handle_output(state, msg)[j],
            ).subset_of(universe),
        network_cost(handle_output(state, msg)) + node_debt(handle_state(state, msg), universe)
            < cost(msg) + node_debt(state, universe),
{
    let after = handle_state(state, msg);
    let sent = handle_output(state, msg);
    let forwarded = forwards(state, msg.body.extra);
    lemma_handle_keeps_wiring(state, msg);
    lemma_cost_of_plain(forwarded);
    let replies: nat = if answer(state, msg.body.extra) is Some {
        1
    } else {
        0
    };
    assert(network_cost(sent) == forwarded.len() + replies) by {
        if answer(state, msg.body.extra) is Some {
            assert(sent.drop_last() =~= forwarded);
        }
    }
    // Every value that the message brings along belongs to the universe.
    assert(after.messages.subset_of(universe)) by {
        assert forall|x: usize| after.messages.contains(x) implies universe.contains(x) by {
            if !state.messages.contains(x) {
                assert(mentions(msg).contains(x));
            }
        }
    }
    let gap_before = universe.difference(state.messages).len();
    let gap_after = universe.difference(after.messages).len();
    if after.messages =~= state.messages {
        // Nothing learned, nothing forwarded.
        assert(forwarded.len() == 0);
    } else {
        // Something learned: the forwards are paid for by what is no longer left to learn.
        lemma_gap_shrinks(universe, state.messages, after.messages);
        assert((state.fanout() + 1) * gap_after + (state.fanout() + 1) <= (state.fanout() + 1)
            * gap_before) by (nonlinear_arith)
            requires
                gap_after < gap_before,
        ;
    }
}

/// Every delivery in a settled cluster lowers the potential, and brings in no value from
/// outside the universe.
pub proof fn lemma_delivery_pays(
    cluster: ClusterView,
    strategy: Strategy,
    universe: Set<usize>,
    k: int,
)
    requires
        cluster.settled(strategy),
        universe.finite(),
        cluster.within(universe),
        0 <= k < cluster.network.len(),
    ensures
        cluster.deliver(k).within(universe),
        cluster.deliver(k).potential(universe) < cluster.potential(universe),
{
    let after = cluster.deliver(k);
    let msg = cluster.network[k];
    let rest = cluster.network.remove(k);
    lemma_cost_remove(cluster.network, k);
    assert forall|n: int| 0 <= n < rest.len() implies mentions(#[trigger] rest[n]).subset_of(
        universe,
    ) by {
        // What stays in flight was in flight, one place later if it came after `k`.
        let m = if n < k {
            n
        } else {
            n + 1
        };
        assert(rest[n] == cluster.network[m]);
    }
    if cluster.has_node(msg.dst) {
        let j = cluster.index_of(msg.dst);
        let state = cluster.nodes[j];
        let sent = handle_output(state, msg);
        lemma_handling_pays(state, msg, universe);
        lemma_cost_concat(rest, sent);
        lemma_debt_update(cluster.nodes, universe, j, handle_state(state, msg));
        assert forall|n: int| 0 <= n < after.network.len() implies mentions(
            #[trigger] after.network[n],
        ).subset_of(universe) by {
            if n < rest.len() {
                assert(after.network[n] == rest[n]);
            } else {
                assert(after.network[n] == sent[n - rest.len()]);
            }
        }
    }
}

/// Termination. In a settled cluster whose values all belong to a finite universe, a run
/// that delivers a message at every step is no longer than the potential of the cluster:
/// no value is forwarded for ever.
pub proof fn runs_are_bounded(
    cluster: ClusterView,
    strategy: Strategy,
    universe: Set<usize>,
    schedule: Seq<int>,
)
    requires
        cluster.settled(strategy),
        universe.finite(),
        cluster.within(universe),
        cluster.admits(schedule),
    ensures
        cluster.run(schedule).within(universe),
        schedule.len() + cluster.run(schedule).potential(universe) <= cluster.potential(universe),
    decreases schedule.len(),
{
    if schedule.len() > 0 {
        runs_are_bounded(cluster, strategy, universe, schedule.drop_last());
        lemma_run_keeps_settled(cluster, strategy, schedule.drop_last());
        lemma_delivery_pays(
            cluster.run(schedule.drop_last()),
            strategy,
            universe,
            schedule.last(),
        );
    }
}

proof fn lemma_run_after_delivery(cluster: ClusterView, k: int, schedule: Seq<int>)
    ensures
        cluster.run(seq![k] + schedule) == cluster.deliver(k).run(schedule),
    decreases schedule.len(),
{
    let whole = seq![k] + schedule;
    if schedule.len() == 0 {
        assert(cluster.run(whole.drop_last()) == cluster);
    } else {
        assert(whole.drop_last() =~= seq![k] + schedule.drop_last());
        lemma_run_after_delivery(cluster, k, schedule.drop_last());
    }
}

/// Quiescence is reached. From a settled cluster whose values all belong to a finite
/// universe, delivering the oldest message again and again empties the network: the
/// returned schedule is such a run.
pub proof fn quiescence_is_reached(
    cluster: ClusterView,
    strategy: Strategy,
    universe: Set<usize>,
) -> (schedule: Seq<int>)
    requires
        cluster.settled(strategy),
        universe.finite(),
        cluster.within(universe),
    ensures
        cluster.run(schedule).network.len() == 0,
    decreases cluster.potential(universe),
{
    if cluster.network.len() == 0 {
        Seq::empty()
    } else {
        lemma_delivery_pays(cluster, strategy, universe, 0);
        lemma_delivery_keeps_settled(cluster, strategy, 0);
        let rest = quiescence_is_reached(cluster.deliver(0), strategy, universe);
        lemma_run_after_delivery(cluster, 0, rest);
        seq![0] + rest
    }
}

} // verus!
