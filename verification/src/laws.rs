//! What holds of a single node, whatever it is sent: its values only grow, a repeated
//! broadcast changes nothing more, it is never its own neighbour, the answer to a read is a
//! snapshot, and no message id is used twice.

use crate::dispatch::{absorbed, answer, handle_output, handle_state, reply_to};
use crate::gossip::{gossip_forwards, gossip_state, Strategy};
use crate::message::{ExtraFieldsView, MsgView};
use crate::node::{other_than, without, NodeView};
use crate::topology::NodeId;
use vstd::prelude::*;
use vstd::set_lib::lemma_len_subset;

verus! {

/// One call that adds to the values of a node.
pub enum ValueOp {
    /// `record_value` with this value.
    Record(usize),
    /// `merge_values` with this set.
    Merge(Set<usize>),
}

/// The node after one such call.
pub open spec fn apply_op(state: NodeView, op: ValueOp) -> NodeView {
    match op {
        ValueOp::Record(value) => state.with_value(value),
        ValueOp::Merge(values) => state.with_values(values),
    }
}

/// The node after a sequence of such calls, made in order.
pub open spec fn apply_ops(state: NodeView, ops: Seq<ValueOp>) -> NodeView
    decreases ops.len(),
{
    if ops.len() == 0 {
        state
    } else {
        apply_op(apply_ops(state, ops.drop_last()), ops.last())
    }
}

/// Every set that a sequence of calls merges in is finite.
pub open spec fn finite_ops(ops: Seq<ValueOp>) -> bool {
    forall|i: int|
        0 <= i < ops.len() ==> (#[trigger] ops[i] matches ValueOp::Merge(values)
            ==> values.finite())
}

/// Monotonicity, one call: recording or merging loses no value and does not shrink the set.
pub proof fn values_grow_with_each_call(state: NodeView, op: ValueOp)
    requires
        state.messages.finite(),
        op matches ValueOp::Merge(values) ==> values.finite(),
    ensures
        state.messages.subset_of(apply_op(state, op).messages),
        apply_op(state, op).messages.finite(),
        state.messages.len() <= apply_op(state, op).messages.len(),
{
    lemma_len_subset(state.messages, apply_op(state, op).messages);
}

/// Monotonicity, any sequence of calls: of two points in the sequence, the later one holds
/// every value of the earlier one, and at least as many.
pub proof fn values_grow_along_calls(state: NodeView, ops: Seq<ValueOp>, earlier: int, later: int)
    requires
        state.messages.finite(),
        finite_ops(ops),
        0 <= earlier <= later <= ops.len(),
    ensures
        apply_ops(state, ops.take(later)).messages.finite(),
        apply_ops(state, ops.take(earlier)).messages.subset_of(
            apply_ops(state, ops.take(later)).messages,
        ),
        apply_ops(state, ops.take(earlier)).messages.len() <= apply_ops(
            state,
            ops.take(later),
        ).messages.len(),
    decreases later,
{
    if later > 0 {
        // The last call before `later` is applied to what the calls before it have reached.
        let head = ops.take(later - 1);
        assert(ops.take(later).drop_last() =~= head);
        if earlier == later {
            values_grow_along_calls(state, ops, earlier - 1, later - 1);
        } else {
            values_grow_along_calls(state, ops, earlier, later - 1);
        }
        values_grow_with_each_call(apply_ops(state, head), ops[later - 1]);
        if earlier < later {
            lemma_len_subset(
                apply_ops(state, ops.take(earlier)).messages,
                apply_ops(state, ops.take(later)).messages,
            );
        }
    }
}

/// Handling a message never loses a value, whatever the message.
pub proof fn handling_keeps_values(state: NodeView, msg: MsgView)
    ensures
        state.messages.subset_of(handle_state(state, msg).messages),
{
}

/// Idempotence of broadcast: after a broadcast of `value`, a second broadcast of it changes
/// no value, sets off no forward and is still acknowledged; and both together add at most
/// one value.
pub proof fn broadcast_twice_adds_once(
    state: NodeView,
    first: MsgView,
    second: MsgView,
    value: usize,
)
    requires
        state.messages.finite(),
        first.body.extra == (ExtraFieldsView::Broadcast { message: value }),
        second.body.extra == (ExtraFieldsView::Broadcast { message: value }),
    ensures
        ({
            let once = handle_state(state, first);
            let twice = handle_state(once, second);
            &&& once.messages == state.messages.insert(value)
            &&& twice.messages == once.messages
            &&& twice.messages.len() <= state.messages.len() + 1
            &&& handle_output(state, first).last() == reply_to(
                first,
                (absorbed(state, first.body.extra).curr_msg_id + 1) as usize,
                ExtraFieldsView::BroadcastOk,
            )
            &&& handle_output(once, second) == seq![
                reply_to(second, (once.curr_msg_id + 1) as usize, ExtraFieldsView::BroadcastOk),
            ]
        }),
{
    // The first broadcast adds the value; the second finds it there and forwards nothing.
    let once = handle_state(state, first);
    assert(once.messages =~= state.messages.insert(value));
    assert(handle_output(once, second) =~= seq![
        reply_to(second, (once.curr_msg_id + 1) as usize, ExtraFieldsView::BroadcastOk),
    ]);
}

/// Neighbour fallback: while no neighbour map is set, the neighbours are the peers without
/// the node itself.
pub proof fn neighbours_default_to_peers(state: NodeView)
    requires
        state.node_id is Some,
        state.node_ids is Some,
        state.topology is None,
    ensures
        state.neighbours() == Some(without(state.node_ids.unwrap(), state.node_id.unwrap())),
{
}

/// Once a neighbour map with a list for the node is set, the neighbours are that list
/// without the node itself, whatever the peers are.
pub proof fn neighbours_follow_topology(state: NodeView, topology: Map<NodeId, Seq<NodeId>>)
    requires
        state.node_id is Some,
        state.node_ids is Some,
        topology.contains_key(state.node_id.unwrap()),
    ensures
        state.with_topology(topology).neighbours() == Some(
            without(topology[state.node_id.unwrap()], state.node_id.unwrap()),
        ),
{
}

/// A node is never its own neighbour, and every neighbour comes from the list that the
/// neighbours were taken from.
pub proof fn neighbours_exclude_self(state: NodeView)
    requires
        state.neighbours() is Some,
    ensures
        !state.neighbours().unwrap().contains(state.node_id.unwrap()),
{
    let node_id = state.node_id.unwrap();
    let source = match state.neighbours_from_topology() {
        Some(listed) => listed,
        None => state.node_ids.unwrap(),
    };
    let kept = other_than(node_id);
    if without(source, node_id).contains(node_id) {
        let i = choose|i: int|
            0 <= i < without(source, node_id).len() && without(source, node_id)[i] == node_id;
        source.lemma_filter_pred(kept, i);
    }
}

/// Setting the same neighbour map again changes nothing.
pub proof fn set_topology_is_idempotent(state: NodeView, topology: Map<NodeId, Seq<NodeId>>)
    ensures
        state.with_topology(topology).with_topology(topology) == state.with_topology(topology),
{
}

/// No re-forwarding: a value that a node already holds, handed to it with nothing that it
/// does not hold, sets off no forward and changes nothing.
pub proof fn known_value_is_not_forwarded(state: NodeView, value: usize, known: Set<usize>)
    requires
        state.messages.contains(value),
        state.strategy == Strategy::AntiEntropy ==> known.subset_of(state.messages),
    ensures
        gossip_forwards(state, value, known) == Seq::<MsgView>::empty(),
        gossip_state(state, value, known) == state,
{
    assert(gossip_state(state, value, known).messages =~= state.messages);
}

/// After a node has taken in a value, taking in the same value with the same set again sets
/// off no forward.
pub proof fn second_delivery_is_silent(state: NodeView, value: usize, known: Set<usize>)
    ensures
        gossip_forwards(gossip_state(state, value, known), value, known) == Seq::<
            MsgView,
        >::empty(),
        gossip_state(gossip_state(state, value, known), value, known).messages == gossip_state(
            state,
            value,
            known,
        ).messages,
{
    let once = gossip_state(state, value, known);
    known_value_is_not_forwarded(once, value, known);
}

/// Read snapshot isolation: the answer to a read holds exactly the values of the moment of
/// the request, and handling the read changes no value. What the node learns later is
/// added to the node, which holds every value of the answer from then on.
pub proof fn read_answers_with_a_snapshot(state: NodeView, read: MsgView, later: MsgView)
    requires
        read.body.extra == ExtraFieldsView::Read,
    ensures
        handle_output(state, read) == seq![
            reply_to(
                read,
                (state.curr_msg_id + 1) as usize,
                ExtraFieldsView::ReadOk { messages: state.messages },
            ),
        ],
        handle_state(state, read).messages == state.messages,
        state.messages.subset_of(handle_state(handle_state(state, read), later).messages),
{
    assert(handle_output(state, read) =~= seq![
        reply_to(
            read,
            (state.curr_msg_id + 1) as usize,
            ExtraFieldsView::ReadOk { messages: state.messages },
        ),
    ]);
}

/// Message ids are never reused: what a node sends on handling a message carries the ids
/// that follow the last one issued, in order, and the last of them is the new last one.
pub proof fn message_ids_are_fresh(state: NodeView, msg: MsgView)
    requires
        state.curr_msg_id + handle_output(state, msg).len() <= usize::MAX,
    ensures
        handle_state(state, msg).curr_msg_id == state.curr_msg_id + handle_output(state, msg).len(),
        forall|i: int|
            0 <= i < handle_output(state, msg).len() ==> (#[trigger] handle_output(
                state,
                msg,
            )[i]).body.msg_id == state.curr_msg_id + i + 1,
{
}

/// Identity and peers change only through the initialization message.
pub proof fn identity_changes_only_on_init(state: NodeView, msg: MsgView)
    requires
        !(msg.body.extra is Init),
    ensures
        handle_state(state, msg).node_id == state.node_id,
        handle_state(state, msg).node_ids == state.node_ids,
{
}

} // verus!
