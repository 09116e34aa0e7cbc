//! How a node spreads what it learns: by flooding single values, or by handing on all it
//! knows. Either way a node forwards only when it has learned something, which is what
//! stops a value from going round for ever.

use crate::message::{views_of, ExtraFields, ExtraFieldsView, Msg, MsgBody, MsgBodyView, MsgView};
use crate::node::{NodeData, NodeView};
use crate::topology::{names_of, NodeId};
use std::collections::HashSet;
use vstd::prelude::*;

verus! {

broadcast use vstd::std_specs::hash::group_hash_axioms;

/// How a node spreads what it learns.
#[derive(Debug, Clone, Copy, PartialEq, Eq)]
pub enum Strategy {
    /// A value is forwarded alone, once, by each node that sees it for the first time.
    Flood,
    /// Every forward carries the sender's whole value set, and a node forwards whenever it
    /// learns anything.
    AntiEntropy,
}

/// The values that a node holds after it has been handed `value` together with the set
/// `known` of its sender. A flooding node takes the value alone.
pub open spec fn gossip_values(state: NodeView, value: usize, known: Set<usize>) -> Set<usize> {
    match state.strategy {
        Strategy::Flood => state.messages.insert(value),
        Strategy::AntiEntropy => state.messages.union(known.insert(value)),
    }
}

/// Whether being handed `value` and `known` teaches the node anything: the one gate behind
/// every forward.
pub open spec fn gossip_learns(state: NodeView, value: usize, known: Set<usize>) -> bool {
    match state.strategy {
        Strategy::Flood => !state.messages.contains(value),
        Strategy::AntiEntropy => !known.insert(value).subset_of(state.messages),
    }
}

/// The value set that each forward carries: nothing under flooding, all that the node now
/// holds under anti-entropy.
pub open spec fn gossip_payload(state: NodeView, value: usize, known: Set<usize>) -> Set<usize> {
    match state.strategy {
        Strategy::Flood => Set::empty(),
        Strategy::AntiEntropy => gossip_values(state, value, known),
    }
}

/// The nodes that get a forward: every neighbour if the node learned something, nobody
/// otherwise, and nobody while the node has no neighbours yet.
pub open spec fn gossip_targets(state: NodeView, value: usize, known: Set<usize>) -> Seq<NodeId> {
    if gossip_learns(state, value, known) {
        match state.neighbours() {
            Some(neighbours) => neighbours,
            None => Seq::empty(),
        }
    } else {
        Seq::empty()
    }
}

/// The forwards that the node sends, one to each target in order, each under the next
/// message id.
pub open spec fn gossip_forwards(state: NodeView, value: usize, known: Set<usize>) -> Seq<
    MsgView,
> {
    let targets = gossip_targets(state, value, known);
    Seq::new(
        targets.len(),
        |i: int|
            MsgView {
                src: state.node_id.unwrap(),
                dst: targets[i],
                body: MsgBodyView {
                    msg_id: (state.curr_msg_id + i + 1) as usize,
                    in_reply_to: None,
                    extra: ExtraFieldsView::GossipBroadcast {
                        new_message: value,
                        all_messages: gossip_payload(state, value, known),
                    },
                },
            },
    )
}

/// The node after it has been handed `value` and `known` and has sent its forwards.
pub open spec fn gossip_state(state: NodeView, value: usize, known: Set<usize>) -> NodeView {
    NodeView { messages: gossip_values(state, value, known), ..state }.with_issued(
        gossip_targets(state, value, known).len(),
    )
}

/// Takes in one value, with the value set that its sender knew, and returns the forwards
/// that the node owes its neighbours.
pub fn gossip(
    node_data: &mut NodeData,
    new_message: usize,
    all_messages: HashSet<usize>,
) -> (forwards: Vec<Msg>)
    requires
        old(node_data)@.curr_msg_id + gossip_targets(
            old(node_data)@,
            new_message,
            all_messages@,
        ).len() <= usize::MAX,
    ensures
        final(node_data)@ == gossip_state(old(node_data)@, new_message, all_messages@),
        views_of(forwards@) == gossip_forwards(old(node_data)@, new_message, all_messages@),
{
    let ghost before = node_data@;
    let ghost known = all_messages@;
    let strategy = node_data.strategy();
    let learned = match strategy {
        Strategy::Flood => node_data.record_value(new_message),
        Strategy::AntiEntropy => {
            let mut incoming = all_messages;
            incoming.insert(new_message);
            let newly_added = node_data.merge_values(&incoming);
            proof {
                // Nothing was added exactly when the node held all of it already.
                if newly_added@.is_empty() {
                    assert forall|x: usize|
                        known.insert(new_message).contains(x) implies before.messages.contains(
                        x,
                    ) by {
                        assert(!newly_added@.contains(x));
                    }
                } else {
                    let x = choose|x: usize| newly_added@.contains(x);
                    assert(known.insert(new_message).contains(x) && !before.messages.contains(x));
                }
            }
            !newly_added.is_empty()
        },
    };
    let ghost taught = NodeView { messages: gossip_values(before, new_message, known), ..before };
    assert(node_data@ == taught);
    assert(learned == gossip_learns(before, new_message, known));
    let mut forwards: Vec<Msg> = Vec::new();
    let ghost expected = gossip_forwards(before, new_message, known);
    if learned {
        let own = match node_data.node_id() {
            Some(node_id) => Some(node_id.clone()),
            None => None,
        };
        match (own, node_data.get_neighbours()) {
            (Some(node_id), Some(neighbours)) => {
                let mut i: usize = 0;
                while i < neighbours.len()
                    invariant
                        i <= neighbours.len(),
                        names_of(neighbours@) == gossip_targets(before, new_message, known),
                        before.curr_msg_id + neighbours.len() <= usize::MAX,
                        node_id@ == before.node_id.unwrap(),
                        strategy == before.strategy,
                        taught == (NodeView {
                            messages: gossip_values(before, new_message, known),
                            ..before
                        }),
                        node_data@ == taught.with_issued(i as nat),
                        expected == gossip_forwards(before, new_message, known),
                        forwards.len() == i,
                        forall|j: int| 0 <= j < i ==> forwards[j]@ == expected[j],
                    decreases neighbours.len() - i,
                {
                    let payload = match strategy {
                        Strategy::Flood => HashSet::new(),
                        Strategy::AntiEntropy => node_data.read_values(),
                    };
                    let msg_id = node_data.next_msg_id();
                    let forward = Msg {
                        src: node_id.clone(),
                        dst: neighbours[i].clone(),
                        body: MsgBody {
                            msg_id,
                            in_reply_to: None,
                            extra: ExtraFields::GossipBroadcast {
                                new_message,
                                all_messages: payload,
                            },
                        },
                    };
                    forwards.push(forward);
                    i += 1;
                }
            },
            _ => {},
        }
    }
    forwards
}

} // verus!
