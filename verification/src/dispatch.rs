//! What a node does with each kind of message: a total function from the node and the
//! message to the node afterwards and the messages that it sends.

use crate::gossip::{gossip, gossip_forwards, gossip_state};
use crate::message::{views_of, ExtraFields, ExtraFieldsView, Msg, MsgBody, MsgBodyView, MsgView};
use crate::node::{NodeData, NodeView};
use std::collections::HashSet;
use vstd::prelude::*;
use vstd::string::*;

verus! {

/// The character that stands for a digit below ten.
pub open spec fn digit_char(digit: nat) -> char {
    if digit == 0 {
        '0'
    } else if digit == 1 {
        '1'
    } else if digit == 2 {
        '2'
    } else if digit == 3 {
        '3'
    } else if digit == 4 {
        '4'
    } else if digit == 5 {
        '5'
    } else if digit == 6 {
        '6'
    } else if digit == 7 {
        '7'
    } else if digit == 8 {
        '8'
    } else {
        '9'
    }
}

/// A number in decimal, most significant digit first, without leading zeros.
pub open spec fn decimal_digits(n: nat) -> Seq<char>
    decreases n,
{
    if n < 10 {
        seq![digit_char(n)]
    } else {
        decimal_digits(n / 10).push(digit_char(n % 10))
    }
}

/// The identifier that a node hands out on request: its name (empty while it has none), a
/// hyphen, and the id of the last message it originated.
pub open spec fn generated_id(state: NodeView) -> Seq<char> {
    let name = match state.node_id {
        Some(node_id) => node_id,
        None => Seq::empty(),
    };
    name.push('-') + decimal_digits(state.curr_msg_id as nat)
}

/// What a message of this kind is answered with; `None` for the kinds that get no answer:
/// gossip between nodes, and answers themselves.
pub open spec fn answer(state: NodeView, extra: ExtraFieldsView) -> Option<ExtraFieldsView> {
    match extra {
        ExtraFieldsView::Init { .. } => Some(ExtraFieldsView::InitOk),
        ExtraFieldsView::Echo { echo } => Some(ExtraFieldsView::EchoOk { echo }),
        ExtraFieldsView::Generate => Some(ExtraFieldsView::GenerateOk { id: generated_id(state) }),
        ExtraFieldsView::Broadcast { .. } => Some(ExtraFieldsView::BroadcastOk),
        ExtraFieldsView::Read => Some(ExtraFieldsView::ReadOk { messages: state.messages }),
        ExtraFieldsView::Topology { .. } => Some(ExtraFieldsView::TopologyOk),
        _ => None,
    }
}

/// The node after a message of this kind has had its effect, before any answer is issued.
pub open spec fn absorbed(state: NodeView, extra: ExtraFieldsView) -> NodeView {
    match extra {
        ExtraFieldsView::Init { node_id, node_ids } => state.with_identity(node_id, node_ids),
        ExtraFieldsView::Topology { topology } => state.with_topology(topology),
        ExtraFieldsView::Broadcast { message } => gossip_state(state, message, Set::empty()),
        ExtraFieldsView::GossipBroadcast { new_message, all_messages } => gossip_state(
            state,
            new_message,
            all_messages,
        ),
        _ => state,
    }
}

/// The forwards that a message of this kind sets off.
pub open spec fn forwards(state: NodeView, extra: ExtraFieldsView) -> Seq<MsgView> {
    match extra {
        ExtraFieldsView::Broadcast { message } => gossip_forwards(state, message, Set::empty()),
        ExtraFieldsView::GossipBroadcast { new_message, all_messages } => gossip_forwards(
            state,
            new_message,
            all_messages,
        ),
        _ => Seq::empty(),
    }
}

/// The answer to `request`, sent back to where it came from under the id `msg_id`.
pub open spec fn reply_to(request: MsgView, msg_id: usize, extra: ExtraFieldsView) -> MsgView {
    MsgView {
        src: request.dst,
        dst: request.src,
        body: MsgBodyView { msg_id, in_reply_to: Some(request.body.msg_id), extra },
    }
}

/// The node after it has handled `msg`.
pub open spec fn handle_state(state: NodeView, msg: MsgView) -> NodeView {
    let absorbed = absorbed(state, msg.body.extra);
    match answer(state, msg.body.extra) {
        Some(_) => absorbed.with_issued(1),
        None => absorbed,
    }
}

/// What the node sends on handling `msg`: the forwards first, then the answer if the kind
/// has one. The answer takes the message id after the last forward.
pub open spec fn handle_output(state: NodeView, msg: MsgView) -> Seq<MsgView> {
    let forwards = forwards(state, msg.body.extra);
    match answer(state, msg.body.extra) {
        Some(extra) => forwards.push(
            reply_to(msg, (absorbed(state, msg.body.extra).curr_msg_id + 1) as usize, extra),
        ),
        None => forwards,
    }
}

fn digit_str(digit: usize) -> (text: &'static str)
    requires
        digit < 10,
    ensures
        text@ == seq![digit_char(digit as nat)],
{
    proof {
        reveal_strlit("0");
        reveal_strlit("1");
        reveal_strlit("2");
        reveal_strlit("3");
        reveal_strlit("4");
        reveal_strlit("5");
        reveal_strlit("6");
        reveal_strlit("7");
        reveal_strlit("8");
        reveal_strlit("9");
    }
    match digit {
        0 => "0",
        1 => "1",
        2 => "2",
        3 => "3",
        4 => "4",
        5 => "5",
        6 => "6",
        7 => "7",
        8 => "8",
        _ => "9",
    }
}

fn decimal(n: usize) -> (text: String)
    ensures
        text@ == decimal_digits(n as nat),
    decreases n,
{
    let mut text = if n < 10 {
        String::new()
    } else {
        decimal(n / 10)
    };
    text.append(digit_str(n % 10));
    text
}

fn generate_id(node_data: &NodeData) -> (id: String)
    ensures
        id@ == generated_id(node_data@),
{
    let mut id = match node_data.node_id() {
        Some(node_id) => node_id.clone(),
        None => String::new(),
    };
    proof {
        reveal_strlit("-");
    }
    id.append("-");
    let digits = decimal(node_data.curr_msg_id());
    id.append(digits.as_str());
    id
}

/// Handles one incoming message: updates the node, and returns what it sends in turn, in
/// the order in which it is to be sent.
pub fn handle(node_data: &mut NodeData, in_msg: Msg) -> (out: Vec<Msg>)
    requires
        old(node_data)@.curr_msg_id + handle_output(old(node_data)@, in_msg@).len() <= usize::MAX,
    ensures
        final(node_data)@ == handle_state(old(node_data)@, in_msg@),
        views_of(out@) == handle_output(old(node_data)@, in_msg@),
{
    let ghost before = node_data@;
    let ghost request = in_msg@;
    let Msg { src, dst, body } = in_msg;
    let MsgBody { msg_id, in_reply_to: _, extra } = body;
    let mut out: Vec<Msg> = Vec::new();
    let ok_extra: Option<ExtraFields> = match extra {
        ExtraFields::Init { node_id, node_ids } => {
            node_data.set_identity(node_id, node_ids);
            Some(ExtraFields::InitOk)
        },
        ExtraFields::InitOk => None,
        ExtraFields::Echo { echo } => Some(ExtraFields::EchoOk { echo }),
        ExtraFields::EchoOk { echo: _ } => None,
        ExtraFields::Generate => Some(ExtraFields::GenerateOk { id: generate_id(node_data) }),
        ExtraFields::GenerateOk { id: _ } => None,
        ExtraFields::Broadcast { message } => {
            out = gossip(node_data, message, HashSet::new());
            Some(ExtraFields::BroadcastOk)
        },
        ExtraFields::BroadcastOk => None,
        ExtraFields::Read => Some(ExtraFields::ReadOk { messages: node_data.read_values() }),
        ExtraFields::ReadOk { messages: _ } => None,
        ExtraFields::Topology { topology } => {
            node_data.set_topology(topology);
            Some(ExtraFields::TopologyOk)
        },
        ExtraFields::TopologyOk => None,
        ExtraFields::GossipBroadcast { new_message, all_messages } => {
            out = gossip(node_data, new_message, all_messages);
            None
        },
    };
    assert(node_data@ == absorbed(before, request.body.extra));
    assert(views_of(out@) =~= forwards(before, request.body.extra));
    if let Some(inner) = ok_extra {
        let reply_id = node_data.next_msg_id();
        let ok_msg = Msg {
            src: dst,
            dst: src,
            body: MsgBody { msg_id: reply_id, in_reply_to: Some(msg_id), extra: inner },
        };
        out.push(ok_msg);
    }
    out
}

/// Handles one incoming message as `handle` does, if the node can still issue an id for each
/// neighbour and one for an answer; otherwise leaves the node as it is and returns `None`.
pub fn try_handle(node_data: &mut NodeData, in_msg: Msg) -> (out: Option<Vec<Msg>>)
    ensures
        out is Some <==> old(node_data)@.curr_msg_id + old(node_data)@.fanout() + 1 <= usize::MAX,
        match out {
            Some(out) => {
                &&& final(node_data)@ == handle_state(old(node_data)@, in_msg@)
                &&& views_of(out@) == handle_output(old(node_data)@, in_msg@)
            },
            None => final(node_data)@ == old(node_data)@,
        },
{
    let fanout = match node_data.get_neighbours() {
        Some(neighbours) => neighbours.len(),
        None => 0,
    };
    if fanout < usize::MAX && node_data.curr_msg_id() <= usize::MAX - fanout - 1 {
        Some(handle(node_data, in_msg))
    } else {
        None
    }
}

} // verus!
