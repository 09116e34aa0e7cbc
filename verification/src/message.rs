//! The messages that nodes and clients exchange, and their mathematical content.

use crate::topology::{names_of, NodeId, Topology};
use std::collections::HashSet;
use vstd::prelude::*;

verus! {

/// What a message body carries besides its ids, by kind.
#[derive(Debug)]
pub enum ExtraFields {
    Init { node_id: String, node_ids: Vec<String> },
    InitOk,
    Echo { echo: String },
    EchoOk { echo: String },
    Generate,
    GenerateOk { id: String },
    Broadcast { message: usize },
    BroadcastOk,
    Read,
    ReadOk { messages: HashSet<usize> },
    Topology { topology: Topology },
    TopologyOk,
    GossipBroadcast { new_message: usize, all_messages: HashSet<usize> },
}

/// The body of a message: its own id, the id of the message it answers, and its payload.
#[derive(Debug)]
pub struct MsgBody {
    pub msg_id: usize,
    pub in_reply_to: Option<usize>,
    pub extra: ExtraFields,
}

/// One message between two nodes, or between a client and a node.
#[derive(Debug)]
pub struct Msg {
    pub src: String,
    pub dst: String,
    pub body: MsgBody,
}

/// The mathematical content of an `ExtraFields`.
pub enum ExtraFieldsView {
    Init { node_id: NodeId, node_ids: Seq<NodeId> },
    InitOk,
    Echo { echo: Seq<char> },
    EchoOk { echo: Seq<char> },
    Generate,
    GenerateOk { id: Seq<char> },
    Broadcast { message: usize },
    BroadcastOk,
    Read,
    ReadOk { messages: Set<usize> },
    Topology { topology: Map<NodeId, Seq<NodeId>> },
    TopologyOk,
    GossipBroadcast { new_message: usize, all_messages: Set<usize> },
}

/// The mathematical content of a `MsgBody`.
pub struct MsgBodyView {
    pub msg_id: usize,
    pub in_reply_to: Option<usize>,
    pub extra: ExtraFieldsView,
}

/// The mathematical content of a `Msg`.
pub struct MsgView {
    pub src: NodeId,
    pub dst: NodeId,
    pub body: MsgBodyView,
}

impl View for ExtraFields {
    type V = ExtraFieldsView;

    open spec fn view(&self) -> ExtraFieldsView {
        match *self {
            ExtraFields::Init { node_id, node_ids } => ExtraFieldsView::Init {
                node_id: node_id@,
                node_ids: names_of(node_ids@),
            },
            ExtraFields::InitOk => ExtraFieldsView::InitOk,
            ExtraFields::Echo { echo } => ExtraFieldsView::Echo { echo: echo@ },
            ExtraFields::EchoOk { echo } => ExtraFieldsView::EchoOk { echo: echo@ },
            ExtraFields::Generate => ExtraFieldsView::Generate,
            ExtraFields::GenerateOk { id } => ExtraFieldsView::GenerateOk { id: id@ },
            ExtraFields::Broadcast { message } => ExtraFieldsView::Broadcast { message },
            ExtraFields::BroadcastOk => ExtraFieldsView::BroadcastOk,
            ExtraFields::Read => ExtraFieldsView::Read,
            ExtraFields::ReadOk { messages } => ExtraFieldsView::ReadOk { messages: messages@ },
            ExtraFields::Topology { topology } => ExtraFieldsView::Topology {
                topology: topology@,
            },
            ExtraFields::TopologyOk => ExtraFieldsView::TopologyOk,
            ExtraFields::GossipBroadcast { new_message, all_messages } => {
                ExtraFieldsView::GossipBroadcast { new_message, all_messages: all_messages@ }
            },
        }
    }
}

impl View for MsgBody {
    type V = MsgBodyView;

    open spec fn view(&self) -> MsgBodyView {
        MsgBodyView { msg_id: self.msg_id, in_reply_to: self.in_reply_to, extra: self.extra@ }
    }
}

impl View for Msg {
    type V = MsgView;

    open spec fn view(&self) -> MsgView {
        MsgView { src: self.src@, dst: self.dst@, body: self.body@ }
    }
}

/// The contents of a list of messages, in order.
pub open spec fn views_of(msgs: Seq<Msg>) -> Seq<MsgView> {
    msgs.map_values(|msg: Msg| msg@)
}

} // verus!
