//! One node of a gossiping cluster, as a verified state machine.
//!
//! A node takes in one message at a time, updates what it knows, and returns the messages
//! that it sends in turn. Values that clients broadcast spread from node to node until every
//! node that can be reached holds them all.
//!
//! - [`topology`]: names, and the optional neighbour map.
//! - [`values`]: sets of values.
//! - [`message`]: the messages and their mathematical content.
//! - [`node`]: the state of one node and its operations.
//! - [`gossip`]: how a node spreads what it learns.
//! - [`dispatch`]: what a node does with each kind of message.
//! - [`laws`]: what holds of one node, whatever it is sent.
//! - [`cluster`]: many nodes and the messages between them; every value reaches every node.
//! - [`quiescence`]: every run comes to an end.

pub mod cluster;
pub mod dispatch;
pub mod gossip;
pub mod laws;
pub mod message;
pub mod node;
pub mod quiescence;
pub mod topology;
pub mod values;
