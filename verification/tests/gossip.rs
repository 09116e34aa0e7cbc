use gossip_node::gossip::{gossip, Strategy};
use gossip_node::message::{ExtraFields, Msg};
use gossip_node::node::NodeData;
use gossip_node::topology::Topology;
use std::collections::HashSet;

fn names(list: &[&str]) -> Vec<String> {
    list.iter().map(|name| name.to_string()).collect()
}

fn set_of(values: &[usize]) -> HashSet<usize> {
    values.iter().copied().collect()
}

fn node(strategy: Strategy, id: &str, peers: &[&str]) -> NodeData {
    let mut node = NodeData::with_strategy(strategy);
    node.set_identity(id.to_string(), names(peers));
    node
}

/// Source, destination, message id, value and carried set of a forward.
fn forward(msg: &Msg) -> (String, String, usize, usize, Vec<usize>) {
    assert_eq!(msg.body.in_reply_to, None);
    match &msg.body.extra {
        ExtraFields::GossipBroadcast { new_message, all_messages } => {
            let mut carried: Vec<usize> = all_messages.iter().copied().collect();
            carried.sort();
            (msg.src.clone(), msg.dst.clone(), msg.body.msg_id, *new_message, carried)
        }
        other => panic!("not a forward: {:?}", other),
    }
}

fn fwd(
    src: &str,
    dst: &str,
    id: usize,
    value: usize,
    carried: &[usize],
) -> (String, String, usize, usize, Vec<usize>) {
    (src.to_string(), dst.to_string(), id, value, carried.to_vec())
}

#[test]
fn flood_forwards_a_new_value_to_every_neighbour() {
    let mut n1 = node(Strategy::Flood, "n1", &["n1", "n2", "n3"]);
    let out = gossip(&mut n1, 5, HashSet::new());
    assert_eq!(out.len(), 2);
    assert_eq!(forward(&out[0]), fwd("n1", "n2", 1, 5, &[]));
    assert_eq!(forward(&out[1]), fwd("n1", "n3", 2, 5, &[]));
    assert_eq!(n1.messages(), &set_of(&[5]));
    assert_eq!(n1.curr_msg_id(), 2);
}

#[test]
fn flood_does_not_forward_a_known_value() {
    let mut n1 = node(Strategy::Flood, "n1", &["n1", "n2", "n3"]);
    assert_eq!(gossip(&mut n1, 5, HashSet::new()).len(), 2);
    let again = gossip(&mut n1, 5, HashSet::new());
    assert!(again.is_empty());
    assert_eq!(n1.messages(), &set_of(&[5]));
    assert_eq!(n1.curr_msg_id(), 2);
}

#[test]
fn flood_takes_the_value_alone() {
    let mut n1 = node(Strategy::Flood, "n1", &["n1", "n2"]);
    let out = gossip(&mut n1, 5, set_of(&[1, 2, 3]));
    assert_eq!(out.len(), 1);
    assert_eq!(forward(&out[0]), fwd("n1", "n2", 1, 5, &[]));
    assert_eq!(n1.messages(), &set_of(&[5]));
    let known = gossip(&mut n1, 5, set_of(&[1, 2, 3]));
    assert!(known.is_empty());
    assert_eq!(n1.messages(), &set_of(&[5]));
}

#[test]
fn anti_entropy_forwards_the_whole_set() {
    let mut n1 = node(Strategy::AntiEntropy, "n1", &["n1", "n2", "n3"]);
    n1.record_value(1);
    let out = gossip(&mut n1, 5, set_of(&[2, 3]));
    assert_eq!(out.len(), 2);
    assert_eq!(forward(&out[0]), fwd("n1", "n2", 1, 5, &[1, 2, 3, 5]));
    assert_eq!(forward(&out[1]), fwd("n1", "n3", 2, 5, &[1, 2, 3, 5]));
    assert_eq!(n1.messages(), &set_of(&[1, 2, 3, 5]));
    assert_eq!(n1.curr_msg_id(), 2);
}

#[test]
fn anti_entropy_forwards_when_only_the_known_set_is_news() {
    let mut n1 = node(Strategy::AntiEntropy, "n1", &["n1", "n2"]);
    n1.record_value(5);
    let out = gossip(&mut n1, 5, set_of(&[5, 6]));
    assert_eq!(out.len(), 1);
    assert_eq!(forward(&out[0]), fwd("n1", "n2", 1, 5, &[5, 6]));
    assert_eq!(n1.messages(), &set_of(&[5, 6]));
}

#[test]
fn anti_entropy_is_silent_when_nothing_is_news() {
    let mut n1 = node(Strategy::AntiEntropy, "n1", &["n1", "n2"]);
    n1.merge_values(&set_of(&[5, 6, 7]));
    let out = gossip(&mut n1, 5, set_of(&[6, 7]));
    assert!(out.is_empty());
    assert_eq!(n1.messages(), &set_of(&[5, 6, 7]));
    assert_eq!(n1.curr_msg_id(), 0);
}

#[test]
fn anti_entropy_second_delivery_is_silent() {
    let mut n1 = node(Strategy::AntiEntropy, "n1", &["n1", "n2"]);
    assert_eq!(gossip(&mut n1, 5, set_of(&[8, 9])).len(), 1);
    assert!(gossip(&mut n1, 5, set_of(&[8, 9])).is_empty());
    assert_eq!(n1.messages(), &set_of(&[5, 8, 9]));
    assert_eq!(n1.curr_msg_id(), 1);
}

#[test]
fn gossip_before_init_records_and_sends_nothing() {
    for strategy in [Strategy::Flood, Strategy::AntiEntropy] {
        let mut lone = NodeData::with_strategy(strategy);
        let out = gossip(&mut lone, 5, HashSet::new());
        assert!(out.is_empty());
        assert_eq!(lone.messages(), &set_of(&[5]));
        assert_eq!(lone.curr_msg_id(), 0);
    }
}

#[test]
fn gossip_in_a_single_node_cluster_sends_nothing() {
    let mut n1 = node(Strategy::Flood, "n1", &["n1"]);
    let out = gossip(&mut n1, 5, HashSet::new());
    assert!(out.is_empty());
    assert_eq!(n1.messages(), &set_of(&[5]));
}

#[test]
fn gossip_follows_the_topology() {
    for strategy in [Strategy::Flood, Strategy::AntiEntropy] {
        let mut n1 = node(strategy, "n1", &["n1", "n2", "n3"]);
        let mut topology = Topology::new();
        topology.insert("n1".to_string(), names(&["n2"]));
        n1.set_topology(topology);
        let out = gossip(&mut n1, 5, HashSet::new());
        assert_eq!(out.len(), 1);
        assert_eq!(out[0].dst, "n2");
        assert_eq!(out[0].src, "n1");
    }
}

#[test]
fn forwards_go_back_toward_the_sender_too() {
    let mut n2 = node(Strategy::Flood, "n2", &["n1", "n2", "n3"]);
    let out = gossip(&mut n2, 5, HashSet::new());
    let targets: Vec<&str> = out.iter().map(|msg| msg.dst.as_str()).collect();
    assert_eq!(targets, vec!["n1", "n3"]);
}

#[test]
fn forward_ids_continue_after_earlier_messages() {
    let mut n1 = node(Strategy::Flood, "n1", &["n1", "n2", "n3"]);
    assert_eq!(n1.next_msg_id(), 1);
    assert_eq!(n1.next_msg_id(), 2);
    let out = gossip(&mut n1, 5, HashSet::new());
    assert_eq!(forward(&out[0]).2, 3);
    assert_eq!(forward(&out[1]).2, 4);
    let more = gossip(&mut n1, 6, HashSet::new());
    assert_eq!(forward(&more[0]).2, 5);
    assert_eq!(forward(&more[1]).2, 6);
    assert_eq!(n1.curr_msg_id(), 6);
}

#[test]
fn each_forward_owns_its_set() {
    let mut n1 = node(Strategy::AntiEntropy, "n1", &["n1", "n2", "n3"]);
    let out = gossip(&mut n1, 5, HashSet::new());
    n1.record_value(6);
    assert_eq!(forward(&out[0]).4, vec![5]);
    assert_eq!(forward(&out[1]).4, vec![5]);
}
