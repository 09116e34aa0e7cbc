use gossip_node::dispatch::{handle, try_handle};
use gossip_node::gossip::Strategy;
use gossip_node::message::{ExtraFields, Msg, MsgBody};
use gossip_node::node::NodeData;
use gossip_node::topology::Topology;
use std::collections::HashSet;

fn names(list: &[&str]) -> Vec<String> {
    list.iter().map(|name| name.to_string()).collect()
}

fn set_of(values: &[usize]) -> HashSet<usize> {
    values.iter().copied().collect()
}

fn request(src: &str, dst: &str, msg_id: usize, extra: ExtraFields) -> Msg {
    Msg {
        src: src.to_string(),
        dst: dst.to_string(),
        body: MsgBody { msg_id, in_reply_to: None, extra },
    }
}

fn init(node: &mut NodeData, id: &str, peers: &[&str]) {
    let out = handle(
        node,
        request("c0", id, 1, ExtraFields::Init { node_id: id.to_string(), node_ids: names(peers) }),
    );
    assert_eq!(out.len(), 1);
    assert!(matches!(out[0].body.extra, ExtraFields::InitOk));
}

fn topology_of(entries: &[(&str, &[&str])]) -> Topology {
    let mut topology = Topology::new();
    for (name, list) in entries {
        topology.insert(name.to_string(), names(list));
    }
    topology
}

/// Checks the envelope of an answer.
fn assert_reply(msg: &Msg, src: &str, dst: &str, msg_id: usize, in_reply_to: usize) {
    assert_eq!(msg.src, src);
    assert_eq!(msg.dst, dst);
    assert_eq!(msg.body.msg_id, msg_id);
    assert_eq!(msg.body.in_reply_to, Some(in_reply_to));
}

#[test]
fn init_is_acknowledged_and_recorded() {
    let mut node = NodeData::new();
    let out = handle(
        &mut node,
        request(
            "c1",
            "n1",
            41,
            ExtraFields::Init { node_id: "n1".to_string(), node_ids: names(&["n1", "n2", "n3"]) },
        ),
    );
    assert_eq!(out.len(), 1);
    assert_reply(&out[0], "n1", "c1", 1, 41);
    assert!(matches!(out[0].body.extra, ExtraFields::InitOk));
    assert_eq!(node.node_id(), Some(&"n1".to_string()));
    assert_eq!(node.node_ids(), Some(&names(&["n1", "n2", "n3"])));
    assert_eq!(node.curr_msg_id(), 1);
}

#[test]
fn echo_is_sent_back() {
    let mut node = NodeData::new();
    init(&mut node, "n1", &["n1"]);
    let out = handle(
        &mut node,
        request("c1", "n1", 9, ExtraFields::Echo { echo: "Please echo 35".to_string() }),
    );
    assert_eq!(out.len(), 1);
    assert_reply(&out[0], "n1", "c1", 2, 9);
    match &out[0].body.extra {
        ExtraFields::EchoOk { echo } => assert_eq!(echo, "Please echo 35"),
        other => panic!("unexpected answer {:?}", other),
    }
    assert!(node.messages().is_empty());
}

fn generated(node: &mut NodeData) -> String {
    let out = handle(node, request("c1", "n1", 3, ExtraFields::Generate));
    assert_eq!(out.len(), 1);
    match &out[0].body.extra {
        ExtraFields::GenerateOk { id } => id.clone(),
        other => panic!("unexpected answer {:?}", other),
    }
}

#[test]
fn generate_joins_name_and_counter() {
    let mut node = NodeData::new();
    init(&mut node, "n1", &["n1"]);
    assert_eq!(generated(&mut node), "n1-1");
    assert_eq!(generated(&mut node), "n1-2");
    assert_eq!(generated(&mut node), "n1-3");
}

#[test]
fn generate_before_init_has_an_empty_name() {
    let mut node = NodeData::new();
    assert_eq!(generated(&mut node), "-0");
    assert_eq!(generated(&mut node), "-1");
}

#[test]
fn generate_writes_the_counter_in_decimal() {
    let mut node = NodeData::new();
    init(&mut node, "node-7", &["node-7"]);
    let mut last = String::new();
    for _ in 0..12344 {
        last = generated(&mut node);
    }
    assert_eq!(last, "node-7-12344");
    assert_eq!(generated(&mut node), "node-7-12345");
    let mut fresh = NodeData::new();
    init(&mut fresh, "n1", &["n1"]);
    for expected in 1..=120 {
        assert_eq!(generated(&mut fresh), format!("n1-{}", expected));
    }
}

#[test]
fn generated_ids_are_distinct() {
    let mut node = NodeData::new();
    init(&mut node, "n1", &["n1"]);
    let mut seen = HashSet::new();
    for _ in 0..500 {
        assert!(seen.insert(generated(&mut node)));
    }
}

#[test]
fn topology_is_acknowledged_and_recorded() {
    let mut node = NodeData::new();
    init(&mut node, "n1", &["n1", "n2", "n3"]);
    let out = handle(
        &mut node,
        request(
            "c1",
            "n1",
            5,
            ExtraFields::Topology {
                topology: topology_of(&[("n1", &["n2"]), ("n2", &["n1", "n3"]), ("n3", &["n2"])]),
            },
        ),
    );
    assert_eq!(out.len(), 1);
    assert_reply(&out[0], "n1", "c1", 2, 5);
    assert!(matches!(out[0].body.extra, ExtraFields::TopologyOk));
    assert_eq!(node.get_neighbours(), Some(names(&["n2"])));
}

#[test]
fn read_answers_with_the_values_seen() {
    let mut node = NodeData::new();
    init(&mut node, "n1", &["n1"]);
    node.merge_values(&set_of(&[1, 2, 3]));
    let out = handle(&mut node, request("c1", "n1", 8, ExtraFields::Read));
    assert_eq!(out.len(), 1);
    assert_reply(&out[0], "n1", "c1", 2, 8);
    match &out[0].body.extra {
        ExtraFields::ReadOk { messages } => assert_eq!(messages, &set_of(&[1, 2, 3])),
        other => panic!("unexpected answer {:?}", other),
    }
    assert_eq!(node.messages(), &set_of(&[1, 2, 3]));
}

#[test]
fn read_answer_does_not_change_afterwards() {
    let mut node = NodeData::new();
    init(&mut node, "n1", &["n1", "n2"]);
    handle(&mut node, request("c1", "n1", 2, ExtraFields::Broadcast { message: 1 }));
    let answer = handle(&mut node, request("c1", "n1", 3, ExtraFields::Read));
    handle(&mut node, request("c1", "n1", 4, ExtraFields::Broadcast { message: 2 }));
    handle(
        &mut node,
        request(
            "n2",
            "n1",
            5,
            ExtraFields::GossipBroadcast { new_message: 3, all_messages: set_of(&[4, 5]) },
        ),
    );
    match &answer[0].body.extra {
        ExtraFields::ReadOk { messages } => assert_eq!(messages, &set_of(&[1])),
        other => panic!("unexpected answer {:?}", other),
    }
    assert_eq!(node.messages(), &set_of(&[1, 2, 3, 4, 5]));
}

#[test]
fn read_of_an_empty_node() {
    let mut node = NodeData::new();
    let out = handle(&mut node, request("c1", "n1", 8, ExtraFields::Read));
    match &out[0].body.extra {
        ExtraFields::ReadOk { messages } => assert!(messages.is_empty()),
        other => panic!("unexpected answer {:?}", other),
    }
}

#[test]
fn broadcast_scenario_with_topology() {
    for strategy in [Strategy::Flood, Strategy::AntiEntropy] {
        let mut n1 = NodeData::with_strategy(strategy);
        init(&mut n1, "n1", &["n1", "n2", "n3"]);
        handle(
            &mut n1,
            request(
                "c1",
                "n1",
                2,
                ExtraFields::Topology { topology: topology_of(&[("n1", &["n2"])]) },
            ),
        );
        let out = handle(&mut n1, request("c1", "n1", 3, ExtraFields::Broadcast { message: 5 }));
        assert_eq!(n1.messages(), &set_of(&[5]));
        assert_eq!(out.len(), 2);
        assert_eq!(out[0].src, "n1");
        assert_eq!(out[0].dst, "n2");
        assert_eq!(out[0].body.msg_id, 3);
        assert_eq!(out[0].body.in_reply_to, None);
        match &out[0].body.extra {
            ExtraFields::GossipBroadcast { new_message, all_messages } => {
                assert_eq!(*new_message, 5);
                match strategy {
                    Strategy::Flood => assert!(all_messages.is_empty()),
                    Strategy::AntiEntropy => assert_eq!(all_messages, &set_of(&[5])),
                }
            }
            other => panic!("unexpected forward {:?}", other),
        }
        assert_reply(&out[1], "n1", "c1", 4, 3);
        assert!(matches!(out[1].body.extra, ExtraFields::BroadcastOk));
        assert!(out.iter().all(|msg| msg.dst != "n3"));
    }
}

#[test]
fn broadcast_twice_is_acknowledged_twice_and_adds_once() {
    for strategy in [Strategy::Flood, Strategy::AntiEntropy] {
        let mut n1 = NodeData::with_strategy(strategy);
        init(&mut n1, "n1", &["n1", "n2", "n3"]);
        n1.record_value(1);
        let size = n1.messages().len();
        let first = handle(&mut n1, request("c1", "n1", 2, ExtraFields::Broadcast { message: 5 }));
        assert_eq!(first.len(), 3);
        assert!(matches!(first[2].body.extra, ExtraFields::BroadcastOk));
        let second = handle(&mut n1, request("c1", "n1", 3, ExtraFields::Broadcast { message: 5 }));
        assert_eq!(second.len(), 1);
        assert_reply(&second[0], "n1", "c1", 5, 3);
        assert!(matches!(second[0].body.extra, ExtraFields::BroadcastOk));
        assert_eq!(n1.messages().len(), size + 1);
        assert_eq!(n1.messages(), &set_of(&[1, 5]));
    }
}

#[test]
fn broadcast_before_init_is_acknowledged_and_not_forwarded() {
    let mut node = NodeData::new();
    let out = handle(&mut node, request("c1", "n1", 2, ExtraFields::Broadcast { message: 5 }));
    assert_eq!(out.len(), 1);
    assert_reply(&out[0], "n1", "c1", 1, 2);
    assert!(matches!(out[0].body.extra, ExtraFields::BroadcastOk));
    assert_eq!(node.messages(), &set_of(&[5]));
}

#[test]
fn gossip_push_is_never_answered() {
    for strategy in [Strategy::Flood, Strategy::AntiEntropy] {
        let mut n2 = NodeData::with_strategy(strategy);
        init(&mut n2, "n2", &["n1", "n2", "n3"]);
        let out = handle(
            &mut n2,
            request(
                "n1",
                "n2",
                7,
                ExtraFields::GossipBroadcast { new_message: 5, all_messages: set_of(&[5]) },
            ),
        );
        assert_eq!(out.len(), 2);
        for msg in &out {
            assert!(matches!(msg.body.extra, ExtraFields::GossipBroadcast { .. }));
            assert_eq!(msg.body.in_reply_to, None);
            assert_eq!(msg.src, "n2");
        }
        assert_eq!(out[0].dst, "n1");
        assert_eq!(out[1].dst, "n3");
        let again = handle(
            &mut n2,
            request(
                "n1",
                "n2",
                8,
                ExtraFields::GossipBroadcast { new_message: 5, all_messages: set_of(&[5]) },
            ),
        );
        assert!(again.is_empty());
        assert_eq!(n2.curr_msg_id(), 3);
    }
}

#[test]
fn answers_are_ignored() {
    let extras = vec![
        ExtraFields::InitOk,
        ExtraFields::EchoOk { echo: "x".to_string() },
        ExtraFields::GenerateOk { id: "n2-1".to_string() },
        ExtraFields::BroadcastOk,
        ExtraFields::ReadOk { messages: set_of(&[1, 2]) },
        ExtraFields::TopologyOk,
    ];
    let mut node = NodeData::new();
    init(&mut node, "n1", &["n1", "n2"]);
    for extra in extras {
        let out = handle(&mut node, request("n2", "n1", 4, extra));
        assert!(out.is_empty());
    }
    assert_eq!(node.curr_msg_id(), 1);
    assert!(node.messages().is_empty());
    assert_eq!(node.get_neighbours(), Some(names(&["n2"])));
}

#[test]
fn every_message_sent_has_a_fresh_id() {
    let mut node = NodeData::new();
    let mut ids = Vec::new();
    let mut collect = |out: Vec<Msg>| {
        for msg in out {
            ids.push(msg.body.msg_id);
        }
    };
    collect(handle(
        &mut node,
        request(
            "c1",
            "n1",
            1,
            ExtraFields::Init { node_id: "n1".to_string(), node_ids: names(&["n1", "n2", "n3"]) },
        ),
    ));
    collect(handle(&mut node, request("c1", "n1", 2, ExtraFields::Broadcast { message: 1 })));
    collect(handle(&mut node, request("c1", "n1", 3, ExtraFields::Read)));
    collect(handle(&mut node, request("c1", "n1", 4, ExtraFields::Broadcast { message: 1 })));
    collect(handle(
        &mut node,
        request(
            "n2",
            "n1",
            5,
            ExtraFields::GossipBroadcast { new_message: 2, all_messages: set_of(&[3]) },
        ),
    ));
    collect(handle(&mut node, request("c1", "n1", 6, ExtraFields::Generate)));
    assert_eq!(ids, vec![1, 2, 3, 4, 5, 6, 7, 8, 9]);
    assert_eq!(node.curr_msg_id(), 9);
}

#[test]
fn try_handle_does_what_handle_does() {
    let mut checked = NodeData::with_strategy(Strategy::Flood);
    let mut plain = NodeData::with_strategy(Strategy::Flood);
    let script = || {
        vec![
            request(
                "c1",
                "n1",
                1,
                ExtraFields::Init { node_id: "n1".to_string(), node_ids: names(&["n1", "n2", "n3"]) },
            ),
            request("c1", "n1", 2, ExtraFields::Broadcast { message: 8 }),
            request("c1", "n1", 3, ExtraFields::Read),
            request(
                "n3",
                "n1",
                4,
                ExtraFields::GossipBroadcast { new_message: 9, all_messages: HashSet::new() },
            ),
            request("c1", "n1", 5, ExtraFields::Generate),
        ]
    };
    for (first, second) in script().into_iter().zip(script()) {
        let out = try_handle(&mut checked, first).expect("ids are left");
        let expected = handle(&mut plain, second);
        assert_eq!(format!("{:?}", out), format!("{:?}", expected));
    }
    assert_eq!(checked.curr_msg_id(), 8);
    assert_eq!(checked.messages(), &set_of(&[8, 9]));
    assert_eq!(plain.curr_msg_id(), 8);
}
