use fly_io_dist_sys::broadcast::Payload;
use fly_io_dist_sys::Body;
use fly_io_dist_sys::BroadcastNode;
use fly_io_dist_sys::Event;
use fly_io_dist_sys::Init;
use fly_io_dist_sys::InternalMessage;
use fly_io_dist_sys::Message;
use fly_io_dist_sys::Node;
use fly_io_dist_sys::NodeError;

fn two_node_init(own: &str) -> Init {
    Init {
        node_id: own.into(),
        node_ids: vec!["n1".into(), "n2".into()],
    }
}

fn external(src: &str, dest: &str, msg_id: usize, payload: Payload) -> Event<Payload, InternalMessage> {
    let body = Body::new(Some(msg_id), None, payload);
    Event::ExternalMessage(Message::new(src.into(), dest.into(), body))
}

#[test]
fn from_init_seeds_state() {
    let node = BroadcastNode::from_init(&two_node_init("n1")).unwrap();
    assert_eq!(node.id, "n1");
    assert_eq!(node.message_id, 0);
    assert!(node.messages.is_empty());
    assert!(node.neighbours.is_empty());
    assert_eq!(node.known.len(), 2);
    assert_eq!(node.known[0].0, "n1");
    assert_eq!(node.known[1].0, "n2");
    assert!(node.known[0].1.is_empty());
    assert!(node.known[1].1.is_empty());
}

#[test]
fn from_init_drops_repeated_peer_ids() {
    let init = Init {
        node_id: "n1".into(),
        node_ids: vec!["n1".into(), "n1".into(), "n2".into(), "n2".into()],
    };
    let node = BroadcastNode::from_init(&init).unwrap();
    assert_eq!(node.known.len(), 2);
    assert_eq!(node.known[0].0, "n1");
    assert_eq!(node.known[1].0, "n2");
}

#[test]
fn broadcast_inserts_value() {
    let mut node = BroadcastNode::from_init(&two_node_init("n1")).unwrap();
    let out = node
        .step(external("c1", "n1", 3, Payload::Broadcast { message: 5 }))
        .unwrap();
    assert_eq!(node.messages, vec![5]);
    assert_eq!(out.len(), 1);
    assert_eq!(out[0].src, "n1");
    assert_eq!(out[0].dest, "c1");
    assert_eq!(out[0].body.in_reply_to, Some(3));
    assert_eq!(out[0].body.payload, Payload::BroadcastOk);
}

#[test]
fn broadcast_is_idempotent() {
    // The same value broadcast twice leaves the value set as one
    // broadcast does.
    let mut node = BroadcastNode::from_init(&two_node_init("n1")).unwrap();
    node.step(external("c1", "n1", 1, Payload::Broadcast { message: 5 }))
        .unwrap();
    node.step(external("c1", "n1", 2, Payload::Broadcast { message: 5 }))
        .unwrap();
    assert_eq!(node.messages, vec![5]);
}

#[test]
fn read_returns_current_values() {
    let mut node = BroadcastNode::from_init(&two_node_init("n1")).unwrap();
    node.step(external("c1", "n1", 1, Payload::Broadcast { message: 5 }))
        .unwrap();
    let out = node.step(external("c1", "n1", 2, Payload::Read)).unwrap();
    assert_eq!(out.len(), 1);
    match &out[0].body.payload {
        Payload::ReadOk { messages } => {
            let mut sorted = messages.clone();
            sorted.sort();
            assert_eq!(sorted, vec![5]);
        }
        other => panic!("expected ReadOk, got {:?}", other),
    }
    // A read never mutates the state.
    assert_eq!(node.messages, vec![5]);
}

#[test]
fn topology_sets_neighbours_then_tick_gossips() {
    let mut node = BroadcastNode::from_init(&two_node_init("n1")).unwrap();
    node.step(external("c1", "n1", 1, Payload::Broadcast { message: 5 }))
        .unwrap();
    let topo = Payload::Topology {
        topology: vec![("n1".into(), vec!["n2".into()])],
    };
    let out = node.step(external("c1", "n1", 2, topo)).unwrap();
    assert_eq!(node.neighbours, vec!["n2".to_string()]);
    assert_eq!(out.len(), 1);
    assert_eq!(out[0].body.payload, Payload::TopologyOk);

    let out = node
        .step(Event::InternalMessage(InternalMessage::Gossip))
        .unwrap();
    assert_eq!(out.len(), 1);
    assert_eq!(out[0].src, "n1");
    assert_eq!(out[0].dest, "n2");
    assert_eq!(out[0].body.msg_id, Some(0));
    assert_eq!(out[0].body.in_reply_to, None);
    assert_eq!(out[0].body.payload, Payload::Gossip { seen: vec![5] });
    assert_eq!(node.message_id, 1);
}

#[test]
fn topology_without_own_entry_is_fatal() {
    let mut node = BroadcastNode::from_init(&two_node_init("n1")).unwrap();
    let topo = Payload::Topology {
        topology: vec![("n2".into(), vec!["n1".into()])],
    };
    let res = node.step(external("c1", "n1", 1, topo));
    assert_eq!(res, Err(NodeError::MissingTopologyEntry));
    assert!(node.neighbours.is_empty());
}

#[test]
fn gossip_updates_messages_and_known() {
    // Receiving `Gossip { seen: {5} }` from a peer records the value both
    // locally and as held by that peer, and sends nothing back.
    let mut node = BroadcastNode::from_init(&two_node_init("n2")).unwrap();
    let out = node
        .step(external("n1", "n2", 0, Payload::Gossip { seen: vec![5] }))
        .unwrap();
    assert!(out.is_empty());
    assert_eq!(node.messages, vec![5]);
    assert_eq!(node.known[0].0, "n1");
    assert_eq!(node.known[0].1, vec![5]);
    assert_eq!(node.known[1].0, "n2");
    assert!(node.known[1].1.is_empty());
}

#[test]
fn gossip_from_unknown_peer_is_fatal() {
    let mut node = BroadcastNode::from_init(&two_node_init("n2")).unwrap();
    let res = node.step(external("n9", "n2", 0, Payload::Gossip { seen: vec![5] }));
    assert_eq!(res, Err(NodeError::UnknownPeer));
    assert!(node.messages.is_empty());
}

#[test]
fn gossip_ignores_repeated_values() {
    let mut node = BroadcastNode::from_init(&two_node_init("n2")).unwrap();
    node.step(external("n1", "n2", 0, Payload::Gossip { seen: vec![5, 5, 7] }))
        .unwrap();
    node.step(external("n1", "n2", 1, Payload::Gossip { seen: vec![7, 9] }))
        .unwrap();
    assert_eq!(node.messages, vec![5, 7, 9]);
    assert_eq!(node.known[0].1, vec![5, 7, 9]);
}

#[test]
fn tick_suppresses_values_known_to_neighbour() {
    // Delta minimality: the gossip payload leaves out every value the
    // neighbour is already known to hold.
    let mut node = BroadcastNode::from_init(&two_node_init("n1")).unwrap();
    node.step(external("n2", "n1", 0, Payload::Gossip { seen: vec![5] }))
        .unwrap();
    node.step(external("c1", "n1", 1, Payload::Broadcast { message: 7 }))
        .unwrap();
    let topo = Payload::Topology {
        topology: vec![("n1".into(), vec!["n2".into()])],
    };
    node.step(external("c1", "n1", 2, topo)).unwrap();
    let out = node
        .step(Event::InternalMessage(InternalMessage::Gossip))
        .unwrap();
    assert_eq!(out.len(), 1);
    assert_eq!(out[0].body.payload, Payload::Gossip { seen: vec![7] });
}

#[test]
fn tick_sends_nothing_when_neighbours_are_current() {
    let mut node = BroadcastNode::from_init(&two_node_init("n1")).unwrap();
    node.step(external("n2", "n1", 0, Payload::Gossip { seen: vec![5] }))
        .unwrap();
    let topo = Payload::Topology {
        topology: vec![("n1".into(), vec!["n2".into()])],
    };
    node.step(external("c1", "n1", 1, topo)).unwrap();
    let out = node
        .step(Event::InternalMessage(InternalMessage::Gossip))
        .unwrap();
    assert!(out.is_empty());
    assert_eq!(node.message_id, 0);
}

#[test]
fn tick_before_topology_is_a_no_op() {
    let mut node = BroadcastNode::from_init(&two_node_init("n1")).unwrap();
    node.step(external("c1", "n1", 1, Payload::Broadcast { message: 5 }))
        .unwrap();
    let out = node
        .step(Event::InternalMessage(InternalMessage::Gossip))
        .unwrap();
    assert!(out.is_empty());
}

#[test]
fn reply_only_payloads_are_rejected() {
    let mut node = BroadcastNode::from_init(&two_node_init("n1")).unwrap();
    for payload in [
        Payload::BroadcastOk,
        Payload::ReadOk { messages: vec![] },
        Payload::TopologyOk,
    ] {
        let res = node.step(external("c1", "n1", 1, payload));
        assert_eq!(res, Err(NodeError::UnexpectedReply));
    }
}

#[test]
fn state_grows_monotonically() {
    // Across a mixed event sequence the value set and every known entry
    // only ever grow.
    let mut node = BroadcastNode::from_init(&two_node_init("n1")).unwrap();
    let mut seen_messages: Vec<isize> = Vec::new();
    let events = vec![
        external("c1", "n1", 0, Payload::Broadcast { message: 5 }),
        external("n2", "n1", 1, Payload::Gossip { seen: vec![7] }),
        external("c1", "n1", 2, Payload::Read),
        external("n2", "n1", 3, Payload::Gossip { seen: vec![5, 9] }),
        external("c1", "n1", 4, Payload::Broadcast { message: 5 }),
    ];
    for event in events {
        node.step(event).unwrap();
        for m in &seen_messages {
            assert!(node.messages.contains(m));
        }
        seen_messages = node.messages.clone();
    }
    assert_eq!(node.messages, vec![5, 7, 9]);
}

#[test]
fn gossip_exchange_reaches_union() {
    // One delivered gossip leaves the receiver with the union of both
    // nodes' values.
    let mut sender = BroadcastNode::from_init(&two_node_init("n1")).unwrap();
    sender
        .step(external("c1", "n1", 0, Payload::Broadcast { message: 5 }))
        .unwrap();
    sender
        .step(external("c1", "n1", 1, Payload::Broadcast { message: 7 }))
        .unwrap();
    let topo = Payload::Topology {
        topology: vec![("n1".into(), vec!["n2".into()])],
    };
    sender.step(external("c1", "n1", 2, topo)).unwrap();
    let sent = sender
        .step(Event::InternalMessage(InternalMessage::Gossip))
        .unwrap();
    assert_eq!(sent.len(), 1);

    let mut receiver = BroadcastNode::from_init(&two_node_init("n2")).unwrap();
    receiver
        .step(external("c1", "n2", 0, Payload::Broadcast { message: 9 }))
        .unwrap();
    receiver.step(Event::ExternalMessage(sent.into_iter().next().unwrap())).unwrap();
    let mut values = receiver.messages.clone();
    values.sort();
    assert_eq!(values, vec![5, 7, 9]);
}

#[test]
fn gossip_round_trip_equalises_values() {
    // One exchange in each direction leaves both nodes with the union of
    // the two value sets.
    let mut n1 = BroadcastNode::from_init(&two_node_init("n1")).unwrap();
    n1.step(external("c1", "n1", 0, Payload::Broadcast { message: 5 }))
        .unwrap();
    n1.step(external("c1", "n1", 1, Payload::Broadcast { message: 7 }))
        .unwrap();
    let topo = Payload::Topology {
        topology: vec![("n1".into(), vec!["n2".into()])],
    };
    n1.step(external("c1", "n1", 2, topo)).unwrap();

    let mut n2 = BroadcastNode::from_init(&two_node_init("n2")).unwrap();
    n2.step(external("c2", "n2", 0, Payload::Broadcast { message: 9 }))
        .unwrap();
    let topo = Payload::Topology {
        topology: vec![("n2".into(), vec!["n1".into()])],
    };
    n2.step(external("c2", "n2", 1, topo)).unwrap();

    let to_n2 = n1
        .step(Event::InternalMessage(InternalMessage::Gossip))
        .unwrap();
    for msg in to_n2 {
        n2.step(Event::ExternalMessage(msg)).unwrap();
    }
    let to_n1 = n2
        .step(Event::InternalMessage(InternalMessage::Gossip))
        .unwrap();
    for msg in to_n1 {
        n1.step(Event::ExternalMessage(msg)).unwrap();
    }

    let mut v1 = n1.messages.clone();
    let mut v2 = n2.messages.clone();
    v1.sort();
    v2.sort();
    assert_eq!(v1, vec![5, 7, 9]);
    assert_eq!(v1, v2);
}
