use fly_io_dist_sys::echo;
use fly_io_dist_sys::unique;
use fly_io_dist_sys::Body;
use fly_io_dist_sys::Event;
use fly_io_dist_sys::EchoNode;
use fly_io_dist_sys::Init;
use fly_io_dist_sys::Message;
use fly_io_dist_sys::Node;
use fly_io_dist_sys::NodeError;
use fly_io_dist_sys::PayloadInit;
use fly_io_dist_sys::UniqueNode;

#[test]
fn echo_test_step() {
    let mut node = EchoNode { message_id: 0 };
    let body = Body::new(
        Some(0),
        None,
        echo::Payload::Echo {
            echo: "hello".into(),
        },
    );
    let input = Message::new("testsrc".into(), "testdest".into(), body);

    let res = node.step(Event::ExternalMessage(input));

    assert!(res.is_ok());
    let out = res.unwrap();
    assert_eq!(out.len(), 1);

    let expected = {
        let body = Body::new(
            Some(0),
            Some(0),
            echo::Payload::EchoOk {
                echo: "hello".into(),
            },
        );
        Message::new("testdest".into(), "testsrc".into(), body)
    };
    assert_eq!(out[0], expected);
}

#[test]
fn unique_test_step() {}

#[test]
fn echo_rejects_reply_payload() {
    let mut node = EchoNode { message_id: 0 };
    let body = Body::new(
        Some(1),
        None,
        echo::Payload::EchoOk {
            echo: "hello".into(),
        },
    );
    let input = Message::new("c1".into(), "n1".into(), body);
    let res = node.step(Event::ExternalMessage(input));
    assert_eq!(res, Err(NodeError::UnexpectedReply));
}

#[test]
fn reply_correlation() {
    // A reply carries the request's message id in `in_reply_to` and has
    // source and destination swapped.
    let body = Body::new(Some(42), None, echo::Payload::Echo { echo: "x".into() });
    let request = Message::new("c1".into(), "n1".into(), body);
    let reply = request.into_reply(7, Some(echo::Payload::EchoOk { echo: "x".into() }));
    assert_eq!(reply.src, "n1");
    assert_eq!(reply.dest, "c1");
    assert_eq!(reply.body.in_reply_to, Some(42));
    assert_eq!(reply.body.msg_id, Some(7));
}

#[test]
fn reply_keeps_payload_when_none_given() {
    let body = Body::new(Some(3), None, echo::Payload::Echo { echo: "keep".into() });
    let request = Message::new("c1".into(), "n1".into(), body);
    let reply = request.into_reply(0, None);
    assert_eq!(
        reply.body.payload,
        echo::Payload::Echo { echo: "keep".into() }
    );
}

#[test]
fn bootstrap_init_reply() {
    // The bootstrap handshake: the init envelope's reply is `InitOk`,
    // linked to the init's message id.
    let init = Init {
        node_id: "n1".into(),
        node_ids: vec!["n1".into()],
    };
    let body = Body::new(Some(0), None, PayloadInit::Init(init));
    let request = Message::new("c0".into(), "n1".into(), body);
    let parsed = request.payload().as_init();
    assert!(parsed.is_some());
    assert_eq!(parsed.unwrap().node_id, "n1");
    assert!(PayloadInit::InitOk.as_init().is_none());
    let reply = request.into_reply(0, Some(PayloadInit::InitOk));
    assert_eq!(reply.src, "n1");
    assert_eq!(reply.dest, "c0");
    assert_eq!(reply.body.in_reply_to, Some(0));
    assert_eq!(reply.body.msg_id, Some(0));
    assert!(matches!(reply.body.payload, PayloadInit::InitOk));
}

#[test]
fn unique_generates_node_scoped_ids() {
    let init = Init {
        node_id: "n1".into(),
        node_ids: vec!["n1".into(), "n2".into()],
    };
    let mut node = UniqueNode::from_init(&init).unwrap();
    assert_eq!(node.node_id, "n1");
    assert_eq!(node.message_id, 0);

    let body = Body::new(Some(5), None, unique::Payload::Generate);
    let input = Message::new("c1".into(), "n1".into(), body);
    let out = node.step(Event::ExternalMessage(input)).unwrap();
    assert_eq!(out.len(), 1);
    assert_eq!(out[0].body.in_reply_to, Some(5));
    assert_eq!(out[0].body.msg_id, Some(1));
    assert_eq!(
        out[0].body.payload,
        unique::Payload::GenerateOk { id: "n1-0".into() }
    );

    let body = Body::new(Some(6), None, unique::Payload::Generate);
    let input = Message::new("c1".into(), "n1".into(), body);
    let out = node.step(Event::ExternalMessage(input)).unwrap();
    assert_eq!(
        out[0].body.payload,
        unique::Payload::GenerateOk { id: "n1-1".into() }
    );
    assert_eq!(node.message_id, 2);
}

#[test]
fn unique_formats_multi_digit_counters() {
    let mut node = UniqueNode {
        node_id: "node3".into(),
        message_id: 4095,
    };
    let body = Body::new(Some(1), None, unique::Payload::Generate);
    let input = Message::new("c1".into(), "node3".into(), body);
    let out = node.step(Event::ExternalMessage(input)).unwrap();
    assert_eq!(
        out[0].body.payload,
        unique::Payload::GenerateOk {
            id: "node3-4095".into()
        }
    );
}

#[test]
fn unique_rejects_reply_payload() {
    let mut node = UniqueNode {
        node_id: "n1".into(),
        message_id: 0,
    };
    let body = Body::new(Some(1), None, unique::Payload::GenerateOk { id: "z".into() });
    let input = Message::new("c1".into(), "n1".into(), body);
    let res = node.step(Event::ExternalMessage(input));
    assert_eq!(res, Err(NodeError::UnexpectedReply));
}
