use maelstrom_node::error::NodeError;
use maelstrom_node::message::Message;
use maelstrom_node::node::{
    echo_reply, message_before_init_returns_error, InitializedNode, Node, State,
};

type Handler = fn(Message, u64) -> Result<Message, NodeError>;

fn parse_str(s: &str) -> Result<Message, NodeError> {
    let v = serde_json::from_str::<serde_json::Value>(s)
        .map_err(|_| NodeError::MalformedEnvelope)?;
    Message::parse(v)
}

fn init_msg() -> Message {
    let msg = r#"{
        "src":"c1", "dest":"n1",
        "body":{
            "type":"init",
            "node_id":"n1",
            "node_ids":["n1", "n2"],
            "msg_id":1}
    }"#;

    parse_str(msg).expect("invalid init json.")
}

fn identity_handler(msg: Message, _: u64) -> Result<Message, NodeError> {
    Ok(msg)
}

#[test]
fn node_inital_state() {
    // Tests that the initial state of a node is in the "Start" state
    let node = Node::<Handler>::new(Vec::new()).unwrap();
    assert_eq!(
        *node.state(),
        State::Start,
        "msg_id should start as Start, got {:?}",
        node.state()
    );
}

#[test]
fn node_initializes_after_init() {
    // Test that node transitions into InializedNode state after recieving init msg.
    let mut node = Node::<Handler>::new(Vec::new()).unwrap();

    node.handle(init_msg()).unwrap();

    let expected_state = State::Initialized(InitializedNode {
        id: "n1".into(),
        other_nodes: vec!["n1".into(), "n2".into()],
    });
    assert_eq!(
        *node.state(),
        expected_state,
        "node should transition into InitializedNode with id n1 and neighbor n2 got: {:?}",
        node.state()
    );
}

#[test]
fn init_reply_is_valid() {
    // Tests that the reply for the first init message carries an init_ok
    // body answering the request's msg_id, stamped with reply id 0.
    let mut node = Node::<Handler>::new(Vec::new()).unwrap();

    let reply = node.handle(init_msg()).unwrap();

    // Note that we expect that the first reply will have a message_id of 0 from us.
    let expected = r#"{
        "src":"n1", "dest":"c1",
        "body": {
            "type":"init_ok",
            "in_reply_to": 1,
            "msg_id":0
            }
    }"#;

    let expected = parse_str(expected).unwrap();

    assert_eq!(reply, expected);
}

#[test]
fn cannot_create_node_with_init_handler() {
    // Test that creating node with a handler for "init" fails.
    let node = Node::new(vec![("init".to_string(), identity_handler as Handler)]);
    assert!(
        node.is_err(),
        "Creating a node with a handler for init is forbidden {:?}",
        node.unwrap()
    );
}

#[test]
fn reserved_handler_error_variant() {
    let node = Node::new(vec![("init".to_string(), identity_handler as Handler)]);
    assert!(matches!(node, Err(NodeError::ReservedHandler)));
}

#[test]
fn multiple_init_messages_idempontent() {
    // Tests that multiple init messages are valid.
    let mut node = Node::<Handler>::new(Vec::new()).unwrap();

    node.handle(init_msg()).unwrap();
    let expected_state = State::Initialized(InitializedNode {
        id: "n1".into(),
        other_nodes: vec!["n1".into(), "n2".into()],
    });
    assert_eq!(*node.state(), expected_state);
    node.handle(init_msg()).unwrap();
    assert_eq!(*node.state(), expected_state);
    node.handle(init_msg()).unwrap();
    assert_eq!(*node.state(), expected_state);
    node.handle(init_msg()).unwrap();
    assert_eq!(*node.state(), expected_state);
}

#[test]
fn second_init_acknowledged_but_identity_kept() {
    let mut node = Node::<Handler>::new(Vec::new()).unwrap();
    node.handle(init_msg()).unwrap();

    let second = parse_str(
        r#"{"src":"c2","dest":"n1","body":{"type":"init","node_id":"zz","node_ids":["zz"],"msg_id":9}}"#,
    )
    .unwrap();
    let reply = node.handle(second).unwrap();

    assert_eq!(reply.body.typ, "init_ok");
    assert_eq!(reply.body.in_reply_to, Some(9));
    let expected_state = State::Initialized(InitializedNode {
        id: "n1".into(),
        other_nodes: vec!["n1".into(), "n2".into()],
    });
    assert_eq!(*node.state(), expected_state);
}

#[test]
fn invalid_init_leaves_node_unconfigured() {
    let mut node = Node::<Handler>::new(Vec::new()).unwrap();

    // node_ids is missing entirely
    let no_ids =
        parse_str(r#"{"src":"c1","dest":"n1","body":{"type":"init","node_id":"n1","msg_id":1}}"#)
            .unwrap();
    let r = node.handle(no_ids);
    assert!(matches!(r, Err(NodeError::InvalidInit)));
    assert_eq!(*node.state(), State::Start);

    // node_ids is not an array
    let bad_ids = parse_str(
        r#"{"src":"c1","dest":"n1","body":{"type":"init","node_id":"n1","node_ids":"n2","msg_id":1}}"#,
    )
    .unwrap();
    let r = node.handle(bad_ids);
    assert!(matches!(r, Err(NodeError::InvalidInit)));
    assert_eq!(*node.state(), State::Start);

    // an element of node_ids is not a string
    let bad_elem = parse_str(
        r#"{"src":"c1","dest":"n1","body":{"type":"init","node_id":"n1","node_ids":["n1",2],"msg_id":1}}"#,
    )
    .unwrap();
    let r = node.handle(bad_elem);
    assert!(matches!(r, Err(NodeError::InvalidInit)));
    assert_eq!(*node.state(), State::Start);
}

#[test]
fn reply_id_goes_up() {}

#[test]
fn reply_ids_increase_by_one_across_successful_handles() {
    let mut node = Node::new(vec![("echo".to_string(), echo_reply as Handler)]).unwrap();

    let r0 = node.handle(init_msg()).unwrap();
    assert_eq!(r0.body.msg_id, Some(0));

    let mut echo = init_msg();
    echo.body.typ = "echo".to_string();
    let r1 = node.handle(echo.clone()).unwrap();
    assert_eq!(r1.body.msg_id, Some(1));
    let r2 = node.handle(echo).unwrap();
    assert_eq!(r2.body.msg_id, Some(2));
}

#[test]
fn failed_handler_invocation_consumes_no_id() {
    let failing: Handler = |_, _| Err(NodeError::Handler("nope".to_string()));
    let mut node = Node::new(vec![
        ("fail".to_string(), failing),
        ("echo".to_string(), echo_reply as Handler),
    ])
    .unwrap();

    node.handle(init_msg()).unwrap(); // consumes id 0

    let mut fail_msg = init_msg();
    fail_msg.body.typ = "fail".to_string();
    assert!(node.handle(fail_msg).is_err()); // produces no reply, consumes nothing

    let mut echo = init_msg();
    echo.body.typ = "echo".to_string();
    let reply = node.handle(echo).unwrap();
    assert_eq!(reply.body.msg_id, Some(1));
}

#[test]
fn unimplemented_type_returns_error_after_init() {
    // Tests that an unknown message returns an error after init.
    let mut node = Node::<Handler>::new(Vec::new()).unwrap();

    // Init
    node.handle(init_msg()).unwrap();

    // Known msg
    let msg = {
        let mut msg = init_msg();
        msg.body.typ = "unknown...".into();
        msg
    };

    let result = node.handle(msg);

    assert!(
        matches!(&result, Err(NodeError::UnhandledType(t)) if t == "unknown..."),
        "expected failure with unknown handler, got {:?}",
        result
    );
}

#[test]
fn unknown_message_before_init_returns_error() {
    // Tests that an unknown message returns an error before init.
    let mut node = Node::<Handler>::new(Vec::new()).unwrap();

    let msg = {
        let mut msg = init_msg();
        msg.body.typ = "unknown...".into();
        msg
    };

    let result = node.handle(msg);

    assert!(
        matches!(&result, Err(NodeError::NotReady)),
        "expected failure with unknown handler, got {:?}",
        result
    );
}

#[test]
fn message_before_init_reports_not_ready() {
    // The library states this one itself: a registered type is still refused
    // before init.
    assert!(message_before_init_returns_error());
}

#[test]
fn dispatch_returns_handler_result_unchanged() {
    let mut node = Node::new(vec![("id".to_string(), identity_handler as Handler)]).unwrap();
    node.handle(init_msg()).unwrap();

    let msg = {
        let mut msg = init_msg();
        msg.body.typ = "id".to_string();
        msg
    };
    let reply = node.handle(msg.clone()).unwrap();
    assert_eq!(reply, msg);
}

#[test]
fn node_propagates_handler_error() {
    // Tests handler errors are propagated correctly.
    let handler: Handler = |_, _| Err(NodeError::Handler("error from handler".to_string()));
    let mut node = Node::new(vec![("id".to_string(), handler)]).unwrap();

    node.handle(init_msg()).unwrap();

    let msg = {
        let mut msg = init_msg();
        msg.body.typ = "id".into();
        msg
    };
    let result = node.handle(msg);

    assert!(
        matches!(&result, Err(NodeError::Handler(e)) if e.contains("error from handler")),
        "expected failure from handler, got {:?}",
        result
    );
}

#[test]
fn echo_scenario_produces_expected_reply() {
    let mut node = Node::new(vec![("echo".to_string(), echo_reply as Handler)]).unwrap();
    node.handle(init_msg()).unwrap();

    let req = parse_str(r#"{"src":"c1","dest":"n1","body":{"type":"echo","msg_id":1,"echo":"hi"}}"#)
        .unwrap();
    let reply = node.handle(req).unwrap();

    let expected = parse_str(
        r#"{"src":"n1","dest":"c1","body":{"type":"echo_ok","in_reply_to":1,"msg_id":1,"echo":"hi"}}"#,
    )
    .unwrap();
    assert_eq!(reply, expected);
}
