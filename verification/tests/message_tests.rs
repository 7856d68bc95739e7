use maelstrom_node::error::NodeError;
use maelstrom_node::message::{Body, Message};

fn parse_str(s: &str) -> Result<Message, NodeError> {
    let v = serde_json::from_str::<serde_json::Value>(s)
        .map_err(|_| NodeError::MalformedEnvelope)?;
    Message::parse(v)
}

#[test]
fn parse_message() {
    let echo = r#"{ "src": "c1", "dest": "n1", "body": { "type": "echo", "msg_id": 1, "echo": "Please echo 35" }}"#;

    let msg = parse_str(echo).unwrap();
    let expected = Message {
        src: "c1".to_string(),
        dest: "n1".to_string(),
        body: Body {
            typ: "echo".to_string(),
            msg_id: Some(1),
            in_reply_to: None,
            extra: vec![(
                "echo".to_string(),
                serde_json::Value::String("Please echo 35".to_string()),
            )],
        },
    };

    assert_eq!(msg, expected);
}

#[test]
fn parse_empty_message_fails() {
    let echo = "";

    let msg = parse_str(echo);

    assert!(msg.is_err(), "parsing empty message should fail.");
}

#[test]
fn parse_fails_when_no_src() {
    let echo =
        r#"{ "dest": "n1", "body": { "type": "echo", "msg_id": 1, "echo": "Please echo 35" }}"#;

    let msg = parse_str(echo);

    assert!(msg.is_err(), "parse should fail if src1");
}

#[test]
fn parse_fails_when_no_dst() {
    let echo =
        r#"{ "src": "c1",  "body": { "type": "echo", "msg_id": 1, "echo": "Please echo 35" }}"#;

    let msg = parse_str(echo);

    assert!(msg.is_err(), "parse should fail when no dst.");
}

#[test]
fn parse_fails_when_no_body() {
    let echo = r#"{ "src": "c1", "dest": "n1" }"#;

    let msg = parse_str(echo);

    assert!(msg.is_err(), "parse should fail when no body {:?}.", msg);
}

#[test]
fn parse_fails_when_body_is_not_an_object() {
    let msg = parse_str(r#"{ "src": "c1", "dest": "n1", "body": 3 }"#);
    assert!(matches!(msg, Err(NodeError::MalformedEnvelope)));
}

#[test]
fn parse_fails_when_type_is_not_a_string() {
    let msg = parse_str(r#"{ "src": "c1", "dest": "n1", "body": { "type": 7 } }"#);
    assert!(matches!(msg, Err(NodeError::MalformedEnvelope)));
}

#[test]
fn parse_fails_when_msg_id_is_not_an_integer() {
    let msg = parse_str(r#"{ "src": "c1", "dest": "n1", "body": { "type": "t", "msg_id": "x" } }"#);
    assert!(matches!(msg, Err(NodeError::MalformedEnvelope)));
}

#[test]
fn parse_ignores_unknown_top_level_fields() {
    let msg = parse_str(r#"{ "src": "c1", "dest": "n1", "junk": 5, "body": { "type": "t" } }"#)
        .unwrap();
    assert_eq!(msg.src, "c1");
    assert_eq!(msg.dest, "n1");
    assert_eq!(msg.body.typ, "t");
    assert_eq!(msg.body.msg_id, None);
    assert!(msg.body.extra.is_empty());
}

fn extra_as_map(m: &Message) -> std::collections::BTreeMap<String, serde_json::Value> {
    m.body.extra.iter().cloned().collect()
}

#[test]
fn round_trip_preserves_extra_fields() {
    let msg = Message {
        src: "n1".to_string(),
        dest: "c1".to_string(),
        body: Body {
            typ: "kv_ok".to_string(),
            msg_id: Some(7),
            in_reply_to: None,
            extra: vec![
                (
                    "zeta".to_string(),
                    serde_json::Value::String("x".to_string()),
                ),
                (
                    "alpha".to_string(),
                    serde_json::Value::Number(serde_json::Number::from(5u64)),
                ),
            ],
        },
    };
    let v = msg.to_value();
    let text = serde_json::to_string(&v).unwrap();
    let v2 = serde_json::from_str::<serde_json::Value>(&text).unwrap();
    let back = Message::parse(v2).unwrap();
    assert_eq!(back.src, msg.src);
    assert_eq!(back.dest, msg.dest);
    assert_eq!(back.body.typ, msg.body.typ);
    assert_eq!(back.body.msg_id, msg.body.msg_id);
    assert_eq!(back.body.in_reply_to, msg.body.in_reply_to);
    assert_eq!(extra_as_map(&back), extra_as_map(&msg));
}

#[test]
fn serialize_omits_absent_msg_id() {
    let msg = Message {
        src: "n1".to_string(),
        dest: "c1".to_string(),
        body: Body {
            typ: "t".to_string(),
            msg_id: None,
            in_reply_to: Some(2),
            extra: Vec::new(),
        },
    };
    let v = msg.to_value();
    let body = v.get("body").unwrap();
    assert!(body.get("msg_id").is_none());
    assert_eq!(body.get("in_reply_to").unwrap().as_u64(), Some(2));
    let back = Message::parse(v).unwrap();
    assert_eq!(back.body.msg_id, None);
    assert_eq!(back.body.in_reply_to, Some(2));
}

#[test]
fn serialize_omits_empty_type() {
    let msg = Message {
        src: "n1".to_string(),
        dest: "c1".to_string(),
        body: Body {
            typ: String::new(),
            msg_id: Some(1),
            in_reply_to: None,
            extra: Vec::new(),
        },
    };
    let v = msg.to_value();
    assert!(v.get("body").unwrap().get("type").is_none());
}
