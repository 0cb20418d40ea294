use raftchat::chat_message::{Message, WireError};

#[test]
fn crdt_chat_it_works() {}

#[test]
fn network_it_works() {
    let mut buf = Vec::with_capacity(Message::MIN_SERIALIZED_SIZE);
    let temp = Message {
        from: "hi",
        to: "hello",
        msg: "hi hello",
    };

    temp.serialize(&mut buf).unwrap();
    let s2 = Message::deserialize(&buf).unwrap();
    assert_eq!(temp, s2);
}

#[test]
fn message_wire_layout() {
    let mut buf = Vec::new();
    let m = Message { from: "a", to: "", msg: "xyz" };
    assert_eq!(m.serialize(&mut buf), Ok(4 + 1 + 4 + 4 + 3));
    assert_eq!(buf, vec![1, 0, 0, 0, b'a', 0, 0, 0, 0, 3, 0, 0, 0, b'x', b'y', b'z']);
}

#[test]
fn message_roundtrip_utf8() {
    let mut buf = Vec::new();
    let m = Message { from: "ünï", to: "コード", msg: "" };
    m.serialize(&mut buf).unwrap();
    assert_eq!(Message::deserialize(&buf), Ok(m));
}

#[test]
fn message_too_short() {
    assert_eq!(Message::deserialize(&[1, 0, 0, 0, b'a']), Err(WireError::Malformed));
}

#[test]
fn message_field_past_end() {
    let raw = [0, 0, 0, 0, 0, 0, 0, 0, 9, 0, 0, 0, b'a'];
    assert_eq!(Message::deserialize(&raw), Err(WireError::Malformed));
}

#[test]
fn message_not_utf8() {
    let raw = [1, 0, 0, 0, 0xff, 0, 0, 0, 0, 0, 0, 0, 0];
    assert_eq!(Message::deserialize(&raw), Err(WireError::Malformed));
}

#[test]
fn outgoing_message_limit() {
    let ok = "x".repeat(1000);
    let m = Message::outgoing(&ok).unwrap();
    assert_eq!((m.from, m.to, m.msg.len()), ("hi", "you", 1000));
    let long = "x".repeat(1001);
    assert_eq!(Message::outgoing(&long), Err("his"));
}

#[test]
fn message_with_huge_length_prefix() {
    let raw = [0xff, 0xff, 0xff, 0xff, 0, 0, 0, 0, 0, 0, 0, 0];
    assert_eq!(Message::deserialize(&raw), Err(WireError::Malformed));
    let raw = [0, 0, 0, 0, 0xfe, 0xff, 0xff, 0xff, 0, 0, 0, 0];
    assert_eq!(Message::deserialize(&raw), Err(WireError::Malformed));
}
