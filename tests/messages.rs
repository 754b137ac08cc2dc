use iroh_chat::identity::Identity;
use iroh_chat::message::{Message, MessageBody, MessageError};

fn alice() -> Identity {
    let mut b = [0u8; 32];
    for (i, x) in b.iter_mut().enumerate() {
        *x = (i as u8) * 7 + 1;
    }
    Identity { bytes: b }
}

#[test]
fn message_round_trip_about_me() {
    let body = MessageBody::AboutMe { from: alice(), name: "Alice".to_string() };
    let m = Message::new(body.clone());
    let back = Message::from_bytes(&m.to_bytes()).unwrap();
    assert_eq!(back.body, body);
    assert_eq!(back.nonce, m.nonce);
    assert_eq!(back.nonce.len(), 16);
}

#[test]
fn message_round_trip_chat_unicode() {
    let body = MessageBody::Chat { from: alice(), text: "grüße, 世界 🎉".to_string() };
    let m = Message::new(body.clone());
    assert_eq!(Message::from_bytes(&m.to_bytes()).unwrap(), m);
}

#[test]
fn message_round_trip_empty_text() {
    let body = MessageBody::Chat { from: alice(), text: String::new() };
    let m = Message::new(body);
    assert_eq!(Message::from_bytes(&m.to_bytes()).unwrap(), m);
}

#[test]
fn same_body_twice_differs() {
    let body = MessageBody::Chat { from: alice(), text: "hi".to_string() };
    let a = Message::new(body.clone());
    let b = Message::new(body);
    assert_ne!(a.nonce, b.nonce);
    assert_ne!(a.to_bytes(), b.to_bytes());
}

#[test]
fn message_byte_layout() {
    let m = Message {
        body: MessageBody::Chat { from: Identity { bytes: [3; 32] }, text: "hey".to_string() },
        nonce: [9; 16],
    };
    let mut expected = vec![1u8];
    expected.extend_from_slice(&[3u8; 32]);
    expected.extend_from_slice(&[0, 0, 0, 0, 0, 0, 0, 3]);
    expected.extend_from_slice(b"hey");
    expected.extend_from_slice(&[9u8; 16]);
    assert_eq!(m.to_bytes(), expected);
    let a = Message {
        body: MessageBody::AboutMe { from: Identity { bytes: [3; 32] }, name: "hey".to_string() },
        nonce: [9; 16],
    };
    assert_eq!(a.to_bytes()[0], 0);
    assert_eq!(a.to_bytes()[1..], expected[1..]);
}

#[test]
fn truncated_message_is_malformed() {
    let m = Message::new(MessageBody::AboutMe { from: alice(), name: "Alice".to_string() });
    let bytes = m.to_bytes();
    assert_eq!(Message::from_bytes(&bytes[..3]), Err(MessageError::MalformedEnvelope));
    assert_eq!(Message::from_bytes(&bytes[..bytes.len() - 1]), Err(MessageError::MalformedEnvelope));
    assert_eq!(Message::from_bytes(&[]), Err(MessageError::MalformedEnvelope));
}

#[test]
fn wrong_tag_is_malformed() {
    let m = Message::new(MessageBody::Chat { from: alice(), text: "x".to_string() });
    let mut bytes = m.to_bytes();
    bytes[0] = 2;
    assert_eq!(Message::from_bytes(&bytes), Err(MessageError::MalformedEnvelope));
}

#[test]
fn trailing_byte_is_malformed() {
    let m = Message::new(MessageBody::Chat { from: alice(), text: "x".to_string() });
    let mut bytes = m.to_bytes();
    bytes.push(0);
    assert_eq!(Message::from_bytes(&bytes), Err(MessageError::MalformedEnvelope));
}

#[test]
fn invalid_utf8_is_malformed() {
    let m = Message {
        body: MessageBody::Chat { from: alice(), text: "ab".to_string() },
        nonce: [0; 16],
    };
    let mut bytes = m.to_bytes();
    bytes[41] = 0xff;
    assert_eq!(Message::from_bytes(&bytes), Err(MessageError::MalformedEnvelope));
}

#[test]
fn any_nonce_is_accepted() {
    let m = Message {
        body: MessageBody::AboutMe { from: alice(), name: "n".to_string() },
        nonce: [0xff; 16],
    };
    assert_eq!(Message::from_bytes(&m.to_bytes()).unwrap(), m);
}
