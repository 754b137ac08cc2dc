use iroh_chat::identity::Identity;
use iroh_chat::session::{join, open_ticket};
use iroh_chat::ticket::{
    map_ascii_lower, map_ascii_upper, parse_ticket_bytes, PeerAddress, Ticket, TicketError, TopicId,
};

fn peer(k: u8, hints: &[u8]) -> PeerAddress {
    PeerAddress { id: Identity { bytes: [k; 32] }, hints: hints.to_vec() }
}

fn sample() -> Ticket {
    let mut topic = [0u8; 32];
    for (i, b) in topic.iter_mut().enumerate() {
        *b = i as u8;
    }
    Ticket {
        topic: TopicId { bytes: topic },
        nodes: vec![peer(1, b"relay=https://relay.example/"), peer(2, b""), peer(3, b"127.0.0.1:4433")],
    }
}

#[test]
fn ticket_text_round_trip() {
    let t = sample();
    let text = t.to_string();
    let back = Ticket::from_str(&text).unwrap();
    assert_eq!(back, t);
}

#[test]
fn ticket_text_round_trip_without_peers() {
    let t = Ticket { topic: TopicId { bytes: [9; 32] }, nodes: vec![] };
    assert_eq!(Ticket::from_str(&t.to_string()).unwrap(), t);
}

#[test]
fn ticket_text_is_lowercase_base32() {
    let text = sample().to_string();
    assert!(!text.is_empty());
    assert!(text.chars().all(|c| c.is_ascii_lowercase() || ('2'..='7').contains(&c)));
    assert!(!text.contains('='));
}

#[test]
fn ticket_text_of_zero_ticket() {
    // 32 zero bytes of topic and a zero peer count: 40 zero bytes, 64 symbols.
    let t = Ticket { topic: TopicId { bytes: [0; 32] }, nodes: vec![] };
    assert_eq!(t.to_string(), "a".repeat(64));
}

#[test]
fn ticket_text_accepts_uppercase() {
    let t = sample();
    let upper = t.to_string().to_uppercase();
    assert_eq!(Ticket::from_str(&upper).unwrap(), t);
}

#[test]
fn ticket_with_invalid_character() {
    let mut text = sample().to_string();
    text.insert(5, '!');
    assert_eq!(Ticket::from_str(&text), Err(TicketError::InvalidTicketEncoding));
    assert_eq!(Ticket::from_str("abc!def"), Err(TicketError::InvalidTicketEncoding));
}

#[test]
fn ticket_with_bad_schema() {
    let text = data_encoding::BASE32_NOPAD.encode(b"hello").to_lowercase();
    assert_eq!(Ticket::from_str(&text), Err(TicketError::InvalidTicketSchema));
}

#[test]
fn ticket_with_trailing_bytes_is_bad_schema() {
    let mut bytes = sample().to_bytes();
    bytes.push(0);
    assert_eq!(parse_ticket_bytes(&bytes), None);
    let text = data_encoding::BASE32_NOPAD.encode(&bytes).to_lowercase();
    assert_eq!(Ticket::from_str(&text), Err(TicketError::InvalidTicketSchema));
}

#[test]
fn ticket_byte_layout() {
    let t = Ticket { topic: TopicId { bytes: [5; 32] }, nodes: vec![peer(6, b"ab")] };
    let mut expected = vec![5u8; 32];
    expected.extend_from_slice(&[0, 0, 0, 0, 0, 0, 0, 1]);
    expected.extend_from_slice(&[6u8; 32]);
    expected.extend_from_slice(&[0, 0, 0, 0, 0, 0, 0, 2]);
    expected.extend_from_slice(b"ab");
    assert_eq!(t.to_bytes(), expected);
    assert_eq!(parse_ticket_bytes(&expected), Some(t));
}

#[test]
fn ticket_bytes_truncated() {
    let bytes = sample().to_bytes();
    for cut in [0, 10, 39, 40, 75, bytes.len() - 1] {
        assert_eq!(parse_ticket_bytes(&bytes[..cut]), None);
    }
}

#[test]
fn open_then_join_gives_the_opener() {
    let own = peer(42, b"127.0.0.1:1234");
    let ticket = open_ticket(own.clone());
    assert_eq!(ticket.nodes, vec![own.clone()]);
    let text = ticket.to_string();
    let (topic, peers) = join(&text).unwrap();
    assert_eq!(topic, ticket.topic);
    assert_eq!(peers, vec![own]);
}

#[test]
fn join_rejects_bad_text() {
    assert_eq!(join("not a ticket!"), Err(TicketError::InvalidTicketEncoding));
}

#[test]
fn open_tickets_have_fresh_topics() {
    let a = open_ticket(peer(1, b""));
    let b = open_ticket(peer(1, b""));
    assert_ne!(a.topic, b.topic);
}

#[test]
fn case_mapping_touches_ascii_letters_only() {
    assert_eq!(map_ascii_lower(b"AbZ2!\xc3\x84"), b"abz2!\xc3\x84".to_vec());
    assert_eq!(map_ascii_upper(b"azQ7~\xc3\xa4"), b"AZQ7~\xc3\xa4".to_vec());
}
