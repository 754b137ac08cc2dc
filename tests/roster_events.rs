use iroh_chat::identity::Identity;
use iroh_chat::message::{Message, MessageBody, MessageError};
use iroh_chat::roster::Roster;
use iroh_chat::session::{handle_event, introduction, outgoing, outgoing_payload, Event, Observation};

fn id(k: u8) -> Identity {
    let mut b = [k; 32];
    b[0] = 0xab;
    b[1] = 0x01;
    Identity { bytes: b }
}

fn received(body: MessageBody) -> Event {
    Event::Received(Message::new(body).to_bytes())
}

fn about(from: Identity, name: &str) -> Event {
    received(MessageBody::AboutMe { from, name: name.to_string() })
}

fn chat(from: Identity, text: &str) -> Event {
    received(MessageBody::Chat { from, text: text.to_string() })
}

#[test]
fn short_form_is_first_five_bytes_in_hex() {
    let i = Identity { bytes: [0x00, 0x1f, 0xa0, 0xff, 0x09, 1, 2, 3, 4, 5, 6, 7, 8, 9, 10, 11, 12, 13, 14, 15, 16, 17, 18, 19, 20, 21, 22, 23, 24, 25, 26, 27] };
    assert_eq!(i.fmt_short(), "001fa0ff09");
}

#[test]
fn announcing_twice_is_like_once() {
    let mut once = Roster::new();
    handle_event(&mut once, &about(id(1), "Alice")).unwrap();
    let mut twice = Roster::new();
    handle_event(&mut twice, &about(id(1), "Alice")).unwrap();
    handle_event(&mut twice, &about(id(1), "Alice")).unwrap();
    assert_eq!(once.get(&id(1)), twice.get(&id(1)));
    assert_eq!(twice.get(&id(1)), Some("Alice".to_string()));
    assert_eq!(twice.get(&id(2)), None);
}

#[test]
fn last_announcement_wins() {
    let mut r = Roster::new();
    handle_event(&mut r, &about(id(1), "Alice")).unwrap();
    handle_event(&mut r, &about(id(1), "Bob")).unwrap();
    assert_eq!(r.get(&id(1)), Some("Bob".to_string()));
    let said = handle_event(&mut r, &chat(id(1), "hello")).unwrap();
    assert_eq!(said, Observation::Said { name: "Bob".to_string(), text: "hello".to_string() });
}

#[test]
fn unnamed_sender_is_shown_short() {
    let mut r = Roster::new();
    handle_event(&mut r, &about(id(2), "Carol")).unwrap();
    let said = handle_event(&mut r, &chat(id(1), "hi")).unwrap();
    assert_eq!(said, Observation::Said { name: id(1).fmt_short(), text: "hi".to_string() });
    assert_eq!(id(1).fmt_short(), "ab01010101");
    assert_eq!(r.display_name(&id(1)), "ab01010101");
}

#[test]
fn announcement_is_reported() {
    let mut r = Roster::new();
    let o = handle_event(&mut r, &about(id(3), "Dave")).unwrap();
    assert_eq!(o, Observation::Joined { id: id(3), name: "Dave".to_string() });
    assert_eq!(r.display_name(&id(3)), "Dave");
}

#[test]
fn connectivity_events_leave_roster_alone() {
    let mut r = Roster::new();
    assert_eq!(handle_event(&mut r, &Event::NeighborUp(id(4))).unwrap(), Observation::NeighborUp(id(4)));
    assert_eq!(handle_event(&mut r, &Event::NeighborDown(id(4))).unwrap(), Observation::NeighborDown(id(4)));
    assert_eq!(handle_event(&mut r, &Event::Lagged).unwrap(), Observation::Lagged);
    assert_eq!(r.get(&id(4)), None);
}

#[test]
fn malformed_payload_stops_with_error() {
    let mut r = Roster::new();
    handle_event(&mut r, &about(id(1), "Alice")).unwrap();
    let bytes = Message::new(MessageBody::AboutMe { from: id(1), name: "Eve".to_string() }).to_bytes();
    let e = handle_event(&mut r, &Event::Received(bytes[..3].to_vec()));
    assert_eq!(e, Err(MessageError::MalformedEnvelope));
    assert_eq!(r.get(&id(1)), Some("Alice".to_string()));
}

#[test]
fn blank_lines_are_not_sent() {
    assert_eq!(outgoing(&id(1), String::new()), None);
    assert_eq!(outgoing(&id(1), "   \t ".to_string()), None);
    assert_eq!(outgoing(&id(1), "\u{3000}\n".to_string()), None);
    assert_eq!(outgoing_payload(&id(1), " ".to_string()), None);
}

#[test]
fn typed_lines_are_sent_as_chat() {
    assert_eq!(
        outgoing(&id(1), " hi ".to_string()),
        Some(MessageBody::Chat { from: id(1), text: " hi ".to_string() })
    );
    let bytes = outgoing_payload(&id(1), "yo".to_string()).unwrap();
    let m = Message::from_bytes(&bytes).unwrap();
    assert_eq!(m.body, MessageBody::Chat { from: id(1), text: "yo".to_string() });
}

#[test]
fn introduction_announces_name() {
    let m = Message::from_bytes(&introduction(&id(5), "Zed".to_string())).unwrap();
    assert_eq!(m.body, MessageBody::AboutMe { from: id(5), name: "Zed".to_string() });
}
