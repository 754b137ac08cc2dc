//! The decisions of a chat session: how each event from the gossip layer
//! changes the roster and what it reports, what a typed line sends, and how
//! a conversation is opened or joined.
use crate::identity::Identity;
use crate::message::{parse_message, BodyView, Message, MessageBody, MessageError};
use crate::roster::{display_name, Roster};
use crate::text::{blank, is_blank};
use crate::ticket::{read_ticket_text, PeerAddress, PeerView, Ticket, TicketError, TopicId};
use crate::wire::{random_block, read_array32};
use vstd::prelude::*;

verus! {

/// What the gossip layer hands to a subscriber.
#[derive(Clone, Debug, PartialEq, Eq)]
pub enum Event {
    /// A payload that some peer broadcast.
    Received(Vec<u8>),
    /// A direct neighbour connected.
    NeighborUp(Identity),
    /// A direct neighbour went away.
    NeighborDown(Identity),
    /// The receive queue overflowed and messages were lost.
    Lagged,
}

/// What the session reports for an event.
#[derive(Clone, Debug, PartialEq, Eq)]
pub enum Observation {
    /// `id` announced the display name `name`.
    Joined { id: Identity, name: String },
    /// The participant shown as `name` wrote `text`.
    Said { name: String, text: String },
    NeighborUp(Identity),
    NeighborDown(Identity),
    Lagged,
}

pub ghost enum ObservationView {
    Joined { id: Seq<u8>, name: Seq<char> },
    Said { name: Seq<char>, text: Seq<char> },
    NeighborUp(Seq<u8>),
    NeighborDown(Seq<u8>),
    Lagged,
}

impl View for Observation {
    type V = ObservationView;

    open spec fn view(&self) -> ObservationView {
        match self {
            Observation::Joined { id, name } => ObservationView::Joined { id: id@, name: name@ },
            Observation::Said { name, text } => ObservationView::Said { name: name@, text: text@ },
            Observation::NeighborUp(id) => ObservationView::NeighborUp(id@),
            Observation::NeighborDown(id) => ObservationView::NeighborDown(id@),
            Observation::Lagged => ObservationView::Lagged,
        }
    }
}

/// The roster after a message with body `body` is received.
pub open spec fn roster_after(names: Map<Seq<u8>, Seq<char>>, body: BodyView) -> Map<
    Seq<u8>,
    Seq<char>,
> {
    match body {
        BodyView::AboutMe { from, name } => names.insert(from, name),
        BodyView::Chat { .. } => names,
    }
}

/// What is reported for a message with body `body`, given the roster before it.
pub open spec fn observation_of(names: Map<Seq<u8>, Seq<char>>, body: BodyView) -> ObservationView {
    match body {
        BodyView::AboutMe { from, name } => ObservationView::Joined { id: from, name },
        BodyView::Chat { from, text } => ObservationView::Said {
            name: display_name(names, from),
            text,
        },
    }
}

/// Applies one event to the roster and says what to report. A payload that
/// is not a message stops the session with `MalformedEnvelope`, and leaves
/// the roster as it was.
pub fn handle_event(roster: &mut Roster, event: &Event) -> (r: Result<Observation, MessageError>)
    requires
        old(roster).wf(),
    ensures
        final(roster).wf(),
        match event {
            Event::Received(b) => match parse_message(b@) {
                None => r == Err::<Observation, MessageError>(MessageError::MalformedEnvelope)
                    && final(roster).view() == old(roster).view(),
                Some(m) => r matches Ok(o) && o@ == observation_of(old(roster).view(), m.body)
                    && final(roster).view() == roster_after(old(roster).view(), m.body),
            },
            Event::NeighborUp(id) => r matches Ok(o) && o@ == ObservationView::NeighborUp(id@)
                && final(roster).view() == old(roster).view(),
            Event::NeighborDown(id) => r matches Ok(o) && o@ == ObservationView::NeighborDown(id@)
                && final(roster).view() == old(roster).view(),
            Event::Lagged => r matches Ok(o) && o@ == ObservationView::Lagged
                && final(roster).view() == old(roster).view(),
        },
{
    match event {
        Event::Received(b) => {
            let message = match Message::from_bytes(b.as_slice()) {
                Ok(m) => m,
                Err(e) => {
                    return Err(e);
                },
            };
            match message.body {
                MessageBody::AboutMe { from, name } => {
                    roster.insert(from, name.clone());
                    Ok(Observation::Joined { id: from, name })
                },
                MessageBody::Chat { from, text } => {
                    let name = roster.display_name(&from);
                    Ok(Observation::Said { name, text })
                },
            }
        },
        Event::NeighborUp(id) => Ok(Observation::NeighborUp(*id)),
        Event::NeighborDown(id) => Ok(Observation::NeighborDown(*id)),
        Event::Lagged => Ok(Observation::Lagged),
    }
}

/// Receiving the same announcement twice leaves the roster as receiving it once.
pub proof fn lemma_announce_idempotent(
    names: Map<Seq<u8>, Seq<char>>,
    from: Seq<u8>,
    name: Seq<char>,
)
    ensures
        ({
            let b = BodyView::AboutMe { from, name };
            roster_after(roster_after(names, b), b) == roster_after(names, b)
        }),
{
    assert(names.insert(from, name).insert(from, name) =~= names.insert(from, name));
}

/// The last announcement wins: after `first` and then `second` from the same
/// participant, the roster holds `second` for it.
pub proof fn lemma_last_announcement_wins(
    names: Map<Seq<u8>, Seq<char>>,
    from: Seq<u8>,
    first: Seq<char>,
    second: Seq<char>,
)
    ensures
        ({
            let after = roster_after(
                roster_after(names, BodyView::AboutMe { from, name: first }),
                BodyView::AboutMe { from, name: second },
            );
            after.contains_key(from) && after[from] == second && display_name(after, from)
                == second
        }),
{
}

/// A chat line from a participant that has not announced a name is shown
/// under the short form of its key.
pub proof fn lemma_unnamed_sender_shown_short(
    names: Map<Seq<u8>, Seq<char>>,
    from: Seq<u8>,
    text: Seq<char>,
)
    requires
        !names.contains_key(from),
        from.len() == 32,
    ensures
        observation_of(names, BodyView::Chat { from, text }) == (ObservationView::Said {
            name: crate::identity::short_form(from),
            text,
        }),
        crate::identity::short_form(from).len() == 10,
{
}

/// The message that a typed line becomes: none for a line of white space
/// only, else a chat line from `me`.
pub fn outgoing(me: &Identity, line: String) -> (r: Option<MessageBody>)
    ensures
        is_blank(line@) <==> r is None,
        r matches Some(b) ==> b@ == (BodyView::Chat { from: me@, text: line@ }),
{
    if blank(line.as_str()) {
        None
    } else {
        Some(MessageBody::Chat { from: *me, text: line })
    }
}

/// The payload to broadcast for a typed line, with a fresh nonce; none for a
/// line of white space only.
pub fn outgoing_payload(me: &Identity, line: String) -> (r: Option<Vec<u8>>)
    ensures
        is_blank(line@) <==> r is None,
        r matches Some(bytes) ==> (parse_message(bytes@) matches Some(m) && m.body == (
        BodyView::Chat { from: me@, text: line@ })),
{
    match outgoing(me, line) {
        None => None,
        Some(body) => Some(Message::new(body).to_bytes()),
    }
}

/// The payload that announces `me` under `name`, with a fresh nonce.
pub fn introduction(me: &Identity, name: String) -> (r: Vec<u8>)
    ensures
        parse_message(r@) matches Some(m) && m.body == (BodyView::AboutMe {
            from: me@,
            name: name@,
        }),
{
    Message::new(MessageBody::AboutMe { from: *me, name }).to_bytes()
}

/// A fresh random topic.
pub fn new_topic() -> (r: TopicId) {
    let block = random_block();
    TopicId { bytes: read_array32(block.as_slice(), 0) }
}

/// The ticket that opens a conversation: a fresh topic, and this session's
/// own address as the only peer.
pub fn open_ticket(own: PeerAddress) -> (r: Ticket)
    ensures
        r@.nodes == seq![own@],
{
    let mut nodes: Vec<PeerAddress> = Vec::new();
    nodes.push(own);
    let r = Ticket { topic: new_topic(), nodes };
    assert(r@.nodes =~= seq![own@]);
    r
}

/// The topic and the bootstrap peers of a ticket text.
pub fn join(text: &str) -> (r: Result<(TopicId, Vec<PeerAddress>), TicketError>)
    ensures
        match read_ticket_text(text@) {
            Ok(t) => r matches Ok((topic, peers)) && topic@ == t.topic
                && crate::ticket::peers_view(peers@) == t.nodes,
            Err(e) => r == Err::<(TopicId, Vec<PeerAddress>), TicketError>(e),
        },
{
    match Ticket::from_str(text) {
        Ok(t) => Ok((t.topic, t.nodes)),
        Err(e) => Err(e),
    }
}

} // verus!
