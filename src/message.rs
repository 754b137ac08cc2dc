//! Message envelopes: a typed body plus a random nonce, and their byte format.
//!
//! Layout: one tag byte (0 for `AboutMe`, 1 for `Chat`), the sender's 32-byte
//! key, the byte length of the UTF-8 text as eight big-endian bytes, the text,
//! and the 16-byte nonce.
use crate::identity::Identity;
use crate::text::utf8_to_string;
use crate::wire::{
    be64, copy_range, get_be64, lemma_read_be64, push_all, push_be64, random_block, read_array16,
    read_array32, read_be64,
};
use vstd::prelude::*;
use vstd::utf8::*;

verus! {

broadcast use vstd::utf8::group_utf8_lib;

/// What a message says.
#[derive(Clone, Debug, PartialEq, Eq)]
pub enum MessageBody {
    /// Announces or updates the display name of `from`.
    AboutMe { from: Identity, name: String },
    /// A line of text written by `from`.
    Chat { from: Identity, text: String },
}

/// A message body with the nonce that keeps equal bodies from being
/// coalesced by transports that deduplicate identical payloads.
#[derive(Clone, Debug, PartialEq, Eq)]
pub struct Message {
    pub body: MessageBody,
    pub nonce: [u8; 16],
}

/// Why a payload could not be read as a message.
#[derive(Clone, Copy, Debug, PartialEq, Eq)]
pub enum MessageError {
    /// The bytes are not a serialized message.
    MalformedEnvelope,
}

pub ghost enum BodyView {
    AboutMe { from: Seq<u8>, name: Seq<char> },
    Chat { from: Seq<u8>, text: Seq<char> },
}

pub ghost struct MessageView {
    pub body: BodyView,
    pub nonce: Seq<u8>,
}

impl View for MessageBody {
    type V = BodyView;

    open spec fn view(&self) -> BodyView {
        match self {
            MessageBody::AboutMe { from, name } => BodyView::AboutMe { from: from@, name: name@ },
            MessageBody::Chat { from, text } => BodyView::Chat { from: from@, text: text@ },
        }
    }
}

impl View for Message {
    type V = MessageView;

    open spec fn view(&self) -> MessageView {
        MessageView { body: self.body@, nonce: self.nonce@ }
    }
}

impl BodyView {
    pub open spec fn tag(self) -> u8 {
        match self {
            BodyView::AboutMe { .. } => 0,
            BodyView::Chat { .. } => 1,
        }
    }

    pub open spec fn from(self) -> Seq<u8> {
        match self {
            BodyView::AboutMe { from, .. } => from,
            BodyView::Chat { from, .. } => from,
        }
    }

    /// The name of an `AboutMe`, the text of a `Chat`.
    pub open spec fn content(self) -> Seq<char> {
        match self {
            BodyView::AboutMe { name, .. } => name,
            BodyView::Chat { text, .. } => text,
        }
    }
}

/// A message that the format can carry: a 32-byte key, a 16-byte nonce, and a
/// text whose UTF-8 length fits in eight bytes.
pub open spec fn message_wf(m: MessageView) -> bool {
    &&& m.body.from().len() == 32
    &&& m.nonce.len() == 16
    &&& encode_utf8(m.body.content()).len() <= u64::MAX
}

pub open spec fn message_bytes(m: MessageView) -> Seq<u8> {
    let t = encode_utf8(m.body.content());
    seq![m.body.tag()] + m.body.from() + be64(t.len() as u64) + t + m.nonce
}

/// The message that `b` serializes, if any.
pub open spec fn parse_message(b: Seq<u8>) -> Option<MessageView> {
    if b.len() < 57 || b[0] > 1 {
        None
    } else {
        let from = b.subrange(1, 33);
        let n = read_be64(b.subrange(33, 41)) as int;
        if b.len() != 57 + n {
            None
        } else {
            let t = b.subrange(41, 41 + n);
            if !valid_utf8(t) {
                None
            } else {
                let body = if b[0] == 0 {
                    BodyView::AboutMe { from, name: decode_utf8(t) }
                } else {
                    BodyView::Chat { from, text: decode_utf8(t) }
                };
                Some(MessageView { body, nonce: b.subrange(41 + n, b.len() as int) })
            }
        }
    }
}

/// Decoding the bytes of a message gives back that message, body and nonce.
pub proof fn lemma_message_round_trip(m: MessageView)
    requires
        message_wf(m),
    ensures
        parse_message(message_bytes(m)) == Some(m),
{
    let t = encode_utf8(m.body.content());
    let n = t.len() as u64;
    let b = message_bytes(m);
    lemma_read_be64(n);
    assert(b.subrange(1, 33) =~= m.body.from());
    assert(b.subrange(33, 41) =~= be64(n));
    assert(b.subrange(41, 41 + t.len() as int) =~= t);
    assert(b.subrange(41 + t.len() as int, b.len() as int) =~= m.nonce);
    assert(decode_utf8(t) == m.body.content());
    let p = parse_message(b).unwrap();
    assert(p.body == m.body);
}

/// Two messages with the same body and different nonces serialize to
/// different bytes: the nonce alone keeps them apart.
pub proof fn lemma_nonce_separates(m1: MessageView, m2: MessageView)
    requires
        message_wf(m1),
        message_wf(m2),
        m1.body == m2.body,
        m1.nonce != m2.nonce,
    ensures
        message_bytes(m1) != message_bytes(m2),
{
    lemma_message_round_trip(m1);
    lemma_message_round_trip(m2);
}

/// Appends the key bytes of `id` to `out`.
fn push_identity(out: &mut Vec<u8>, id: &Identity)
    ensures
        final(out)@ == old(out)@ + id@,
{
    push_all(out, id.bytes.as_slice());
}

impl Message {
    /// Wraps `body` with a fresh random nonce.
    pub fn new(body: MessageBody) -> (r: Message)
        ensures
            r.body@ == body@,
    {
        let block = random_block();
        let nonce = read_array16(block.as_slice(), 0);
        Message { body, nonce }
    }

    /// The bytes of this message.
    pub fn to_bytes(&self) -> (r: Vec<u8>)
        ensures
            message_wf(self@),
            r@ == message_bytes(self@),
            parse_message(r@) == Some(self@),
    {
        let mut out: Vec<u8> = Vec::new();
        let (tag, from, content) = match &self.body {
            MessageBody::AboutMe { from, name } => (0u8, from, name),
            MessageBody::Chat { from, text } => (1u8, from, text),
        };
        out.push(tag);
        push_identity(&mut out, from);
        let t = content.as_str().as_bytes();
        let n = t.len();
        push_be64(&mut out, n as u64);
        push_all(&mut out, t);
        push_all(&mut out, self.nonce.as_slice());
        assert(out@ =~= message_bytes(self@));
        proof {
            lemma_message_round_trip(self@);
        }
        out
    }

    /// Reads a message from `b`; fails on anything that is not the bytes of a message.
    pub fn from_bytes(b: &[u8]) -> (r: Result<Message, MessageError>)
        ensures
            match parse_message(b@) {
                Some(m) => r matches Ok(msg) && msg@ == m,
                None => r == Err::<Message, MessageError>(MessageError::MalformedEnvelope),
            },
    {
        let len = b.len();
        if len < 57 || b[0] > 1 {
            return Err(MessageError::MalformedEnvelope);
        }
        let from = Identity { bytes: read_array32(b, 1) };
        let n = get_be64(b, 33);
        if n != (len - 57) as u64 {
            return Err(MessageError::MalformedEnvelope);
        }
        let end = len - 16;
        let t = copy_range(b, 41, end);
        let s = match utf8_to_string(t) {
            Some(s) => s,
            None => {
                return Err(MessageError::MalformedEnvelope);
            },
        };
        let nonce = read_array16(b, end);
        let body = if b[0] == 0 {
            MessageBody::AboutMe { from, name: s }
        } else {
            MessageBody::Chat { from, text: s }
        };
        let r = Message { body, nonce };
        assert(r@ == parse_message(b@).unwrap());
        Ok(r)
    }
}

} // verus!
