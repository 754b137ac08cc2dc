//! Join tickets: a topic and the peers to dial, rendered as lowercase unpadded
//! base 32 so that they survive copy and paste.
//!
//! Byte layout: the 32-byte topic, the number of peers as eight big-endian
//! bytes, then per peer its 32-byte key, the length of its endpoint hints as
//! eight big-endian bytes, and the hints themselves.
use crate::identity::Identity;
use crate::text::{all_ascii, ascii_chars, ascii_string, lemma_ascii_utf8};
use crate::wire::{
    be64, copy_range, get_be64, lemma_read_be64, push_all, push_be64, read_array32, read_be64,
};
use vstd::prelude::*;
use vstd::utf8::*;

verus! {

broadcast use vstd::utf8::group_utf8_lib;

/// The identifier of a conversation.
#[derive(Clone, Copy, Debug, PartialEq, Eq, Hash)]
pub struct TopicId {
    pub bytes: [u8; 32],
}

impl View for TopicId {
    type V = Seq<u8>;

    open spec fn view(&self) -> Seq<u8> {
        self.bytes@
    }
}

/// How to reach a peer: its key and endpoint hints that only the transport
/// reads. The hints are carried through unchanged.
#[derive(Clone, Debug, PartialEq, Eq)]
pub struct PeerAddress {
    pub id: Identity,
    pub hints: Vec<u8>,
}

/// A topic and the peers that a newcomer contacts first.
#[derive(Clone, Debug, PartialEq, Eq)]
pub struct Ticket {
    pub topic: TopicId,
    pub nodes: Vec<PeerAddress>,
}

/// Why a ticket text was refused.
#[derive(Clone, Copy, Debug, PartialEq, Eq)]
pub enum TicketError {
    /// The text is not unpadded base 32.
    InvalidTicketEncoding,
    /// The decoded bytes are not a ticket.
    InvalidTicketSchema,
}

pub ghost struct PeerView {
    pub id: Seq<u8>,
    pub hints: Seq<u8>,
}

pub ghost struct TicketView {
    pub topic: Seq<u8>,
    pub nodes: Seq<PeerView>,
}

impl View for PeerAddress {
    type V = PeerView;

    open spec fn view(&self) -> PeerView {
        PeerView { id: self.id@, hints: self.hints@ }
    }
}

pub open spec fn peers_view(s: Seq<PeerAddress>) -> Seq<PeerView> {
    s.map_values(|p: PeerAddress| p@)
}

impl View for Ticket {
    type V = TicketView;

    open spec fn view(&self) -> TicketView {
        TicketView { topic: self.topic@, nodes: peers_view(self.nodes@) }
    }
}

pub open spec fn peer_wf(p: PeerView) -> bool {
    p.id.len() == 32 && p.hints.len() <= u64::MAX
}

/// A ticket that the format can carry.
pub open spec fn ticket_wf(t: TicketView) -> bool {
    &&& t.topic.len() == 32
    &&& t.nodes.len() <= u64::MAX
    &&& forall|i: int| 0 <= i < t.nodes.len() ==> peer_wf(#[trigger] t.nodes[i])
}

pub open spec fn peer_bytes(p: PeerView) -> Seq<u8> {
    p.id + be64(p.hints.len() as u64) + p.hints
}

pub open spec fn peers_bytes(s: Seq<PeerView>) -> Seq<u8>
    decreases s.len(),
{
    if s.len() == 0 {
        Seq::empty()
    } else {
        peer_bytes(s[0]) + peers_bytes(s.drop_first())
    }
}

pub open spec fn ticket_bytes(t: TicketView) -> Seq<u8> {
    t.topic + be64(t.nodes.len() as u64) + peers_bytes(t.nodes)
}

/// The first peer record of `b` and the number of bytes it takes.
pub open spec fn parse_peer(b: Seq<u8>) -> Option<(PeerView, int)> {
    if b.len() < 40 {
        None
    } else {
        let n = read_be64(b.subrange(32, 40)) as int;
        if b.len() < 40 + n {
            None
        } else {
            Some((PeerView { id: b.subrange(0, 32), hints: b.subrange(40, 40 + n) }, 40 + n))
        }
    }
}

/// Exactly `k` peer records that fill `b`.
pub open spec fn parse_peers(b: Seq<u8>, k: nat) -> Option<Seq<PeerView>>
    decreases k,
{
    if k == 0 {
        if b.len() == 0 {
            Some(Seq::empty())
        } else {
            None
        }
    } else {
        match parse_peer(b) {
            None => None,
            Some((p, used)) => match parse_peers(b.subrange(used, b.len() as int), (k - 1) as nat) {
                None => None,
                Some(rest) => Some(seq![p] + rest),
            },
        }
    }
}

/// The ticket that `b` serializes, if any.
pub open spec fn parse_ticket(b: Seq<u8>) -> Option<TicketView> {
    if b.len() < 40 {
        None
    } else {
        match parse_peers(b.subrange(40, b.len() as int), read_be64(b.subrange(32, 40)) as nat) {
            None => None,
            Some(nodes) => Some(TicketView { topic: b.subrange(0, 32), nodes }),
        }
    }
}

pub proof fn lemma_peers_bytes_push(s: Seq<PeerView>, p: PeerView)
    ensures
        peers_bytes(s.push(p)) == peers_bytes(s) + peer_bytes(p),
    decreases s.len(),
{
    if s.len() == 0 {
        assert(s.push(p).drop_first() =~= Seq::<PeerView>::empty());
        assert(s.push(p)[0] == p);
        assert(peers_bytes(s.push(p).drop_first()) == Seq::<u8>::empty());
        assert(peers_bytes(s) == Seq::<u8>::empty());
        assert(peers_bytes(s.push(p)) =~= peers_bytes(s) + peer_bytes(p));
    } else {
        lemma_peers_bytes_push(s.drop_first(), p);
        assert(s.push(p).drop_first() =~= s.drop_first().push(p));
        assert(s.push(p)[0] == s[0]);
        let a = peer_bytes(s[0]);
        let m = peers_bytes(s.drop_first());
        assert(peers_bytes(s.push(p)) == a + (m + peer_bytes(p)));
        assert(a + (m + peer_bytes(p)) =~= (a + m) + peer_bytes(p));
    }
}

proof fn lemma_parse_peer_prefix(p: PeerView, rest: Seq<u8>)
    requires
        peer_wf(p),
    ensures
        parse_peer(peer_bytes(p) + rest) == Some((p, peer_bytes(p).len() as int)),
        (peer_bytes(p) + rest).subrange(peer_bytes(p).len() as int, (peer_bytes(p) + rest).len() as int) == rest,
{
    let b = peer_bytes(p) + rest;
    let n = p.hints.len() as u64;
    lemma_read_be64(n);
    assert(b.subrange(32, 40) =~= be64(n));
    assert(b.subrange(0, 32) =~= p.id);
    assert(b.subrange(40, 40 + p.hints.len() as int) =~= p.hints);
    assert(b.subrange(peer_bytes(p).len() as int, b.len() as int) =~= rest);
}

pub proof fn lemma_peers_round_trip(s: Seq<PeerView>)
    requires
        forall|i: int| 0 <= i < s.len() ==> peer_wf(#[trigger] s[i]),
    ensures
        parse_peers(peers_bytes(s), s.len()) == Some(s),
    decreases s.len(),
{
    if s.len() == 0 {
    } else {
        let p = s[0];
        let rest = s.drop_first();
        assert(peer_wf(s[0]));
        let b = peers_bytes(s);
        assert(b == peer_bytes(p) + peers_bytes(rest));
        lemma_parse_peer_prefix(p, peers_bytes(rest));
        let used = peer_bytes(p).len() as int;
        assert(parse_peer(b) == Some((p, used)));
        assert(b.subrange(used, b.len() as int) == peers_bytes(rest));
        assert forall|i: int| 0 <= i < rest.len() implies peer_wf(#[trigger] rest[i]) by {
            assert(peer_wf(s[i + 1]));
        }
        lemma_peers_round_trip(rest);
        assert(parse_peers(peers_bytes(rest), rest.len()) == Some(rest));
        assert(parse_peers(b, s.len()) == Some(seq![p] + rest));
        assert(seq![p] + rest =~= s);
    }
}

/// Decoding the bytes of a ticket gives back its topic and its peers, in order.
pub proof fn lemma_ticket_bytes_round_trip(t: TicketView)
    requires
        ticket_wf(t),
    ensures
        parse_ticket(ticket_bytes(t)) == Some(t),
{
    let b = ticket_bytes(t);
    lemma_read_be64(t.nodes.len() as u64);
    assert(b.subrange(0, 32) =~= t.topic);
    assert(b.subrange(32, 40) =~= be64(t.nodes.len() as u64));
    assert(b.subrange(40, b.len() as int) =~= peers_bytes(t.nodes));
    lemma_peers_round_trip(t.nodes);
}

/// Appends the record of `p` to `out`.
fn push_peer(out: &mut Vec<u8>, p: &PeerAddress)
    ensures
        final(out)@ == old(out)@ + peer_bytes(p@),
        peer_wf(p@),
{
    push_all(out, p.id.bytes.as_slice());
    let n = p.hints.len();
    push_be64(out, n as u64);
    push_all(out, p.hints.as_slice());
    assert(final(out)@ =~= old(out)@ + peer_bytes(p@));
}

/// Reads a ticket from its bytes, exactly as `parse_ticket` describes.
pub fn parse_ticket_bytes(b: &[u8]) -> (r: Option<Ticket>)
    ensures
        match parse_ticket(b@) {
            Some(v) => r matches Some(t) && t@ == v,
            None => r is None,
        },
{
    let len = b.len();
    if len < 40 {
        return None;
    }
    let topic = TopicId { bytes: read_array32(b, 0) };
    let count = get_be64(b, 32);
    let ghost full = parse_peers(b@.subrange(40, len as int), count as nat);
    let mut nodes: Vec<PeerAddress> = Vec::new();
    let mut pos: usize = 40;
    let mut i: u64 = 0;
    while i < count
        invariant
            len == b@.len(),
            40 <= pos <= len,
            i <= count,
            topic@ == b@.subrange(0, 32),
            count == read_be64(b@.subrange(32, 40)),
            full == parse_peers(b@.subrange(40, len as int), count as nat),
            full == match parse_peers(b@.subrange(pos as int, len as int), (count - i) as nat) {
                Some(rest) => Some(peers_view(nodes@) + rest),
                None => None::<Seq<PeerView>>,
            },
        decreases count - i,
    {
        let ghost tail = b@.subrange(pos as int, len as int);
        if len - pos < 40 {
            return None;
        }
        let n = get_be64(b, pos + 32);
        assert(b@.subrange(pos + 32, pos + 40) =~= tail.subrange(32, 40));
        if n > (len - pos - 40) as u64 {
            return None;
        }
        let end = pos + 40 + n as usize;
        let id = Identity { bytes: read_array32(b, pos) };
        let hints = copy_range(b, pos + 40, end);
        let p = PeerAddress { id, hints };
        assert(b@.subrange(pos as int, pos + 32) =~= tail.subrange(0, 32));
        assert(b@.subrange(pos + 40, end as int) =~= tail.subrange(40, 40 + n));
        assert(parse_peer(tail) == Some((p@, 40 + n)));
        assert(tail.subrange(40 + n, tail.len() as int) =~= b@.subrange(end as int, len as int));
        let ghost old_nodes = peers_view(nodes@);
        nodes.push(p);
        assert(peers_view(nodes@) =~= old_nodes.push(p@));
        proof {
            match parse_peers(b@.subrange(end as int, len as int), (count - i - 1) as nat) {
                Some(rest) => {
                    assert(old_nodes + (seq![p@] + rest) =~= old_nodes.push(p@) + rest);
                },
                None => {},
            }
        }
        pos = end;
        i = i + 1;
    }
    if pos != len {
        return None;
    }
    assert(peers_view(nodes@) + Seq::<PeerView>::empty() =~= peers_view(nodes@));
    Some(Ticket { topic, nodes })
}

/// What unpadded base 32 (alphabet A to Z, 2 to 7) makes of the bytes `b`.
pub uninterp spec fn base32_encoding(b: Seq<u8>) -> Seq<u8>;

/// The bytes that the unpadded base 32 text `s` stands for, if it is one.
pub uninterp spec fn base32_decoding(s: Seq<u8>) -> Option<Seq<u8>>;

/// A symbol of the uppercase base 32 alphabet: `A` to `Z` and `2` to `7`.
pub open spec fn is_base32_symbol(c: u8) -> bool {
    (65 <= c <= 90) || (50 <= c <= 55)
}

/// Relies on `data_encoding::BASE32_NOPAD.encode`: unpadded base 32 over the
/// alphabet `A`-`Z`, `2`-`7`, eight characters for each five bytes and the
/// remainder rounded up, and decoding the text gives the input back.
#[verifier::external_body]
fn base32_encode(b: &[u8]) -> (r: Vec<u8>)
    requires
        b@.len() <= usize::MAX / 512,
    ensures
        r@ == base32_encoding(b@),
        r@.len() == (8 * b@.len() + 4) / 5,
        forall|i: int| 0 <= i < r@.len() ==> is_base32_symbol(#[trigger] r@[i]),
        base32_decoding(r@) == Some(b@),
{
    data_encoding::BASE32_NOPAD.encode(b).into_bytes()
}

/// Relies on `data_encoding::BASE32_NOPAD.decode`: it fails on any byte
/// outside the alphabet `A`-`Z`, `2`-`7`.
#[verifier::external_body]
fn base32_decode(s: &[u8]) -> (r: Option<Vec<u8>>)
    requires
        s@.len() <= usize::MAX / 8,
    ensures
        match base32_decoding(s@) {
            Some(v) => r matches Some(x) && x@ == v,
            None => r is None,
        },
        (exists|i: int| 0 <= i < s@.len() && !is_base32_symbol(#[trigger] s@[i])) ==> r is None,
{
    data_encoding::BASE32_NOPAD.decode(s).ok()
}

pub open spec fn lower_byte(c: u8) -> u8 {
    if 65 <= c <= 90 {
        (c + 32) as u8
    } else {
        c
    }
}

pub open spec fn upper_byte(c: u8) -> u8 {
    if 97 <= c <= 122 {
        (c - 32) as u8
    } else {
        c
    }
}

/// `b` with the ASCII capitals made small.
pub open spec fn ascii_lower(b: Seq<u8>) -> Seq<u8> {
    b.map_values(|c: u8| lower_byte(c))
}

/// `b` with the ASCII small letters made capital.
pub open spec fn ascii_upper(b: Seq<u8>) -> Seq<u8> {
    b.map_values(|c: u8| upper_byte(c))
}

/// The text of a ticket: its bytes in base 32, in lowercase.
pub open spec fn ticket_text(t: TicketView) -> Seq<char> {
    ascii_chars(ascii_lower(base32_encoding(ticket_bytes(t))))
}

/// The longest text that the base 32 decoder is handed.
pub open spec fn max_ticket_text() -> int {
    usize::MAX as int / 8
}

/// What reading the ticket text `s` gives: its UTF-8 bytes, case-normalized,
/// are decoded from base 32, and the result is read as a ticket.
pub open spec fn read_ticket_text(s: Seq<char>) -> Result<TicketView, TicketError> {
    let u = ascii_upper(encode_utf8(s));
    if u.len() > max_ticket_text() {
        Err(TicketError::InvalidTicketEncoding)
    } else {
        match base32_decoding(u) {
            None => Err(TicketError::InvalidTicketEncoding),
            Some(b) => match parse_ticket(b) {
                None => Err(TicketError::InvalidTicketSchema),
                Some(t) => Ok(t),
            },
        }
    }
}

/// `b` with the ASCII capitals made small; other bytes are kept.
pub fn map_ascii_lower(b: &[u8]) -> (r: Vec<u8>)
    ensures
        r@ == ascii_lower(b@),
{
    let mut r: Vec<u8> = Vec::new();
    let mut i: usize = 0;
    while i < b.len()
        invariant
            i <= b@.len(),
            r@ == ascii_lower(b@.subrange(0, i as int)),
        decreases b@.len() - i,
    {
        let c = b[i];
        r.push(if 65 <= c && c <= 90 { c + 32 } else { c });
        i = i + 1;
        assert(r@ =~= ascii_lower(b@.subrange(0, i as int)));
    }
    assert(b@.subrange(0, i as int) =~= b@);
    r
}

/// `b` with the ASCII small letters made capital; other bytes are kept.
pub fn map_ascii_upper(b: &[u8]) -> (r: Vec<u8>)
    ensures
        r@ == ascii_upper(b@),
{
    let mut r: Vec<u8> = Vec::new();
    let mut i: usize = 0;
    while i < b.len()
        invariant
            i <= b@.len(),
            r@ == ascii_upper(b@.subrange(0, i as int)),
        decreases b@.len() - i,
    {
        let c = b[i];
        r.push(if 97 <= c && c <= 122 { c - 32 } else { c });
        i = i + 1;
        assert(r@ =~= ascii_upper(b@.subrange(0, i as int)));
    }
    assert(b@.subrange(0, i as int) =~= b@);
    r
}

impl Ticket {
    /// The bytes of this ticket.
    pub fn to_bytes(&self) -> (r: Vec<u8>)
        ensures
            ticket_wf(self@),
            r@ == ticket_bytes(self@),
    {
        let mut out: Vec<u8> = Vec::new();
        push_all(&mut out, self.topic.bytes.as_slice());
        let count = self.nodes.len();
        push_be64(&mut out, count as u64);
        let ghost head = out@;
        let mut i: usize = 0;
        while i < count
            invariant
                count == self.nodes@.len(),
                i <= count,
                head == self.topic@ + be64(count as u64),
                out@ == head + peers_bytes(self@.nodes.take(i as int)),
                forall|j: int| 0 <= j < i ==> peer_wf(#[trigger] self@.nodes[j]),
            decreases count - i,
        {
            let ghost before = out@;
            push_peer(&mut out, &self.nodes[i]);
            proof {
                let v = self@.nodes;
                assert(v.take(i + 1) =~= v.take(i as int).push(v[i as int]));
                lemma_peers_bytes_push(v.take(i as int), v[i as int]);
            }
            i = i + 1;
            assert(out@ =~= head + peers_bytes(self@.nodes.take(i as int)));
        }
        assert(self@.nodes.take(count as int) =~= self@.nodes);
        out
    }

    /// The shareable text of this ticket: lowercase unpadded base 32.
    pub fn to_string(&self) -> (r: String)
        requires
            ticket_bytes(self@).len() <= usize::MAX / 512,
        ensures
            r@ == ticket_text(self@),
            read_ticket_text(r@) == Ok::<TicketView, TicketError>(self@),
    {
        let bytes = self.to_bytes();
        let encoded = base32_encode(bytes.as_slice());
        proof {
            lemma_text_round_trip(self@, encoded@);
        }
        let lower = map_ascii_lower(encoded.as_slice());
        assert(all_ascii(lower@)) by {
            assert forall|i: int| 0 <= i < lower@.len() implies #[trigger] lower@[i] < 128 by {
                assert(is_base32_symbol(encoded@[i]));
            }
        }
        ascii_string(lower)
    }

    /// Reads a ticket text in either case.
    pub fn from_str(s: &str) -> (r: Result<Ticket, TicketError>)
        ensures
            match read_ticket_text(s@) {
                Ok(v) => r matches Ok(t) && t@ == v,
                Err(e) => r == Err::<Ticket, TicketError>(e),
            },
    {
        let upper = map_ascii_upper(s.as_bytes());
        if upper.len() > usize::MAX / 8 {
            return Err(TicketError::InvalidTicketEncoding);
        }
        match base32_decode(upper.as_slice()) {
            None => Err(TicketError::InvalidTicketEncoding),
            Some(bytes) => match parse_ticket_bytes(bytes.as_slice()) {
                None => Err(TicketError::InvalidTicketSchema),
                Some(t) => Ok(t),
            },
        }
    }
}

proof fn lemma_text_round_trip(t: TicketView, e: Seq<u8>)
    requires
        ticket_wf(t),
        ticket_bytes(t).len() <= usize::MAX / 512,
        e == base32_encoding(ticket_bytes(t)),
        e.len() == (8 * ticket_bytes(t).len() + 4) / 5,
        forall|i: int| 0 <= i < e.len() ==> is_base32_symbol(#[trigger] e[i]),
        base32_decoding(e) == Some(ticket_bytes(t)),
    ensures
        read_ticket_text(ticket_text(t)) == Ok::<TicketView, TicketError>(t),
{
    let b = ticket_bytes(t);
    let l = ascii_lower(e);
    assert(all_ascii(l)) by {
        assert forall|i: int| 0 <= i < l.len() implies #[trigger] l[i] < 128 by {
            assert(is_base32_symbol(e[i]));
        }
    }
    lemma_ascii_utf8(l);
    assert(ascii_upper(l) =~= e) by {
        assert forall|i: int| 0 <= i < e.len() implies #[trigger] ascii_upper(l)[i] == e[i] by {
            assert(is_base32_symbol(e[i]));
        }
    }
    let bl = b.len();
    let el = e.len();
    let m = usize::MAX as int;
    assert(el <= m / 8) by (nonlinear_arith)
        requires
            el == (8 * bl + 4) / 5,
            bl <= m / 512,
            m >= 0,
    ;
    lemma_ticket_bytes_round_trip(t);
}

} // verus!
