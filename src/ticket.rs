//! Invitation tickets: a topic and the addresses of peers already in it, with
//! a canonical binary form.
use vstd::prelude::*;
use crate::wire::{
    fits_u64, lemma_raw_round_trip, lemma_text_round_trip, lemma_u16_round_trip,
    lemma_u64_round_trip, take_raw, take_text, take_u16, take_u64, text_bytes, text_fits, u16_bytes,
    u64_bytes, put_raw, put_u16, put_u64, put_text, get_array, get_u16, get_u64, get_text,
};

verus! {

/// A 32-byte identifier naming a chat room.
#[derive(Clone, Copy, Debug, PartialEq, Eq, Hash)]
pub struct TopicId {
    pub bytes: [u8; 32],
}

/// The public key that names a participant on the overlay.
#[derive(Clone, Copy, Debug, PartialEq, Eq, Hash)]
pub struct NodeId {
    pub bytes: [u8; 32],
}

impl TopicId {
    pub fn from_bytes(bytes: [u8; 32]) -> (r: TopicId)
        ensures
            r.bytes == bytes,
    {
        TopicId { bytes }
    }
}

impl NodeId {
    pub fn from_bytes(bytes: [u8; 32]) -> (r: NodeId)
        ensures
            r.bytes == bytes,
    {
        NodeId { bytes }
    }
}

/// A socket address at which a peer may be reached directly.
#[derive(Clone, Copy, Debug, PartialEq, Eq)]
#[allow(inconsistent_fields)]
pub enum DirectAddr {
    V4 { ip: [u8; 4], port: u16 },
    V6 { ip: [u8; 16], port: u16 },
}

/// Where a peer can be reached: its identity, a relay, and direct addresses.
#[derive(Clone, Debug, PartialEq, Eq)]
pub struct PeerAddr {
    pub node_id: NodeId,
    pub relay_url: Option<String>,
    pub direct_addresses: Vec<DirectAddr>,
}

/// A bootstrap token: the room's topic and the peers to contact first.
#[derive(Clone, Debug, PartialEq, Eq)]
pub struct Ticket {
    pub topic: TopicId,
    pub peers: Vec<PeerAddr>,
}

/// Why bytes or text could not be read as a ticket or a message.
#[derive(Clone, Copy, Debug, PartialEq, Eq)]
pub enum DecodeError {
    /// The ticket text is not unpadded base-32.
    BadEncoding,
    /// The ticket bytes do not follow the ticket layout.
    Malformed,
    /// The bytes are neither kind of chat message.
    UnknownMessage,
}

pub enum AddrView {
    V4 { ip: Seq<u8>, port: u16 },
    V6 { ip: Seq<u8>, port: u16 },
}

pub struct PeerView {
    pub node_id: Seq<u8>,
    pub relay_url: Option<Seq<char>>,
    pub direct_addresses: Seq<AddrView>,
}

pub struct TicketView {
    pub topic: Seq<u8>,
    pub peers: Seq<PeerView>,
}

impl View for DirectAddr {
    type V = AddrView;

    open spec fn view(&self) -> AddrView {
        match *self {
            DirectAddr::V4 { ip, port } => AddrView::V4 { ip: ip@, port },
            DirectAddr::V6 { ip, port } => AddrView::V6 { ip: ip@, port },
        }
    }
}

pub open spec fn addr_views(xs: Seq<DirectAddr>) -> Seq<AddrView> {
    xs.map_values(|a: DirectAddr| a@)
}

pub open spec fn peer_views(xs: Seq<PeerAddr>) -> Seq<PeerView> {
    xs.map_values(|p: PeerAddr| p@)
}

impl View for PeerAddr {
    type V = PeerView;

    open spec fn view(&self) -> PeerView {
        PeerView {
            node_id: self.node_id.bytes@,
            relay_url: match self.relay_url {
                Some(u) => Some(u@),
                None => None,
            },
            direct_addresses: addr_views(self.direct_addresses@),
        }
    }
}

impl View for Ticket {
    type V = TicketView;

    open spec fn view(&self) -> TicketView {
        TicketView { topic: self.topic.bytes@, peers: peer_views(self.peers@) }
    }
}

impl AddrView {
    pub open spec fn wf(self) -> bool {
        match self {
            AddrView::V4 { ip, .. } => ip.len() == 4,
            AddrView::V6 { ip, .. } => ip.len() == 16,
        }
    }
}

impl PeerView {
    /// A peer as the wire format can carry it.
    pub open spec fn wf(self) -> bool {
        &&& self.node_id.len() == 32
        &&& self.relay_url matches Some(u) ==> text_fits(u)
        &&& fits_u64(self.direct_addresses.len())
        &&& forall|i: int|
            0 <= i < self.direct_addresses.len() ==> #[trigger] self.direct_addresses[i].wf()
    }
}

impl TicketView {
    /// A ticket as the wire format can carry it.
    pub open spec fn wf(self) -> bool {
        &&& self.topic.len() == 32
        &&& fits_u64(self.peers.len())
        &&& forall|i: int| 0 <= i < self.peers.len() ==> #[trigger] self.peers[i].wf()
    }
}

/// An address: a family tag (4 or 6), the IP bytes, then the port.
pub open spec fn addr_bytes(a: AddrView) -> Seq<u8> {
    match a {
        AddrView::V4 { ip, port } => seq![4u8] + ip + u16_bytes(port),
        AddrView::V6 { ip, port } => seq![6u8] + ip + u16_bytes(port),
    }
}

pub open spec fn take_addr(s: Seq<u8>) -> Option<(AddrView, Seq<u8>)> {
    if s.len() == 0 {
        None
    } else {
        let n: nat = if s[0] == 4 { 4 } else { 16 };
        if s[0] != 4 && s[0] != 6 {
            None
        } else {
            match take_raw(s.skip(1), n) {
                Some((ip, r)) => match take_u16(r) {
                    Some((port, r2)) => Some(
                        (
                            if s[0] == 4 {
                                AddrView::V4 { ip, port }
                            } else {
                                AddrView::V6 { ip, port }
                            },
                            r2,
                        ),
                    ),
                    None => None,
                },
                None => None,
            }
        }
    }
}

pub open spec fn addr_list_bytes(xs: Seq<AddrView>) -> Seq<u8>
    decreases xs.len(),
{
    if xs.len() == 0 {
        Seq::empty()
    } else {
        addr_bytes(xs[0]) + addr_list_bytes(xs.skip(1))
    }
}

pub open spec fn take_addr_list(n: nat, s: Seq<u8>) -> Option<(Seq<AddrView>, Seq<u8>)>
    decreases n,
{
    if n == 0 {
        Some((Seq::empty(), s))
    } else {
        match take_addr(s) {
            Some((a, r)) => match take_addr_list((n - 1) as nat, r) {
                Some((rest, r2)) => Some((seq![a] + rest, r2)),
                None => None,
            },
            None => None,
        }
    }
}

/// A relay: tag 0 for none, or tag 1 followed by the relay's URL as text.
pub open spec fn relay_bytes(r: Option<Seq<char>>) -> Seq<u8> {
    match r {
        None => seq![0u8],
        Some(u) => seq![1u8] + text_bytes(u),
    }
}

pub open spec fn take_relay(s: Seq<u8>) -> Option<(Option<Seq<char>>, Seq<u8>)> {
    if s.len() == 0 {
        None
    } else if s[0] == 0 {
        Some((None, s.skip(1)))
    } else if s[0] == 1 {
        match take_text(s.skip(1)) {
            Some((u, r)) => Some((Some(u), r)),
            None => None,
        }
    } else {
        None
    }
}

/// A peer: its 32-byte identity, its relay, the count of its direct
/// addresses, then the addresses.
#[verifier::opaque]
pub open spec fn peer_bytes(p: PeerView) -> Seq<u8> {
    p.node_id + relay_bytes(p.relay_url) + u64_bytes(p.direct_addresses.len() as u64)
        + addr_list_bytes(p.direct_addresses)
}

#[verifier::opaque]
pub open spec fn take_peer(s: Seq<u8>) -> Option<(PeerView, Seq<u8>)> {
    match take_raw(s, 32) {
        Some((id, r1)) => match take_relay(r1) {
            Some((relay, r2)) => match take_u64(r2) {
                Some((n, r3)) => match take_addr_list(n as nat, r3) {
                    Some((addrs, r4)) => Some(
                        (PeerView { node_id: id, relay_url: relay, direct_addresses: addrs }, r4),
                    ),
                    None => None,
                },
                None => None,
            },
            None => None,
        },
        None => None,
    }
}

pub open spec fn peer_list_bytes(xs: Seq<PeerView>) -> Seq<u8>
    decreases xs.len(),
{
    if xs.len() == 0 {
        Seq::empty()
    } else {
        peer_bytes(xs[0]) + peer_list_bytes(xs.skip(1))
    }
}

pub open spec fn take_peer_list(n: nat, s: Seq<u8>) -> Option<(Seq<PeerView>, Seq<u8>)>
    decreases n,
{
    if n == 0 {
        Some((Seq::empty(), s))
    } else {
        match take_peer(s) {
            Some((p, r)) => match take_peer_list((n - 1) as nat, r) {
                Some((rest, r2)) => Some((seq![p] + rest, r2)),
                None => None,
            },
            None => None,
        }
    }
}

/// The canonical binary form of a ticket: the 32 topic bytes, the count of
/// peers, then the peers in order.
pub open spec fn ticket_bytes(t: TicketView) -> Seq<u8> {
    t.topic + u64_bytes(t.peers.len() as u64) + peer_list_bytes(t.peers)
}

/// The ticket that `s` is the canonical form of, if any; nothing may follow it.
pub open spec fn parse_ticket(s: Seq<u8>) -> Option<TicketView> {
    match take_raw(s, 32) {
        Some((topic, r1)) => match take_u64(r1) {
            Some((n, r2)) => match take_peer_list(n as nat, r2) {
                Some((peers, r3)) => if r3.len() == 0 {
                    Some(TicketView { topic, peers })
                } else {
                    None
                },
                None => None,
            },
            None => None,
        },
        None => None,
    }
}

pub proof fn lemma_addr_round_trip(a: AddrView, rest: Seq<u8>)
    requires
        a.wf(),
    ensures
        take_addr(addr_bytes(a) + rest) == Some((a, rest)),
{
    match a {
        AddrView::V4 { ip, port } => {
            let s = addr_bytes(a) + rest;
            assert(s.skip(1) =~= ip + (u16_bytes(port) + rest));
            lemma_raw_round_trip(ip, u16_bytes(port) + rest);
            lemma_u16_round_trip(port, rest);
        },
        AddrView::V6 { ip, port } => {
            let s = addr_bytes(a) + rest;
            assert(s.skip(1) =~= ip + (u16_bytes(port) + rest));
            lemma_raw_round_trip(ip, u16_bytes(port) + rest);
            lemma_u16_round_trip(port, rest);
        },
    }
}

pub proof fn lemma_addr_list_round_trip(xs: Seq<AddrView>, rest: Seq<u8>)
    requires
        forall|i: int| 0 <= i < xs.len() ==> #[trigger] xs[i].wf(),
    ensures
        take_addr_list(xs.len(), addr_list_bytes(xs) + rest) == Some((xs, rest)),
    decreases xs.len(),
{
    if xs.len() > 0 {
        let tail = xs.skip(1);
        assert(addr_list_bytes(xs) + rest =~= addr_bytes(xs[0]) + (addr_list_bytes(tail) + rest));
        assert(xs[0].wf());
        lemma_addr_round_trip(xs[0], addr_list_bytes(tail) + rest);
        assert forall|i: int| 0 <= i < tail.len() implies #[trigger] tail[i].wf() by {
            assert(xs[i + 1].wf());
        }
        lemma_addr_list_round_trip(tail, rest);
        assert(seq![xs[0]] + tail =~= xs);
    }
}

pub proof fn lemma_peer_round_trip(p: PeerView, rest: Seq<u8>)
    requires
        p.wf(),
    ensures
        take_peer(peer_bytes(p) + rest) == Some((p, rest)),
{
    reveal(peer_bytes);
    reveal(take_peer);
    let n = p.direct_addresses.len() as u64;
    let after_relay = u64_bytes(n) + (addr_list_bytes(p.direct_addresses) + rest);
    let after_id = relay_bytes(p.relay_url) + after_relay;
    assert(peer_bytes(p) + rest =~= p.node_id + after_id);
    lemma_raw_round_trip(p.node_id, after_id);
    match p.relay_url {
        None => {
            assert(after_id.skip(1) =~= after_relay);
        },
        Some(u) => {
            assert(after_id.skip(1) =~= text_bytes(u) + after_relay);
            lemma_text_round_trip(u, after_relay);
        },
    }
    lemma_u64_round_trip(n, addr_list_bytes(p.direct_addresses) + rest);
    lemma_addr_list_round_trip(p.direct_addresses, rest);
}

pub proof fn lemma_peer_list_round_trip(xs: Seq<PeerView>, rest: Seq<u8>)
    requires
        forall|i: int| 0 <= i < xs.len() ==> #[trigger] xs[i].wf(),
    ensures
        take_peer_list(xs.len(), peer_list_bytes(xs) + rest) == Some((xs, rest)),
    decreases xs.len(),
{
    if xs.len() > 0 {
        let tail = xs.skip(1);
        assert(peer_list_bytes(xs) + rest =~= peer_bytes(xs[0]) + (peer_list_bytes(tail) + rest));
        assert(xs[0].wf());
        lemma_peer_round_trip(xs[0], peer_list_bytes(tail) + rest);
        assert forall|i: int| 0 <= i < tail.len() implies #[trigger] tail[i].wf() by {
            assert(xs[i + 1].wf());
        }
        lemma_peer_list_round_trip(tail, rest);
        assert(seq![xs[0]] + tail =~= xs);
    }
}

/// Reading the canonical binary form of any ticket gives that ticket back.
pub proof fn lemma_ticket_bytes_round_trip(t: TicketView)
    requires
        t.wf(),
    ensures
        parse_ticket(ticket_bytes(t)) == Some(t),
{
    let n = t.peers.len() as u64;
    let after_topic = u64_bytes(n) + (peer_list_bytes(t.peers) + Seq::<u8>::empty());
    assert(ticket_bytes(t) =~= t.topic + after_topic);
    lemma_raw_round_trip(t.topic, after_topic);
    lemma_u64_round_trip(n, peer_list_bytes(t.peers) + Seq::<u8>::empty());
    lemma_peer_list_round_trip(t.peers, Seq::<u8>::empty());
}

} // verus!

verus! {

fn put_addr(out: &mut Vec<u8>, a: &DirectAddr)
    ensures
        final(out)@ == old(out)@ + addr_bytes(a@),
        a@.wf(),
{
    match a {
        DirectAddr::V4 { ip, port } => {
            out.push(4u8);
            put_raw(out, ip.as_slice());
            put_u16(out, *port);
        },
        DirectAddr::V6 { ip, port } => {
            out.push(6u8);
            put_raw(out, ip.as_slice());
            put_u16(out, *port);
        },
    }
    assert(out@ =~= old(out)@ + addr_bytes(a@));
}

fn get_addr(b: &[u8], pos: usize) -> (r: Option<(DirectAddr, usize)>)
    requires
        pos <= b@.len(),
    ensures
        match r {
            Some((a, p)) => pos <= p <= b@.len() && take_addr(b@.skip(pos as int)) == Some(
                (a@, b@.skip(p as int)),
            ),
            None => take_addr(b@.skip(pos as int)) is None,
        },
{
    if pos >= b.len() {
        return None;
    }
    let tag = b[pos];
    let ghost s = b@.skip(pos as int);
    assert(s.skip(1) =~= b@.skip(pos + 1));
    if tag == 4 {
        match get_array::<4>(b, pos + 1) {
            Some((ip, q)) => match get_u16(b, q) {
                Some((port, p)) => Some((DirectAddr::V4 { ip, port }, p)),
                None => None,
            },
            None => None,
        }
    } else if tag == 6 {
        match get_array::<16>(b, pos + 1) {
            Some((ip, q)) => match get_u16(b, q) {
                Some((port, p)) => Some((DirectAddr::V6 { ip, port }, p)),
                None => None,
            },
            None => None,
        }
    } else {
        None
    }
}

fn put_peer(out: &mut Vec<u8>, p: &PeerAddr)
    ensures
        final(out)@ == old(out)@ + peer_bytes(p@),
        p@.wf(),
{
    reveal(peer_bytes);
    put_raw(out, p.node_id.bytes.as_slice());
    match &p.relay_url {
        None => out.push(0u8),
        Some(u) => {
            out.push(1u8);
            put_text(out, u.as_str());
        },
    }
    let n = p.direct_addresses.len();
    put_u64(out, n as u64);
    let ghost mid = out@;
    let ghost xs = addr_views(p.direct_addresses@);
    assert(xs.skip(0) =~= xs);
    assert(mid + addr_list_bytes(xs) =~= out@ + addr_list_bytes(xs.skip(0)));
    let mut i: usize = 0;
    while i < n
        invariant
            i <= n,
            n == p.direct_addresses@.len(),
            xs == addr_views(p.direct_addresses@),
            mid + addr_list_bytes(xs) == out@ + addr_list_bytes(xs.skip(i as int)),
            forall|j: int| 0 <= j < i ==> #[trigger] xs[j].wf(),
        decreases n - i,
    {
        let ghost before = out@;
        put_addr(out, &p.direct_addresses[i]);
        assert(xs.skip(i as int).skip(1) =~= xs.skip(i + 1));
        assert(before + addr_list_bytes(xs.skip(i as int)) =~= out@ + addr_list_bytes(
            xs.skip(i + 1),
        ));
        i += 1;
    }
    assert(out@ + addr_list_bytes(xs.skip(n as int)) =~= out@);
    assert(out@ =~= old(out)@ + peer_bytes(p@));
}

fn get_peer(b: &[u8], pos: usize) -> (r: Option<(PeerAddr, usize)>)
    requires
        pos <= b@.len(),
    ensures
        match r {
            Some((x, p)) => pos <= p <= b@.len() && take_peer(b@.skip(pos as int)) == Some(
                (x@, b@.skip(p as int)),
            ),
            None => take_peer(b@.skip(pos as int)) is None,
        },
{
    reveal(take_peer);
    let (id, p1) = match get_array::<32>(b, pos) {
        Some(x) => x,
        None => return None,
    };
    if p1 >= b.len() {
        return None;
    }
    let relay_tag = b[p1];
    assert(b@.skip(p1 as int).skip(1) =~= b@.skip(p1 + 1));
    let (relay_url, p2) = if relay_tag == 0 {
        (None, p1 + 1)
    } else if relay_tag == 1 {
        match get_text(b, p1 + 1) {
            Some((u, q)) => (Some(u), q),
            None => return None,
        }
    } else {
        return None;
    };
    let ghost relay_v: Option<Seq<char>> = match &relay_url {
        Some(u) => Some(u@),
        None => None,
    };
    assert(b@.skip(p1 as int)[0] == relay_tag);
    assert(take_relay(b@.skip(p1 as int)) == Some((relay_v, b@.skip(p2 as int))));
    let (n, p3) = match get_u64(b, p2) {
        Some(x) => x,
        None => return None,
    };
    let mut addrs: Vec<DirectAddr> = Vec::new();
    let mut p = p3;
    let mut i: u64 = 0;
    while i < n
        invariant
            p3 <= p <= b@.len(),
            i <= n,
            take_raw(b@.skip(pos as int), 32) == Some((id@, b@.skip(p1 as int))),
            take_relay(b@.skip(p1 as int)) == Some((relay_v, b@.skip(p2 as int))),
            take_u64(b@.skip(p2 as int)) == Some((n, b@.skip(p3 as int))),
            take_addr_list(n as nat, b@.skip(p3 as int)) == match take_addr_list(
                (n - i) as nat,
                b@.skip(p as int),
            ) {
                Some((rest, r)) => Some((addr_views(addrs@) + rest, r)),
                None => None,
            },
        decreases n - i,
    {
        match get_addr(b, p) {
            Some((a, q)) => {
                let ghost old_views = addr_views(addrs@);
                addrs.push(a);
                assert(addr_views(addrs@) =~= old_views.push(a@));
                proof {
                    match take_addr_list((n - i - 1) as nat, b@.skip(q as int)) {
                        Some((rest, r)) => {
                            assert(old_views + (seq![a@] + rest) =~= addr_views(addrs@) + rest);
                        },
                        None => {},
                    }
                }
                p = q;
                i += 1;
            },
            None => {
                assert(take_addr_list((n - i) as nat, b@.skip(p as int)) is None);
                reveal(take_peer);
                return None;
            },
        }
    }
    assert(addr_views(addrs@) + Seq::<AddrView>::empty() =~= addr_views(addrs@));
    reveal(take_peer);
    let peer = PeerAddr { node_id: NodeId { bytes: id }, relay_url, direct_addresses: addrs };
    Some((peer, p))
}

impl Ticket {
    /// The canonical binary form of the ticket.
    pub fn to_bytes(&self) -> (r: Vec<u8>)
        ensures
            r@ == ticket_bytes(self@),
            self@.wf(),
    {
        let mut out: Vec<u8> = Vec::new();
        put_raw(&mut out, self.topic.bytes.as_slice());
        let n = self.peers.len();
        put_u64(&mut out, n as u64);
        let ghost mid = out@;
        let ghost xs = peer_views(self.peers@);
        assert(xs.skip(0) =~= xs);
        let mut i: usize = 0;
        while i < n
            invariant
                i <= n,
                n == self.peers@.len(),
                xs == peer_views(self.peers@),
                mid + peer_list_bytes(xs) == out@ + peer_list_bytes(xs.skip(i as int)),
                forall|j: int| 0 <= j < i ==> #[trigger] xs[j].wf(),
            decreases n - i,
        {
            let ghost before = out@;
            put_peer(&mut out, &self.peers[i]);
            assert(xs.skip(i as int).skip(1) =~= xs.skip(i + 1));
            assert(before + peer_list_bytes(xs.skip(i as int)) =~= out@ + peer_list_bytes(
                xs.skip(i + 1),
            ));
            i += 1;
        }
        assert(out@ + peer_list_bytes(xs.skip(n as int)) =~= out@);
        assert(out@ =~= ticket_bytes(self@));
        out
    }

    /// Reads a ticket from its canonical binary form.
    pub fn from_bytes(bytes: &[u8]) -> (r: Result<Ticket, DecodeError>)
        ensures
            match parse_ticket(bytes@) {
                Some(t) => r matches Ok(x) && x@ == t,
                None => r == Err::<Ticket, DecodeError>(DecodeError::Malformed),
            },
    {
        let (topic, p1) = match get_array::<32>(bytes, 0) {
            Some(x) => x,
            None => return Err(DecodeError::Malformed),
        };
        assert(bytes@.skip(0) =~= bytes@);
        let (n, p2) = match get_u64(bytes, p1) {
            Some(x) => x,
            None => return Err(DecodeError::Malformed),
        };
        let mut peers: Vec<PeerAddr> = Vec::new();
        let mut p = p2;
        let mut i: u64 = 0;
        while i < n
            invariant
                p2 <= p <= bytes@.len(),
                i <= n,
                take_raw(bytes@, 32) == Some((topic@, bytes@.skip(p1 as int))),
                take_u64(bytes@.skip(p1 as int)) == Some((n, bytes@.skip(p2 as int))),
                take_peer_list(n as nat, bytes@.skip(p2 as int)) == match take_peer_list(
                    (n - i) as nat,
                    bytes@.skip(p as int),
                ) {
                    Some((rest, r)) => Some((peer_views(peers@) + rest, r)),
                    None => None,
                },
            decreases n - i,
        {
            match get_peer(bytes, p) {
                Some((x, q)) => {
                    let ghost old_views = peer_views(peers@);
                    let ghost xv = x@;
                    peers.push(x);
                    assert(peer_views(peers@) =~= old_views.push(xv));
                    proof {
                        match take_peer_list((n - i - 1) as nat, bytes@.skip(q as int)) {
                            Some((rest, r)) => {
                                assert(old_views + (seq![xv] + rest) =~= peer_views(peers@) + rest);
                            },
                            None => {},
                        }
                    }
                    p = q;
                    i += 1;
                },
                None => {
                    assert(take_peer_list((n - i) as nat, bytes@.skip(p as int)) is None);
                    return Err(DecodeError::Malformed);
                },
            }
        }
        assert(peer_views(peers@) + Seq::<PeerView>::empty() =~= peer_views(peers@));
        if p != bytes.len() {
            assert(take_peer_list(n as nat, bytes@.skip(p2 as int)) == Some(
                (peer_views(peers@), bytes@.skip(p as int)),
            ));
            assert(bytes@.skip(p as int).len() != 0);
            return Err(DecodeError::Malformed);
        }
        Ok(Ticket { topic: TopicId { bytes: topic }, peers })
    }
}

} // verus!
