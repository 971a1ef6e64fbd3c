//! The decisions of a chat session: which room to enter, the ticket to share,
//! and what to broadcast.
use vstd::prelude::*;
use crate::message::{message_bytes, Message, MessageView};
use crate::text::{reads_as, ticket_result_view};
use crate::ticket::{DecodeError, NodeId, PeerAddr, Ticket, TicketView, TopicId};

verus! {

/// What the user asked for on the command line.
pub struct Args {
    /// Keep the overlay from using relays.
    pub no_relay: bool,
    /// A display name to announce on entering the room.
    pub name: Option<String>,
    pub command: MyCommand,
}

/// Open a new room, or join one through a ticket's text.
pub enum MyCommand {
    Open,
    Join { ticket: String },
}

/// Relies on `rand::random`: a topic drawn at random, of which nothing is known.
#[verifier::external_body]
fn random_topic() -> (r: TopicId) {
    TopicId { bytes: rand::random::<[u8; 32]>() }
}

/// The room to enter, with `fresh_topic` as the topic of a new one: opening
/// gives `fresh_topic` and no known peers; joining gives what the ticket text
/// reads as.
pub fn room_for(command: &MyCommand, fresh_topic: TopicId) -> (r: Result<Ticket, DecodeError>)
    ensures
        match command {
            MyCommand::Open => r matches Ok(t) && t.topic == fresh_topic && t.peers@.len() == 0,
            MyCommand::Join { ticket } => reads_as(ticket@, ticket_result_view(r)),
        },
{
    match command {
        MyCommand::Open => Ok(Ticket { topic: fresh_topic, peers: Vec::new() }),
        MyCommand::Join { ticket } => Ticket::from_text(ticket.as_str()),
    }
}

/// The room to enter: a new room on a random topic with no known peers, or
/// the room that a ticket's text names.
pub fn initial_room(command: &MyCommand) -> (r: Result<Ticket, DecodeError>)
    ensures
        match command {
            MyCommand::Open => r matches Ok(t) && t.peers@.len() == 0,
            MyCommand::Join { ticket } => reads_as(ticket@, ticket_result_view(r)),
        },
{
    match command {
        MyCommand::Open => room_for(command, random_topic()),
        MyCommand::Join { ticket } => Ticket::from_text(ticket.as_str()),
    }
}

/// The ticket to share from inside `room`: the same topic, the known peers
/// in their order, then this participant once, last.
pub fn share_ticket(room: Ticket, me: PeerAddr) -> (r: Ticket)
    ensures
        r@ == (TicketView { topic: room@.topic, peers: room@.peers.push(me@) }),
{
    let Ticket { topic, mut peers } = room;
    let ghost before = peers@;
    let ghost me_v = me@;
    peers.push(me);
    let r = Ticket { topic, peers };
    assert(r@.peers =~= crate::ticket::peer_views(before).push(me_v));
    r
}

/// The announcement to broadcast on entering the room, when a display name
/// was given.
pub fn announcement(me: NodeId, name: Option<String>) -> (r: Option<Vec<u8>>)
    ensures
        match name {
            None => r is None,
            Some(n) => r matches Some(b) && b@ == message_bytes(
                MessageView::AboutMe { node_id: me.bytes@, name: n@ },
            ),
        },
{
    match name {
        None => None,
        Some(n) => {
            let m = Message::AboutMe { node_id: me, name: n };
            Some(m.to_bytes())
        },
    }
}

/// The bytes to broadcast for one line typed by this participant.
pub fn chat_line(me: NodeId, text: String) -> (r: Vec<u8>)
    ensures
        r@ == message_bytes(MessageView::ChatMessage { node_id: me.bytes@, text: text@ }),
{
    let m = Message::ChatMessage { node_id: me, text };
    m.to_bytes()
}

} // verus!
