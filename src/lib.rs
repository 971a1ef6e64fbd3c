//! A topic-scoped peer-to-peer chat: invitation tickets, the chat message
//! wire format, and the decisions of a chat session.
pub mod message;
pub mod session;
pub mod text;
pub mod ticket;
pub mod wire;

pub use message::Message;
pub use session::{announcement, chat_line, initial_room, room_for, share_ticket, Args, MyCommand};
pub use ticket::{DecodeError, DirectAddr, NodeId, PeerAddr, Ticket, TopicId};
