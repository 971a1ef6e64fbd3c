//! Chat events on the wire: a tag byte per kind, the sender's identity, then
//! one piece of text.
use vstd::prelude::*;
use crate::ticket::{DecodeError, NodeId};
use crate::wire::{
    get_array, get_text, lemma_raw_round_trip, lemma_text_round_trip, lemma_u64_round_trip, put_raw,
    put_text, take_raw, take_text, text_bytes, text_fits, u64_bytes, u64_of,
};
use vstd::utf8::encode_utf8;

verus! {

/// An event that participants broadcast to the topic.
#[derive(Debug, PartialEq, Eq)]
pub enum Message {
    /// A participant's announcement of its display name.
    AboutMe { node_id: NodeId, name: String },
    /// A line of chat.
    ChatMessage { node_id: NodeId, text: String },
}

pub enum MessageView {
    AboutMe { node_id: Seq<u8>, name: Seq<char> },
    ChatMessage { node_id: Seq<u8>, text: Seq<char> },
}

impl View for Message {
    type V = MessageView;

    open spec fn view(&self) -> MessageView {
        match self {
            Message::AboutMe { node_id, name } => MessageView::AboutMe {
                node_id: node_id.bytes@,
                name: name@,
            },
            Message::ChatMessage { node_id, text } => MessageView::ChatMessage {
                node_id: node_id.bytes@,
                text: text@,
            },
        }
    }
}

impl MessageView {
    /// A message as the wire format can carry it.
    pub open spec fn wf(self) -> bool {
        match self {
            MessageView::AboutMe { node_id, name } => node_id.len() == 32 && text_fits(name),
            MessageView::ChatMessage { node_id, text } => node_id.len() == 32 && text_fits(text),
        }
    }
}

/// Tag 0 and the name for an announcement, tag 1 and the line for chat, each
/// with the sender's 32 identity bytes between.
pub open spec fn message_bytes(m: MessageView) -> Seq<u8> {
    match m {
        MessageView::AboutMe { node_id, name } => seq![0u8] + node_id + text_bytes(name),
        MessageView::ChatMessage { node_id, text } => seq![1u8] + node_id + text_bytes(text),
    }
}

/// The message that `s` is the encoding of, if any; nothing may follow it.
pub open spec fn parse_message(s: Seq<u8>) -> Option<MessageView> {
    if s.len() == 0 || (s[0] != 0 && s[0] != 1) {
        None
    } else {
        match take_raw(s.skip(1), 32) {
            Some((id, r1)) => match take_text(r1) {
                Some((t, r2)) => if r2.len() == 0 {
                    Some(
                        if s[0] == 0 {
                            MessageView::AboutMe { node_id: id, name: t }
                        } else {
                            MessageView::ChatMessage { node_id: id, text: t }
                        },
                    )
                } else {
                    None
                },
                None => None,
            },
            None => None,
        }
    }
}

/// Decoding the encoding of any message gives that message back.
pub proof fn lemma_message_round_trip(m: MessageView)
    requires
        m.wf(),
    ensures
        parse_message(message_bytes(m)) == Some(m),
{
    let e = Seq::<u8>::empty();
    match m {
        MessageView::AboutMe { node_id, name } => {
            assert(message_bytes(m).skip(1) =~= node_id + (text_bytes(name) + e));
            lemma_raw_round_trip(node_id, text_bytes(name) + e);
            lemma_text_round_trip(name, e);
        },
        MessageView::ChatMessage { node_id, text } => {
            assert(message_bytes(m).skip(1) =~= node_id + (text_bytes(text) + e));
            lemma_raw_round_trip(node_id, text_bytes(text) + e);
            lemma_text_round_trip(text, e);
        },
    }
}

proof fn lemma_truncated_body(tag: u8, id: Seq<u8>, t: Seq<char>, k: int)
    requires
        id.len() == 32,
        text_fits(t),
        1 <= k < (seq![tag] + id + text_bytes(t)).len(),
    ensures
        ({
            let s = (seq![tag] + id + text_bytes(t)).take(k);
            take_raw(s.skip(1), 32) matches Some((_, r1)) ==> take_text(r1) is None
        }),
{
    let full = seq![tag] + id + text_bytes(t);
    let s = full.take(k);
    let e = encode_utf8(t);
    let n = e.len() as u64;
    if k >= 33 {
        let r1 = s.skip(1).skip(32);
        if k >= 41 {
            let whole = u64_bytes(n) + e;
            lemma_u64_round_trip(n, e);
            assert(forall|i: int| 0 <= i < 8 ==> r1[i] == #[trigger] whole[i]);
            assert(u64_of(r1) == u64_of(whole));
            assert(r1.skip(8).len() == k - 41);
        }
    }
}

/// A strict prefix of the encoding of a message is no message: truncated
/// bytes are rejected.
pub proof fn lemma_truncated_message_rejected(m: MessageView, k: int)
    requires
        m.wf(),
        0 <= k < message_bytes(m).len(),
    ensures
        parse_message(message_bytes(m).take(k)) is None,
{
    if k >= 1 {
        match m {
            MessageView::AboutMe { node_id, name } => {
                lemma_truncated_body(0u8, node_id, name, k);
            },
            MessageView::ChatMessage { node_id, text } => {
                lemma_truncated_body(1u8, node_id, text, k);
            },
        }
    }
}

impl Message {
    /// The wire encoding of the message.
    pub fn to_bytes(&self) -> (r: Vec<u8>)
        ensures
            r@ == message_bytes(self@),
            self@.wf(),
    {
        let mut out: Vec<u8> = Vec::new();
        match self {
            Message::AboutMe { node_id, name } => {
                out.push(0u8);
                put_raw(&mut out, node_id.bytes.as_slice());
                put_text(&mut out, name.as_str());
            },
            Message::ChatMessage { node_id, text } => {
                out.push(1u8);
                put_raw(&mut out, node_id.bytes.as_slice());
                put_text(&mut out, text.as_str());
            },
        }
        assert(out@ =~= message_bytes(self@));
        out
    }

    /// Reads a message from its wire encoding; `UnknownMessage` for bytes
    /// that encode neither kind.
    pub fn from_bytes(bytes: &[u8]) -> (r: Result<Message, DecodeError>)
        ensures
            match parse_message(bytes@) {
                Some(m) => r matches Ok(x) && x@ == m,
                None => r == Err::<Message, DecodeError>(DecodeError::UnknownMessage),
            },
    {
        if bytes.len() == 0 {
            return Err(DecodeError::UnknownMessage);
        }
        let tag = bytes[0];
        if tag != 0 && tag != 1 {
            return Err(DecodeError::UnknownMessage);
        }
        let (id, p1) = match get_array::<32>(bytes, 1) {
            Some(x) => x,
            None => return Err(DecodeError::UnknownMessage),
        };
        let (t, p2) = match get_text(bytes, p1) {
            Some(x) => x,
            None => return Err(DecodeError::UnknownMessage),
        };
        if p2 != bytes.len() {
            assert(bytes@.skip(p2 as int).len() != 0);
            return Err(DecodeError::UnknownMessage);
        }
        let node_id = NodeId { bytes: id };
        if tag == 0 {
            Ok(Message::AboutMe { node_id, name: t })
        } else {
            Ok(Message::ChatMessage { node_id, text: t })
        }
    }
}

} // verus!
