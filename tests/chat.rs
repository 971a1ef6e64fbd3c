use gossip_chat::{
    announcement, chat_line, initial_room, room_for, share_ticket, DecodeError, DirectAddr,
    Message, MyCommand, NodeId, PeerAddr, Ticket, TopicId,
};

fn peer(id: u8, relay: Option<&str>, addrs: Vec<DirectAddr>) -> PeerAddr {
    PeerAddr {
        node_id: NodeId::from_bytes([id; 32]),
        relay_url: relay.map(|r| r.to_string()),
        direct_addresses: addrs,
    }
}

fn sample_ticket() -> Ticket {
    Ticket {
        topic: TopicId::from_bytes([7; 32]),
        peers: vec![
            peer(
                1,
                Some("https://relay.example.org./"),
                vec![
                    DirectAddr::V4 { ip: [192, 168, 1, 20], port: 11204 },
                    DirectAddr::V6 { ip: [0xfe; 16], port: 65535 },
                ],
            ),
            peer(2, None, vec![]),
        ],
    }
}

#[test]
fn ticket_bytes_round_trip() {
    let t = sample_ticket();
    assert_eq!(Ticket::from_bytes(&t.to_bytes()), Ok(t));
}

#[test]
fn ticket_text_round_trip() {
    let t = sample_ticket();
    let text = t.to_text();
    assert_eq!(Ticket::from_text(&text), Ok(t));
}

#[test]
fn ticket_text_is_lower_case_base32() {
    let text = sample_ticket().to_text();
    assert!(!text.is_empty());
    assert!(text.chars().all(|c| c.is_ascii_lowercase() || ('2'..='7').contains(&c)));
}

#[test]
fn ticket_text_exact_value_for_empty_room() {
    let t = Ticket { topic: TopicId::from_bytes([0; 32]), peers: vec![] };
    assert_eq!(t.to_bytes(), vec![0u8; 40]);
    assert_eq!(t.to_text(), "a".repeat(64));
}

#[test]
fn ticket_bytes_exact_layout() {
    let t = Ticket {
        topic: TopicId::from_bytes([9; 32]),
        peers: vec![peer(3, None, vec![DirectAddr::V4 { ip: [10, 0, 0, 1], port: 0x1234 }])],
    };
    let mut expected = vec![9u8; 32];
    expected.extend_from_slice(&[1, 0, 0, 0, 0, 0, 0, 0]);
    expected.extend_from_slice(&[3u8; 32]);
    expected.push(0);
    expected.extend_from_slice(&[1, 0, 0, 0, 0, 0, 0, 0]);
    expected.extend_from_slice(&[4, 10, 0, 0, 1, 0x34, 0x12]);
    assert_eq!(t.to_bytes(), expected);
}

#[test]
fn ticket_text_ignores_case() {
    let text = sample_ticket().to_text();
    let upper = text.to_ascii_uppercase();
    let mixed: String = text
        .chars()
        .enumerate()
        .map(|(i, c)| if i % 2 == 0 { c.to_ascii_uppercase() } else { c })
        .collect();
    let r = Ticket::from_text(&text);
    assert_eq!(Ticket::from_text(&upper), r);
    assert_eq!(Ticket::from_text(&mixed), r);
    assert_eq!(r, Ok(sample_ticket()));
}

#[test]
fn ticket_text_bad_alphabet() {
    assert_eq!(Ticket::from_text("not a ticket!"), Err(DecodeError::BadEncoding));
    assert_eq!(Ticket::from_text("a1"), Err(DecodeError::BadEncoding));
}

#[test]
fn ticket_text_malformed_bytes() {
    // "aa" is the base-32 text of the single byte 0, too short for a topic.
    assert_eq!(Ticket::from_text("aa"), Err(DecodeError::Malformed));
}

#[test]
fn ticket_bytes_truncated_or_padded() {
    let bytes = sample_ticket().to_bytes();
    for cut in [0, 1, 31, 32, 39, 40, bytes.len() - 1] {
        assert_eq!(Ticket::from_bytes(&bytes[..cut]), Err(DecodeError::Malformed));
    }
    let mut longer = bytes.clone();
    longer.push(0);
    assert_eq!(Ticket::from_bytes(&longer), Err(DecodeError::Malformed));
}

#[test]
fn ticket_bytes_bad_tags() {
    let t = Ticket {
        topic: TopicId::from_bytes([1; 32]),
        peers: vec![peer(2, None, vec![DirectAddr::V4 { ip: [1, 2, 3, 4], port: 5 }])],
    };
    let bytes = t.to_bytes();
    let mut bad_relay = bytes.clone();
    bad_relay[72] = 2;
    assert_eq!(Ticket::from_bytes(&bad_relay), Err(DecodeError::Malformed));
    let mut bad_family = bytes.clone();
    bad_family[81] = 5;
    assert_eq!(Ticket::from_bytes(&bad_family), Err(DecodeError::Malformed));
    assert_eq!(Ticket::from_bytes(&bytes), Ok(t));
}

#[test]
fn message_round_trip() {
    let about = Message::AboutMe { node_id: NodeId::from_bytes([5; 32]), name: "bob".to_string() };
    let chat = Message::ChatMessage {
        node_id: NodeId::from_bytes([6; 32]),
        text: "héllo, wörld ✓".to_string(),
    };
    let empty = Message::ChatMessage { node_id: NodeId::from_bytes([0; 32]), text: String::new() };
    for m in [about, chat, empty] {
        assert_eq!(Message::from_bytes(&m.to_bytes()), Ok(m));
    }
}

#[test]
fn message_exact_bytes() {
    let m = Message::ChatMessage { node_id: NodeId::from_bytes([1; 32]), text: "hi".to_string() };
    let mut expected = vec![1u8];
    expected.extend_from_slice(&[1u8; 32]);
    expected.extend_from_slice(&[2, 0, 0, 0, 0, 0, 0, 0, b'h', b'i']);
    assert_eq!(m.to_bytes(), expected);
    let a = Message::AboutMe { node_id: NodeId::from_bytes([1; 32]), name: "hi".to_string() };
    expected[0] = 0;
    assert_eq!(a.to_bytes(), expected);
}

#[test]
fn message_malformed_inputs() {
    let good = Message::ChatMessage { node_id: NodeId::from_bytes([3; 32]), text: "ok".to_string() }
        .to_bytes();
    let mut bad_tag = good.clone();
    bad_tag[0] = 2;
    let mut bad_utf8 = good.clone();
    let last = bad_utf8.len() - 1;
    bad_utf8[last] = 0xff;
    let mut trailing = good.clone();
    trailing.push(b'!');
    let mut long_len = good.clone();
    long_len[33] = 200;
    let cases =
        [vec![], good[..1].to_vec(), good[..40].to_vec(), bad_tag, bad_utf8, trailing, long_len];
    for bad in cases {
        assert_eq!(Message::from_bytes(&bad), Err(DecodeError::UnknownMessage));
    }
}

#[test]
fn malformed_payload_then_valid_payload() {
    let valid = chat_line(NodeId::from_bytes([4; 32]), "hello".to_string());
    let payloads = vec![b"{\"garbage\":".to_vec(), valid];
    let shown: Vec<Message> =
        payloads.iter().filter_map(|p| Message::from_bytes(p).ok()).collect();
    assert_eq!(
        shown,
        vec![Message::ChatMessage {
            node_id: NodeId::from_bytes([4; 32]),
            text: "hello".to_string(),
        }]
    );
}

#[test]
fn open_gives_fresh_topic_and_no_peers() {
    let r = room_for(&MyCommand::Open, TopicId::from_bytes([8; 32]));
    assert_eq!(r, Ok(Ticket { topic: TopicId::from_bytes([8; 32]), peers: vec![] }));
    let room = initial_room(&MyCommand::Open).unwrap();
    assert!(room.peers.is_empty());
}

#[test]
fn join_with_bad_ticket_fails() {
    let r = room_for(&MyCommand::Join { ticket: "???".to_string() }, TopicId::from_bytes([0; 32]));
    assert_eq!(r, Err(DecodeError::BadEncoding));
}

#[test]
fn joining_appends_self_once() {
    let a = peer(10, None, vec![]);
    let me = peer(11, Some("https://relay.example/"), vec![]);
    let t = Ticket { topic: TopicId::from_bytes([2; 32]), peers: vec![a.clone()] };
    let cmd = MyCommand::Join { ticket: t.to_text() };
    let room = room_for(&cmd, TopicId::from_bytes([0; 32])).unwrap();
    let shared = share_ticket(room, me.clone());
    assert_eq!(shared.topic, TopicId::from_bytes([2; 32]));
    assert_eq!(shared.peers, vec![a, me]);
}

#[test]
fn lines_are_encoded_in_typed_order() {
    let me = NodeId::from_bytes([12; 32]);
    let sent: Vec<Vec<u8>> =
        ["a", "b", "c"].iter().map(|l| chat_line(me, l.to_string())).collect();
    let texts: Vec<String> = sent
        .iter()
        .map(|b| match Message::from_bytes(b) {
            Ok(Message::ChatMessage { text, .. }) => text,
            other => panic!("unexpected {:?}", other),
        })
        .collect();
    assert_eq!(texts, vec!["a", "b", "c"]);
}

#[test]
fn announcement_only_with_a_name() {
    let me = NodeId::from_bytes([13; 32]);
    assert_eq!(announcement(me, None), None);
    let b = announcement(me, Some("bob".to_string())).unwrap();
    assert_eq!(
        Message::from_bytes(&b),
        Ok(Message::AboutMe { node_id: me, name: "bob".to_string() })
    );
}

#[test]
fn two_participants_end_to_end() {
    let alice_addr = DirectAddr::V4 { ip: [127, 0, 0, 1], port: 4000 };
    let alice = peer(21, Some("https://relay.example/"), vec![alice_addr]);
    let bob = peer(22, None, vec![DirectAddr::V4 { ip: [127, 0, 0, 1], port: 4001 }]);
    // Alice opens a room and shares her ticket.
    let room1 = room_for(&MyCommand::Open, TopicId::from_bytes([30; 32])).unwrap();
    let t1 = share_ticket(room1, alice.clone()).to_text();
    // Bob joins with it and shares his own.
    let room2 = room_for(&MyCommand::Join { ticket: t1 }, TopicId::from_bytes([0; 32])).unwrap();
    assert_eq!(room2.topic, TopicId::from_bytes([30; 32]));
    assert_eq!(room2.peers, vec![alice.clone()]);
    let t2 = share_ticket(room2, bob.clone());
    assert_eq!(t2.peers, vec![alice, bob.clone()]);
    // What Bob broadcasts, in order, as Alice reads it.
    let hello = announcement(bob.node_id, Some("bob".to_string())).unwrap();
    let hi = chat_line(bob.node_id, "hi".to_string());
    assert_eq!(
        Message::from_bytes(&hello),
        Ok(Message::AboutMe { node_id: bob.node_id, name: "bob".to_string() })
    );
    assert_eq!(
        Message::from_bytes(&hi),
        Ok(Message::ChatMessage { node_id: bob.node_id, text: "hi".to_string() })
    );
}

#[test]
fn joining_a_ticket_without_peers() {
    let t = Ticket { topic: TopicId::from_bytes([40; 32]), peers: vec![] };
    let room = room_for(&MyCommand::Join { ticket: t.to_text() }, TopicId::from_bytes([0; 32]));
    assert_eq!(room, Ok(t));
}
