use collab_rooms::hexid::bytes_to_hex;
use collab_rooms::hexid::random_hex;
use collab_rooms::registry::Rooms;
use collab_rooms::room::Room;
use collab_rooms::room::RoomView;
use collab_rooms::session::handle_message;
use collab_rooms::session::ClientMsg;
use collab_rooms::session::ServerMsg;
use collab_rooms::session::SessionState;

fn is_hex(s: &str) -> bool {
    s.chars().all(|c| ('0'..='9').contains(&c) || ('a'..='f').contains(&c))
}

fn buffer_of<'a>(v: &'a RoomView, id: &str) -> Option<&'a Vec<String>> {
    v.messages.iter().find(|p| p.id == id).map(|p| &p.buffer)
}

#[test]
fn test_newroom_creates_single_participant_room() {
    let mut rooms = Rooms::default();
    let mut state = SessionState::Connected;
    let resp = handle_message(&mut rooms, &mut state, ClientMsg::NewRoom { socket_id: None });
    let view = match resp {
        Some(ServerMsg::RoomCreated(v)) => v,
        _ => panic!("expected a roomCreated response"),
    };
    assert_eq!(view.participants, 1);
    assert_eq!(view.your_id.len(), 20);
    assert!(is_hex(&view.your_id));
    assert_eq!(view.id.len(), 6);
    assert!(is_hex(&view.id));
    assert!(view.their_id.is_none());
    assert!(view.other_participant_ids.is_empty());
    assert_eq!(view.messages.len(), 1);
    assert_eq!(view.messages[0].id, view.your_id);
    assert_eq!(view.messages[0].buffer, vec![String::new()]);
    match state {
        SessionState::InRoom { room_id, participant_id } => {
            assert_eq!(room_id, view.id);
            assert_eq!(participant_id, view.your_id);
        }
        SessionState::Connected => panic!("connection should be bound after newroom"),
    }
    assert_eq!(rooms.rooms.len(), 1);
    assert_eq!(rooms.rooms[0].id, view.id);
}

#[test]
fn test_newroom_uses_given_participant_id() {
    let mut rooms = Rooms::default();
    let mut state = SessionState::Connected;
    let resp = handle_message(
        &mut rooms,
        &mut state,
        ClientMsg::NewRoom { socket_id: Some(String::from("alice")) },
    );
    match resp {
        Some(ServerMsg::RoomCreated(v)) => {
            assert_eq!(v.your_id, "alice");
            assert_eq!(v.participants, 1);
        }
        _ => panic!("expected a roomCreated response"),
    }
}

#[test]
fn test_fetch_unknown_id_creates_room() {
    let mut rooms = Rooms::default();
    let mut state = SessionState::Connected;
    let resp = handle_message(
        &mut rooms,
        &mut state,
        ClientMsg::FetchRoom { id: String::from("abc123"), socket_id: Some(String::from("a")) },
    );
    let view = match resp {
        Some(ServerMsg::GotRoom(v)) => v,
        _ => panic!("expected a gotRoom response"),
    };
    assert_eq!(view.id, "abc123");
    assert_eq!(view.your_id, "a");
    assert_eq!(view.participants, 1);
    assert!(view.their_id.is_none());
    assert!(view.other_participant_ids.is_empty());
    assert_eq!(rooms.rooms.len(), 1);
    assert_eq!(rooms.rooms[0].id, "abc123");
}

#[test]
fn test_fetch_existing_adds_participant() {
    let mut rooms = Rooms::default();
    let mut state_a = SessionState::Connected;
    let mut state_b = SessionState::Connected;
    handle_message(
        &mut rooms,
        &mut state_a,
        ClientMsg::FetchRoom { id: String::from("abc123"), socket_id: Some(String::from("a")) },
    );
    let resp = handle_message(
        &mut rooms,
        &mut state_b,
        ClientMsg::FetchRoom { id: String::from("abc123"), socket_id: Some(String::from("b")) },
    );
    let view = match resp {
        Some(ServerMsg::GotRoom(v)) => v,
        _ => panic!("expected a gotRoom response"),
    };
    assert_eq!(view.participants, 2);
    assert_eq!(buffer_of(&view, "a"), Some(&vec![String::new()]));
    assert_eq!(buffer_of(&view, "b"), Some(&vec![String::new()]));
    assert_eq!(rooms.rooms.len(), 1);
}

#[test]
fn test_fetch_same_unknown_id_creates_one_room() {
    let mut rooms = Rooms::default();
    let mut state_a = SessionState::Connected;
    let mut state_b = SessionState::Connected;
    handle_message(
        &mut rooms,
        &mut state_a,
        ClientMsg::FetchRoom { id: String::from("race"), socket_id: None },
    );
    handle_message(
        &mut rooms,
        &mut state_b,
        ClientMsg::FetchRoom { id: String::from("race"), socket_id: None },
    );
    assert_eq!(rooms.rooms.len(), 1);
    assert_eq!(rooms.rooms[0].id, "race");
    assert_eq!(rooms.rooms[0].participants.len(), 2);
}

#[test]
fn test_rejoin_same_id_preserves_buffer() {
    let mut room = Room::new(String::from("r1"));
    room.join(String::from("a"));
    room.join(String::from("a"));
    assert_eq!(room.participants.len(), 1);
    assert_eq!(room.participants[0].id, "a");
    assert_eq!(room.participants[0].buffer, vec![String::new()]);

    let mut rooms = Rooms::default();
    let mut state = SessionState::Connected;
    handle_message(
        &mut rooms,
        &mut state,
        ClientMsg::FetchRoom { id: String::from("abc123"), socket_id: Some(String::from("a")) },
    );
    let resp = handle_message(
        &mut rooms,
        &mut state,
        ClientMsg::FetchRoom { id: String::from("abc123"), socket_id: Some(String::from("a")) },
    );
    match resp {
        Some(ServerMsg::GotRoom(v)) => {
            assert_eq!(v.participants, 1);
            assert_eq!(buffer_of(&v, "a"), Some(&vec![String::new()]));
        }
        _ => panic!("expected a gotRoom response"),
    }
}

#[test]
fn test_two_participant_visibility() {
    let mut rooms = Rooms::default();
    let mut state_a = SessionState::Connected;
    let mut state_b = SessionState::Connected;
    handle_message(
        &mut rooms,
        &mut state_a,
        ClientMsg::FetchRoom { id: String::from("pair"), socket_id: Some(String::from("a")) },
    );
    let resp_b = handle_message(
        &mut rooms,
        &mut state_b,
        ClientMsg::FetchRoom { id: String::from("pair"), socket_id: Some(String::from("b")) },
    );
    match resp_b {
        Some(ServerMsg::GotRoom(v)) => {
            assert_eq!(v.other_participant_ids, vec![String::from("a")]);
            assert_eq!(v.their_id, Some(String::from("a")));
        }
        _ => panic!("expected a gotRoom response"),
    }
    let resp_a = handle_message(
        &mut rooms,
        &mut state_a,
        ClientMsg::FetchRoom { id: String::from("pair"), socket_id: Some(String::from("a")) },
    );
    match resp_a {
        Some(ServerMsg::GotRoom(v)) => {
            assert_eq!(v.participants, 2);
            assert_eq!(v.other_participant_ids, vec![String::from("b")]);
            assert_eq!(v.their_id, Some(String::from("b")));
        }
        _ => panic!("expected a gotRoom response"),
    }
}

#[test]
fn test_keypress_is_noop() {
    let mut rooms = Rooms::default();
    let mut state = SessionState::Connected;
    handle_message(
        &mut rooms,
        &mut state,
        ClientMsg::NewRoom { socket_id: Some(String::from("a")) },
    );
    let room_id_before = rooms.rooms[0].id.clone();
    let resp = handle_message(
        &mut rooms,
        &mut state,
        ClientMsg::KeyPress { key: String::from("x"), cursor_pos: Some(0) },
    );
    assert!(resp.is_none());
    assert_eq!(rooms.rooms.len(), 1);
    assert_eq!(rooms.rooms[0].id, room_id_before);
    assert_eq!(rooms.rooms[0].participants.len(), 1);
    assert_eq!(rooms.rooms[0].participants[0].id, "a");
    assert_eq!(rooms.rooms[0].participants[0].buffer, vec![String::new()]);
    match state {
        SessionState::InRoom { participant_id, .. } => assert_eq!(participant_id, "a"),
        SessionState::Connected => panic!("connection should stay bound after keyPress"),
    }
}

#[test]
fn test_bytes_to_hex_exact() {
    assert_eq!(bytes_to_hex(&vec![0x00, 0xff, 0x1a]), "00ff1a");
    assert_eq!(bytes_to_hex(&Vec::new()), "");
    assert_eq!(bytes_to_hex(&vec![0x0f, 0xa0]), "0fa0");
}

#[test]
fn test_random_hex_length_and_charset() {
    let id = random_hex(20);
    assert_eq!(id.len(), 20);
    assert!(is_hex(&id));
    let rid = random_hex(6);
    assert_eq!(rid.len(), 6);
    assert!(is_hex(&rid));
    assert_eq!(random_hex(0), "");
}
