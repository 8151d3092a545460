use rust_socket_chat::AppState;
use rust_socket_chat::ChatMessage;
use rust_socket_chat::Event;
use rust_socket_chat::JoinRoomData;
use rust_socket_chat::SendError;
use rust_socket_chat::SendMessageData;
use rust_socket_chat::Target;
use rust_socket_chat::User;
use rust_socket_chat::handlers::handle_connect;
use rust_socket_chat::handlers::handle_disconnect;
use rust_socket_chat::handlers::handle_join_room;
use rust_socket_chat::handlers::handle_leave_room;
use rust_socket_chat::handlers::handle_send_message;
use rust_socket_chat::handlers::handle_typing;
use rust_socket_chat::handlers::send;

fn join(state: &mut AppState, sid: &str, username: &str, room: &str) -> Vec<rust_socket_chat::OutboundEvent> {
    handle_join_room(
        state,
        sid,
        JoinRoomData { room: String::from(room), username: String::from(username) },
    )
}

fn counts(state: &AppState) -> Vec<(String, usize)> {
    state.get_rooms_info()
}

fn count_of(state: &AppState, room: &str) -> Option<usize> {
    counts(state).into_iter().find(|(name, _)| name == room).map(|(_, c)| c)
}

#[test]
fn first_join_gets_empty_history_and_user_list() {
    let mut state = AppState::new();
    let events = join(&mut state, "c1", "alice", "general");
    assert_eq!(events.len(), 6);
    match &events[0].target {
        Target::Connection(c) => assert_eq!(c, "c1"),
        _ => panic!("history must go to the joiner alone"),
    }
    match &events[0].event {
        Event::RoomMessages(h) => assert!(h.is_empty()),
        _ => panic!("first event must be the history snapshot"),
    }
    match &events[1].event {
        Event::JoinedRoom(d) => {
            assert_eq!(d.room, "general");
            assert_eq!(d.username, "alice");
        },
        _ => panic!("second event must be the joined_room acknowledgment"),
    }
    match &events[2].target {
        Target::Room(r) => assert_eq!(r, "general"),
        _ => panic!("the user list goes to the whole room"),
    }
    match &events[2].event {
        Event::RoomUsersUpdated(d) => {
            assert_eq!(d.users, vec![String::from("alice")]);
            assert_eq!(d.count, 1);
        },
        _ => panic!("third event must be the updated user list"),
    }
}

#[test]
fn second_join_notifies_peers_not_joiner() {
    let mut state = AppState::new();
    join(&mut state, "c1", "alice", "general");
    let events = join(&mut state, "c2", "bob", "general");
    match (&events[3].target, &events[3].event) {
        (Target::RoomExcept(room, excluded), Event::UserJoined(d)) => {
            assert_eq!(room, "general");
            assert_eq!(excluded, "c2");
            assert_eq!(d.username, "bob");
            assert_eq!(d.room, "general");
            assert_eq!(d.user_count, 2);
        },
        _ => panic!("user_joined must exclude the joiner"),
    }
    match (&events[2].target, &events[2].event) {
        (Target::Room(room), Event::RoomUsersUpdated(d)) => {
            assert_eq!(room, "general");
            assert_eq!(d.users, vec![String::from("alice"), String::from("bob")]);
            assert_eq!(d.count, 2);
        },
        _ => panic!("the whole room gets the updated user list"),
    }
}

#[test]
fn join_appends_system_message_to_history() {
    let mut state = AppState::new();
    join(&mut state, "c1", "alice", "general");
    let history = state.get_room_messages("general");
    assert_eq!(history.len(), 1);
    assert_eq!(history[0].username, "System");
    assert_eq!(history[0].message, "alice has joined the room.");
    assert_eq!(history[0].room, "general");
}

#[test]
fn join_broadcasts_rooms_list_excluding_joiner() {
    let mut state = AppState::new();
    let events = join(&mut state, "c1", "alice", "general");
    match (&events[5].target, &events[5].event) {
        (Target::BroadcastExcept(excluded), Event::RoomsList(info)) => {
            assert_eq!(excluded, "c1");
            assert_eq!(info.len(), 1);
            assert_eq!(info[0].0, "general");
            assert_eq!(info[0].1, 1);
        },
        _ => panic!("the room list goes to everyone but the joiner"),
    }
}

#[test]
fn room_switch_moves_membership() {
    let mut state = AppState::new();
    join(&mut state, "c1", "alice", "alpha");
    join(&mut state, "c2", "bob", "alpha");
    assert_eq!(count_of(&state, "alpha"), Some(2));
    join(&mut state, "c1", "alice", "beta");
    assert_eq!(count_of(&state, "alpha"), Some(1));
    assert_eq!(count_of(&state, "beta"), Some(1));
    // the moved connection appears only in the new room
    let alpha_users = state.get_room_users("alpha");
    assert!(alpha_users.iter().all(|u| u.socket_id != "c1"));
    let beta_users = state.get_room_users("beta");
    assert_eq!(beta_users.len(), 1);
    assert_eq!(beta_users[0].socket_id, "c1");
}

#[test]
fn switch_away_from_sole_room_drops_it_silently() {
    let mut state = AppState::new();
    join(&mut state, "c1", "alice", "alpha");
    let events = join(&mut state, "c1", "alice", "beta");
    // the internal switch produces no user_left for the old room
    for ev in &events {
        if let Event::UserLeft(_) = ev.event {
            panic!("a switch must not emit user_left");
        }
    }
    assert_eq!(count_of(&state, "alpha"), None);
    assert_eq!(count_of(&state, "beta"), Some(1));
}

#[test]
fn rejoining_same_room_does_not_duplicate() {
    let mut state = AppState::new();
    join(&mut state, "c1", "alice", "general");
    join(&mut state, "c1", "alice", "general");
    assert_eq!(count_of(&state, "general"), Some(1));
    assert_eq!(state.get_room_users("general").len(), 1);
}

#[test]
fn send_message_echoes_to_whole_room() {
    let mut state = AppState::new();
    join(&mut state, "c1", "alice", "general");
    let events = handle_send_message(
        &mut state,
        "c1",
        SendMessageData { message: String::from("hi"), room: String::from("general") },
    );
    assert_eq!(events.len(), 1);
    match (&events[0].target, &events[0].event) {
        (Target::Room(room), Event::NewMessage(m)) => {
            assert_eq!(room, "general");
            assert_eq!(m.username, "alice");
            assert_eq!(m.message, "hi");
            assert_eq!(m.room, "general");
        },
        _ => panic!("the message goes to every member, the sender included"),
    }
    let history = state.get_room_messages("general");
    assert_eq!(history.last().unwrap().message, "hi");
}

#[test]
fn send_to_wrong_room_is_dropped() {
    let mut state = AppState::new();
    join(&mut state, "c1", "alice", "general");
    let lobby_before = state.get_room_messages("lobby").len();
    let events = handle_send_message(
        &mut state,
        "c1",
        SendMessageData { message: String::from("hi"), room: String::from("lobby") },
    );
    assert!(events.is_empty());
    assert_eq!(state.get_room_messages("lobby").len(), lobby_before);
    let verdict = send(&mut state, "c1", "lobby", String::from("hi"));
    assert_eq!(verdict.unwrap_err(), SendError::RoomMismatch);
}

#[test]
fn send_from_unknown_connection_is_rejected() {
    let mut state = AppState::new();
    let verdict = send(&mut state, "ghost", "general", String::from("hi"));
    assert_eq!(verdict.unwrap_err(), SendError::UnknownSender);
    let events = handle_send_message(
        &mut state,
        "ghost",
        SendMessageData { message: String::from("hi"), room: String::from("general") },
    );
    assert!(events.is_empty());
}

#[test]
fn history_grows_by_one_per_successful_send() {
    let mut state = AppState::new();
    join(&mut state, "c1", "alice", "general");
    let before = state.get_room_messages("general").len();
    for i in 0..3 {
        handle_send_message(
            &mut state,
            "c1",
            SendMessageData { message: format!("message {}", i), room: String::from("general") },
        );
    }
    assert_eq!(state.get_room_messages("general").len(), before + 3);
}

#[test]
fn typing_excludes_the_typist() {
    let mut state = AppState::new();
    join(&mut state, "c1", "alice", "general");
    join(&mut state, "c2", "bob", "general");
    let ev = handle_typing(&state, "c1", true).expect("a bound sender produces a notification");
    match (&ev.target, &ev.event) {
        (Target::RoomExcept(room, excluded), Event::UserTyping(d)) => {
            assert_eq!(room, "general");
            assert_eq!(excluded, "c1");
            assert_eq!(d.username, "alice");
            assert_eq!(d.room, "general");
            assert!(d.is_typing);
        },
        _ => panic!("typing goes to the others in the room"),
    }
    let stop = handle_typing(&state, "c1", false).unwrap();
    match &stop.event {
        Event::UserTyping(d) => assert!(!d.is_typing),
        _ => panic!("stop typing carries is_typing = false"),
    }
    assert!(handle_typing(&state, "ghost", true).is_none());
}

#[test]
fn leave_notifies_remaining_members() {
    let mut state = AppState::new();
    join(&mut state, "c1", "alice", "general");
    join(&mut state, "c2", "bob", "general");
    let events = handle_leave_room(&mut state, "c1");
    assert_eq!(events.len(), 4);
    match (&events[0].target, &events[0].event) {
        (Target::RoomExcept(room, excluded), Event::RoomUsersUpdated(d)) => {
            assert_eq!(room, "general");
            assert_eq!(excluded, "c1");
            assert_eq!(d.users, vec![String::from("bob")]);
            assert_eq!(d.count, 1);
        },
        _ => panic!("the remaining members get the updated list"),
    }
    match &events[1].event {
        Event::UserLeft(d) => {
            assert_eq!(d.username, "alice");
            assert_eq!(d.room, "general");
            assert_eq!(d.user_count, 1);
        },
        _ => panic!("the remaining members get user_left"),
    }
    let history = state.get_room_messages("general");
    assert_eq!(history.last().unwrap().username, "System");
    assert_eq!(history.last().unwrap().message, "alice has left the room.");
}

#[test]
fn leave_of_unknown_connection_is_a_no_op() {
    let mut state = AppState::new();
    join(&mut state, "c1", "alice", "general");
    let events = handle_leave_room(&mut state, "ghost");
    assert!(events.is_empty());
    assert_eq!(count_of(&state, "general"), Some(1));
}

#[test]
fn disconnect_of_sole_member_keeps_history() {
    let mut state = AppState::new();
    join(&mut state, "c1", "alice", "general");
    handle_send_message(
        &mut state,
        "c1",
        SendMessageData { message: String::from("hi"), room: String::from("general") },
    );
    let history_before = state.get_room_messages("general");
    let events = handle_disconnect(&mut state, "c1");
    // the room was emptied: only the room list broadcast remains
    assert_eq!(events.len(), 1);
    match (&events[0].target, &events[0].event) {
        (Target::BroadcastExcept(excluded), Event::RoomsList(info)) => {
            assert_eq!(excluded, "c1");
            assert!(info.iter().all(|(name, _)| name != "general"));
        },
        _ => panic!("the room list still goes out"),
    }
    assert_eq!(count_of(&state, "general"), None);
    let history_after = state.get_room_messages("general");
    assert_eq!(history_after.len(), history_before.len());
    assert_eq!(history_after.last().unwrap().message, "hi");
}

#[test]
fn rejoining_an_emptied_room_restores_its_history() {
    let mut state = AppState::new();
    join(&mut state, "c1", "alice", "general");
    handle_send_message(
        &mut state,
        "c1",
        SendMessageData { message: String::from("hello"), room: String::from("general") },
    );
    handle_disconnect(&mut state, "c1");
    let events = join(&mut state, "c2", "bob", "general");
    match &events[0].event {
        Event::RoomMessages(h) => {
            assert!(h.iter().any(|m| m.message == "hello"));
        },
        _ => panic!("the rejoiner gets the retained history"),
    }
}

#[test]
fn connect_greeting_lists_rooms() {
    let mut state = AppState::new();
    join(&mut state, "c1", "alice", "general");
    let ev = handle_connect(&state, "c9");
    match (&ev.target, &ev.event) {
        (Target::Connection(c), Event::RoomsList(info)) => {
            assert_eq!(c, "c9");
            assert_eq!(info, &vec![(String::from("general"), 1usize)]);
        },
        _ => panic!("the greeting is the room list, to the new connection"),
    }
}

#[test]
fn registry_lookup_and_removal() {
    let mut state = AppState::new();
    state.add_user_to_room(User::new(
        String::from("alice"),
        String::from("general"),
        String::from("c1"),
    ));
    let found = state.get_user_by_socket_id("c1").expect("bound connection");
    assert_eq!(found.username, "alice");
    assert_eq!(found.room, "general");
    assert_eq!(found.socket_id, "c1");
    assert!(state.get_user_by_socket_id("c2").is_none());
    let removed = state.remove_user("c1").expect("removes the bound user");
    assert_eq!(removed.username, "alice");
    assert!(state.remove_user("c1").is_none());
    assert!(state.get_room_users("general").is_empty());
}

#[test]
fn chat_message_ids_are_uuid_shaped() {
    let m = ChatMessage::new(
        String::from("alice"),
        String::from("hi"),
        String::from("general"),
    );
    assert_eq!(m.id.len(), 36);
    assert_eq!(m.username, "alice");
    assert_eq!(m.message, "hi");
    assert_eq!(m.room, "general");
    let u = User::new(String::from("alice"), String::from("general"), String::from("c1"));
    assert_eq!(u.id.len(), 36);
}

#[test]
fn default_state_is_empty() {
    let state = AppState::default();
    assert!(state.get_rooms_info().is_empty());
    assert!(state.get_room_users("anywhere").is_empty());
    assert!(state.get_room_messages("anywhere").is_empty());
}

#[test]
fn disconnect_with_peers_notifies_them() {
    let mut state = AppState::new();
    join(&mut state, "c1", "alice", "general");
    join(&mut state, "c2", "bob", "general");
    let events = handle_disconnect(&mut state, "c2");
    assert_eq!(events.len(), 4);
    match &events[1].event {
        Event::UserLeft(d) => {
            assert_eq!(d.username, "bob");
            assert_eq!(d.user_count, 1);
        },
        _ => panic!("the remaining member learns of the disconnect"),
    }
    assert_eq!(count_of(&state, "general"), Some(1));
}

#[test]
fn room_counts_cover_every_room() {
    let mut state = AppState::new();
    join(&mut state, "c1", "alice", "alpha");
    join(&mut state, "c2", "bob", "beta");
    join(&mut state, "c3", "carol", "beta");
    let mut info = counts(&state);
    info.sort();
    assert_eq!(
        info,
        vec![(String::from("alpha"), 1usize), (String::from("beta"), 2usize)]
    );
}
