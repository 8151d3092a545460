//! The plain data types that cross the boundary between the state manager
//! and the transport layer: users, chat messages, and the wire payloads.

use vstd::prelude::*;

verus! {

/// A user bound to one live connection. One live `User` exists per
/// connection at a time; it is created on a successful join and destroyed
/// on leave or disconnect.
#[derive(Debug)]
pub struct User {
    pub id: String,
    pub username: String,
    pub room: String,
    pub socket_id: String,
}

/// One chat message, immutable once created. `room` always equals the
/// history key under which the message is stored.
#[derive(Debug)]
pub struct ChatMessage {
    pub id: String,
    pub username: String,
    pub message: String,
    pub room: String,
    pub timestamp: u64,
}

/// Payload of an inbound join request and of the `joined_room` acknowledgment.
#[derive(Debug)]
pub struct JoinRoomData {
    pub room: String,
    pub username: String,
}

/// Payload of an inbound chat message.
#[derive(Debug)]
pub struct SendMessageData {
    pub message: String,
    pub room: String,
}

/// Payload of the `user_joined` notification.
#[derive(Debug)]
pub struct UserJoinedData {
    pub username: String,
    pub room: String,
    pub user_count: usize,
}

/// Payload of the `user_left` notification.
#[derive(Debug)]
pub struct UserLeftData {
    pub username: String,
    pub room: String,
    pub user_count: usize,
}

/// Payload of the `room_users_updated` notification: the usernames in
/// current membership order, and the member count.
#[derive(Debug)]
pub struct RoomUsersData {
    pub users: Vec<String>,
    pub count: usize,
}

/// Payload of the `user_typing` notification.
#[derive(Debug)]
pub struct TypingData {
    pub username: String,
    pub room: String,
    pub is_typing: bool,
}

impl Clone for User {
    fn clone(&self) -> (r: Self)
        ensures
            r == *self,
    {
        User {
            id: self.id.clone(),
            username: self.username.clone(),
            room: self.room.clone(),
            socket_id: self.socket_id.clone(),
        }
    }
}

impl Clone for ChatMessage {
    fn clone(&self) -> (r: Self)
        ensures
            r == *self,
    {
        ChatMessage {
            id: self.id.clone(),
            username: self.username.clone(),
            message: self.message.clone(),
            room: self.room.clone(),
            timestamp: self.timestamp,
        }
    }
}

/// Relies on `uuid::Uuid::new_v4` and uuid's `Display` impl: a fresh random
/// v4 UUID rendered in the hyphenated format, which is always 36 characters.
/// The value itself is random, so nothing more is promised of it.
#[verifier::external_body]
fn fresh_id() -> (r: String)
    ensures
        r@.len() == 36,
{
    uuid::Uuid::new_v4().to_string()
}

/// Relies on `std::time::SystemTime::now`, read as whole seconds since the
/// Unix epoch (zero if the clock reads earlier than the epoch). The clock is
/// outside the program, so nothing is promised of the value.
#[verifier::external_body]
fn now_unix_seconds() -> (r: u64) {
    std::time::SystemTime::now()
        .duration_since(std::time::UNIX_EPOCH)
        .map(|d| d.as_secs())
        .unwrap_or(0)
}

impl ChatMessage {
    /// Builds a message with a fresh id and the current wall-clock time;
    /// id and timestamp come from outside the program and are not pinned.
    pub fn new(username: String, message: String, room: String) -> (r: Self)
        ensures
            r.username == username,
            r.message == message,
            r.room == room,
            r.id@.len() == 36,
    {
        ChatMessage {
            id: fresh_id(),
            username,
            message,
            room,
            timestamp: now_unix_seconds(),
        }
    }
}

impl User {
    /// Builds a user with a fresh id; the id is random and not pinned.
    pub fn new(username: String, room: String, socket_id: String) -> (r: Self)
        ensures
            r.username == username,
            r.room == room,
            r.socket_id == socket_id,
            r.id@.len() == 36,
    {
        User { id: fresh_id(), username, room, socket_id }
    }
}

} // verus!
