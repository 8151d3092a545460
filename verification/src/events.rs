//! Outbound notifications as plain data. The handlers never touch a
//! transport: they return `(target, payload)` pairs, and the boundary that
//! owns the sockets delivers them. This keeps the fan-out rules provable and
//! the delivery concerns (retries, vanished connections) outside the core.

use vstd::prelude::*;
use crate::models::ChatMessage;
use crate::models::JoinRoomData;
use crate::models::RoomUsersData;
use crate::models::TypingData;
use crate::models::UserJoinedData;
use crate::models::UserLeftData;
use crate::state::AppState;
use crate::state::has_sid;

verus! {

/// Where one outbound event must be delivered.
#[derive(Debug)]
pub enum Target {
    /// one single connection
    Connection(String),
    /// every member of the named room, the originator included
    Room(String),
    /// every member of the named room except the given connection
    RoomExcept(String, String),
    /// every bound connection except the given one
    BroadcastExcept(String),
}

/// The payload of one outbound event, by wire event name.
#[derive(Debug)]
pub enum Event {
    /// `rooms_list`: every existing room's name with its member count
    RoomsList(Vec<(String, usize)>),
    /// `room_messages`: a room's history snapshot, oldest first
    RoomMessages(Vec<ChatMessage>),
    /// `joined_room`: acknowledgment to the joiner
    JoinedRoom(JoinRoomData),
    /// `room_users_updated`: the room's usernames and member count
    RoomUsersUpdated(RoomUsersData),
    /// `user_joined`: someone entered the room
    UserJoined(UserJoinedData),
    /// `user_left`: someone left the room
    UserLeft(UserLeftData),
    /// `new_message`: a chat or system message
    NewMessage(ChatMessage),
    /// `user_typing`: a typing indicator
    UserTyping(TypingData),
}

/// One outbound notification: where it goes and what it carries.
#[derive(Debug)]
pub struct OutboundEvent {
    pub target: Target,
    pub event: Event,
}

/// Whether an event with this target reaches the connection `sid`, judged
/// against the room and registry state at dispatch time.
pub open spec fn delivers_to(s: AppState, target: Target, sid: Seq<char>) -> bool {
    match target {
        Target::Connection(c) => c@ == sid,
        Target::Room(r) => has_sid(s.members_of(r@), sid),
        Target::RoomExcept(r, e) => has_sid(s.members_of(r@), sid) && sid != e@,
        Target::BroadcastExcept(e) => s.has_user(sid) && sid != e@,
    }
}

/// An excluding target never reaches the excluded connection itself, in any
/// state: the originator of a `user_joined` or typing notification is never
/// among its recipients.
pub proof fn lemma_fanout_excludes(s: AppState, room: String, excluded: String)
    ensures
        !delivers_to(s, Target::RoomExcept(room, excluded), excluded@),
        !delivers_to(s, Target::BroadcastExcept(excluded), excluded@),
{
}

} // verus!
