//! The presence coordinator and the message router: join, leave, disconnect,
//! send and typing transitions. Each handler mutates the shared state under
//! its consistency discipline and returns the ordered notifications that the
//! transport must deliver; it performs no delivery itself.

use vstd::prelude::*;
use vstd::string::StringExecFns;
use crate::events::Event;
use crate::events::OutboundEvent;
use crate::events::Target;
use crate::events::delivers_to;
use crate::models::ChatMessage;
use crate::models::JoinRoomData;
use crate::models::RoomUsersData;
use crate::models::SendMessageData;
use crate::models::TypingData;
use crate::models::UserJoinedData;
use crate::models::UserLeftData;
use crate::models::User;
use crate::state::AppState;
use crate::state::bindings_unchanged_except;
use crate::state::histories_extended;
use crate::state::histories_unchanged;
use crate::state::presence_unchanged;
use crate::state::remove_sid;

verus! {

/// Why an inbound chat message was dropped.
#[derive(Debug, Clone, Copy, PartialEq, Eq, Structural)]
pub enum SendError {
    /// the sending connection has no bound user
    UnknownSender,
    /// the sender is not a member of the room it addressed
    RoomMismatch,
}

/// The payload carries exactly this member list: its usernames in membership
/// order, and its count.
pub open spec fn room_users_payload_ok(d: RoomUsersData, members: Seq<User>) -> bool {
    &&& d.users@.len() == members.len()
    &&& forall|k: int| 0 <= k < members.len() ==> (#[trigger] d.users@[k])@ == members[k].username@
    &&& d.count as nat == members.len()
}

/// The payload lists exactly this state's rooms, each with its member count,
/// in directory order.
pub open spec fn rooms_list_payload_ok(s: AppState, info: Seq<(String, usize)>) -> bool {
    &&& info.len() == s.room_names().len()
    &&& forall|i: int|
        0 <= i < info.len() ==> (#[trigger] info[i]).0@ == s.room_names()[i] && info[i].1 as nat
            == s.members_of(s.room_names()[i]).len()
}

/// The usernames of a member list, in membership order.
fn usernames_vec(users: &Vec<User>) -> (r: Vec<String>)
    ensures
        r@.len() == users@.len(),
        forall|k: int| 0 <= k < users@.len() ==> (#[trigger] r@[k])@ == users@[k].username@,
{
    let mut r: Vec<String> = Vec::new();
    let mut i: usize = 0;
    while i < users.len()
        invariant
            i <= users@.len(),
            r@.len() == i,
            forall|k: int| 0 <= k < i ==> (#[trigger] r@[k])@ == users@[k].username@,
        decreases users@.len() - i,
    {
        r.push(users[i].username.clone());
        i += 1;
    }
    r
}

/// The greeting for a freshly connected socket: the current room list, sent
/// to that connection alone. Mutates nothing.
pub fn handle_connect(state: &AppState, socket_id: &str) -> (ev: OutboundEvent)
    requires
        state.wf(),
    ensures
        (ev.target matches Target::Connection(c) && c@ == socket_id@),
        (ev.event matches Event::RoomsList(info) && rooms_list_payload_ok(*state, info@)),
{
    let rooms_info = state.get_rooms_info();
    OutboundEvent { target: Target::Connection(socket_id.to_owned()), event: Event::RoomsList(rooms_info) }
}

/// A typing indicator: sent to the sender's room, the sender itself excluded.
/// An unbound connection produces nothing. Mutates nothing.
pub fn handle_typing(state: &AppState, socket_id: &str, is_typing: bool) -> (r: Option<
    OutboundEvent,
>)
    requires
        state.wf(),
    ensures
        !state.has_user(socket_id@) ==> r is None,
        state.has_user(socket_id@) ==> ({
            let u = state.user_at(socket_id@);
            r matches Some(ev) && {
                &&& (ev.target matches Target::RoomExcept(room, excl) && room@ == u.room@ && excl@
                    == socket_id@)
                &&& (ev.event matches Event::UserTyping(d) && d.username@ == u.username@ && d.room@
                    == u.room@ && d.is_typing == is_typing)
                &&& !delivers_to(*state, ev.target, socket_id@)
            }
        }),
{
    match state.get_user_by_socket_id(socket_id) {
        None => None,
        Some(user) => {
            let room_for_target = user.room.clone();
            let typing = TypingData { username: user.username, room: user.room, is_typing };
            Some(
                OutboundEvent {
                    target: Target::RoomExcept(room_for_target, socket_id.to_owned()),
                    event: Event::UserTyping(typing),
                },
            )
        },
    }
}

/// Validates and records one chat message: the sender must be bound, and
/// bound to the room it addressed. On success the message is appended to that
/// room's history and returned; on rejection nothing changes.
pub fn send(state: &mut AppState, socket_id: &str, room: &str, body: String) -> (r: Result<
    ChatMessage,
    SendError,
>)
    requires
        old(state).wf(),
    ensures
        final(state).wf(),
        histories_extended(*old(state), *final(state)),
        r is Ok <==> old(state).has_user(socket_id@) && old(state).user_at(socket_id@).room@
            == room@,
        r is Err ==> *final(state) == *old(state),
        (r matches Err(e) ==> (e == SendError::UnknownSender <==> !old(state).has_user(
            socket_id@,
        ))),
        (r matches Ok(m) && ({
            let u = old(state).user_at(socket_id@);
            &&& m.username@ == u.username@
            &&& m.message@ == body@
            &&& m.room@ == room@
            &&& final(state).history_of(room@) == old(state).history_of(room@).push(m)
            &&& forall|n: Seq<char>|
                n != room@ ==> #[trigger] final(state).history_of(n) == old(state).history_of(n)
            &&& presence_unchanged(*old(state), *final(state))
        }) || r is Err),
{
    let sender = state.get_user_by_socket_id(socket_id);
    match sender {
        None => Err(SendError::UnknownSender),
        Some(user) => {
            let room_key: String = room.to_owned();
            if user.room == room_key {
                let message = ChatMessage::new(user.username, body, room_key);
                state.add_message(message.clone());
                Ok(message)
            } else {
                Err(SendError::RoomMismatch)
            }
        },
    }
}

/// The inbound `send_message` transition: on success, one `new_message`
/// notification to every member of the room, the sender included (the server
/// echoes the message back rather than trusting the client to append it).
/// A rejected message is dropped silently and produces nothing.
pub fn handle_send_message(state: &mut AppState, socket_id: &str, data: SendMessageData) -> (events:
    Vec<OutboundEvent>)
    requires
        old(state).wf(),
    ensures
        final(state).wf(),
        histories_extended(*old(state), *final(state)),
        !(old(state).has_user(socket_id@) && old(state).user_at(socket_id@).room@ == data.room@)
            ==> *final(state) == *old(state) && events@.len() == 0,
        (old(state).has_user(socket_id@) && old(state).user_at(socket_id@).room@ == data.room@)
            ==> ({
            let u = old(state).user_at(socket_id@);
            &&& events@.len() == 1
            &&& (events@[0].target matches Target::Room(r) && r@ == data.room@)
            &&& (events@[0].event matches Event::NewMessage(m) && {
                &&& m.username@ == u.username@
                &&& m.message@ == data.message@
                &&& m.room@ == data.room@
                &&& final(state).history_of(data.room@) == old(state).history_of(
                    data.room@,
                ).push(m)
            })
            &&& forall|n: Seq<char>|
                n != data.room@ ==> #[trigger] final(state).history_of(n) == old(
                    state,
                ).history_of(n)
            &&& presence_unchanged(*old(state), *final(state))
        }),
{
    let mut events: Vec<OutboundEvent> = Vec::new();
    match send(state, socket_id, data.room.as_str(), data.message) {
        Ok(message) => {
            events.push(
                OutboundEvent { target: Target::Room(data.room), event: Event::NewMessage(message) },
            );
        },
        Err(_) => {},
    }
    events
}

/// The inbound `join_room` transition. A connection already bound elsewhere
/// is silently detached from its old room first: no leave notifications are
/// produced for that internal switch, only the explicit leave transition
/// emits them. Produces, in order: the room's history and a `joined_room`
/// acknowledgment to the joiner; the updated user list to the whole room;
/// `user_joined` and a system message to the room without the joiner; and the
/// updated room list to every other bound connection.
pub fn handle_join_room(state: &mut AppState, socket_id: &str, data: JoinRoomData) -> (events: Vec<
    OutboundEvent,
>)
    requires
        old(state).wf(),
    ensures
        final(state).wf(),
        histories_extended(*old(state), *final(state)),
        final(state).has_user(socket_id@),
        ({
            let u = final(state).user_at(socket_id@);
            u.username@ == data.username@ && u.room@ == data.room@ && u.socket_id@ == socket_id@
        }),
        bindings_unchanged_except(*old(state), *final(state), socket_id@),
        final(state).members_of(data.room@) == remove_sid(
            old(state).members_of(data.room@),
            socket_id@,
        ).push(final(state).user_at(socket_id@)),
        forall|n: Seq<char>|
            n != data.room@ ==> #[trigger] final(state).members_of(n) == remove_sid(
                old(state).members_of(n),
                socket_id@,
            ),
        final(state).has_room(data.room@),
        (old(state).has_user(socket_id@) && old(state).user_at(socket_id@).room@ != data.room@)
            ==> ({
            let vacated = old(state).user_at(socket_id@).room@;
            &&& final(state).members_of(vacated).len() == old(state).members_of(vacated).len() - 1
            &&& final(state).members_of(data.room@).len() == old(state).members_of(
                data.room@,
            ).len() + 1
        }),
        !old(state).has_user(socket_id@) ==> final(state).members_of(data.room@).len() == old(
            state,
        ).members_of(data.room@).len() + 1,
        (old(state).has_user(socket_id@) && old(state).user_at(socket_id@).room@ == data.room@)
            ==> final(state).members_of(data.room@).len() == old(state).members_of(
            data.room@,
        ).len(),
        forall|n: Seq<char>|
            n != data.room@ ==> #[trigger] final(state).history_of(n) == old(state).history_of(n),
        events@.len() == 6,
        (events@[0].target matches Target::Connection(c) && c@ == socket_id@),
        (events@[0].event matches Event::RoomMessages(h) && h@ == old(state).history_of(
            data.room@,
        )),
        (events@[1].target matches Target::Connection(c) && c@ == socket_id@),
        (events@[1].event matches Event::JoinedRoom(d) && d.room@ == data.room@ && d.username@
            == data.username@),
        (events@[2].target matches Target::Room(r) && r@ == data.room@),
        (events@[2].event matches Event::RoomUsersUpdated(d) && room_users_payload_ok(
            d,
            final(state).members_of(data.room@),
        )),
        (events@[3].target matches Target::RoomExcept(r, e) && r@ == data.room@ && e@
            == socket_id@),
        (events@[3].event matches Event::UserJoined(d) && d.username@ == data.username@ && d.room@
            == data.room@ && d.user_count as nat == final(state).members_of(data.room@).len()),
        !delivers_to(*final(state), events@[3].target, socket_id@),
        (events@[4].target matches Target::RoomExcept(r, e) && r@ == data.room@ && e@
            == socket_id@),
        (events@[4].event matches Event::NewMessage(m) && {
            &&& m.username@ == "System"@
            &&& m.message@ == data.username@ + " has joined the room."@
            &&& m.room@ == data.room@
            &&& final(state).history_of(data.room@) == old(state).history_of(data.room@).push(m)
        }),
        !delivers_to(*final(state), events@[4].target, socket_id@),
        (events@[5].target matches Target::BroadcastExcept(e) && e@ == socket_id@),
        (events@[5].event matches Event::RoomsList(info) && rooms_list_payload_ok(
            *final(state),
            info@,
        )),
        !delivers_to(*final(state), events@[5].target, socket_id@),
{
    let socket_string: String = socket_id.to_owned();
    let user = User::new(data.username.clone(), data.room.clone(), socket_string.clone());
    state.add_user_to_room(user);
    let history = state.get_room_messages(data.room.as_str());
    let room_users = state.get_room_users(data.room.as_str());
    let user_count = room_users.len();
    let usernames = usernames_vec(&room_users);
    let mut events: Vec<OutboundEvent> = Vec::new();
    events.push(
        OutboundEvent {
            target: Target::Connection(socket_string.clone()),
            event: Event::RoomMessages(history),
        },
    );
    events.push(
        OutboundEvent {
            target: Target::Connection(socket_string.clone()),
            event: Event::JoinedRoom(
                JoinRoomData { room: data.room.clone(), username: data.username.clone() },
            ),
        },
    );
    events.push(
        OutboundEvent {
            target: Target::Room(data.room.clone()),
            event: Event::RoomUsersUpdated(RoomUsersData { users: usernames, count: user_count }),
        },
    );
    events.push(
        OutboundEvent {
            target: Target::RoomExcept(data.room.clone(), socket_string.clone()),
            event: Event::UserJoined(
                UserJoinedData {
                    username: data.username.clone(),
                    room: data.room.clone(),
                    user_count,
                },
            ),
        },
    );
    let system_message = ChatMessage::new(
        String::from_str("System"),
        data.username.clone().concat(" has joined the room."),
        data.room.clone(),
    );
    state.add_message(system_message.clone());
    events.push(
        OutboundEvent {
            target: Target::RoomExcept(data.room.clone(), socket_string.clone()),
            event: Event::NewMessage(system_message),
        },
    );
    let rooms_info = state.get_rooms_info();
    events.push(
        OutboundEvent {
            target: Target::BroadcastExcept(socket_string),
            event: Event::RoomsList(rooms_info),
        },
    );
    events
}

/// The inbound `leave_room` transition. Removes the membership and the
/// binding; while the vacated room still has members they get the updated
/// user list, `user_left`, and a system message; the updated room list goes
/// to every other bound connection either way. An unbound connection is a
/// silent no-op.
pub fn handle_leave_room(state: &mut AppState, socket_id: &str) -> (events: Vec<OutboundEvent>)
    requires
        old(state).wf(),
    ensures
        final(state).wf(),
        histories_extended(*old(state), *final(state)),
        !old(state).has_user(socket_id@) ==> *final(state) == *old(state) && events@.len() == 0,
        old(state).has_user(socket_id@) ==> ({
            let u = old(state).user_at(socket_id@);
            let vacated = u.room@;
            let remaining = final(state).members_of(vacated);
            &&& !final(state).has_user(socket_id@)
            &&& bindings_unchanged_except(*old(state), *final(state), socket_id@)
            &&& forall|n: Seq<char>|
                #[trigger] final(state).members_of(n) == remove_sid(
                    old(state).members_of(n),
                    socket_id@,
                )
            &&& remaining.len() == old(state).members_of(vacated).len() - 1
            &&& (final(state).has_room(vacated) <==> remaining.len() > 0)
            &&& forall|n: Seq<char>|
                n != vacated ==> #[trigger] final(state).history_of(n) == old(state).history_of(n)
            &&& (remaining.len() > 0 ==> {
                &&& events@.len() == 4
                &&& (events@[0].target matches Target::RoomExcept(r, e) && r@ == vacated && e@
                    == socket_id@)
                &&& (events@[0].event matches Event::RoomUsersUpdated(d) && room_users_payload_ok(
                    d,
                    remaining,
                ))
                &&& (events@[1].target matches Target::RoomExcept(r, e) && r@ == vacated && e@
                    == socket_id@)
                &&& (events@[1].event matches Event::UserLeft(d) && d.username@ == u.username@
                    && d.room@ == vacated && d.user_count as nat == remaining.len())
                &&& !delivers_to(*final(state), events@[1].target, socket_id@)
                &&& (events@[2].target matches Target::RoomExcept(r, e) && r@ == vacated && e@
                    == socket_id@)
                &&& (events@[2].event matches Event::NewMessage(m) && {
                    &&& m.username@ == "System"@
                    &&& m.message@ == u.username@ + " has left the room."@
                    &&& m.room@ == vacated
                    &&& final(state).history_of(vacated) == old(state).history_of(vacated).push(m)
                })
                &&& (events@[3].target matches Target::BroadcastExcept(e) && e@ == socket_id@)
                &&& (events@[3].event matches Event::RoomsList(info) && rooms_list_payload_ok(
                    *final(state),
                    info@,
                ))
            })
            &&& (remaining.len() == 0 ==> {
                &&& events@.len() == 1
                &&& histories_unchanged(*old(state), *final(state))
                &&& (events@[0].target matches Target::BroadcastExcept(e) && e@ == socket_id@)
                &&& (events@[0].event matches Event::RoomsList(info) && rooms_list_payload_ok(
                    *final(state),
                    info@,
                ))
            })
        }),
{
    let mut events: Vec<OutboundEvent> = Vec::new();
    let removed = state.remove_user(socket_id);
    match removed {
        None => events,
        Some(user) => {
            let room_users = state.get_room_users(user.room.as_str());
            if room_users.len() > 0 {
                let usernames = usernames_vec(&room_users);
                let user_count = room_users.len();
                events.push(
                    OutboundEvent {
                        target: Target::RoomExcept(user.room.clone(), socket_id.to_owned()),
                        event: Event::RoomUsersUpdated(
                            RoomUsersData { users: usernames, count: user_count },
                        ),
                    },
                );
                events.push(
                    OutboundEvent {
                        target: Target::RoomExcept(user.room.clone(), socket_id.to_owned()),
                        event: Event::UserLeft(
                            UserLeftData {
                                username: user.username.clone(),
                                room: user.room.clone(),
                                user_count,
                            },
                        ),
                    },
                );
                let system_message = ChatMessage::new(
                    String::from_str("System"),
                    user.username.concat(" has left the room."),
                    user.room.clone(),
                );
                state.add_message(system_message.clone());
                events.push(
                    OutboundEvent {
                        target: Target::RoomExcept(user.room.clone(), socket_id.to_owned()),
                        event: Event::NewMessage(system_message),
                    },
                );
            }
            let rooms_info = state.get_rooms_info();
            events.push(
                OutboundEvent {
                    target: Target::BroadcastExcept(socket_id.to_owned()),
                    event: Event::RoomsList(rooms_info),
                },
            );
            events
        },
    }
}

/// The transport lost the connection: the notification sequence is identical
/// to an explicit leave, it is only triggered by the boundary instead of a
/// request.
pub fn handle_disconnect(state: &mut AppState, socket_id: &str) -> (events: Vec<OutboundEvent>)
    requires
        old(state).wf(),
    ensures
        final(state).wf(),
        histories_extended(*old(state), *final(state)),
        !old(state).has_user(socket_id@) ==> *final(state) == *old(state) && events@.len() == 0,
        old(state).has_user(socket_id@) ==> ({
            let u = old(state).user_at(socket_id@);
            let vacated = u.room@;
            let remaining = final(state).members_of(vacated);
            &&& !final(state).has_user(socket_id@)
            &&& bindings_unchanged_except(*old(state), *final(state), socket_id@)
            &&& forall|n: Seq<char>|
                #[trigger] final(state).members_of(n) == remove_sid(
                    old(state).members_of(n),
                    socket_id@,
                )
            &&& remaining.len() == old(state).members_of(vacated).len() - 1
            &&& (final(state).has_room(vacated) <==> remaining.len() > 0)
            &&& forall|n: Seq<char>|
                n != vacated ==> #[trigger] final(state).history_of(n) == old(state).history_of(n)
            &&& (remaining.len() > 0 ==> {
                &&& events@.len() == 4
                &&& (events@[0].target matches Target::RoomExcept(r, e) && r@ == vacated && e@
                    == socket_id@)
                &&& (events@[0].event matches Event::RoomUsersUpdated(d) && room_users_payload_ok(
                    d,
                    remaining,
                ))
                &&& (events@[1].target matches Target::RoomExcept(r, e) && r@ == vacated && e@
                    == socket_id@)
                &&& (events@[1].event matches Event::UserLeft(d) && d.username@ == u.username@
                    && d.room@ == vacated && d.user_count as nat == remaining.len())
                &&& !delivers_to(*final(state), events@[1].target, socket_id@)
                &&& (events@[2].target matches Target::RoomExcept(r, e) && r@ == vacated && e@
                    == socket_id@)
                &&& (events@[2].event matches Event::NewMessage(m) && {
                    &&& m.username@ == "System"@
                    &&& m.message@ == u.username@ + " has left the room."@
                    &&& m.room@ == vacated
                    &&& final(state).history_of(vacated) == old(state).history_of(vacated).push(m)
                })
                &&& (events@[3].target matches Target::BroadcastExcept(e) && e@ == socket_id@)
                &&& (events@[3].event matches Event::RoomsList(info) && rooms_list_payload_ok(
                    *final(state),
                    info@,
                ))
            })
            &&& (remaining.len() == 0 ==> {
                &&& events@.len() == 1
                &&& histories_unchanged(*old(state), *final(state))
                &&& (events@[0].target matches Target::BroadcastExcept(e) && e@ == socket_id@)
                &&& (events@[0].event matches Event::RoomsList(info) && rooms_list_payload_ok(
                    *final(state),
                    info@,
                ))
            })
        }),
{
    handle_leave_room(state, socket_id)
}

} // verus!
