//! The shared room-and-presence state: the connection registry (socket id to
//! bound user), the room directory (room name to occupants), and the per-room
//! message history. Rooms and histories are kept as association lists with
//! distinct keys; a room entry exists exactly while it has at least one member,
//! while a history entry outlives emptiness.

use vstd::prelude::*;
use crate::models::ChatMessage;
use crate::models::User;

verus! {

// ---------------------------------------------------------------------------
// Association-list model: sequences of (key, value) pairs with distinct keys.
// ---------------------------------------------------------------------------

/// No two entries share a key.
spec fn keys_distinct<V>(entries: Seq<(String, V)>) -> bool {
    forall|i: int, j: int|
        0 <= i < j < entries.len() ==> (#[trigger] entries[i]).0@ != (#[trigger] entries[j]).0@
}

/// Some entry carries this key.
spec fn key_found<V>(entries: Seq<(String, V)>, key: Seq<char>) -> bool {
    exists|i: int| 0 <= i < entries.len() && (#[trigger] entries[i]).0@ == key
}

/// The index of the entry carrying this key (meaningful only when one exists;
/// unique when the keys are distinct).
spec fn key_at<V>(entries: Seq<(String, V)>, key: Seq<char>) -> int {
    choose|i: int| 0 <= i < entries.len() && (#[trigger] entries[i]).0@ == key
}

proof fn lemma_key_at<V>(entries: Seq<(String, V)>, i: int)
    requires
        keys_distinct(entries),
        0 <= i < entries.len(),
    ensures
        key_found(entries, entries[i].0@),
        key_at(entries, entries[i].0@) == i,
{
    assert(key_found(entries, entries[i].0@));
    let j = key_at(entries, entries[i].0@);
    assert(0 <= j < entries.len() && entries[j].0@ == entries[i].0@);
}

/// Removing an entry keeps the remaining keys, and their values, in place.
proof fn lemma_assoc_remove<V>(pre: Seq<(String, V)>, i: int)
    requires
        keys_distinct(pre),
        0 <= i < pre.len(),
    ensures
        keys_distinct(pre.remove(i)),
        !key_found(pre.remove(i), pre[i].0@),
        forall|n: Seq<char>|
            n != pre[i].0@ ==> #[trigger] key_found(pre.remove(i), n) == key_found(pre, n),
        forall|n: Seq<char>|
            n != pre[i].0@ && key_found(pre, n) ==> #[trigger] pre.remove(i)[key_at(
                pre.remove(i),
                n,
            )] == pre[key_at(pre, n)],
{
    let post = pre.remove(i);
    assert forall|a: int, b: int| 0 <= a < b < post.len() implies (#[trigger] post[a]).0@ != (
    #[trigger] post[b]).0@ by {
        let a0 = if a < i { a } else { a + 1 };
        let b0 = if b < i { b } else { b + 1 };
        assert(post[a] == pre[a0] && post[b] == pre[b0]);
    }
    assert forall|n: Seq<char>| n != pre[i].0@ implies #[trigger] key_found(post, n)
        == key_found(pre, n) by {
        if key_found(pre, n) {
            let j = key_at(pre, n);
            assert(0 <= j < pre.len() && pre[j].0@ == n);
            let j2 = if j < i { j } else { j - 1 };
            assert(post[j2] == pre[j]);
            assert(key_found(post, n));
        }
        if key_found(post, n) {
            let j = key_at(post, n);
            let j0 = if j < i { j } else { j + 1 };
            assert(post[j] == pre[j0]);
            assert(key_found(pre, n));
        }
    }
    assert forall|n: Seq<char>| n != pre[i].0@ && key_found(pre, n) implies #[trigger] post[key_at(
        post,
        n,
    )] == pre[key_at(pre, n)] by {
        let j = key_at(pre, n);
        assert(0 <= j < pre.len() && pre[j].0@ == n);
        let j2 = if j < i { j } else { j - 1 };
        assert(post[j2] == pre[j]);
        lemma_key_at(post, j2);
    }
    if key_found(post, pre[i].0@) {
        let j = key_at(post, pre[i].0@);
        let j0 = if j < i { j } else { j + 1 };
        assert(post[j] == pre[j0]);
    }
}

/// Replacing the value at one position (same key) keeps every key, and every
/// other key's value, in place.
proof fn lemma_assoc_update<V>(pre: Seq<(String, V)>, i: int, v: V)
    requires
        keys_distinct(pre),
        0 <= i < pre.len(),
    ensures
        keys_distinct(pre.update(i, (pre[i].0, v))),
        forall|n: Seq<char>|
            #[trigger] key_found(pre.update(i, (pre[i].0, v)), n) == key_found(pre, n),
        key_at(pre.update(i, (pre[i].0, v)), pre[i].0@) == i,
        forall|n: Seq<char>|
            n != pre[i].0@ && key_found(pre, n) ==> #[trigger] pre.update(i, (pre[i].0, v))[key_at(
                pre.update(i, (pre[i].0, v)),
                n,
            )] == pre[key_at(pre, n)],
{
    let post = pre.update(i, (pre[i].0, v));
    assert forall|a: int, b: int| 0 <= a < b < post.len() implies (#[trigger] post[a]).0@ != (
    #[trigger] post[b]).0@ by {
        assert(post[a].0@ == pre[a].0@ && post[b].0@ == pre[b].0@);
    }
    assert forall|n: Seq<char>| #[trigger] key_found(post, n) == key_found(pre, n) by {
        if key_found(pre, n) {
            let j = key_at(pre, n);
            assert(post[j].0@ == n);
        }
        if key_found(post, n) {
            let j = key_at(post, n);
            assert(pre[j].0@ == n);
        }
    }
    lemma_key_at(post, i);
    assert forall|n: Seq<char>| n != pre[i].0@ && key_found(pre, n) implies #[trigger] post[key_at(
        post,
        n,
    )] == pre[key_at(pre, n)] by {
        let j = key_at(pre, n);
        assert(0 <= j < pre.len() && pre[j].0@ == n);
        assert(j != i);
        assert(post[j] == pre[j]);
        lemma_key_at(post, j);
    }
}

/// Appending an entry under a fresh key keeps every existing key, and its
/// value, in place, and makes the new key found at the end.
proof fn lemma_assoc_push<V>(pre: Seq<(String, V)>, key: String, v: V)
    requires
        keys_distinct(pre),
        !key_found(pre, key@),
    ensures
        keys_distinct(pre.push((key, v))),
        key_found(pre.push((key, v)), key@),
        key_at(pre.push((key, v)), key@) == pre.len(),
        forall|n: Seq<char>|
            n != key@ ==> #[trigger] key_found(pre.push((key, v)), n) == key_found(pre, n),
        forall|n: Seq<char>|
            n != key@ && key_found(pre, n) ==> #[trigger] pre.push((key, v))[key_at(
                pre.push((key, v)),
                n,
            )] == pre[key_at(pre, n)],
{
    let post = pre.push((key, v));
    let last = pre.len() as int;
    assert forall|a: int, b: int| 0 <= a < b < post.len() implies (#[trigger] post[a]).0@ != (
    #[trigger] post[b]).0@ by {
        if b == last {
            assert(post[a] == pre[a]);
            assert(pre[a].0@ != key@);
        } else {
            assert(post[a] == pre[a] && post[b] == pre[b]);
        }
    }
    assert(post[last].0@ == key@);
    lemma_key_at(post, last);
    assert forall|n: Seq<char>| n != key@ implies #[trigger] key_found(post, n) == key_found(
        pre,
        n,
    ) by {
        if key_found(pre, n) {
            let j = key_at(pre, n);
            assert(post[j].0@ == n);
        }
        if key_found(post, n) {
            let j = key_at(post, n);
            assert(j != last);
            assert(pre[j].0@ == n);
        }
    }
    assert forall|n: Seq<char>| n != key@ && key_found(pre, n) implies #[trigger] post[key_at(
        post,
        n,
    )] == pre[key_at(pre, n)] by {
        let j = key_at(pre, n);
        assert(0 <= j < pre.len() && pre[j].0@ == n);
        assert(post[j] == pre[j]);
        lemma_key_at(post, j);
    }
}

// ---------------------------------------------------------------------------
// Member sequences.
// ---------------------------------------------------------------------------

/// Some member of this sequence carries this connection id.
pub open spec fn has_sid(users: Seq<User>, sid: Seq<char>) -> bool {
    exists|k: int| 0 <= k < users.len() && (#[trigger] users[k]).socket_id@ == sid
}

/// The position of the member carrying this connection id (meaningful only
/// when one exists; unique when the ids are distinct).
pub open spec fn sid_index(users: Seq<User>, sid: Seq<char>) -> int {
    choose|k: int| 0 <= k < users.len() && (#[trigger] users[k]).socket_id@ == sid
}

/// The sequence with the member carrying this connection id taken out, or the
/// sequence itself when no member carries it.
pub open spec fn remove_sid(users: Seq<User>, sid: Seq<char>) -> Seq<User> {
    if has_sid(users, sid) {
        users.remove(sid_index(users, sid))
    } else {
        users
    }
}

/// No two members of this sequence share a connection id.
pub open spec fn sids_distinct(users: Seq<User>) -> bool {
    forall|k1: int, k2: int|
        0 <= k1 < k2 < users.len()
            ==> (#[trigger] users[k1]).socket_id@ != (#[trigger] users[k2]).socket_id@
}

pub proof fn lemma_sid_index(users: Seq<User>, k: int)
    requires
        sids_distinct(users),
        0 <= k < users.len(),
    ensures
        has_sid(users, users[k].socket_id@),
        sid_index(users, users[k].socket_id@) == k,
        remove_sid(users, users[k].socket_id@) == users.remove(k),
        remove_sid(users, users[k].socket_id@).len() == users.len() - 1,
{
    assert(has_sid(users, users[k].socket_id@));
    let j = sid_index(users, users[k].socket_id@);
    assert(0 <= j < users.len() && users[j].socket_id@ == users[k].socket_id@);
}

/// Taking one member out keeps the other connection ids, and their absence.
proof fn lemma_remove_member(users: Seq<User>, mi: int)
    requires
        sids_distinct(users),
        0 <= mi < users.len(),
    ensures
        sids_distinct(users.remove(mi)),
        !has_sid(users.remove(mi), users[mi].socket_id@),
        forall|s: Seq<char>|
            s != users[mi].socket_id@ ==> #[trigger] has_sid(users.remove(mi), s) == has_sid(
                users,
                s,
            ),
{
    let post = users.remove(mi);
    assert forall|a: int, b: int| 0 <= a < b < post.len() implies (#[trigger] post[a]).socket_id@
        != (#[trigger] post[b]).socket_id@ by {
        let a0 = if a < mi { a } else { a + 1 };
        let b0 = if b < mi { b } else { b + 1 };
        assert(post[a] == users[a0] && post[b] == users[b0]);
    }
    if has_sid(post, users[mi].socket_id@) {
        let k = sid_index(post, users[mi].socket_id@);
        let k0 = if k < mi { k } else { k + 1 };
        assert(post[k] == users[k0]);
    }
    assert forall|s: Seq<char>| s != users[mi].socket_id@ implies #[trigger] has_sid(post, s)
        == has_sid(users, s) by {
        if has_sid(users, s) {
            let k = sid_index(users, s);
            assert(0 <= k < users.len() && users[k].socket_id@ == s);
            let k2 = if k < mi { k } else { k - 1 };
            assert(post[k2] == users[k]);
            assert(has_sid(post, s));
        }
        if has_sid(post, s) {
            let k = sid_index(post, s);
            let k0 = if k < mi { k } else { k + 1 };
            assert(post[k] == users[k0]);
            assert(has_sid(users, s));
        }
    }
}

/// Appending a member with a fresh connection id keeps the others in place.
proof fn lemma_push_member(users: Seq<User>, u: User)
    requires
        sids_distinct(users),
        !has_sid(users, u.socket_id@),
    ensures
        sids_distinct(users.push(u)),
        has_sid(users.push(u), u.socket_id@),
        forall|s: Seq<char>|
            s != u.socket_id@ ==> #[trigger] has_sid(users.push(u), s) == has_sid(users, s),
{
    let post = users.push(u);
    let last = users.len() as int;
    assert forall|a: int, b: int| 0 <= a < b < post.len() implies (#[trigger] post[a]).socket_id@
        != (#[trigger] post[b]).socket_id@ by {
        if b == last {
            assert(post[a] == users[a]);
            assert(users[a].socket_id@ != u.socket_id@);
        } else {
            assert(post[a] == users[a] && post[b] == users[b]);
        }
    }
    assert(post[last] == u);
    assert forall|s: Seq<char>| s != u.socket_id@ implies #[trigger] has_sid(post, s) == has_sid(
        users,
        s,
    ) by {
        if has_sid(users, s) {
            let k = sid_index(users, s);
            assert(post[k] == users[k]);
            assert(has_sid(post, s));
        }
        if has_sid(post, s) {
            let k = sid_index(post, s);
            assert(k != last);
            assert(post[k] == users[k]);
            assert(has_sid(users, s));
        }
    }
}

// ---------------------------------------------------------------------------
// Relations between two states, used by the mutating methods' contracts.
// ---------------------------------------------------------------------------

/// Room directory and connection registry agree between two states.
pub open spec fn presence_unchanged(pre: AppState, post: AppState) -> bool {
    &&& post.room_names() == pre.room_names()
    &&& forall|n: Seq<char>| #[trigger] post.has_room(n) == pre.has_room(n)
    &&& forall|n: Seq<char>| #[trigger] post.members_of(n) == pre.members_of(n)
    &&& forall|s: Seq<char>| #[trigger] post.has_user(s) == pre.has_user(s)
    &&& forall|s: Seq<char>|
        pre.has_user(s) ==> #[trigger] post.user_at(s) == pre.user_at(s)
}

/// Every room's message history agrees between two states.
pub open spec fn histories_unchanged(pre: AppState, post: AppState) -> bool {
    forall|n: Seq<char>| #[trigger] post.history_of(n) == pre.history_of(n)
}

/// No room's history lost a message: each old history is a prefix of the new
/// one. Histories are append-only, so every operation ensures this.
pub open spec fn histories_extended(pre: AppState, post: AppState) -> bool {
    forall|n: Seq<char>| pre.history_of(n).is_prefix_of(#[trigger] post.history_of(n))
}

/// Connections other than `sid` are bound exactly as before.
pub open spec fn bindings_unchanged_except(pre: AppState, post: AppState, sid: Seq<char>) -> bool {
    forall|s: Seq<char>|
        s != sid ==> (#[trigger] post.has_user(s)) == pre.has_user(s)
            && (pre.has_user(s) ==> post.user_at(s) == pre.user_at(s))
}

// ---------------------------------------------------------------------------
// The state itself.
// ---------------------------------------------------------------------------

/// The room directory, the message histories, and the connection registry.
/// Every mutating method keeps `wf()`; every constructor establishes it.
#[derive(Debug)]
pub struct AppState {
    /// room name -> the users in the room, in insertion order
    rooms: Vec<(String, Vec<User>)>,
    /// room name -> the room's message history, in insertion order
    messages: Vec<(String, Vec<ChatMessage>)>,
    /// socket id -> the user bound to that connection
    socket_users: Vec<(String, User)>,
}

impl AppState {
    /// Whether some room of this name currently exists (has a member).
    pub closed spec fn has_room(self, name: Seq<char>) -> bool {
        key_found(self.rooms@, name)
    }

    /// The members of the room of this name, in insertion order; empty when
    /// no such room exists.
    pub closed spec fn members_of(self, name: Seq<char>) -> Seq<User> {
        if key_found(self.rooms@, name) {
            self.rooms@[key_at(self.rooms@, name)].1@
        } else {
            Seq::empty()
        }
    }

    /// The message history of the room of this name, oldest first; empty when
    /// nothing was ever sent there.
    pub closed spec fn history_of(self, name: Seq<char>) -> Seq<ChatMessage> {
        if key_found(self.messages@, name) {
            self.messages@[key_at(self.messages@, name)].1@
        } else {
            Seq::empty()
        }
    }

    /// Whether a user is bound to this connection.
    pub closed spec fn has_user(self, sid: Seq<char>) -> bool {
        key_found(self.socket_users@, sid)
    }

    /// The user bound to this connection (meaningful only under `has_user`).
    pub closed spec fn user_at(self, sid: Seq<char>) -> User {
        self.socket_users@[key_at(self.socket_users@, sid)].1
    }

    /// The names of the currently existing rooms, in directory order.
    pub closed spec fn room_names(self) -> Seq<Seq<char>> {
        Seq::new(self.rooms@.len(), |i: int| self.rooms@[i].0@)
    }

    /// The internal consistency of the whole state:
    /// - room, history and registry keys are distinct;
    /// - a room exists only while it has at least one member;
    /// - a member's `room` field names the room that holds it, its connection
    ///   id appears once in that room, and the registry binds that id to it;
    /// - a bound user's connection id is its registry key, and the user is a
    ///   member of the room its `room` field names;
    /// - a stored message's `room` field equals its history key.
    pub closed spec fn wf(self) -> bool {
        let rooms = self.rooms@;
        let messages = self.messages@;
        let bound = self.socket_users@;
        &&& keys_distinct(rooms)
        &&& keys_distinct(messages)
        &&& keys_distinct(bound)
        &&& forall|i: int| 0 <= i < rooms.len() ==> (#[trigger] rooms[i]).1@.len() > 0
        &&& forall|i: int, k: int|
            0 <= i < rooms.len() && 0 <= k < rooms[i].1@.len()
                ==> (#[trigger] rooms[i].1@[k]).room@ == rooms[i].0@
        &&& forall|i: int| 0 <= i < rooms.len() ==> sids_distinct((#[trigger] rooms[i]).1@)
        &&& forall|i: int, k: int|
            0 <= i < rooms.len() && 0 <= k < rooms[i].1@.len()
                ==> self.has_user((#[trigger] rooms[i].1@[k]).socket_id@)
                    && self.user_at(rooms[i].1@[k].socket_id@) == rooms[i].1@[k]
        &&& forall|i: int|
            0 <= i < bound.len() ==> (#[trigger] bound[i]).1.socket_id@ == bound[i].0@
        &&& forall|i: int|
            0 <= i < bound.len()
                ==> self.has_room((#[trigger] bound[i]).1.room@)
                    && has_sid(self.members_of(bound[i].1.room@), bound[i].0@)
        &&& forall|i: int, k: int|
            0 <= i < messages.len() && 0 <= k < messages[i].1@.len()
                ==> (#[trigger] messages[i].1@[k]).room@ == messages[i].0@
    }

    /// A fresh state: no rooms, no histories, no bound connections.
    pub fn new() -> (r: Self)
        ensures
            r.wf(),
            r.room_names() == Seq::<Seq<char>>::empty(),
            forall|n: Seq<char>| !r.has_room(n),
            forall|n: Seq<char>| #[trigger] r.members_of(n) == Seq::<User>::empty(),
            forall|n: Seq<char>| #[trigger] r.history_of(n) == Seq::<ChatMessage>::empty(),
            forall|s: Seq<char>| !r.has_user(s),
    {
        let r = AppState { rooms: Vec::new(), messages: Vec::new(), socket_users: Vec::new() };
        proof {
            assert(r.room_names() =~= Seq::<Seq<char>>::empty());
        }
        r
    }
}

impl Default for AppState {
    /// The same fresh state as `new`.
    fn default() -> (r: Self)
        ensures
            r.wf(),
            r.room_names() == Seq::<Seq<char>>::empty(),
            forall|n: Seq<char>| !r.has_room(n),
            forall|s: Seq<char>| !r.has_user(s),
    {
        AppState::new()
    }
}

// ---------------------------------------------------------------------------
// Shared lookup helper.
// ---------------------------------------------------------------------------

/// The position of the first entry carrying this key, if any.
fn key_position<V>(entries: &Vec<(String, V)>, key: &String) -> (r: Option<usize>)
    ensures
        match r {
            Some(i) => i < entries@.len() && entries@[i as int].0@ == key@,
            None => forall|j: int|
                0 <= j < entries@.len() ==> (#[trigger] entries@[j]).0@ != key@,
        },
{
    let mut i: usize = 0;
    while i < entries.len()
        invariant
            i <= entries@.len(),
            forall|j: int| 0 <= j < i ==> (#[trigger] entries@[j]).0@ != key@,
        decreases entries@.len() - i,
    {
        if entries[i].0 == *key {
            return Some(i);
        }
        i += 1;
    }
    None
}

impl AppState {
    /// Snapshot of the members of a room, in membership order; empty when the
    /// room does not exist.
    pub fn get_room_users(&self, room_name: &str) -> (r: Vec<User>)
        requires
            self.wf(),
        ensures
            r@ == self.members_of(room_name@),
    {
        let key: String = room_name.to_owned();
        match key_position(&self.rooms, &key) {
            Some(i) => {
                let r = self.rooms[i].1.clone();
                proof {
                    lemma_key_at(self.rooms@, i as int);
                    assert forall|k: int| 0 <= k < r@.len() implies r@[k] == self.rooms@[i as int].1@[k] by {}
                    assert(r@ =~= self.rooms@[i as int].1@);
                }
                r
            },
            None => {
                let r: Vec<User> = Vec::new();
                proof {
                    assert(!key_found(self.rooms@, room_name@));
                    assert(r@ =~= Seq::<User>::empty());
                }
                r
            },
        }
    }

    /// The user currently bound to this connection, if any; never mutates.
    pub fn get_user_by_socket_id(&self, socket_id: &str) -> (r: Option<User>)
        requires
            self.wf(),
        ensures
            self.has_user(socket_id@) ==> r == Some(self.user_at(socket_id@)),
            !self.has_user(socket_id@) ==> r is None,
    {
        let key: String = socket_id.to_owned();
        match key_position(&self.socket_users, &key) {
            Some(i) => {
                proof {
                    lemma_key_at(self.socket_users@, i as int);
                }
                Some(self.socket_users[i].1.clone())
            },
            None => {
                proof {
                    assert(!key_found(self.socket_users@, socket_id@));
                }
                None
            },
        }
    }

    /// Snapshot of a room's message history, oldest first; empty when nothing
    /// was ever sent there.
    pub fn get_room_messages(&self, room_name: &str) -> (r: Vec<ChatMessage>)
        requires
            self.wf(),
        ensures
            r@ == self.history_of(room_name@),
    {
        let key: String = room_name.to_owned();
        match key_position(&self.messages, &key) {
            Some(i) => {
                let r = self.messages[i].1.clone();
                proof {
                    lemma_key_at(self.messages@, i as int);
                    assert forall|k: int| 0 <= k < r@.len() implies r@[k] == self.messages@[i as int].1@[k] by {}
                    assert(r@ =~= self.messages@[i as int].1@);
                }
                r
            },
            None => {
                let r: Vec<ChatMessage> = Vec::new();
                proof {
                    assert(!key_found(self.messages@, room_name@));
                    assert(r@ =~= Seq::<ChatMessage>::empty());
                }
                r
            },
        }
    }

    /// Snapshot over all currently existing rooms: each room's name with its
    /// member count, in directory order. A room with no members has no entry.
    pub fn get_rooms_info(&self) -> (r: Vec<(String, usize)>)
        requires
            self.wf(),
        ensures
            r@.len() == self.room_names().len(),
            forall|i: int|
                0 <= i < r@.len() ==> (#[trigger] r@[i]).0@ == self.room_names()[i]
                    && r@[i].1 as nat == self.members_of(self.room_names()[i]).len(),
    {
        let mut out: Vec<(String, usize)> = Vec::new();
        let mut i: usize = 0;
        while i < self.rooms.len()
            invariant
                self.wf(),
                i <= self.rooms@.len(),
                out@.len() == i,
                forall|j: int|
                    0 <= j < i ==> (#[trigger] out@[j]).0@ == self.room_names()[j]
                        && out@[j].1 as nat == self.members_of(self.room_names()[j]).len(),
            decreases self.rooms@.len() - i,
        {
            let name = self.rooms[i].0.clone();
            let count = self.rooms[i].1.len();
            out.push((name, count));
            proof {
                lemma_key_at(self.rooms@, i as int);
            }
            i += 1;
        }
        out
    }

    /// Appends a message to its room's history, creating the history entry on
    /// first use. Presence (rooms and bindings) is untouched.
    pub fn add_message(&mut self, message: ChatMessage)
        requires
            old(self).wf(),
        ensures
            final(self).wf(),
            final(self).history_of(message.room@) == old(self).history_of(message.room@).push(
                message,
            ),
            forall|n: Seq<char>|
                n != message.room@ ==> #[trigger] final(self).history_of(n) == old(
                    self,
                ).history_of(n),
            histories_extended(*old(self), *final(self)),
            presence_unchanged(*old(self), *final(self)),
    {
        let ghost pre = *self;
        let key = message.room.clone();
        match key_position(&self.messages, &key) {
            Some(i) => {
                proof {
                    lemma_key_at(pre.messages@, i as int);
                }
                let mut entry = self.messages.remove(i);
                entry.1.push(message);
                self.messages.insert(i, entry);
                proof {
                    assert(self.messages@ =~= pre.messages@.update(
                        i as int,
                        (pre.messages@[i as int].0, self.messages@[i as int].1),
                    ));
                    lemma_assoc_update_value(pre, *self, i as int);
                }
            },
            None => {
                let mut list: Vec<ChatMessage> = Vec::new();
                list.push(message);
                self.messages.push((key, list));
                proof {
                    assert(!key_found(pre.messages@, message.room@));
                    lemma_assoc_push_key(pre, *self, message.room@);
                }
            },
        }
    }
}

/// After updating the value at one position of the history list (same key),
/// only that key's history changed, and nothing else moved.
proof fn lemma_assoc_update_value(pre: AppState, post: AppState, i: int)
    requires
        pre.wf(),
        0 <= i < pre.messages@.len(),
        post.messages@.len() == pre.messages@.len(),
        forall|j: int|
            0 <= j < pre.messages@.len() && j != i ==> #[trigger] post.messages@[j]
                == pre.messages@[j],
        post.messages@[i].0@ == pre.messages@[i].0@,
        forall|k: int|
            0 <= k < post.messages@[i].1@.len() ==> (#[trigger] post.messages@[i].1@[k]).room@
                == post.messages@[i].0@,
        post.rooms == pre.rooms,
        post.socket_users == pre.socket_users,
    ensures
        post.wf(),
        post.history_of(pre.messages@[i].0@) == post.messages@[i].1@,
        forall|n: Seq<char>|
            n != pre.messages@[i].0@ ==> #[trigger] post.history_of(n) == pre.history_of(n),
        presence_unchanged(pre, post),
{
    assert forall|a: int, b: int| 0 <= a < b < post.messages@.len() implies (
    #[trigger] post.messages@[a]).0@ != (#[trigger] post.messages@[b]).0@ by {
        assert(pre.messages@[a].0@ != pre.messages@[b].0@);
    }
    lemma_key_at(post.messages@, i);
    lemma_key_at(pre.messages@, i);
    assert forall|n: Seq<char>| n != pre.messages@[i].0@ implies #[trigger] post.history_of(n)
        == pre.history_of(n) by {
        if key_found(pre.messages@, n) {
            let j = key_at(pre.messages@, n);
            lemma_key_at(pre.messages@, j);
            lemma_key_at(post.messages@, j);
        } else {
            if key_found(post.messages@, n) {
                let j = key_at(post.messages@, n);
                assert(pre.messages@[j].0@ == n);
            }
        }
    }
    assert(presence_unchanged(pre, post));
}

/// After pushing a history entry under a key that was absent, that key's
/// history is the new entry's, and nothing else moved.
proof fn lemma_assoc_push_key(pre: AppState, post: AppState, name: Seq<char>)
    requires
        pre.wf(),
        !key_found(pre.messages@, name),
        post.messages@.len() == pre.messages@.len() + 1,
        forall|j: int|
            0 <= j < pre.messages@.len() ==> #[trigger] post.messages@[j] == pre.messages@[j],
        post.messages@.last().0@ == name,
        forall|k: int|
            0 <= k < post.messages@.last().1@.len() ==> (#[trigger] post.messages@.last().1@[k]).room@ == name,
        post.rooms == pre.rooms,
        post.socket_users == pre.socket_users,
    ensures
        post.wf(),
        post.history_of(name) == post.messages@.last().1@,
        forall|n: Seq<char>| n != name ==> #[trigger] post.history_of(n) == pre.history_of(n),
        presence_unchanged(pre, post),
{
    let last = pre.messages@.len() as int;
    assert forall|a: int, b: int| 0 <= a < b < post.messages@.len() implies (
    #[trigger] post.messages@[a]).0@ != (#[trigger] post.messages@[b]).0@ by {
        if b == last {
            assert(post.messages@[a] == pre.messages@[a]);
        } else {
            assert(pre.messages@[a].0@ != pre.messages@[b].0@);
        }
    }
    lemma_key_at(post.messages@, last);
    assert forall|n: Seq<char>| n != name implies #[trigger] post.history_of(n)
        == pre.history_of(n) by {
        if key_found(pre.messages@, n) {
            let j = key_at(pre.messages@, n);
            lemma_key_at(pre.messages@, j);
            lemma_key_at(post.messages@, j);
        } else {
            if key_found(post.messages@, n) {
                let j = key_at(post.messages@, n);
                assert(0 <= j < post.messages@.len() && post.messages@[j].0@ == n);
                assert(j != last);
                assert(pre.messages@[j].0@ == n);
            }
        }
    }
    assert(presence_unchanged(pre, post));
}

/// The position of the first member carrying this connection id, if any.
fn member_position(users: &Vec<User>, sid: &String) -> (r: Option<usize>)
    ensures
        match r {
            Some(k) => k < users@.len() && users@[k as int].socket_id@ == sid@,
            None => forall|k: int|
                0 <= k < users@.len() ==> (#[trigger] users@[k]).socket_id@ != sid@,
        },
{
    let mut i: usize = 0;
    while i < users.len()
        invariant
            i <= users@.len(),
            forall|k: int| 0 <= k < i ==> (#[trigger] users@[k]).socket_id@ != sid@,
        decreases users@.len() - i,
    {
        if users[i].socket_id == *sid {
            return Some(i);
        }
        i += 1;
    }
    None
}

impl AppState {
    /// Removes and returns the user bound to this connection, taking it out
    /// of its room's membership; the room entry is deleted when it becomes
    /// empty, while its history entry is retained. An unknown connection is a
    /// silent no-op, not an error.
    pub fn remove_user(&mut self, socket_id: &str) -> (r: Option<User>)
        requires
            old(self).wf(),
        ensures
            final(self).wf(),
            histories_unchanged(*old(self), *final(self)),
            histories_extended(*old(self), *final(self)),
            !old(self).has_user(socket_id@) ==> r is None && *final(self) == *old(self),
            old(self).has_user(socket_id@) ==> r == Some(old(self).user_at(socket_id@)),
            !final(self).has_user(socket_id@),
            bindings_unchanged_except(*old(self), *final(self), socket_id@),
            forall|n: Seq<char>|
                #[trigger] final(self).members_of(n) == remove_sid(
                    old(self).members_of(n),
                    socket_id@,
                ),
            forall|n: Seq<char>|
                old(self).has_user(socket_id@) && n != old(self).user_at(socket_id@).room@
                    ==> #[trigger] final(self).has_room(n) == old(self).has_room(n),
            old(self).has_user(socket_id@) ==> ({
                let vacated = old(self).user_at(socket_id@).room@;
                &&& final(self).members_of(vacated).len() == old(self).members_of(vacated).len()
                    - 1
                &&& (final(self).has_room(vacated) <==> old(self).members_of(vacated).len() > 1)
            }),
    {
        let ghost pre = *self;
        let key: String = socket_id.to_owned();
        let bi = match key_position(&self.socket_users, &key) {
            None => {
                proof {
                    assert(!key_found(pre.socket_users@, socket_id@));
                    assert forall|n: Seq<char>| #[trigger] self.members_of(n) == remove_sid(
                        pre.members_of(n),
                        socket_id@,
                    ) by {
                        if has_sid(pre.members_of(n), socket_id@) {
                            lemma_member_room_unique(pre, socket_id@, n);
                        }
                    }
                }
                return None;
            },
            Some(bi) => bi,
        };
        proof {
            lemma_key_at(pre.socket_users@, bi as int);
            lemma_bound_user_is_member(pre, socket_id@);
        }
        let binding = self.socket_users.remove(bi);
        let user = binding.1;
        proof {
            assert(user == pre.user_at(socket_id@));
            assert(user.socket_id@ == socket_id@);
            lemma_assoc_remove(pre.socket_users@, bi as int);
        }
        let ri = match key_position(&self.rooms, &user.room) {
            None => {
                proof {
                    assert(pre.has_room(user.room@));
                    assert(false);
                }
                vstd::pervasive::unreached()
            },
            Some(ri) => ri,
        };
        proof {
            lemma_key_at(pre.rooms@, ri as int);
            assert(pre.members_of(user.room@) == pre.rooms@[ri as int].1@);
        }
        let mut entry = self.rooms.remove(ri);
        let mi = match member_position(&entry.1, &key) {
            None => {
                proof {
                    assert(has_sid(pre.members_of(user.room@), socket_id@));
                    assert(false);
                }
                vstd::pervasive::unreached()
            },
            Some(mi) => mi,
        };
        let ghost members = pre.rooms@[ri as int].1@;
        proof {
            assert(sids_distinct(members));
            lemma_sid_index(members, mi as int);
            assert(remove_sid(members, socket_id@) == members.remove(mi as int));
            lemma_remove_member(members, mi as int);
        }
        entry.1.remove(mi);
        if entry.1.len() > 0 {
            let ghost new_list = entry.1;
            self.rooms.insert(ri, entry);
            proof {
                assert(self.rooms@ =~= pre.rooms@.update(
                    ri as int,
                    (pre.rooms@[ri as int].0, new_list),
                ));
                lemma_assoc_update(pre.rooms@, ri as int, new_list);
                lemma_remove_user_shape(pre, *self, socket_id@, ri as int, bi as int);
            }
        } else {
            proof {
                assert(members.remove(mi as int).len() == 0);
                assert(self.rooms@ =~= pre.rooms@.remove(ri as int));
                lemma_assoc_remove(pre.rooms@, ri as int);
                lemma_remove_user_shape(pre, *self, socket_id@, ri as int, bi as int);
            }
        }
        Some(user)
    }
}

impl AppState {
    /// Appends a user to its room's membership, creating the room on first
    /// join, and binds its connection in the registry. The connection must be
    /// unbound; `add_user_to_room` detaches it first.
    fn attach(&mut self, user: User)
        requires
            old(self).wf(),
            !old(self).has_user(user.socket_id@),
        ensures
            final(self).wf(),
            histories_unchanged(*old(self), *final(self)),
            histories_extended(*old(self), *final(self)),
            final(self).has_user(user.socket_id@),
            final(self).user_at(user.socket_id@) == user,
            bindings_unchanged_except(*old(self), *final(self), user.socket_id@),
            final(self).members_of(user.room@) == old(self).members_of(user.room@).push(user),
            forall|n: Seq<char>|
                n != user.room@ ==> #[trigger] final(self).members_of(n) == old(self).members_of(
                    n,
                ),
            forall|n: Seq<char>|
                n != user.room@ ==> #[trigger] final(self).has_room(n) == old(self).has_room(n),
            final(self).has_room(user.room@),
    {
        let ghost pre = *self;
        let ghost sid = user.socket_id@;
        let ghost joined = user.room@;
        proof {
            // the unbound connection sits in no room
            assert forall|n: Seq<char>| !has_sid(#[trigger] pre.members_of(n), sid) by {
                if has_sid(pre.members_of(n), sid) {
                    lemma_member_room_unique(pre, sid, n);
                }
            }
        }
        match key_position(&self.rooms, &user.room) {
            Some(ri) => {
                proof {
                    lemma_key_at(pre.rooms@, ri as int);
                    assert(pre.members_of(joined) == pre.rooms@[ri as int].1@);
                }
                let mut entry = self.rooms.remove(ri);
                entry.1.push(user.clone());
                let ghost new_list = entry.1;
                self.rooms.insert(ri, entry);
                proof {
                    assert(new_list@ == pre.rooms@[ri as int].1@.push(user));
                    assert(self.rooms@ =~= pre.rooms@.update(
                        ri as int,
                        (pre.rooms@[ri as int].0, new_list),
                    ));
                    lemma_assoc_update(pre.rooms@, ri as int, new_list);
                    lemma_push_member(pre.rooms@[ri as int].1@, user);
                    assert(self.members_of(joined) == pre.members_of(joined).push(user));
                    assert forall|n: Seq<char>| n != joined implies #[trigger] self.members_of(n)
                        == pre.members_of(n) by {
                        if key_found(pre.rooms@, n) {
                            let j = key_at(pre.rooms@, n);
                            lemma_key_at(pre.rooms@, j);
                        }
                    }
                }
            },
            None => {
                let mut members: Vec<User> = Vec::new();
                members.push(user.clone());
                let name = user.room.clone();
                let ghost new_list = members;
                self.rooms.push((name, members));
                proof {
                    assert(!key_found(pre.rooms@, joined));
                    assert(pre.members_of(joined) == Seq::<User>::empty());
                    assert(self.rooms@ == pre.rooms@.push(
                        (self.rooms@.last().0, new_list),
                    ));
                    assert(self.rooms@.last().0@ == joined);
                    lemma_assoc_push(pre.rooms@, self.rooms@.last().0, new_list);
                    assert(new_list@ =~= pre.members_of(joined).push(user));
                    assert(self.members_of(joined) == pre.members_of(joined).push(user));
                    assert forall|n: Seq<char>| n != joined implies #[trigger] self.members_of(n)
                        == pre.members_of(n) by {
                        if key_found(pre.rooms@, n) {
                            let j = key_at(pre.rooms@, n);
                            lemma_key_at(pre.rooms@, j);
                        }
                    }
                }
            },
        }
        let ghost mid = *self;
        let sid_key = user.socket_id.clone();
        let ghost bound_user = user;
        self.socket_users.push((sid_key, user));
        proof {
            assert(self.socket_users@ == pre.socket_users@.push((
                self.socket_users@.last().0,
                bound_user,
            )));
            assert(self.socket_users@.last().0@ == sid);
            lemma_assoc_push(pre.socket_users@, self.socket_users@.last().0, bound_user);
            assert(self.has_user(sid) && self.user_at(sid) == bound_user);
            assert forall|s: Seq<char>| s != sid && pre.has_user(s) implies self.user_at(s)
                == pre.user_at(s) by {}
            assert(bindings_unchanged_except(pre, *self, sid));
            lemma_attach_wf(pre, mid, *self, bound_user);
        }
    }

    /// Binds a user to its connection and appends it to its room's
    /// membership. A connection already bound elsewhere is first detached
    /// from its old room, without any notification for that internal switch;
    /// re-adding a bound connection therefore replaces, never duplicates.
    pub fn add_user_to_room(&mut self, user: User)
        requires
            old(self).wf(),
        ensures
            final(self).wf(),
            histories_unchanged(*old(self), *final(self)),
            histories_extended(*old(self), *final(self)),
            final(self).has_user(user.socket_id@),
            final(self).user_at(user.socket_id@) == user,
            bindings_unchanged_except(*old(self), *final(self), user.socket_id@),
            final(self).members_of(user.room@) == remove_sid(
                old(self).members_of(user.room@),
                user.socket_id@,
            ).push(user),
            forall|n: Seq<char>|
                n != user.room@ ==> #[trigger] final(self).members_of(n) == remove_sid(
                    old(self).members_of(n),
                    user.socket_id@,
                ),
            final(self).has_room(user.room@),
            (old(self).has_user(user.socket_id@) && old(self).user_at(user.socket_id@).room@
                != user.room@) ==> ({
                let vacated = old(self).user_at(user.socket_id@).room@;
                &&& final(self).members_of(vacated).len() == old(self).members_of(vacated).len()
                    - 1
                &&& final(self).members_of(user.room@).len() == old(self).members_of(
                    user.room@,
                ).len() + 1
            }),
            !old(self).has_user(user.socket_id@) ==> final(self).members_of(user.room@).len()
                == old(self).members_of(user.room@).len() + 1,
            (old(self).has_user(user.socket_id@) && old(self).user_at(user.socket_id@).room@
                == user.room@) ==> final(self).members_of(user.room@).len() == old(
                self,
            ).members_of(user.room@).len(),
    {
        let ghost pre = *self;
        let ghost sid = user.socket_id@;
        let ghost joined = user.room@;
        let _prior = self.remove_user(user.socket_id.as_str());
        let ghost mid = *self;
        self.attach(user);
        proof {
            assert(self.members_of(joined) == remove_sid(
                pre.members_of(joined),
                sid,
            ).push(user));
            assert forall|n: Seq<char>| n != joined implies #[trigger] self.members_of(n)
                == remove_sid(pre.members_of(n), sid) by {}
            if pre.has_user(sid) && pre.user_at(sid).room@ != joined {
                let vacated = pre.user_at(sid).room@;
                assert(mid.members_of(vacated).len() == pre.members_of(vacated).len() - 1);
                assert(self.members_of(vacated) == mid.members_of(vacated));
                // the joined room did not hold this connection before
                if has_sid(pre.members_of(joined), sid) {
                    lemma_member_room_unique(pre, sid, joined);
                }
                assert(remove_sid(pre.members_of(joined), sid) == pre.members_of(joined));
            }
            if !pre.has_user(sid) {
                if has_sid(pre.members_of(joined), sid) {
                    lemma_member_room_unique(pre, sid, joined);
                }
                assert(remove_sid(pre.members_of(joined), sid) == pre.members_of(joined));
            }
            if pre.has_user(sid) && pre.user_at(sid).room@ == joined {
                assert(mid.members_of(joined).len() == pre.members_of(joined).len() - 1);
            }
        }
    }
}

/// The well-formedness part of `attach`: `mid` extends one member list of
/// `pre` by the new user (or adds the room), and `post` additionally binds it.
proof fn lemma_attach_wf(pre: AppState, mid: AppState, post: AppState, user: User)
    requires
        pre.wf(),
        !pre.has_user(user.socket_id@),
        mid.messages@ == pre.messages@,
        mid.socket_users@ == pre.socket_users@,
        keys_distinct(mid.rooms@),
        mid.members_of(user.room@) == pre.members_of(user.room@).push(user),
        mid.has_room(user.room@),
        forall|n: Seq<char>|
            n != user.room@ ==> #[trigger] mid.members_of(n) == pre.members_of(n),
        forall|n: Seq<char>| n != user.room@ ==> #[trigger] mid.has_room(n) == pre.has_room(n),
        post.rooms@ == mid.rooms@,
        post.messages@ == mid.messages@,
        post.socket_users@ == pre.socket_users@.push((post.socket_users@.last().0, user)),
        post.socket_users@.last().0@ == user.socket_id@,
        keys_distinct(post.socket_users@),
        post.has_user(user.socket_id@),
        post.user_at(user.socket_id@) == user,
        bindings_unchanged_except(pre, post, user.socket_id@),
    ensures
        post.wf(),
{
    let sid = user.socket_id@;
    let joined = user.room@;
    assert forall|n: Seq<char>| !has_sid(#[trigger] pre.members_of(n), sid) by {
        if has_sid(pre.members_of(n), sid) {
            lemma_member_room_unique(pre, sid, n);
        }
    }
    // each entry of the new directory is read back by its own key
    assert forall|i2: int| 0 <= i2 < post.rooms@.len() implies #[trigger] post.members_of(
        post.rooms@[i2].0@,
    ) == post.rooms@[i2].1@ by {
        lemma_key_at(post.rooms@, i2);
    }
    // each member names its room
    assert forall|i2: int, k: int|
        0 <= i2 < post.rooms@.len() && 0 <= k < post.rooms@[i2].1@.len() implies (
    #[trigger] post.rooms@[i2].1@[k]).room@ == post.rooms@[i2].0@ by {
        let n = post.rooms@[i2].0@;
        let m = post.rooms@[i2].1@[k];
        assert(post.members_of(n) == post.rooms@[i2].1@);
        if n == joined {
            assert(mid.members_of(n) == pre.members_of(n).push(user));
            assert(post.members_of(n) == pre.members_of(n).push(user));
            if k == pre.members_of(n).len() {
                assert(m == user);
            } else {
                assert(m == pre.members_of(n)[k]);
                lemma_member_room_unique(pre, m.socket_id@, n);
            }
        } else {
            assert(mid.members_of(n) == pre.members_of(n));
            assert(post.members_of(n) == pre.members_of(n));
            lemma_member_room_unique(pre, m.socket_id@, n);
        }
    }
    // room entries: non-empty, self-naming members, distinct member ids
    assert forall|i2: int| 0 <= i2 < post.rooms@.len() implies (#[trigger] post.rooms@[i2]).1@.len()
        > 0 && sids_distinct(post.rooms@[i2].1@) by {
        let n = post.rooms@[i2].0@;
        assert(post.members_of(n) == post.rooms@[i2].1@);
        if n == joined {
            lemma_members_distinct(pre, n);
            lemma_push_member(pre.members_of(n), user);
        } else {
            assert(mid.members_of(n) == pre.members_of(n));
            assert(post.members_of(n) == pre.members_of(n));
            if key_found(pre.rooms@, n) {
                let j = key_at(pre.rooms@, n);
                lemma_key_at(pre.rooms@, j);
                assert(pre.members_of(n).len() > 0);
                assert(sids_distinct(pre.members_of(n)));
            } else {
                assert(!pre.has_room(n));
                lemma_key_at(post.rooms@, i2);
                assert(mid.has_room(n));
                assert(false);
            }
        }
    }
    // every member is bound, to itself
    assert forall|i2: int, k: int|
        0 <= i2 < post.rooms@.len() && 0 <= k < post.rooms@[i2].1@.len() implies post.has_user(
        (#[trigger] post.rooms@[i2].1@[k]).socket_id@,
    ) && post.user_at(post.rooms@[i2].1@[k].socket_id@) == post.rooms@[i2].1@[k] by {
        let n = post.rooms@[i2].0@;
        let m = post.rooms@[i2].1@[k];
        assert(post.members_of(n) == post.rooms@[i2].1@);
        if n == joined {
            assert(mid.members_of(n) == pre.members_of(n).push(user));
            assert(post.members_of(n) == pre.members_of(n).push(user));
            if k == pre.members_of(n).len() {
                assert(m == user);
            } else {
                assert(m == pre.members_of(n)[k]);
                lemma_member_room_unique(pre, m.socket_id@, n);
                assert(pre.has_user(m.socket_id@) && pre.user_at(m.socket_id@) == m);
                assert(m.socket_id@ != sid);
            }
        } else {
            assert(mid.members_of(n) == pre.members_of(n));
            assert(post.members_of(n) == pre.members_of(n));
            lemma_member_room_unique(pre, m.socket_id@, n);
            assert(pre.has_user(m.socket_id@) && pre.user_at(m.socket_id@) == m);
            assert(m.socket_id@ != sid);
        }
    }
    // registry entries name themselves and sit in their rooms
    assert forall|i2: int| 0 <= i2 < post.socket_users@.len() implies (
    #[trigger] post.socket_users@[i2]).1.socket_id@ == post.socket_users@[i2].0@
        && post.has_room(post.socket_users@[i2].1.room@) && has_sid(
        post.members_of(post.socket_users@[i2].1.room@),
        post.socket_users@[i2].0@,
    ) by {
        let last = pre.socket_users@.len() as int;
        if i2 == last {
            assert(post.socket_users@[i2] == (post.socket_users@.last().0, user));
            assert(mid.members_of(joined) == pre.members_of(joined).push(user));
            assert(post.members_of(joined) == pre.members_of(joined).push(user));
            assert(post.members_of(joined)[pre.members_of(joined).len() as int] == user);
            assert(has_sid(post.members_of(joined), sid));
        } else {
            let b = post.socket_users@[i2];
            assert(b == pre.socket_users@[i2]);
            assert(b.1.socket_id@ == b.0@);
            assert(pre.has_room(b.1.room@) && has_sid(pre.members_of(b.1.room@), b.0@));
            if b.1.room@ == joined {
                lemma_members_distinct(pre, joined);
                lemma_push_member(pre.members_of(joined), user);
                assert(b.0@ != sid);
                assert(mid.members_of(joined) == pre.members_of(joined).push(user));
                assert(post.members_of(joined) == pre.members_of(joined).push(user));
                assert(has_sid(post.members_of(joined), b.0@));
            } else {
                assert(mid.members_of(b.1.room@) == pre.members_of(b.1.room@));
                assert(mid.has_room(b.1.room@) == pre.has_room(b.1.room@));
                assert(post.members_of(b.1.room@) == pre.members_of(b.1.room@));
                assert(post.has_room(b.1.room@) == pre.has_room(b.1.room@));
            }
        }
    }
    // stored messages still name their key
    assert forall|i2: int, k: int|
        0 <= i2 < post.messages@.len() && 0 <= k < post.messages@[i2].1@.len() implies (
    #[trigger] post.messages@[i2].1@[k]).room@ == post.messages@[i2].0@ by {}
}

/// The vacated room's key sits at `ri` and the removed binding at `bi`; the
/// new state differs from the old exactly by that membership removal (with
/// the room entry deleted when it emptied) and that binding removal. From
/// this shape, well-formedness and the membership contract follow.
proof fn lemma_remove_user_shape(pre: AppState, post: AppState, sid: Seq<char>, ri: int, bi: int)
    requires
        pre.wf(),
        0 <= bi < pre.socket_users@.len(),
        pre.socket_users@[bi].0@ == sid,
        post.socket_users@ == pre.socket_users@.remove(bi),
        0 <= ri < pre.rooms@.len(),
        pre.rooms@[ri].0@ == pre.socket_users@[bi].1.room@,
        has_sid(pre.rooms@[ri].1@, sid),
        post.rooms@ == if remove_sid(pre.rooms@[ri].1@, sid).len() > 0 {
            pre.rooms@.update(
                ri,
                (pre.rooms@[ri].0, post.rooms@[ri].1),
            )
        } else {
            pre.rooms@.remove(ri)
        },
        remove_sid(pre.rooms@[ri].1@, sid).len() > 0 ==> post.rooms@[ri].1@ == remove_sid(
            pre.rooms@[ri].1@,
            sid,
        ),
        post.messages@ == pre.messages@,
    ensures
        post.wf(),
        histories_unchanged(pre, post),
        histories_extended(pre, post),
        !post.has_user(sid),
        bindings_unchanged_except(pre, post, sid),
        forall|n: Seq<char>|
            #[trigger] post.members_of(n) == remove_sid(pre.members_of(n), sid),
        forall|n: Seq<char>|
            n != pre.user_at(sid).room@ ==> #[trigger] post.has_room(n) == pre.has_room(n),
        post.members_of(pre.user_at(sid).room@).len() == pre.members_of(
            pre.user_at(sid).room@,
        ).len() - 1,
        post.has_room(pre.user_at(sid).room@) <==> pre.members_of(
            pre.user_at(sid).room@,
        ).len() > 1,
{
    lemma_key_at(pre.socket_users@, bi);
    let user = pre.socket_users@[bi].1;
    assert(pre.user_at(sid) == user);
    assert(user.socket_id@ == sid);
    let vacated = user.room@;
    lemma_key_at(pre.rooms@, ri);
    let members = pre.rooms@[ri].1@;
    assert(pre.members_of(vacated) == members);
    assert(sids_distinct(members));
    let mi = sid_index(members, sid);
    assert(0 <= mi < members.len() && members[mi].socket_id@ == sid);
    lemma_sid_index(members, mi);
    lemma_remove_member(members, mi);
    let shrunk = remove_sid(members, sid);
    assert(shrunk == members.remove(mi));
    lemma_assoc_remove(pre.socket_users@, bi);

    // registry facts
    assert(!post.has_user(sid));
    assert forall|s: Seq<char>| s != sid && pre.has_user(s) implies post.user_at(s)
        == pre.user_at(s) by {}
    assert(bindings_unchanged_except(pre, post, sid));

    // room-directory facts, by the shape of the change
    if shrunk.len() > 0 {
        lemma_assoc_update(pre.rooms@, ri, post.rooms@[ri].1);
        assert(post.members_of(vacated) == shrunk);
        assert forall|n: Seq<char>| n != vacated implies #[trigger] post.members_of(n)
            == pre.members_of(n) by {
            if key_found(pre.rooms@, n) {
                let j = key_at(pre.rooms@, n);
                lemma_key_at(pre.rooms@, j);
            }
        }
        assert forall|n: Seq<char>| n != vacated implies #[trigger] post.has_room(n)
            == pre.has_room(n) by {}
    } else {
        lemma_assoc_remove(pre.rooms@, ri);
        assert(!key_found(post.rooms@, vacated));
        assert(post.members_of(vacated) =~= shrunk);
        assert forall|n: Seq<char>| n != vacated implies #[trigger] post.members_of(n)
            == pre.members_of(n) by {
            if key_found(pre.rooms@, n) {
                let j = key_at(pre.rooms@, n);
                lemma_key_at(pre.rooms@, j);
            }
        }
        assert forall|n: Seq<char>| n != vacated implies #[trigger] post.has_room(n)
            == pre.has_room(n) by {}
    }

    // the membership contract over every room name
    assert forall|n: Seq<char>| #[trigger] post.members_of(n) == remove_sid(
        pre.members_of(n),
        sid,
    ) by {
        if n == vacated {
        } else {
            if has_sid(pre.members_of(n), sid) {
                lemma_member_room_unique(pre, sid, n);
            }
        }
    }

    // histories
    assert forall|n: Seq<char>| #[trigger] post.history_of(n) == pre.history_of(n) by {}
    assert(histories_extended(pre, post));

    // well-formedness of the new state
    lemma_remove_user_wf(pre, post, sid, ri, bi);
}

/// The well-formedness part of `lemma_remove_user_shape`.
proof fn lemma_remove_user_wf(pre: AppState, post: AppState, sid: Seq<char>, ri: int, bi: int)
    requires
        pre.wf(),
        0 <= bi < pre.socket_users@.len(),
        pre.socket_users@[bi].0@ == sid,
        post.socket_users@ == pre.socket_users@.remove(bi),
        0 <= ri < pre.rooms@.len(),
        pre.rooms@[ri].0@ == pre.socket_users@[bi].1.room@,
        has_sid(pre.rooms@[ri].1@, sid),
        post.rooms@ == if remove_sid(pre.rooms@[ri].1@, sid).len() > 0 {
            pre.rooms@.update(
                ri,
                (pre.rooms@[ri].0, post.rooms@[ri].1),
            )
        } else {
            pre.rooms@.remove(ri)
        },
        remove_sid(pre.rooms@[ri].1@, sid).len() > 0 ==> post.rooms@[ri].1@ == remove_sid(
            pre.rooms@[ri].1@,
            sid,
        ),
        post.messages@ == pre.messages@,
    ensures
        post.wf(),
{
    lemma_key_at(pre.socket_users@, bi);
    let user = pre.socket_users@[bi].1;
    let vacated = user.room@;
    lemma_key_at(pre.rooms@, ri);
    let members = pre.rooms@[ri].1@;
    assert(sids_distinct(members));
    let mi = sid_index(members, sid);
    lemma_sid_index(members, mi);
    lemma_remove_member(members, mi);
    let shrunk = remove_sid(members, sid);
    lemma_assoc_remove(pre.socket_users@, bi);
    let removed_room = shrunk.len() == 0;

    // every post room entry maps to a pre room entry, at `ri` with the member
    // taken out
    assert forall|i2: int| 0 <= i2 < post.rooms@.len() implies (#[trigger] post.rooms@[i2]).1@.len()
        > 0 && (forall|k: int|
        0 <= k < post.rooms@[i2].1@.len() ==> (#[trigger] post.rooms@[i2].1@[k]).room@
            == post.rooms@[i2].0@) && sids_distinct(post.rooms@[i2].1@) by {
        if removed_room {
            let i0 = if i2 < ri { i2 } else { i2 + 1 };
            assert(post.rooms@[i2] == pre.rooms@[i0]);
        } else {
            if i2 != ri {
                assert(post.rooms@[i2] == pre.rooms@[i2]);
            } else {
                assert(post.rooms@[ri].1@ == members.remove(mi));
                assert forall|k: int| 0 <= k < post.rooms@[ri].1@.len() implies (
                #[trigger] post.rooms@[ri].1@[k]).room@ == post.rooms@[ri].0@ by {
                    let k0 = if k < mi { k } else { k + 1 };
                    assert(post.rooms@[ri].1@[k] == members[k0]);
                }
            }
        }
    }

    if removed_room {
        lemma_assoc_remove(pre.rooms@, ri);
    } else {
        lemma_assoc_update(pre.rooms@, ri, post.rooms@[ri].1);
    }

    // keys stay distinct
    assert(keys_distinct(post.rooms@));
    assert(keys_distinct(post.socket_users@));
    assert(keys_distinct(post.messages@));

    // every member left anywhere is still bound, to itself
    assert forall|i2: int, k: int|
        0 <= i2 < post.rooms@.len() && 0 <= k < post.rooms@[i2].1@.len() implies post.has_user(
        (#[trigger] post.rooms@[i2].1@[k]).socket_id@,
    ) && post.user_at(post.rooms@[i2].1@[k].socket_id@) == post.rooms@[i2].1@[k] by {
        let m = post.rooms@[i2].1@[k];
        // m is some pre member
        if removed_room {
            let i0 = if i2 < ri { i2 } else { i2 + 1 };
            assert(post.rooms@[i2] == pre.rooms@[i0]);
            assert(m == pre.rooms@[i0].1@[k]);
            assert(pre.has_user(m.socket_id@) && pre.user_at(m.socket_id@) == m);
            assert(i0 != ri);
            if m.socket_id@ == sid {
                // sid's user sits in the vacated room, whose key differs
                assert(pre.user_at(sid) == user);
                assert(m.room@ == pre.rooms@[i0].0@);
                assert(pre.rooms@[i0].0@ != pre.rooms@[ri].0@);
                assert(false);
            }
        } else {
            if i2 != ri {
                assert(post.rooms@[i2] == pre.rooms@[i2]);
                assert(m == pre.rooms@[i2].1@[k]);
                assert(pre.has_user(m.socket_id@) && pre.user_at(m.socket_id@) == m);
                if m.socket_id@ == sid {
                    assert(pre.user_at(sid) == user);
                    assert(m.room@ == pre.rooms@[i2].0@);
                    assert(pre.rooms@[i2].0@ != pre.rooms@[ri].0@);
                    assert(false);
                }
            } else {
                let k0 = if k < mi { k } else { k + 1 };
                assert(m == members[k0]);
                assert(pre.has_user(m.socket_id@) && pre.user_at(m.socket_id@) == m);
                assert(m.socket_id@ != sid);
            }
        }
    }

    // registry entries still name themselves and sit in their rooms
    assert forall|i2: int| 0 <= i2 < post.socket_users@.len() implies (
    #[trigger] post.socket_users@[i2]).1.socket_id@ == post.socket_users@[i2].0@
        && post.has_room(post.socket_users@[i2].1.room@) && has_sid(
        post.members_of(post.socket_users@[i2].1.room@),
        post.socket_users@[i2].0@,
    ) by {
        let j0 = if i2 < bi { i2 } else { i2 + 1 };
        let b = post.socket_users@[i2];
        assert(b == pre.socket_users@[j0]);
        assert(b.0@ != sid);
        assert(pre.has_room(b.1.room@) && has_sid(pre.members_of(b.1.room@), b.0@));
        if b.1.room@ == vacated {
            assert(pre.members_of(vacated) == members);
            if removed_room {
                // the vacated room held only `sid`, so no other binding names it
                let kk = sid_index(members, b.0@);
                assert(0 <= kk < members.len() && members[kk].socket_id@ == b.0@);
                assert(members.remove(mi).len() == 0);
                assert(members.len() == 1);
                assert(kk == mi);
                assert(false);
            } else {
                assert(post.members_of(vacated) == members.remove(mi));
                assert(has_sid(post.members_of(vacated), b.0@));
                assert(post.has_room(vacated));
            }
        } else {
            if key_found(pre.rooms@, b.1.room@) {
                let j = key_at(pre.rooms@, b.1.room@);
                lemma_key_at(pre.rooms@, j);
            }
            assert(post.has_room(b.1.room@) == pre.has_room(b.1.room@));
            assert(post.members_of(b.1.room@) == pre.members_of(b.1.room@));
        }
    }

    // stored messages still name their key
    assert forall|i2: int, k: int|
        0 <= i2 < post.messages@.len() && 0 <= k < post.messages@[i2].1@.len() implies (
    #[trigger] post.messages@[i2].1@[k]).room@ == post.messages@[i2].0@ by {}
}

/// A connection that appears in a room's membership is bound, to a user whose
/// `room` field names exactly that room.
pub proof fn lemma_member_room_unique(s: AppState, sid: Seq<char>, n: Seq<char>)
    requires
        s.wf(),
        has_sid(s.members_of(n), sid),
    ensures
        s.has_room(n),
        s.has_user(sid),
        s.user_at(sid).socket_id@ == sid,
        s.user_at(sid).room@ == n,
        has_sid(s.members_of(s.user_at(sid).room@), sid),
{
    assert(s.members_of(n).len() > 0);
    assert(key_found(s.rooms@, n));
    let i = key_at(s.rooms@, n);
    assert(0 <= i < s.rooms@.len() && s.rooms@[i].0@ == n);
    let k = sid_index(s.members_of(n), sid);
    assert(0 <= k < s.rooms@[i].1@.len() && s.rooms@[i].1@[k].socket_id@ == sid);
    assert(s.rooms@[i].1@[k].room@ == s.rooms@[i].0@);
    assert(s.has_user(s.rooms@[i].1@[k].socket_id@) && s.user_at(s.rooms@[i].1@[k].socket_id@)
        == s.rooms@[i].1@[k]);
}

/// A connection appears in at most one room's membership at any time.
pub proof fn lemma_single_room_membership(s: AppState, sid: Seq<char>, n1: Seq<char>, n2: Seq<char>)
    requires
        s.wf(),
        has_sid(s.members_of(n1), sid),
        has_sid(s.members_of(n2), sid),
    ensures
        n1 == n2,
{
    lemma_member_room_unique(s, sid, n1);
    lemma_member_room_unique(s, sid, n2);
}

/// The room listing and room existence agree: a name is listed exactly when
/// the room exists, and no name is listed twice. Together with the contract
/// of `get_rooms_info`, a vacated room therefore drops out of the counts.
pub proof fn lemma_room_names(s: AppState)
    requires
        s.wf(),
    ensures
        forall|n: Seq<char>| #[trigger] s.has_room(n) <==> s.room_names().contains(n),
        forall|i: int, j: int|
            0 <= i < j < s.room_names().len() ==> s.room_names()[i] != s.room_names()[j],
{
    assert forall|n: Seq<char>| #[trigger] s.has_room(n) <==> s.room_names().contains(n) by {
        if s.has_room(n) {
            let i = key_at(s.rooms@, n);
            assert(0 <= i < s.rooms@.len() && s.rooms@[i].0@ == n);
            assert(s.room_names()[i] == n);
            assert(s.room_names().contains(n));
        }
        if s.room_names().contains(n) {
            let i = choose|i: int| 0 <= i < s.room_names().len() && s.room_names()[i] == n;
            assert(s.rooms@[i].0@ == n);
        }
    }
}

/// A room exists exactly while it has at least one member.
pub proof fn lemma_room_nonempty(s: AppState, n: Seq<char>)
    requires
        s.wf(),
    ensures
        s.has_room(n) <==> s.members_of(n).len() > 0,
{
    if s.has_room(n) {
        let i = key_at(s.rooms@, n);
        assert(0 <= i < s.rooms@.len() && s.rooms@[i].0@ == n);
        assert(s.rooms@[i].1@.len() > 0);
    }
}

/// The members of a room are distinct by connection id.
pub proof fn lemma_members_distinct(s: AppState, n: Seq<char>)
    requires
        s.wf(),
    ensures
        sids_distinct(s.members_of(n)),
{
    if key_found(s.rooms@, n) {
        let i = key_at(s.rooms@, n);
        assert(0 <= i < s.rooms@.len());
        assert(sids_distinct(s.rooms@[i].1@));
    }
}

/// A bound user is a member of the room its `room` field names.
pub proof fn lemma_bound_user_is_member(s: AppState, sid: Seq<char>)
    requires
        s.wf(),
        s.has_user(sid),
    ensures
        s.user_at(sid).socket_id@ == sid,
        s.has_room(s.user_at(sid).room@),
        has_sid(s.members_of(s.user_at(sid).room@), sid),
{
    let i = key_at(s.socket_users@, sid);
    assert(0 <= i < s.socket_users@.len() && s.socket_users@[i].0@ == sid);
    assert(s.socket_users@[i].1.socket_id@ == s.socket_users@[i].0@);
    assert(s.has_room(s.socket_users@[i].1.room@) && has_sid(
        s.members_of(s.socket_users@[i].1.room@),
        s.socket_users@[i].0@,
    ));
}

} // verus!
