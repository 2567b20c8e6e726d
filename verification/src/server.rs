//! The registry ("chat server"): the single source of truth for live
//! sessions and rooms.
//!
//! Every mutating operation is an atomic state transition described by a
//! spec-level model: a map from session id to its current room, a map
//! from room name to its member table, and the list of every session id
//! ever issued. Operations that cause deliveries return them; the
//! transports perform the writes.

use crate::alist::{
    contains_str, distinct_keys, find_idx, has_key, lemma_remove_key_absent, lemma_remove_key_at,
    lemma_remove_key_keys, lemma_to_map_at, lemma_to_map_contains, lemma_to_map_push,
    lemma_to_map_remove, lemma_to_map_update, remove_key, str_views, to_map,
};
use crate::contracts::{
    delivery_views, opt_view, ChatRoomContract, ChatRoomError, ChatServerError, Delivery,
    DisconnectContract, PlainTextMessage, RoomName, TrustServerError, UserSessionId,
};
use crate::commands::valid_name;
use crate::external::new_session_id;
use crate::response::{
    error_message, new_chat_message, spec_error_message, spec_new_chat_message,
    spec_user_joined_message, spec_user_left_message, user_joined_message, user_left_message,
};
use crate::room::{spec_broadcast, Room};
use vstd::prelude::*;

verus! {

/// The mathematical state of the registry.
#[verifier::ext_equal]
pub struct ServerModel {
    /// Each live session id, with its current room if it joined one.
    pub users: Map<Seq<char>, Option<Seq<char>>>,
    /// Each live room's member table (session id, display name), in join
    /// order.
    pub rooms: Map<Seq<char>, Seq<(Seq<char>, Seq<char>)>>,
    /// Every session id ever issued, in order.
    pub issued: Seq<Seq<char>>,
}

/// Every room is well formed and non-empty.
pub open spec fn rooms_ok(m: ServerModel) -> bool {
    forall|rn: Seq<char>| #[trigger]
        m.rooms.contains_key(rn) ==> distinct_keys(m.rooms[rn]) && m.rooms[rn].len() > 0
}

/// Every member of every room is a live session whose current room is
/// that room.
pub open spec fn members_backed(m: ServerModel) -> bool {
    forall|rn: Seq<char>, uid: Seq<char>|
        m.rooms.contains_key(rn) && #[trigger] has_key(m.rooms[rn], uid) ==> m.users.contains_key(
            uid,
        ) && m.users[uid] == Some(rn)
}

/// The session `uid` stands in the room its record names, if any.
pub open spec fn user_room_consistent_at(m: ServerModel, uid: Seq<char>) -> bool {
    m.users.contains_key(uid) && m.users[uid] is Some ==> m.rooms.contains_key(
        m.users[uid]->Some_0,
    ) && has_key(m.rooms[m.users[uid]->Some_0], uid)
}

/// Every session stands in the room its record names.
pub open spec fn users_consistent(m: ServerModel) -> bool {
    forall|uid: Seq<char>| #[trigger] m.users.contains_key(uid) ==> user_room_consistent_at(m, uid)
}

/// Live sessions carry issued ids, and issued ids are pairwise distinct.
pub open spec fn issued_ok(m: ServerModel) -> bool {
    &&& forall|uid: Seq<char>| #[trigger] m.users.contains_key(uid) ==> m.issued.contains(uid)
    &&& forall|i: int, j: int| 0 <= i < j < m.issued.len() ==> m.issued[i] != m.issued[j]
}

/// The registry's invariant over its model.
pub open spec fn model_wf(m: ServerModel) -> bool {
    &&& rooms_ok(m)
    &&& members_backed(m)
    &&& users_consistent(m)
    &&& issued_ok(m)
}

/// Connecting: record the fresh session with no room, and remember the
/// id as issued.
pub open spec fn spec_register(m: ServerModel, uid: Seq<char>) -> ServerModel {
    ServerModel {
        users: m.users.insert(uid, None),
        rooms: m.rooms,
        issued: m.issued.push(uid),
    }
}

/// Leaving: remove the session from its current room, if any, and drop
/// the room the instant it becomes empty. The session record itself is
/// untouched; joining or eviction rewrites it.
pub open spec fn spec_leave(m: ServerModel, uid: Seq<char>) -> ServerModel {
    if m.users.contains_key(uid) && m.users[uid] is Some && m.rooms.contains_key(
        m.users[uid]->Some_0,
    ) {
        let rn = m.users[uid]->Some_0;
        let members = remove_key(m.rooms[rn], uid);
        ServerModel {
            users: m.users,
            rooms: if members.len() == 0 {
                m.rooms.remove(rn)
            } else {
                m.rooms.insert(rn, members)
            },
            issued: m.issued,
        }
    } else {
        m
    }
}

/// Joining: leave the previous room, then stand at the back of the named
/// room's member table (creating the room on first join), and point the
/// session record at it.
pub open spec fn spec_join(
    m: ServerModel,
    uid: Seq<char>,
    rn: Seq<char>,
    name: Seq<char>,
) -> ServerModel {
    let m1 = spec_leave(m, uid);
    let members = if m1.rooms.contains_key(rn) {
        m1.rooms[rn]
    } else {
        Seq::empty()
    };
    ServerModel {
        users: m.users.insert(uid, Some(rn)),
        rooms: m1.rooms.insert(rn, members.push((uid, name))),
        issued: m.issued,
    }
}

/// Disconnecting: leave the current room, then delete the session record.
pub open spec fn spec_evict(m: ServerModel, uid: Seq<char>) -> ServerModel {
    let m1 = spec_leave(m, uid);
    ServerModel { users: m1.users.remove(uid), rooms: m1.rooms, issued: m1.issued }
}

/// The registry. The delivery handle of each session lives with the
/// transport, keyed by the session id, so the tables here hold plain
/// values only.
pub struct TrustServer {
    pub users: Vec<(UserSessionId, Option<RoomName>)>,
    pub rooms: Vec<(RoomName, Room)>,
    pub issued: Vec<UserSessionId>,
}

impl TrustServer {
    /// The connection table as an association list of views.
    pub open spec fn users_al(self) -> Seq<(Seq<char>, Option<Seq<char>>)> {
        self.users@.map_values(|p: (String, Option<String>)| (p.0@, opt_view(p.1)))
    }

    /// The room table as an association list of views.
    pub open spec fn rooms_al(self) -> Seq<(Seq<char>, Seq<(Seq<char>, Seq<char>)>)> {
        self.rooms@.map_values(|p: (String, Room)| (p.0@, p.1.members_al()))
    }

    /// The issued ids as views.
    pub open spec fn issued_views(self) -> Seq<Seq<char>> {
        str_views(self.issued@)
    }

    /// The registry is well formed when its tables have distinct keys and
    /// its model satisfies the invariant.
    pub open spec fn wf(self) -> bool {
        &&& distinct_keys(self.users_al())
        &&& distinct_keys(self.rooms_al())
        &&& model_wf(self@)
    }
}

impl View for TrustServer {
    type V = ServerModel;

    open spec fn view(&self) -> ServerModel {
        ServerModel {
            users: to_map(self.users_al()),
            rooms: to_map(self.rooms_al()),
            issued: self.issued_views(),
        }
    }
}

impl Default for TrustServer {
    /// An empty registry: no sessions, no rooms, nothing issued.
    fn default() -> (r: TrustServer)
        ensures
            r.wf(),
            r@.users == Map::<Seq<char>, Option<Seq<char>>>::empty(),
            r@.rooms == Map::<Seq<char>, Seq<(Seq<char>, Seq<char>)>>::empty(),
            r@.issued == Seq::<Seq<char>>::empty(),
    {
        let r = TrustServer { users: Vec::new(), rooms: Vec::new(), issued: Vec::new() };
        proof {
            assert(r.users_al() =~= Seq::<(Seq<char>, Option<Seq<char>>)>::empty());
            assert(r.rooms_al() =~= Seq::<(Seq<char>, Seq<(Seq<char>, Seq<char>)>)>::empty());
            assert(r.issued_views() =~= Seq::<Seq<char>>::empty());
        }
        r
    }
}

/// A sequence keeps its elements when one is pushed.
proof fn lemma_push_contains(s: Seq<Seq<char>>, x: Seq<char>, y: Seq<char>)
    ensures
        s.push(x).contains(y) <==> (s.contains(y) || y == x),
{
    if s.contains(y) {
        let i = choose|i: int| 0 <= i < s.len() && s[i] == y;
        assert(s.push(x)[i] == y);
    }
    assert(s.push(x)[s.len() as int] == x);
    if s.push(x).contains(y) {
        let i = choose|i: int| 0 <= i < s.push(x).len() && s.push(x)[i] == y;
        if i < s.len() {
            assert(s[i] == y);
        }
    }
}

/// Registering a fresh id preserves the invariant.
proof fn lemma_register_wf(m: ServerModel, uid: Seq<char>)
    requires
        model_wf(m),
        !m.issued.contains(uid),
    ensures
        model_wf(spec_register(m, uid)),
{
    let m2 = spec_register(m, uid);
    assert(rooms_ok(m2));
    assert forall|rn: Seq<char>, uid2: Seq<char>|
        m2.rooms.contains_key(rn) && #[trigger] has_key(m2.rooms[rn], uid2) implies m2
        .users
        .contains_key(uid2) && m2.users[uid2] == Some(rn) by {
        assert(has_key(m.rooms[rn], uid2));
        assert(m.users.contains_key(uid2));
        assert(m.issued.contains(uid2));
    }
    assert forall|uid2: Seq<char>| #[trigger]
        m2.users.contains_key(uid2) implies user_room_consistent_at(m2, uid2) by {
        if uid2 != uid {
            assert(m.users.contains_key(uid2));
        }
    }
    assert forall|uid2: Seq<char>| #[trigger]
        m2.users.contains_key(uid2) implies m2.issued.contains(uid2) by {
        if uid2 == uid {
            assert(m2.issued[m.issued.len() as int] == uid);
        } else {
            assert(m.users.contains_key(uid2));
            lemma_push_contains(m.issued, uid, uid2);
        }
    }
    assert forall|i: int, j: int| 0 <= i < j < m2.issued.len() implies m2.issued[i]
        != m2.issued[j] by {
        if j == m.issued.len() {
            assert(m2.issued[j] == uid);
            assert(m2.issued[i] == m.issued[i]);
            if m.issued[i] == uid {
                assert(m.issued.contains(uid));
            }
        }
    }
}

/// What leaving preserves: every invariant but the departing session's
/// own room pointer, which then points at a room it no longer stands in.
proof fn lemma_leave_props(m: ServerModel, uid: Seq<char>)
    requires
        model_wf(m),
    ensures
        spec_leave(m, uid).users == m.users,
        spec_leave(m, uid).issued == m.issued,
        rooms_ok(spec_leave(m, uid)),
        members_backed(spec_leave(m, uid)),
        forall|uid2: Seq<char>| #[trigger]
            spec_leave(m, uid).users.contains_key(uid2) && uid2 != uid ==> user_room_consistent_at(
                spec_leave(m, uid),
                uid2,
            ),
        forall|rn: Seq<char>| #[trigger]
            spec_leave(m, uid).rooms.contains_key(rn) ==> !has_key(
                spec_leave(m, uid).rooms[rn],
                uid,
            ),
{
    let m1 = spec_leave(m, uid);
    if m.users.contains_key(uid) && m.users[uid] is Some && m.rooms.contains_key(
        m.users[uid]->Some_0,
    ) {
        let rn0 = m.users[uid]->Some_0;
        let members = remove_key(m.rooms[rn0], uid);
        assert forall|rn: Seq<char>| #[trigger]
            m1.rooms.contains_key(rn) implies distinct_keys(m1.rooms[rn]) && m1.rooms[rn].len()
            > 0 by {
            if rn == rn0 {
                lemma_to_map_remove(m.rooms[rn0], uid);
            }
        }
        assert forall|rn: Seq<char>, uid2: Seq<char>|
            m1.rooms.contains_key(rn) && #[trigger] has_key(m1.rooms[rn], uid2) implies m1
            .users
            .contains_key(uid2) && m1.users[uid2] == Some(rn) by {
            if rn == rn0 {
                lemma_remove_key_keys(m.rooms[rn0], uid, uid2);
            }
        }
        assert forall|uid2: Seq<char>| #[trigger]
            m1.users.contains_key(uid2) && uid2 != uid implies user_room_consistent_at(
            m1,
            uid2,
        ) by {
            if m1.users[uid2] is Some {
                let rn2 = m1.users[uid2]->Some_0;
                assert(has_key(m.rooms[rn2], uid2));
                if rn2 == rn0 {
                    lemma_remove_key_keys(m.rooms[rn0], uid, uid2);
                    assert(has_key(members, uid2));
                    let w = choose|w: int| 0 <= w < members.len() && members[w].0 == uid2;
                    assert(members.len() > 0);
                }
            }
        }
        assert forall|rn: Seq<char>| #[trigger]
            m1.rooms.contains_key(rn) implies !has_key(m1.rooms[rn], uid) by {
            if rn == rn0 {
                lemma_remove_key_keys(m.rooms[rn0], uid, uid);
            } else {
                if has_key(m.rooms[rn], uid) {
                    assert(m.users[uid] == Some(rn));
                }
            }
        }
    } else {
        assert forall|rn: Seq<char>| #[trigger]
            m1.rooms.contains_key(rn) implies !has_key(m1.rooms[rn], uid) by {
            if has_key(m.rooms[rn], uid) {
                assert(m.users.contains_key(uid) && m.users[uid] == Some(rn));
            }
        }
    }
}

/// Eviction preserves the invariant.
proof fn lemma_evict_wf(m: ServerModel, uid: Seq<char>)
    requires
        model_wf(m),
    ensures
        model_wf(spec_evict(m, uid)),
{
    lemma_leave_props(m, uid);
    let m1 = spec_leave(m, uid);
    let m2 = spec_evict(m, uid);
    assert(rooms_ok(m2));
    assert forall|rn: Seq<char>, uid2: Seq<char>|
        m2.rooms.contains_key(rn) && #[trigger] has_key(m2.rooms[rn], uid2) implies m2
        .users
        .contains_key(uid2) && m2.users[uid2] == Some(rn) by {
        assert(has_key(m1.rooms[rn], uid2));
        assert(uid2 != uid);
    }
    assert forall|uid2: Seq<char>| #[trigger]
        m2.users.contains_key(uid2) implies user_room_consistent_at(m2, uid2) by {
        assert(uid2 != uid);
        assert(m1.users.contains_key(uid2));
    }
    assert forall|uid2: Seq<char>| #[trigger] m2.users.contains_key(uid2) implies m2.issued.contains(
        uid2,
    ) by {
        assert(m.users.contains_key(uid2));
    }
}

/// Joining preserves the invariant, for a live session that is not
/// already a member of the room it joins.
proof fn lemma_join_wf(m: ServerModel, uid: Seq<char>, rn: Seq<char>, name: Seq<char>)
    requires
        model_wf(m),
        m.users.contains_key(uid),
        m.users[uid] != Some(rn),
    ensures
        model_wf(spec_join(m, uid, rn, name)),
{
    lemma_leave_props(m, uid);
    let m1 = spec_leave(m, uid);
    let members = if m1.rooms.contains_key(rn) {
        m1.rooms[rn]
    } else {
        Seq::<(Seq<char>, Seq<char>)>::empty()
    };
    let m2 = spec_join(m, uid, rn, name);
    assert(m2.rooms == m1.rooms.insert(rn, members.push((uid, name))));
    if m1.rooms.contains_key(rn) {
        assert(!has_key(members, uid));
    }
    assert(distinct_keys(members)) by {
        if m1.rooms.contains_key(rn) {
        } else {
            assert(distinct_keys(Seq::<(Seq<char>, Seq<char>)>::empty()));
        }
    }
    lemma_to_map_push(members, uid, name);
    assert forall|rn2: Seq<char>| #[trigger]
        m2.rooms.contains_key(rn2) implies distinct_keys(m2.rooms[rn2]) && m2.rooms[rn2].len()
        > 0 by {
        if rn2 == rn {
            assert(m2.rooms[rn] == members.push((uid, name)));
        }
    }
    assert forall|rn2: Seq<char>, uid2: Seq<char>|
        m2.rooms.contains_key(rn2) && #[trigger] has_key(m2.rooms[rn2], uid2) implies m2
        .users
        .contains_key(uid2) && m2.users[uid2] == Some(rn2) by {
        if rn2 == rn {
            if uid2 != uid {
                let w = choose|w: int|
                    0 <= w < m2.rooms[rn].len() && m2.rooms[rn][w].0 == uid2;
                assert(m2.rooms[rn][w] == members.push((uid, name))[w]);
                if w < members.len() {
                    assert(members[w].0 == uid2);
                    assert(has_key(members, uid2));
                    assert(m1.rooms.contains_key(rn));
                    assert(m1.users[uid2] == Some(rn));
                } else {
                    assert(m2.rooms[rn][w].0 == uid);
                }
            }
        } else {
            assert(has_key(m1.rooms[rn2], uid2));
            assert(uid2 != uid);
        }
    }
    assert forall|uid2: Seq<char>| #[trigger]
        m2.users.contains_key(uid2) implies user_room_consistent_at(m2, uid2) by {
        if uid2 == uid {
            assert(m2.rooms[rn][members.len() as int].0 == uid);
            assert(has_key(m2.rooms[rn], uid));
        } else {
            if m2.users[uid2] is Some {
                let rn2 = m2.users[uid2]->Some_0;
                assert(user_room_consistent_at(m1, uid2));
                assert(has_key(m1.rooms[rn2], uid2));
                if rn2 == rn {
                    let w = choose|w: int|
                        0 <= w < m1.rooms[rn].len() && m1.rooms[rn][w].0 == uid2;
                    assert(members.push((uid, name))[w].0 == uid2);
                    assert(has_key(m2.rooms[rn], uid2));
                } else {
                    assert(has_key(m2.rooms[rn2], uid2));
                }
            }
        }
    }
    assert forall|uid2: Seq<char>| #[trigger] m2.users.contains_key(uid2) implies m2.issued.contains(
        uid2,
    ) by {
        assert(m.users.contains_key(uid2));
    }
}

impl TrustServer {
    /// Record a session under the id handed in; a collision with any id
    /// ever issued is a registration error and changes nothing.
    pub fn register_connection(&mut self, user_id: UserSessionId) -> (r: Result<
        UserSessionId,
        TrustServerError,
    >)
        requires
            old(self).wf(),
        ensures
            final(self).wf(),
            old(self)@.issued.contains(user_id@) ==> (r matches Err(
                TrustServerError::RegistrationError,
            ) && *final(self) == *old(self)),
            !old(self)@.issued.contains(user_id@) ==> {
                &&& r matches Ok(id) && id@ == user_id@
                &&& final(self)@ == spec_register(old(self)@, user_id@)
            },
    {
        if contains_str(&self.issued, &user_id) {
            return Err(TrustServerError::RegistrationError);
        }
        proof {
            // the fresh id is live nowhere: live users are issued
            lemma_to_map_contains(self.users_al(), user_id@);
            if has_key(self.users_al(), user_id@) {
                assert(self@.users.contains_key(user_id@));
            }
            assert forall|j: int|
                0 <= j < self.users_al().len() implies self.users_al()[j].0 != user_id@ by {
                assert(self.users_al()[j].0 == self.users@[j].0@);
                if self.users_al()[j].0 == user_id@ {
                    assert(has_key(self.users_al(), user_id@));
                }
            }
            lemma_to_map_push(self.users_al(), user_id@, None);
            lemma_register_wf(old(self)@, user_id@);
        }
        let ghost old_users_al = self.users_al();
        let ghost old_issued = self.issued_views();
        self.issued.push(user_id.clone());
        self.users.push((user_id.clone(), None));
        proof {
            assert(self.users_al() =~= old_users_al.push((user_id@, None)));
            assert(self.issued_views() =~= old_issued.push(user_id@));
            assert(self.rooms_al() == old(self).rooms_al());
        }
        Ok(user_id)
    }

    /// Handle a new client connection: draw a fresh random session id and
    /// register it. Whether the draw collides is up to the id generator,
    /// so success is not promised; a returned id is fresh and recorded.
    pub fn handle_new_connection(&mut self) -> (r: Result<UserSessionId, TrustServerError>)
        requires
            old(self).wf(),
        ensures
            final(self).wf(),
            r matches Ok(id) ==> !old(self)@.issued.contains(id@) && final(self)@ == spec_register(
                old(self)@,
                id@,
            ),
            r is Err ==> *final(self) == *old(self),
    {
        let id = new_session_id();
        self.register_connection(id)
    }

    /// The current room of a session, if it joined one.
    pub fn get_user_room(&self, user_id: &str) -> (r: Option<RoomName>)
        requires
            self.wf(),
        ensures
            match r {
                Some(rn) => self@.users.contains_key(user_id@) && self@.users[user_id@] == Some(
                    rn@,
                ),
                None => !(self@.users.contains_key(user_id@) && self@.users[user_id@] is Some),
            },
    {
        proof {
            lemma_to_map_contains(self.users_al(), user_id@);
        }
        match find_idx(&self.users, user_id) {
            Some(i) => {
                proof {
                    assert(self.users_al()[i as int].0 == user_id@);
                    lemma_to_map_at(self.users_al(), i as int);
                }
                match &self.users[i].1 {
                    Some(rn) => Some(rn.clone()),
                    None => None,
                }
            },
            None => {
                proof {
                    assert forall|j: int|
                        0 <= j < self.users_al().len() implies self.users_al()[j].0
                        != user_id@ by {
                        assert(self.users_al()[j].0 == self.users@[j].0@);
                    }
                }
                None
            },
        }
    }

    /// Send a direct message to a session: one delivery if it is live,
    /// none otherwise.
    pub fn message_user(&self, user_id: &str, message: &str) -> (r: Option<Delivery>)
        requires
            self.wf(),
        ensures
            self@.users.contains_key(user_id@) ==> (r matches Some(d) && d.user_id@ == user_id@
                && d.message.0@ == message@),
            !self@.users.contains_key(user_id@) ==> r is None,
    {
        proof {
            lemma_to_map_contains(self.users_al(), user_id@);
        }
        match find_idx(&self.users, user_id) {
            Some(i) => {
                proof {
                    assert(self.users_al()[i as int].0 == user_id@);
                    assert(has_key(self.users_al(), user_id@));
                }
                Some(
                    Delivery {
                        user_id: user_id.to_owned(),
                        message: PlainTextMessage(message.to_owned()),
                    },
                )
            },
            None => {
                proof {
                    assert forall|j: int|
                        0 <= j < self.users_al().len() implies self.users_al()[j].0
                        != user_id@ by {
                        assert(self.users_al()[j].0 == self.users@[j].0@);
                    }
                }
                None
            },
        }
    }

    /// The display name under which a session stands in its room, if it
    /// joined one.
    pub fn get_username(&self, user_id: &str) -> (r: Option<String>)
        requires
            self.wf(),
        ensures
            r is Some <==> (self@.users.contains_key(user_id@) && self@.users[user_id@] is Some),
            r matches Some(name) ==> name@ == to_map(
                self@.rooms[self@.users[user_id@]->Some_0],
            )[user_id@],
    {
        match self.get_user_room(user_id) {
            Some(rn) => {
                proof {
                    lemma_to_map_contains(self.rooms_al(), rn@);
                }
                match find_idx(&self.rooms, rn.as_str()) {
                    Some(ri) => {
                        proof {
                            assert(self.rooms_al()[ri as int].0 == rn@);
                            lemma_to_map_at(self.rooms_al(), ri as int);
                            assert(self@.rooms[rn@] == self.rooms@[ri as int].1.members_al());
                            lemma_to_map_contains(
                                self.rooms@[ri as int].1.members_al(),
                                user_id@,
                            );
                        }
                        let name = self.rooms[ri].1.get_username(user_id);
                        proof {
                            assert(has_key(self@.rooms[rn@], user_id@));
                            assert(name is Some);
                        }
                        name
                    },
                    None => {
                        proof {
                            assert(self@.rooms.contains_key(rn@));
                            let w = choose|w: int|
                                0 <= w < self.rooms_al().len() && self.rooms_al()[w].0 == rn@;
                            assert(self.rooms@[w].0@ == rn@);
                            assert(false);
                        }
                        None
                    },
                }
            },
            None => None,
        }
    }

    /// Remove a session from its currently active room, dropping the
    /// room the instant it becomes empty. The session record keeps its
    /// (now stale) room name; eviction and joining rewrite it.
    fn remove_user_active_room(&mut self, user_id: &str)
        requires
            old(self).wf(),
        ensures
            final(self)@ == spec_leave(old(self)@, user_id@),
            final(self).users == old(self).users,
            final(self).issued == old(self).issued,
            distinct_keys(final(self).rooms_al()),
    {
        let room_opt = self.get_user_room(user_id);
        match room_opt {
            Some(rn) => {
                proof {
                    lemma_to_map_contains(self.rooms_al(), rn@);
                    assert(self@.rooms.contains_key(rn@));
                }
                match find_idx(&self.rooms, rn.as_str()) {
                    Some(ri) => {
                        proof {
                            assert(self.rooms_al()[ri as int].0 == rn@);
                            lemma_to_map_at(self.rooms_al(), ri as int);
                            lemma_remove_key_at(self.rooms_al(), ri as int);
                            lemma_to_map_remove(self.rooms_al(), rn@);
                        }
                        let ghost old_rooms_al = self.rooms_al();
                        let ghost old_members = self.rooms@[ri as int].1.members_al();
                        let (rn_s, mut room) = self.rooms.remove(ri);
                        proof {
                            assert(distinct_keys(old_members));
                        }
                        room.remove(user_id);
                        if room.is_empty() {
                            proof {
                                assert(self.rooms_al() =~= old_rooms_al.remove(ri as int));
                                assert(final(self)@ =~= spec_leave(old(self)@, user_id@));
                            }
                        } else {
                            proof {
                                lemma_to_map_update(
                                    old_rooms_al,
                                    ri as int,
                                    remove_key(old_members, user_id@),
                                );
                            }
                            self.rooms.insert(ri, (rn_s, room));
                            proof {
                                assert(self.rooms_al() =~= old_rooms_al.update(
                                    ri as int,
                                    (rn@, remove_key(old_members, user_id@)),
                                ));
                                assert(final(self)@ =~= spec_leave(old(self)@, user_id@));
                            }
                        }
                    },
                    None => {
                        proof {
                            let w = choose|w: int|
                                0 <= w < self.rooms_al().len() && self.rooms_al()[w].0 == rn@;
                            assert(self.rooms@[w].0@ == rn@);
                            assert(false);
                        }
                    },
                }
            },
            None => {
                proof {
                    assert(final(self)@ =~= spec_leave(old(self)@, user_id@));
                }
            },
        }
    }

    /// Evict a session completely: leave its room, then delete its
    /// record. Unknown ids are a no-op, so disconnecting is idempotent.
    pub fn evict_user_from_server(&mut self, user_id: &str)
        requires
            old(self).wf(),
        ensures
            final(self).wf(),
            final(self)@ == spec_evict(old(self)@, user_id@),
    {
        self.remove_user_active_room(user_id);
        proof {
            lemma_to_map_contains(self.users_al(), user_id@);
        }
        match find_idx(&self.users, user_id) {
            Some(i) => {
                proof {
                    assert(self.users_al()[i as int].0 == user_id@);
                    lemma_remove_key_at(self.users_al(), i as int);
                    lemma_to_map_remove(self.users_al(), user_id@);
                }
                let ghost old_users_al = self.users_al();
                let _ = self.users.remove(i);
                proof {
                    assert(self.users_al() =~= old_users_al.remove(i as int));
                }
            },
            None => {
                proof {
                    assert forall|j: int|
                        0 <= j < self.users_al().len() implies self.users_al()[j].0
                        != user_id@ by {
                        assert(self.users_al()[j].0 == self.users@[j].0@);
                    }
                    assert(!has_key(self.users_al(), user_id@));
                    assert(to_map(self.users_al()).remove(user_id@) =~= to_map(
                        self.users_al(),
                    ));
                }
            },
        }
        proof {
            lemma_evict_wf(old(self)@, user_id@);
            assert(final(self)@ =~= spec_evict(old(self)@, user_id@));
        }
    }

    /// Add a session to a room: the join transition. An unknown session
    /// id is rejected; a session already standing in that room is
    /// rejected without changing anything; otherwise the session leaves
    /// its previous room, stands at the back of the named room (created
    /// on first join), and its record points at it.
    pub fn add_user_to_room(&mut self, room_name: &str, user_id: &str, username: &str) -> (r:
        Result<(), ChatRoomError>)
        requires
            old(self).wf(),
        ensures
            final(self).wf(),
            !old(self)@.users.contains_key(user_id@) ==> (r matches Err(
                ChatRoomError::InvalidUserId(u),
            ) && u@ == user_id@ && *final(self) == *old(self)),
            old(self)@.users.contains_key(user_id@) && old(self)@.users[user_id@] == Some(
                room_name@,
            ) ==> (r matches Err(ChatRoomError::DuplicateSessionId(u)) && u@ == user_id@
                && *final(self) == *old(self)),
            old(self)@.users.contains_key(user_id@) && old(self)@.users[user_id@] != Some(
                room_name@,
            ) ==> (r is Ok && final(self)@ == spec_join(
                old(self)@,
                user_id@,
                room_name@,
                username@,
            )),
    {
        proof {
            lemma_to_map_contains(self.users_al(), user_id@);
        }
        let ui = match find_idx(&self.users, user_id) {
            None => {
                proof {
                    assert forall|j: int|
                        0 <= j < self.users_al().len() implies self.users_al()[j].0
                        != user_id@ by {
                        assert(self.users_al()[j].0 == self.users@[j].0@);
                    }
                }
                return Err(ChatRoomError::InvalidUserId(user_id.to_owned()));
            },
            Some(ui) => ui,
        };
        proof {
            assert(self.users_al()[ui as int].0 == user_id@);
            lemma_to_map_at(self.users_al(), ui as int);
        }
        let target: String = room_name.to_owned();
        let duplicate = match &self.users[ui].1 {
            Some(current) => *current == target,
            None => false,
        };
        if duplicate {
            return Err(ChatRoomError::DuplicateSessionId(user_id.to_owned()));
        }
        self.remove_user_active_room(user_id);
        let ghost m1 = spec_leave(old(self)@, user_id@);
        let ghost rooms_al_1 = self.rooms_al();
        proof {
            lemma_leave_props(old(self)@, user_id@);
            lemma_to_map_contains(rooms_al_1, room_name@);
        }
        match find_idx(&self.rooms, room_name) {
            Some(ri) => {
                proof {
                    assert(rooms_al_1[ri as int].0 == room_name@);
                    lemma_to_map_at(rooms_al_1, ri as int);
                    assert(m1.rooms.contains_key(room_name@));
                    assert(m1.rooms[room_name@] == self.rooms@[ri as int].1.members_al());
                    assert(!has_key(m1.rooms[room_name@], user_id@));
                    lemma_to_map_contains(self.rooms@[ri as int].1.members_al(), user_id@);
                }
                let ghost old_members = self.rooms@[ri as int].1.members_al();
                let (rn_s, mut room) = self.rooms.remove(ri);
                let res = room.add(user_id, username);
                proof {
                    assert(res is Ok);
                    lemma_to_map_update(
                        rooms_al_1,
                        ri as int,
                        old_members.push((user_id@, username@)),
                    );
                }
                self.rooms.insert(ri, (rn_s, room));
                proof {
                    assert(self.rooms_al() =~= rooms_al_1.update(
                        ri as int,
                        (room_name@, old_members.push((user_id@, username@))),
                    ));
                }
            },
            None => {
                proof {
                    assert forall|j: int|
                        0 <= j < rooms_al_1.len() implies rooms_al_1[j].0 != room_name@ by {
                        assert(rooms_al_1[j].0 == self.rooms@[j].0@);
                    }
                    assert(!has_key(rooms_al_1, room_name@));
                    assert(!m1.rooms.contains_key(room_name@));
                }
                let mut room = Room::new();
                let res = room.add(user_id, username);
                proof {
                    assert(res is Ok);
                    lemma_to_map_push(
                        rooms_al_1,
                        room_name@,
                        Seq::<(Seq<char>, Seq<char>)>::empty().push((user_id@, username@)),
                    );
                }
                self.rooms.push((room_name.to_owned(), room));
                proof {
                    assert(room.members_al() =~= Seq::<(Seq<char>, Seq<char>)>::empty().push(
                        (user_id@, username@),
                    ));
                    assert(self.rooms_al() =~= rooms_al_1.push(
                        (
                            room_name@,
                            Seq::<(Seq<char>, Seq<char>)>::empty().push((user_id@, username@)),
                        ),
                    ));
                }
            },
        }
        proof {
            lemma_to_map_update(self.users_al(), ui as int, Some(room_name@));
        }
        let ghost users_al_1 = self.users_al();
        let entry = self.users.remove(ui);
        self.users.insert(ui, (entry.0, Some(room_name.to_owned())));
        proof {
            assert(self.users_al() =~= users_al_1.update(ui as int, (user_id@, Some(room_name@))));
            lemma_join_wf(old(self)@, user_id@, room_name@, username@);
            assert(final(self)@ =~= spec_join(old(self)@, user_id@, room_name@, username@));
        }
        Ok(())
    }

    /// Broadcast a message to all members of a room, excluding the
    /// sessions given; a missing room delivers nothing.
    pub fn broadcast_to_room(
        &self,
        room_name: &str,
        message: &str,
        exclude_user_ids: &Vec<UserSessionId>,
    ) -> (out: Vec<Delivery>)
        requires
            self.wf(),
        ensures
            self@.rooms.contains_key(room_name@) ==> delivery_views(out@) == spec_broadcast(
                self@.rooms[room_name@],
                str_views(exclude_user_ids@),
                message@,
            ),
            !self@.rooms.contains_key(room_name@) ==> out@.len() == 0,
    {
        proof {
            lemma_to_map_contains(self.rooms_al(), room_name@);
        }
        match find_idx(&self.rooms, room_name) {
            Some(ri) => {
                proof {
                    assert(self.rooms_al()[ri as int].0 == room_name@);
                    lemma_to_map_at(self.rooms_al(), ri as int);
                }
                self.rooms[ri].1.broadcast_to_excluding(message, exclude_user_ids)
            },
            None => {
                proof {
                    assert forall|j: int|
                        0 <= j < self.rooms_al().len() implies self.rooms_al()[j].0
                        != room_name@ by {
                        assert(self.rooms_al()[j].0 == self.rooms@[j].0@);
                    }
                }
                Vec::new()
            },
        }
    }

    /// Broadcast a message to the room of a session; a session without a
    /// room delivers nothing.
    pub fn broadcast_to_room_of_user(
        &self,
        user_id: &str,
        message: &str,
        exclude_user_ids: &Vec<UserSessionId>,
    ) -> (out: Vec<Delivery>)
        requires
            self.wf(),
        ensures
            (self@.users.contains_key(user_id@) && self@.users[user_id@] is Some)
                ==> delivery_views(out@) == spec_broadcast(
                self@.rooms[self@.users[user_id@]->Some_0],
                str_views(exclude_user_ids@),
                message@,
            ),
            !(self@.users.contains_key(user_id@) && self@.users[user_id@] is Some) ==> out@.len()
                == 0,
    {
        match self.get_user_room(user_id) {
            Some(rn) => self.broadcast_to_room(rn.as_str(), message, exclude_user_ids),
            None => Vec::new(),
        }
    }

    /// Route one command from a session: the join and broadcast
    /// transitions, each returning its deliveries.
    pub fn handle_command(&mut self, command: ChatRoomContract) -> (r: (
        Result<String, ChatServerError>,
        Vec<Delivery>,
    ))
        requires
            old(self).wf(),
        ensures
            final(self).wf(),
            command matches ChatRoomContract::Join { user_id, username, room_name, raw: _ } ==> {
                &&& (!old(self)@.users.contains_key(user_id@) ==> (r.0 matches Err(
                    ChatServerError::ChatRoomError(ChatRoomError::InvalidUserId(u)),
                ) && u@ == user_id@ && *final(self) == *old(self) && r.1@.len() == 0))
                &&& (old(self)@.users.contains_key(user_id@) && !(valid_name(room_name@)
                    && valid_name(username@)) ==> (r.0 matches Err(
                    ChatServerError::ChatRoomError(ChatRoomError::InvalidName),
                ) && *final(self) == *old(self) && r.1@.len() == 0))
                &&& (old(self)@.users.contains_key(user_id@) && valid_name(room_name@)
                    && valid_name(username@) && old(self)@.users[user_id@] == Some(room_name@)
                    ==> (r.0 matches Err(
                    ChatServerError::ChatRoomError(ChatRoomError::DuplicateSessionId(u)),
                ) && u@ == user_id@ && *final(self) == *old(self) && r.1@.len() == 0))
                &&& (old(self)@.users.contains_key(user_id@) && valid_name(room_name@)
                    && valid_name(username@) && old(self)@.users[user_id@] != Some(room_name@)
                    ==> (r.0 matches Ok(s) && s@ == Seq::<char>::empty() && final(self)@
                    == spec_join(old(self)@, user_id@, room_name@, username@) && delivery_views(
                    r.1@,
                ) == spec_broadcast(
                    spec_join(old(self)@, user_id@, room_name@, username@).rooms[room_name@],
                    Seq::empty(),
                    spec_user_joined_message(username@),
                )))
            },
            command matches ChatRoomContract::BroadcastMessage { user_id, content } ==> {
                &&& *final(self) == *old(self)
                &&& r.0 matches Ok(s) && s@ == Seq::<char>::empty()
                &&& (old(self)@.users.contains_key(user_id@) && old(self)@.users[user_id@] is Some
                    ==> delivery_views(r.1@) == spec_broadcast(
                    old(self)@.rooms[old(self)@.users[user_id@]->Some_0],
                    Seq::empty(),
                    spec_new_chat_message(
                        to_map(old(self)@.rooms[old(self)@.users[user_id@]->Some_0])[user_id@],
                        content@,
                    ),
                ))
                &&& (old(self)@.users.contains_key(user_id@) && old(self)@.users[user_id@] is None
                    ==> delivery_views(r.1@) == seq![(user_id@, spec_error_message())])
                &&& (!old(self)@.users.contains_key(user_id@) ==> r.1@.len() == 0)
            },
    {
        match command {
            ChatRoomContract::Join { user_id, username, room_name, raw: _ } => {
                proof {
                    lemma_to_map_contains(self.users_al(), user_id@);
                }
                match find_idx(&self.users, user_id.as_str()) {
                    None => {
                        proof {
                            assert forall|j: int|
                                0 <= j < self.users_al().len() implies self.users_al()[j].0
                                != user_id@ by {
                                assert(self.users_al()[j].0 == self.users@[j].0@);
                            }
                        }
                        return (
                            Err(
                                ChatServerError::ChatRoomError(
                                    ChatRoomError::InvalidUserId(user_id),
                                ),
                            ),
                            Vec::new(),
                        );
                    },
                    Some(ui) => {
                        proof {
                            assert(self.users_al()[ui as int].0 == user_id@);
                        }
                    },
                }
                if !(valid_chatroom_name_ref(room_name.as_str()) && valid_username_ref(
                    username.as_str(),
                )) {
                    return (
                        Err(ChatServerError::ChatRoomError(ChatRoomError::InvalidName)),
                        Vec::new(),
                    );
                }
                match self.add_user_to_room(
                    room_name.as_str(),
                    user_id.as_str(),
                    username.as_str(),
                ) {
                    Err(e) => (Err(ChatServerError::ChatRoomError(e)), Vec::new()),
                    Ok(()) => {
                        let text = user_joined_message(username.as_str());
                        let excl: Vec<UserSessionId> = Vec::new();
                        let out = self.broadcast_to_room(room_name.as_str(), text.as_str(), &excl);
                        proof {
                            assert(str_views(excl@) =~= Seq::<Seq<char>>::empty());
                        }
                        (Ok(String::new()), out)
                    },
                }
            },
            ChatRoomContract::BroadcastMessage { user_id, content } => {
                proof {
                    lemma_to_map_contains(self.users_al(), user_id@);
                }
                match self.get_username(user_id.as_str()) {
                    None => {
                        let err = error_message();
                        let out: Vec<Delivery> = match self.message_user(
                            user_id.as_str(),
                            err.as_str(),
                        ) {
                            Some(d) => {
                                let mut v: Vec<Delivery> = Vec::new();
                                v.push(d);
                                proof {
                                    assert(delivery_views(v@) =~= seq![
                                        (user_id@, spec_error_message()),
                                    ]);
                                }
                                v
                            },
                            None => Vec::new(),
                        };
                        (Ok(String::new()), out)
                    },
                    Some(name) => {
                        let text = new_chat_message(name.as_str(), content.as_str());
                        let excl: Vec<UserSessionId> = Vec::new();
                        let out = self.broadcast_to_room_of_user(
                            user_id.as_str(),
                            text.as_str(),
                            &excl,
                        );
                        proof {
                            assert(str_views(excl@) =~= Seq::<Seq<char>>::empty());
                        }
                        (Ok(String::new()), out)
                    },
                }
            },
        }
    }

    /// A session disconnected: evict it, then tell the remaining members
    /// of its former room that it left. Unknown ids are a no-op.
    pub fn handle_disconnect(&mut self, msg: DisconnectContract) -> (out: Vec<Delivery>)
        requires
            old(self).wf(),
        ensures
            final(self).wf(),
            final(self)@ == spec_evict(old(self)@, msg.user_id@),
            (old(self)@.users.contains_key(msg.user_id@) && old(self)@.users[msg.user_id@] is Some)
                ==> delivery_views(out@) == spec_broadcast(
                remove_key(
                    old(self)@.rooms[old(self)@.users[msg.user_id@]->Some_0],
                    msg.user_id@,
                ),
                Seq::empty(),
                spec_user_left_message(
                    to_map(
                        old(self)@.rooms[old(self)@.users[msg.user_id@]->Some_0],
                    )[msg.user_id@],
                ),
            ),
            !(old(self)@.users.contains_key(msg.user_id@) && old(self)@.users[msg.user_id@]
                is Some) ==> out@.len() == 0,
    {
        let uid = msg.user_id;
        match self.get_user_room(uid.as_str()) {
            Some(rn) => {
                let name = match self.get_username(uid.as_str()) {
                    Some(n) => n,
                    None => {
                        proof {
                            assert(false);
                        }
                        String::new()
                    },
                };
                self.evict_user_from_server(uid.as_str());
                let text = user_left_message(name.as_str());
                let excl: Vec<UserSessionId> = Vec::new();
                let out = self.broadcast_to_room(rn.as_str(), text.as_str(), &excl);
                proof {
                    let m = old(self)@;
                    let remaining = remove_key(m.rooms[rn@], uid@);
                    assert(str_views(excl@) =~= Seq::<Seq<char>>::empty());
                    if remaining.len() == 0 {
                        assert(!self@.rooms.contains_key(rn@));
                        assert(delivery_views(out@) =~= Seq::<(Seq<char>, Seq<char>)>::empty());
                    } else {
                        assert(self@.rooms.contains_key(rn@));
                        assert(self@.rooms[rn@] == remaining);
                    }
                }
                out
            },
            None => {
                self.evict_user_from_server(uid.as_str());
                Vec::new()
            },
        }
    }
}

/// Session ids are pairwise distinct across a whole run. A successful
/// connect returns an id outside everything issued before it, and every
/// transition only extends the issued list; so when a second connect
/// succeeds from any later state that still records the first id, the
/// two ids differ.
pub proof fn lemma_connect_ids_distinct(
    pre1: ServerModel,
    pre2: ServerModel,
    id1: Seq<char>,
    id2: Seq<char>,
)
    requires
        !pre1.issued.contains(id1),
        pre2.issued.contains(id1),
        !pre2.issued.contains(id2),
    ensures
        id1 != id2,
{
}

/// No transition forgets an issued id: registering appends one, and the
/// room transitions leave the list alone.
pub proof fn lemma_issued_monotone(m: ServerModel, uid: Seq<char>, rn: Seq<char>, nm: Seq<char>)
    ensures
        spec_register(m, uid).issued == m.issued.push(uid),
        spec_register(m, uid).issued.contains(uid),
        forall|id: Seq<char>| m.issued.contains(id) ==> spec_register(m, uid).issued.contains(id),
        spec_leave(m, uid).issued == m.issued,
        spec_join(m, uid, rn, nm).issued == m.issued,
        spec_evict(m, uid).issued == m.issued,
{
    assert(spec_register(m, uid).issued[m.issued.len() as int] == uid);
    assert forall|id: Seq<char>| m.issued.contains(id) implies spec_register(
        m,
        uid,
    ).issued.contains(id) by {
        lemma_push_contains(m.issued, uid, id);
    }
}

/// Empty-room cleanup: a session that joins a fresh room and disconnects
/// right away leaves no trace of the room behind.
pub proof fn lemma_join_then_disconnect_removes_room(
    m: ServerModel,
    uid: Seq<char>,
    rn: Seq<char>,
    name: Seq<char>,
)
    requires
        model_wf(m),
        m.users.contains_key(uid),
        m.users[uid] is None,
        !m.rooms.contains_key(rn),
    ensures
        !spec_evict(spec_join(m, uid, rn, name), uid).rooms.contains_key(rn),
{
    let mj = spec_join(m, uid, rn, name);
    assert(spec_leave(m, uid) == m);
    let members = Seq::<(Seq<char>, Seq<char>)>::empty().push((uid, name));
    assert(mj.rooms[rn] == members);
    assert(mj.users[uid] == Some(rn));
    assert(members.drop_last() =~= Seq::<(Seq<char>, Seq<char>)>::empty());
    assert(members.last() == (uid, name));
    assert(remove_key(members, uid) == remove_key(
        Seq::<(Seq<char>, Seq<char>)>::empty(),
        uid,
    ));
    assert(remove_key(members, uid) == Seq::<(Seq<char>, Seq<char>)>::empty());
}

/// Two joins of the same new room name — the registry serializes
/// concurrent calls — create exactly one room, holding both members.
pub proof fn lemma_two_joins_one_room(
    m: ServerModel,
    uid1: Seq<char>,
    name1: Seq<char>,
    uid2: Seq<char>,
    name2: Seq<char>,
    rn: Seq<char>,
)
    requires
        model_wf(m),
        uid1 != uid2,
        m.users.contains_key(uid1) && m.users[uid1] is None,
        m.users.contains_key(uid2) && m.users[uid2] is None,
        !m.rooms.contains_key(rn),
    ensures
        spec_join(spec_join(m, uid1, rn, name1), uid2, rn, name2).rooms.dom() == m.rooms.dom()
            .insert(rn),
        spec_join(spec_join(m, uid1, rn, name1), uid2, rn, name2).rooms[rn] == seq![
            (uid1, name1),
            (uid2, name2),
        ],
{
    let ma = spec_join(m, uid1, rn, name1);
    assert(spec_leave(m, uid1) == m);
    assert(ma.rooms[rn] == Seq::<(Seq<char>, Seq<char>)>::empty().push((uid1, name1)));
    assert(ma.users == m.users.insert(uid1, Some(rn)));
    assert(ma.users[uid2] is None);
    assert(spec_leave(ma, uid2) == ma);
    let mb = spec_join(ma, uid2, rn, name2);
    assert(mb.rooms[rn] == ma.rooms[rn].push((uid2, name2)));
    assert(mb.rooms[rn] =~= seq![(uid1, name1), (uid2, name2)]);
    assert(mb.rooms.dom() =~= m.rooms.dom().insert(rn));
}

/// Is this room name valid by the grammar's rule?
fn valid_chatroom_name_ref(room_name: &str) -> (r: bool)
    ensures
        r == valid_name(room_name@),
{
    crate::commands::valid_chatroom_name(Some(room_name))
}

/// Is this username valid by the grammar's rule?
fn valid_username_ref(username: &str) -> (r: bool)
    ensures
        r == valid_name(username@),
{
    crate::commands::valid_username(Some(username))
}

} // verus!
