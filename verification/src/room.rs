//! A chat room: the membership of one named room, and exclusion-aware
//! broadcast.
//!
//! A room holds no reference back to the registry; a broadcast returns
//! the deliveries to perform, so membership and delivery stay separate.

use crate::alist::{
    contains_str, distinct_keys, find_idx, lemma_remove_key_absent, lemma_remove_key_at,
    lemma_to_map_at, lemma_to_map_contains, lemma_to_map_push, lemma_to_map_remove, remove_key,
    str_views, to_map,
};
use crate::contracts::{delivery_views, ChatRoomError, Delivery, PlainTextMessage};
use vstd::prelude::*;

verus! {

/// The member table of one room: session id to display name, in join
/// order.
pub struct Room {
    pub members: Vec<(String, String)>,
}

/// What a broadcast to `members` yields when `excl` is excluded: one
/// delivery of `text` per remaining member, in table order.
pub open spec fn spec_broadcast(
    members: Seq<(Seq<char>, Seq<char>)>,
    excl: Seq<Seq<char>>,
    text: Seq<char>,
) -> Seq<(Seq<char>, Seq<char>)>
    decreases members.len(),
{
    if members.len() == 0 {
        Seq::empty()
    } else {
        let rest = spec_broadcast(members.drop_last(), excl, text);
        if excl.contains(members.last().0) {
            rest
        } else {
            rest.push((members.last().0, text))
        }
    }
}

impl Room {
    /// The member table as a sequence of (session id, display name).
    pub open spec fn members_al(self) -> Seq<(Seq<char>, Seq<char>)> {
        self.members@.map_values(|p: (String, String)| (p.0@, p.1@))
    }

    /// The member table as a map.
    pub open spec fn members_map(self) -> Map<Seq<char>, Seq<char>> {
        to_map(self.members_al())
    }

    /// A room is well formed when no session id occurs twice.
    pub open spec fn wf(self) -> bool {
        distinct_keys(self.members_al())
    }

    /// An empty room.
    pub fn new() -> (r: Room)
        ensures
            r.wf(),
            r.members_al() == Seq::<(Seq<char>, Seq<char>)>::empty(),
    {
        let r = Room { members: Vec::new() };
        proof {
            assert(r.members_al() =~= Seq::<(Seq<char>, Seq<char>)>::empty());
        }
        r
    }

    /// Get the display name of a member.
    pub fn get_username(&self, user_id: &str) -> (r: Option<String>)
        requires
            self.wf(),
        ensures
            match r {
                Some(name) => self.members_map().contains_key(user_id@)
                    && self.members_map()[user_id@] == name@,
                None => !self.members_map().contains_key(user_id@),
            },
    {
        proof {
            lemma_to_map_contains(self.members_al(), user_id@);
        }
        match find_idx(&self.members, user_id) {
            Some(i) => {
                proof {
                    assert(self.members_al()[i as int].0 == user_id@);
                    lemma_to_map_at(self.members_al(), i as int);
                }
                Some(self.members[i].1.clone())
            },
            None => {
                proof {
                    assert forall|j: int|
                        0 <= j < self.members_al().len() implies self.members_al()[j].0
                        != user_id@ by {
                        assert(self.members_al()[j].0 == self.members@[j].0@);
                    }
                }
                None
            },
        }
    }

    /// Check if the chatroom is empty.
    pub fn is_empty(&self) -> (r: bool)
        ensures
            r == (self.members_al().len() == 0),
    {
        self.members.len() == 0
    }

    /// Add a member; a session already present is rejected and nothing
    /// changes.
    pub fn add(&mut self, user_id: &str, username: &str) -> (r: Result<(), ChatRoomError>)
        requires
            old(self).wf(),
        ensures
            final(self).wf(),
            old(self).members_map().contains_key(user_id@) ==> {
                &&& r matches Err(ChatRoomError::DuplicateSessionId(u)) && u@ == user_id@
                &&& *final(self) == *old(self)
            },
            !old(self).members_map().contains_key(user_id@) ==> {
                &&& r is Ok
                &&& final(self).members_al() == old(self).members_al().push(
                    (user_id@, username@),
                )
                &&& final(self).members_map() == old(self).members_map().insert(
                    user_id@,
                    username@,
                )
            },
    {
        proof {
            lemma_to_map_contains(self.members_al(), user_id@);
        }
        match find_idx(&self.members, user_id) {
            Some(i) => {
                proof {
                    assert(self.members_al()[i as int].0 == user_id@);
                }
                Err(ChatRoomError::DuplicateSessionId(user_id.to_owned()))
            },
            None => {
                proof {
                    assert forall|j: int|
                        0 <= j < self.members_al().len() implies self.members_al()[j].0
                        != user_id@ by {
                        assert(self.members_al()[j].0 == self.members@[j].0@);
                    }
                    lemma_to_map_push(self.members_al(), user_id@, username@);
                }
                let ghost old_al = self.members_al();
                self.members.push((user_id.to_owned(), username.to_owned()));
                proof {
                    assert(self.members_al() =~= old_al.push((user_id@, username@)));
                }
                Ok(())
            },
        }
    }

    /// Remove a member; absence is a no-op.
    pub fn remove(&mut self, user_id: &str)
        requires
            old(self).wf(),
        ensures
            final(self).wf(),
            final(self).members_al() == remove_key(old(self).members_al(), user_id@),
            final(self).members_map() == old(self).members_map().remove(user_id@),
    {
        proof {
            lemma_to_map_remove(self.members_al(), user_id@);
        }
        match find_idx(&self.members, user_id) {
            Some(i) => {
                proof {
                    assert(self.members_al()[i as int].0 == user_id@);
                    lemma_remove_key_at(self.members_al(), i as int);
                }
                let ghost old_al = self.members_al();
                let _ = self.members.remove(i);
                proof {
                    assert(self.members_al() =~= old_al.remove(i as int));
                }
            },
            None => {
                proof {
                    assert forall|j: int|
                        0 <= j < self.members_al().len() implies self.members_al()[j].0
                        != user_id@ by {
                        assert(self.members_al()[j].0 == self.members@[j].0@);
                    }
                    lemma_remove_key_absent(self.members_al(), user_id@);
                }
            },
        }
    }

    /// Broadcast a message to everyone in the room except the sessions
    /// given; the deliveries come back in member order.
    pub fn broadcast_to_excluding(&self, message: &str, excluding: &Vec<String>) -> (out: Vec<
        Delivery,
    >)
        ensures
            delivery_views(out@) == spec_broadcast(
                self.members_al(),
                str_views(excluding@),
                message@,
            ),
    {
        let mut out: Vec<Delivery> = Vec::new();
        let n = self.members.len();
        let mut i: usize = 0;
        proof {
            assert(self.members_al().take(0) =~= Seq::<(Seq<char>, Seq<char>)>::empty());
            assert(delivery_views(out@) =~= Seq::<(Seq<char>, Seq<char>)>::empty());
        }
        while i < n
            invariant
                i <= n,
                n == self.members@.len(),
                delivery_views(out@) == spec_broadcast(
                    self.members_al().take(i as int),
                    str_views(excluding@),
                    message@,
                ),
            decreases n - i,
        {
            let ghost al = self.members_al();
            let ghost prev = out@;
            let excluded = contains_str(excluding, &self.members[i].0);
            if !excluded {
                out.push(
                    Delivery {
                        user_id: self.members[i].0.clone(),
                        message: PlainTextMessage(message.to_owned()),
                    },
                );
            }
            proof {
                assert(al.take(i + 1).drop_last() =~= al.take(i as int));
                assert(al.take(i + 1).last() == al[i as int]);
                assert(al[i as int] == (self.members@[i as int].0@, self.members@[i as int].1@));
                if !excluded {
                    assert(delivery_views(out@) =~= delivery_views(prev).push(
                        (self.members@[i as int].0@, message@),
                    ));
                }
            }
            i = i + 1;
        }
        proof {
            assert(self.members_al().take(n as int) =~= self.members_al());
        }
        out
    }
}

/// With nobody excluded a broadcast reaches every member of the room, in
/// table order, each with exactly the given text — the sender included
/// whenever the sender is a member.
pub proof fn lemma_broadcast_excluding_none(members: Seq<(Seq<char>, Seq<char>)>, text: Seq<char>)
    ensures
        spec_broadcast(members, Seq::empty(), text).len() == members.len(),
        forall|i: int| 0 <= i < members.len() ==> spec_broadcast(members, Seq::empty(), text)[i]
            == (members[i].0, text),
    decreases members.len(),
{
    if members.len() > 0 {
        let d = members.drop_last();
        lemma_broadcast_excluding_none(d, text);
        assert(!Seq::<Seq<char>>::empty().contains(members.last().0));
        assert forall|i: int|
            0 <= i < members.len() implies spec_broadcast(members, Seq::empty(), text)[i] == (
        members[i].0, text) by {
            if i < members.len() - 1 {
                assert(d[i] == members[i]);
                assert(spec_broadcast(members, Seq::empty(), text)[i] == spec_broadcast(
                    d,
                    Seq::empty(),
                    text,
                )[i]);
            }
        }
    }
}

} // verus!
