//! Which appservices have a stake in which rooms and users.

use crate::ids::{completed_user_id, RoomId, UserId};
use crate::keys::single_key_bytes;
use crate::listing::{is_listing, texts};
use crate::ord_map::OrdMap;
use crate::service::{Data, Service};
use vstd::prelude::*;
use vstd::utf8::encode_utf8;

verus! {

/// For each room, what is known of which appservices are in it, by their ids.
pub type AppServiceInRoomCache = OrdMap<OrdMap<bool>>;

/// What a cache holds: for each room the answers, by appservice.
pub type Known = Map<Seq<u8>, Map<Seq<u8>, bool>>;

/// The entry of an appservice in the configuration.
#[derive(Debug)]
pub struct Registration {
    /// The id of the appservice.
    pub id: String,
    /// The localpart of the appservice's own user.
    pub sender_localpart: String,
}

/// An appservice that is registered with this server.
pub struct RegistrationInfo<F: Fn(&str) -> bool, G: Fn(&UserId) -> bool> {
    pub registration: Registration,
    /// Tells whether a user id is in the appservice's namespace of users.
    pub users: F,
    /// Tells whether a user is one of the appservice's own.
    pub user_match: G,
}

/// What the cache holds.
pub open spec fn known(cache: AppServiceInRoomCache) -> Known {
    cache@.map_values(|answers: OrdMap<bool>| answers@)
}

/// The cached answer to whether the appservice is in the room.
pub open spec fn recalled(known: Known, room: Seq<char>, id: Seq<char>) -> Option<bool> {
    let room = encode_utf8(room);
    let id = encode_utf8(id);
    if known.contains_key(room) && known[room].contains_key(id) {
        Some(known[room][id])
    } else {
        None
    }
}

/// The cache with the answer for one more room and appservice.
pub open spec fn remembering(known: Known, room: Seq<char>, id: Seq<char>, answer: bool) -> Known {
    let room = encode_utf8(room);
    let answers = if known.contains_key(room) {
        known[room]
    } else {
        Map::empty()
    };
    known.insert(room, answers.insert(encode_utf8(id), answer))
}

/// `users` may answer `answer` when asked about the user id.
pub open spec fn namespace_answers<F: Fn(&str) -> bool>(
    users: F,
    user: Seq<char>,
    answer: bool,
) -> bool {
    exists|text: &str| text@ == user && #[trigger] call_ensures(users, (text,), answer)
}

/// `r` tells whether the user `bridge` is joined to the room or a member of the room
/// is in the namespace `users`.
pub open spec fn in_room<F: Fn(&str) -> bool>(
    db: Data,
    room: Seq<char>,
    bridge: Seq<char>,
    users: F,
    r: bool,
) -> bool {
    if db.joined(bridge, room) {
        r
    } else if r {
        exists|user: Seq<char>| #[trigger]
            db.member(room, user) && namespace_answers(users, user, true)
    } else {
        forall|user: Seq<char>| #[trigger]
            db.member(room, user) ==> namespace_answers(users, user, false)
    }
}

/// All that decides what is answered about an appservice, other than the cache.
pub struct Inquiry<F: Fn(&str) -> bool> {
    pub db: Data,
    pub server_name: Seq<char>,
    pub id: Seq<char>,
    pub sender_localpart: Seq<char>,
    pub users: F,
}

impl<F: Fn(&str) -> bool> Inquiry<F> {
    /// The appservice's own user on this server.
    pub open spec fn bridge(self) -> Option<Seq<char>> {
        completed_user_id(self.sender_localpart, self.server_name)
    }

    /// Asked whether the appservice is in the room, with `before` cached, `r` is
    /// answered and `after` is cached then. A cached answer is given again. An
    /// appservice whose own user has no id is in no room, and that is not cached.
    pub open spec fn in_room(self, room: Seq<char>, before: Known, r: bool, after: Known) -> bool {
        match recalled(before, room, self.id) {
            Some(answer) => r == answer && after == before,
            None => match self.bridge() {
                None => !r && after == before,
                Some(bridge) => in_room(self.db, room, bridge, self.users, r) && after
                    == remembering(before, room, self.id, r),
            },
        }
    }

    /// Asked about one room after the other, the answer is no each time.
    pub open spec fn in_no_room(
        self,
        rooms: Seq<Seq<char>>,
        before: Known,
        after: Known,
    ) -> bool
        decreases rooms.len(),
    {
        if rooms.len() == 0 {
            after == before
        } else {
            exists|between: Known|
                self.in_no_room(rooms.drop_last(), before, between) && #[trigger] self.in_room(
                    rooms.last(),
                    between,
                    false,
                    after,
                )
        }
    }

    /// Asked about one room after the other, up to the first that the appservice is
    /// in, `r` tells whether there was one.
    pub open spec fn in_some_room(
        self,
        rooms: Seq<Seq<char>>,
        before: Known,
        r: bool,
        after: Known,
    ) -> bool {
        if r {
            exists|i: int, between: Known|
                0 <= i < rooms.len() && #[trigger] self.in_no_room(rooms.take(i), before, between)
                    && self.in_room(rooms[i], between, true, after)
        } else {
            self.in_no_room(rooms, before, after)
        }
    }
}

/// What is asked about an appservice of the service.
pub open spec fn inquiry<F: Fn(&str) -> bool, G: Fn(&UserId) -> bool>(
    service: Service,
    appservice: RegistrationInfo<F, G>,
) -> Inquiry<F> {
    Inquiry {
        db: service.db,
        server_name: service.server_name@,
        id: appservice.registration.id@,
        sender_localpart: appservice.registration.sender_localpart@,
        users: appservice.users,
    }
}

/// Looks an answer up in the cache.
pub fn recall(cache: &AppServiceInRoomCache, room_id: &RoomId, id: &str) -> (r: Option<bool>)
    ensures
        r == recalled(known(*cache), room_id@, id@),
{
    let room: Vec<u8> = single_key_bytes(room_id.as_str());
    match cache.get(room.as_slice()) {
        None => None,
        Some(answers) => {
            let key: Vec<u8> = single_key_bytes(id);
            match answers.get(key.as_slice()) {
                None => None,
                Some(answer) => Some(*answer),
            }
        },
    }
}

/// Puts an answer in the cache.
fn remember(cache: &mut AppServiceInRoomCache, room_id: &RoomId, id: &str, answer: bool)
    ensures
        known(*final(cache)) == remembering(known(*old(cache)), room_id@, id@, answer),
{
    let room: Vec<u8> = single_key_bytes(room_id.as_str());
    let mut answers: OrdMap<bool> = match cache.remove(room.as_slice()) {
        Some(answers) => answers,
        None => OrdMap::new(),
    };
    answers.insert(single_key_bytes(id), answer);
    cache.insert(room, answers);
    assert(known(*cache) =~= remembering(known(*old(cache)), room_id@, id@, answer));
}

impl Service {
    /// Tells whether the appservice with the user `bridge_user_id` is in the room:
    /// whether that user is joined to it, or some member of it is in the namespace
    /// `users`.
    pub fn bridge_in_room<F: Fn(&str) -> bool>(
        &self,
        room_id: &RoomId,
        bridge_user_id: &UserId,
        users: &F,
    ) -> (r: bool)
        requires
            forall|text: &str| call_requires(*users, (text,)),
        ensures
            in_room(self.db, room_id@, bridge_user_id@, *users, r),
    {
        if self.is_joined(bridge_user_id, room_id) {
            return true;
        }
        let members: Vec<UserId> = self.room_members(room_id);
        let ghost list = texts(members@);
        let mut i: usize = 0;
        while i < members.len()
            invariant
                i <= members@.len(),
                list == texts(members@),
                is_listing(list, |user: Seq<char>| self.db.member(room_id@, user)),
                !self.db.joined(bridge_user_id@, room_id@),
                forall|text: &str| call_requires(*users, (text,)),
                forall|j: int|
                    0 <= j < i ==> namespace_answers(*users, #[trigger] list[j], false),
            decreases members@.len() - i,
        {
            assert(list[i as int] == members@[i as int]@);
            assert(list.contains(list[i as int]));
            let text: &str = members[i].as_str();
            let yes: bool = users(text);
            assert(call_ensures(*users, (text,), yes));
            assert(namespace_answers(*users, list[i as int], yes));
            if yes {
                assert(self.db.member(room_id@, list[i as int]));
                return true;
            }
            i = i + 1;
        }
        assert forall|user: Seq<char>| #[trigger]
            self.db.member(room_id@, user) implies namespace_answers(*users, user, false) by {
            assert(list.contains(user));
        }
        false
    }

    /// Tells whether the appservice is in the room. The answer is cached.
    pub fn appservice_in_room<F: Fn(&str) -> bool, G: Fn(&UserId) -> bool>(
        &mut self,
        room_id: &RoomId,
        appservice: &RegistrationInfo<F, G>,
    ) -> (r: bool)
        requires
            forall|text: &str| call_requires(appservice.users, (text,)),
        ensures
            inquiry(*old(self), *appservice).in_room(
                room_id@,
                known(old(self).appservice_in_room_cache),
                r,
                known(final(self).appservice_in_room_cache),
            ),
            final(self).db == old(self).db,
            final(self).server_name == old(self).server_name,
    {
        let id: &str = appservice.registration.id.as_str();
        if let Some(cached) = recall(&self.appservice_in_room_cache, room_id, id) {
            return cached;
        }
        let bridge_user_id = UserId::parse_with_server_name(
            appservice.registration.sender_localpart.as_str(),
            &self.server_name,
        );
        match bridge_user_id {
            Err(_) => false,
            Ok(bridge_user_id) => {
                let in_room: bool = self.bridge_in_room(
                    room_id,
                    &bridge_user_id,
                    &appservice.users,
                );
                remember(&mut self.appservice_in_room_cache, room_id, id, in_room);
                in_room
            },
        }
    }

    /// Tells whether the appservice sees the user: whether the user is one of its
    /// own, or the appservice is in a room that the user is joined to. Answers about
    /// rooms are cached.
    pub fn appservice_sees_user<F: Fn(&str) -> bool, G: Fn(&UserId) -> bool>(
        &mut self,
        user_id: &UserId,
        appservice: &RegistrationInfo<F, G>,
    ) -> (r: bool)
        requires
            forall|text: &str| call_requires(appservice.users, (text,)),
            call_requires(appservice.user_match, (user_id,)),
        ensures
            ({
                let before = known(old(self).appservice_in_room_cache);
                let after = known(final(self).appservice_in_room_cache);
                ||| r && after == before && call_ensures(appservice.user_match, (user_id,), true)
                ||| call_ensures(appservice.user_match, (user_id,), false) && exists|
                    rooms: Seq<Seq<char>>,
                |
                    is_listing(
                        rooms,
                        |room: Seq<char>| old(self).db.in_joined_rooms(user_id@, room),
                    ) && #[trigger] inquiry(*old(self), *appservice).in_some_room(
                        rooms,
                        before,
                        r,
                        after,
                    )
            }),
            final(self).db == old(self).db,
            final(self).server_name == old(self).server_name,
    {
        let own: bool = (appservice.user_match)(user_id);
        if own {
            return true;
        }
        let rooms: Vec<RoomId> = self.rooms_joined(user_id);
        let ghost list = texts(rooms@);
        let ghost q = inquiry(*old(self), *appservice);
        let ghost before = known(old(self).appservice_in_room_cache);
        let mut i: usize = 0;
        assert(list.take(0) =~= Seq::<Seq<char>>::empty());
        while i < rooms.len()
            invariant
                i <= rooms@.len(),
                list == texts(rooms@),
                self.db == old(self).db,
                self.server_name == old(self).server_name,
                q == inquiry(*old(self), *appservice),
                before == known(old(self).appservice_in_room_cache),
                is_listing(list, |room: Seq<char>| old(self).db.in_joined_rooms(user_id@, room)),
                call_ensures(appservice.user_match, (user_id,), false),
                forall|text: &str| call_requires(appservice.users, (text,)),
                q.in_no_room(list.take(i as int), before, known(self.appservice_in_room_cache)),
            decreases rooms@.len() - i,
        {
            let ghost between = known(self.appservice_in_room_cache);
            assert(list[i as int] == rooms@[i as int]@);
            if self.appservice_in_room(&rooms[i], appservice) {
                assert(q.in_some_room(list, before, true, known(self.appservice_in_room_cache)));
                return true;
            }
            assert(list.take(i + 1).drop_last() =~= list.take(i as int));
            assert(list.take(i + 1).last() == list[i as int]);
            let ghost after = known(self.appservice_in_room_cache);
            assert(q.in_no_room(list.take(i + 1).drop_last(), before, between));
            assert(q.in_room(list.take(i + 1).last(), between, false, after));
            assert(q.in_no_room(list.take(i + 1), before, after));
            i = i + 1;
        }
        assert(list.take(list.len() as int) =~= list);
        assert(q.in_some_room(list, before, false, known(self.appservice_in_room_cache)));
        false
    }

    /// The number of rooms that something is cached for, and the number that there is
    /// space for without allocating again.
    pub fn get_appservice_in_room_cache_usage(&self) -> (r: (usize, usize))
        ensures
            r.0 == known(self.appservice_in_room_cache).len(),
            r.1 >= r.0,
    {
        assert(known(self.appservice_in_room_cache).dom()
            =~= self.appservice_in_room_cache@.dom());
        (self.appservice_in_room_cache.len(), self.appservice_in_room_cache.capacity())
    }

    /// Forgets all cached answers.
    pub fn clear_appservice_in_room_cache(&mut self)
        ensures
            known(final(self).appservice_in_room_cache) == Known::empty(),
            final(self).db == old(self).db,
            final(self).server_name == old(self).server_name,
    {
        self.appservice_in_room_cache.clear();
        assert(known(self.appservice_in_room_cache) =~= Known::empty());
    }
}

} // verus!
