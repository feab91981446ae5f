//! The state cache: what is on record about users, rooms and servers.

use crate::appservice::AppServiceInRoomCache;
use crate::database::Database;
use crate::failure::Failure;
use crate::ids::{Identifier, RoomId, ServerName, UserId};
use crate::keys::{pair_key, pair_key_bytes, single_key_bytes};
use crate::listing::{
    first_texts, ignore_err, in_text_order, is_listing, kept, kept_of_listing, list_firsts,
    list_rows, list_seconds, listing_has_no_repeats, recorded, texts,
};
use crate::ord_map::OrdMap;
use crate::sets::intersection_sorted;
use crate::values::{
    event_texts, read_count, read_stripped_state, read_user_id, stored_count, stored_user_id,
    stripped_state_listed, Records, Table,
};
use std::sync::Arc;
use vstd::prelude::*;
use vstd::utf8::encode_utf8;

verus! {

/// The state cache of one server.
#[derive(Debug)]
pub struct Service {
    /// What is known of which appservices are in which rooms.
    pub appservice_in_room_cache: AppServiceInRoomCache,
    /// The name of this server.
    pub server_name: ServerName,
    /// The records.
    pub db: Data,
}

/// The tables of the state cache. A name lists the fields of the key, then what is
/// stored. Only in `roomuseroncejoinedids` the user comes first in the key, and then
/// the room.
#[derive(Debug)]
pub struct Data {
    pub roomid_invitedcount: Arc<Table>,
    pub roomid_inviteviaservers: Arc<Table>,
    pub roomid_joinedcount: Arc<Table>,
    pub roomserverids: Arc<Table>,
    pub roomuserid_invitecount: Arc<Table>,
    pub roomuserid_joined: Arc<Table>,
    pub roomuserid_leftcount: Arc<Table>,
    pub roomuserid_knockedcount: Arc<Table>,
    pub roomuseroncejoinedids: Arc<Table>,
    pub serverroomids: Arc<Table>,
    pub userroomid_invitestate: Arc<Table>,
    pub userroomid_joined: Arc<Table>,
    pub userroomid_leftstate: Arc<Table>,
    pub userroomid_knockedstate: Arc<Table>,
    pub userroomid_invitesender: Arc<Table>,
}

/// What a service is built from.
pub struct Args {
    pub server_name: ServerName,
    pub db: Database,
}

/// The database has every table that the state cache reads.
pub open spec fn has_tables(db: Database) -> bool {
    &&& db.has("roomid_invitedcount"@)
    &&& db.has("roomid_inviteviaservers"@)
    &&& db.has("roomid_joinedcount"@)
    &&& db.has("roomserverids"@)
    &&& db.has("roomuserid_invitecount"@)
    &&& db.has("roomuserid_joined"@)
    &&& db.has("roomuserid_leftcount"@)
    &&& db.has("roomuserid_knockedcount"@)
    &&& db.has("roomuseroncejoinedids"@)
    &&& db.has("serverroomids"@)
    &&& db.has("userroomid_invitestate"@)
    &&& db.has("userroomid_joined"@)
    &&& db.has("userroomid_leftstate"@)
    &&& db.has("userroomid_knockedstate"@)
    &&& db.has("userroomid_invitesender"@)
}

/// The tables of the state cache in a database.
pub open spec fn tables_of(db: Database) -> Data {
    Data {
        roomid_invitedcount: db.named("roomid_invitedcount"@),
        roomid_inviteviaservers: db.named("roomid_inviteviaservers"@),
        roomid_joinedcount: db.named("roomid_joinedcount"@),
        roomserverids: db.named("roomserverids"@),
        roomuserid_invitecount: db.named("roomuserid_invitecount"@),
        roomuserid_joined: db.named("roomuserid_joined"@),
        roomuserid_leftcount: db.named("roomuserid_leftcount"@),
        roomuserid_knockedcount: db.named("roomuserid_knockedcount"@),
        roomuseroncejoinedids: db.named("roomuseroncejoinedids"@),
        serverroomids: db.named("serverroomids"@),
        userroomid_invitestate: db.named("userroomid_invitestate"@),
        userroomid_joined: db.named("userroomid_joined"@),
        userroomid_leftstate: db.named("userroomid_leftstate"@),
        userroomid_knockedstate: db.named("userroomid_knockedstate"@),
        userroomid_invitesender: db.named("userroomid_invitesender"@),
    }
}

impl Data {
    /// The user is on record as joined to the room.
    pub open spec fn joined(&self, user: Seq<char>, room: Seq<char>) -> bool {
        self.userroomid_joined@.contains_key(pair_key(user, room))
    }

    /// The user is on record as having left the room.
    pub open spec fn left(&self, user: Seq<char>, room: Seq<char>) -> bool {
        self.userroomid_leftstate@.contains_key(pair_key(user, room))
    }

    /// The user is on record as knocking on the room.
    pub open spec fn knocked(&self, user: Seq<char>, room: Seq<char>) -> bool {
        self.userroomid_knockedstate@.contains_key(pair_key(user, room))
    }

    /// The user is on record as invited to the room.
    pub open spec fn invited(&self, user: Seq<char>, room: Seq<char>) -> bool {
        self.userroomid_invitestate@.contains_key(pair_key(user, room))
    }

    /// The user is on record as having been joined to the room at some time.
    pub open spec fn once_joined(&self, user: Seq<char>, room: Seq<char>) -> bool {
        self.roomuseroncejoinedids@.contains_key(pair_key(user, room))
    }

    /// The server is on record as taking part in the room.
    pub open spec fn server_in(&self, server: Seq<char>, room: Seq<char>) -> bool {
        self.serverroomids@.contains_key(pair_key(server, room))
    }

    /// The user is a member on the room's own list of joined users.
    pub open spec fn member(&self, room: Seq<char>, user: Seq<char>) -> bool {
        recorded::<UserId, Vec<u8>>(self.roomuserid_joined@, room, user)
    }

    /// The room is on the user's own list of joined rooms.
    pub open spec fn in_joined_rooms(&self, user: Seq<char>, room: Seq<char>) -> bool {
        recorded::<RoomId, Vec<u8>>(self.userroomid_joined@, user, room)
    }

    /// The room is joined by both users.
    pub open spec fn shared(&self, a: Seq<char>, b: Seq<char>, room: Seq<char>) -> bool {
        self.in_joined_rooms(a, room) && self.in_joined_rooms(b, room)
    }

    /// The server takes part in a room that the user is joined to.
    pub open spec fn server_shares_a_room(&self, server: Seq<char>, user: Seq<char>) -> bool {
        exists|room: Seq<char>|
            RoomId::accepted(room) && #[trigger] self.server_in(server, room) && self.joined(
                user,
                room,
            )
    }

    /// The users share at least one room.
    pub open spec fn share_a_room(&self, a: Seq<char>, b: Seq<char>) -> bool {
        exists|room: Seq<char>| self.shared(a, b, room)
    }
}

/// The stripped state events stored under `key`.
pub open spec fn stored_state(table: Records, key: Seq<u8>) -> Result<Seq<Seq<char>>, Failure> {
    if !table.contains_key(key) {
        Err(Failure::NotFound)
    } else {
        match stripped_state_listed(table[key]@) {
            Some(events) => Ok(events),
            None => Err(Failure::Json),
        }
    }
}

/// `rows` lists the rooms that stripped state events are stored under for `user`,
/// each with its events. A room whose events cannot be read is not listed.
pub open spec fn lists_states(
    table: Records,
    user: Seq<char>,
    rows: Seq<(RoomId, Vec<String>)>,
) -> bool {
    &&& is_listing(
        first_texts(rows),
        |room: Seq<char>|
            room_id_stored(table, user, room) && stored_state(table, pair_key(user, room)) is Ok,
    )
    &&& forall|i: int|
        0 <= i < rows.len() ==> stored_state(table, pair_key(user, (#[trigger] rows[i]).0@)) == Ok::<
            Seq<Seq<char>>,
            Failure,
        >(event_texts(rows[i].1@))
}

/// A record is stored under `user` and the room id `room`.
pub open spec fn room_id_stored(table: Records, user: Seq<char>, room: Seq<char>) -> bool {
    recorded::<RoomId, Vec<u8>>(table, user, room)
}

/// Tells whether a record is stored under the two fields.
fn has_record(table: &Table, first: &str, second: &str) -> (r: bool)
    ensures
        r == table@.contains_key(pair_key(first@, second@)),
{
    let key: Vec<u8> = pair_key_bytes(first, second);
    table.contains(key.as_slice())
}

/// Reads the stripped state events stored under the two fields.
fn read_state(table: &Table, user_id: &UserId, room_id: &RoomId) -> (r: Result<
    Vec<String>,
    Failure,
>)
    ensures
        match r {
            Ok(events) => stored_state(table@, pair_key(user_id@, room_id@)) == Ok::<
                Seq<Seq<char>>,
                Failure,
            >(event_texts(events@)),
            Err(e) => stored_state(table@, pair_key(user_id@, room_id@)) == Err::<
                Seq<Seq<char>>,
                Failure,
            >(e),
        },
{
    let key: Vec<u8> = pair_key_bytes(user_id.as_str(), room_id.as_str());
    match table.get(key.as_slice()) {
        None => Err(Failure::NotFound),
        Some(json) => read_stripped_state(json),
    }
}

/// `question` may answer `answer` when asked about the user.
pub open spec fn answers<F: Fn(&UserId) -> bool>(question: F, user: Seq<char>, answer: bool) -> bool {
    exists|id: UserId| id@ == user && #[trigger] call_ensures(question, (&id,), answer)
}

impl Data {
    /// `list` holds the members of the room that `user_is_local` answers yes for.
    pub open spec fn lists_local<F: Fn(&UserId) -> bool>(
        &self,
        room: Seq<char>,
        user_is_local: F,
        list: Seq<Seq<char>>,
    ) -> bool {
        forall|user: Seq<char>|
            if #[trigger] list.contains(user) {
                self.member(room, user) && answers(user_is_local, user, true)
            } else {
                self.member(room, user) ==> answers(user_is_local, user, false)
            }
    }

    /// `list` holds the members of the room that both `user_is_local` and `is_active`
    /// answer yes for.
    pub open spec fn lists_active<F: Fn(&UserId) -> bool, G: Fn(&UserId) -> bool>(
        &self,
        room: Seq<char>,
        user_is_local: F,
        is_active: G,
        list: Seq<Seq<char>>,
    ) -> bool {
        forall|user: Seq<char>|
            if #[trigger] list.contains(user) {
                self.member(room, user) && answers(user_is_local, user, true) && answers(
                    is_active,
                    user,
                    true,
                )
            } else {
                self.member(room, user) ==> answers(user_is_local, user, false) || answers(
                    is_active,
                    user,
                    false,
                )
            }
    }
}

/// `r` is what an outcome of `decode` on the bytes amounts to.
pub open spec fn decodes<P, E, F: Fn(&Vec<u8>) -> Result<Option<P>, E>>(
    decode: F,
    bytes: Vec<u8>,
    r: Result<Option<P>, Failure>,
) -> bool {
    match r {
        Ok(event) => call_ensures(decode, (&bytes,), Ok::<Option<P>, E>(event)),
        Err(e) => e == Failure::Undecodable && exists|refusal: E| #[trigger]
            call_ensures(decode, (&bytes,), Err::<Option<P>, E>(refusal)),
    }
}

/// `rows` lists rooms that a record is stored under for `user`, each with what `decode`
/// makes of the record; it refuses the record of every other such room.
pub open spec fn lists_decoded<P, E, F: Fn(&Vec<u8>) -> Result<Option<P>, E>>(
    table: Records,
    user: Seq<char>,
    decode: F,
    rows: Seq<(RoomId, Option<P>)>,
) -> bool {
    &&& forall|i: int|
        0 <= i < rows.len() ==> room_id_stored(table, user, (#[trigger] rows[i]).0@) && decodes(
            decode,
            table[pair_key(user, rows[i].0@)],
            Ok(rows[i].1),
        )
    &&& forall|room: Seq<char>|
        !(#[trigger] first_texts(rows).contains(room)) && room_id_stored(table, user, room)
            ==> decodes(decode, table[pair_key(user, room)], Err(Failure::Undecodable))
}

/// Picks the users that `question` answers yes for.
fn pick<F: Fn(&UserId) -> bool>(users: Vec<UserId>, question: F) -> (r: Vec<UserId>)
    requires
        in_text_order(texts(users@)),
        forall|user: &UserId| call_requires(question, (user,)),
    ensures
        in_text_order(texts(r@)),
        forall|user: Seq<char>| #[trigger]
            texts(r@).contains(user) ==> texts(users@).contains(user) && answers(
                question,
                user,
                true,
            ),
        forall|user: Seq<char>| #[trigger]
            texts(users@).contains(user) && !texts(r@).contains(user) ==> answers(
                question,
                user,
                false,
            ),
{
    let ghost list = texts(users@);
    let mut items: Vec<Result<UserId, ()>> = Vec::new();
    let mut i: usize = 0;
    while i < users.len()
        invariant
            i <= users@.len(),
            items@.len() == i,
            list == texts(users@),
            forall|user: &UserId| call_requires(question, (user,)),
            forall|j: int|
                0 <= j < items@.len() ==> match #[trigger] items@[j] {
                    Ok(user) => user@ == list[j] && answers(question, list[j], true),
                    Err(_) => answers(question, list[j], false),
                },
        decreases users@.len() - i,
    {
        assert(list[i as int] == users@[i as int]@);
        let yes: bool = question(&users[i]);
        assert(call_ensures(question, (&users@[i as int],), yes));
        assert(answers(question, list[i as int], yes));
        if yes {
            items.push(Ok(users[i].clone()));
        } else {
            items.push(Err(()));
        }
        i = i + 1;
    }
    let ghost asked = items@;
    let r: Vec<UserId> = ignore_err(items);
    proof {
        let text = |user: UserId| user@;
        let belongs = |user: Seq<char>| list.contains(user);
        let good = |user: Seq<char>|
            exists|j: int| 0 <= j < list.len() && list[j] == user && #[trigger] asked[j] is Ok;
        listing_has_no_repeats(list);
        assert forall|j: int| 0 <= j < asked.len() implies match #[trigger] asked[j] {
            Ok(user) => text(user) == list[j] && good(list[j]),
            Err(_) => !good(list[j]),
        } by {}
        kept_of_listing(list, belongs, asked, text, good);
        assert(texts(r@) =~= kept(asked).map_values(text));
        assert forall|user: Seq<char>| #[trigger]
            list.contains(user) && !texts(r@).contains(user) implies answers(
            question,
            user,
            false,
        ) by {
            let k = choose|k: int| 0 <= k < list.len() && list[k] == user;
            assert(!good(user));
            assert(asked[k] is Err);
        }
    }
    r
}

/// Lists the rooms that stripped state events are stored under for the user.
fn list_states(table: &Table, user_id: &UserId) -> (r: Vec<(RoomId, Vec<String>)>)
    ensures
        lists_states(table@, user_id@, r@),
{
    let rows: Vec<(RoomId, &Vec<u8>)> = list_rows::<RoomId, Vec<u8>>(table, user_id.as_str());
    let ghost list = first_texts(rows@);
    let mut items: Vec<Result<(RoomId, Vec<String>), Failure>> = Vec::new();
    let mut i: usize = 0;
    while i < rows.len()
        invariant
            i <= rows@.len(),
            items@.len() == i,
            list == first_texts(rows@),
            is_listing(list, |room: Seq<char>| room_id_stored(table@, user_id@, room)),
            forall|j: int|
                0 <= j < rows@.len() ==> *(#[trigger] rows@[j]).1 == table@[pair_key(
                    user_id@,
                    rows@[j].0@,
                )],
            forall|j: int|
                0 <= j < items@.len() ==> match #[trigger] items@[j] {
                    Ok(row) => row.0@ == list[j] && stored_state(
                        table@,
                        pair_key(user_id@, list[j]),
                    ) == Ok::<Seq<Seq<char>>, Failure>(event_texts(row.1@)),
                    Err(_) => stored_state(table@, pair_key(user_id@, list[j])) is Err,
                },
        decreases rows@.len() - i,
    {
        assert(list[i as int] == rows@[i as int].0@);
        assert(list.contains(list[i as int]));
        match read_stripped_state(rows[i].1) {
            Ok(events) => items.push(Ok((rows[i].0.clone(), events))),
            Err(e) => items.push(Err(e)),
        }
        i = i + 1;
    }
    let ghost read = items@;
    let r: Vec<(RoomId, Vec<String>)> = ignore_err(items);
    proof {
        let text = |row: (RoomId, Vec<String>)| row.0@;
        let belongs = |room: Seq<char>| room_id_stored(table@, user_id@, room);
        let good = |room: Seq<char>| stored_state(table@, pair_key(user_id@, room)) is Ok;
        kept_of_listing(list, belongs, read, text, good);
        assert(first_texts(r@) =~= kept(read).map_values(text));
        assert forall|j: int| 0 <= j < r@.len() implies stored_state(
            table@,
            pair_key(user_id@, (#[trigger] r@[j]).0@),
        ) == Ok::<Seq<Seq<char>>, Failure>(event_texts(r@[j].1@)) by {
            let k = choose|k: int|
                0 <= k < read.len() && #[trigger] read[k] == Ok::<
                    (RoomId, Vec<String>),
                    Failure,
                >(kept(read)[j]);
            assert(text(r@[j]) == list[k]);
        }
    }
    r
}

impl Service {
    /// Builds the service on the tables of a database. Nothing is cached yet.
    pub fn build(args: Args) -> (r: Service)
        requires
            has_tables(args.db),
        ensures
            r.db == tables_of(args.db),
            r.server_name@ == args.server_name@,
            r.appservice_in_room_cache@ == Map::<Seq<u8>, OrdMap<bool>>::empty(),
    {
        Service {
            appservice_in_room_cache: OrdMap::new(),
            server_name: args.server_name,
            db: Data {
                roomid_invitedcount: args.db.open("roomid_invitedcount"),
                roomid_inviteviaservers: args.db.open("roomid_inviteviaservers"),
                roomid_joinedcount: args.db.open("roomid_joinedcount"),
                roomserverids: args.db.open("roomserverids"),
                roomuserid_invitecount: args.db.open("roomuserid_invitecount"),
                roomuserid_joined: args.db.open("roomuserid_joined"),
                roomuserid_leftcount: args.db.open("roomuserid_leftcount"),
                roomuserid_knockedcount: args.db.open("roomuserid_knockedcount"),
                roomuseroncejoinedids: args.db.open("roomuseroncejoinedids"),
                serverroomids: args.db.open("serverroomids"),
                userroomid_invitestate: args.db.open("userroomid_invitestate"),
                userroomid_joined: args.db.open("userroomid_joined"),
                userroomid_leftstate: args.db.open("userroomid_leftstate"),
                userroomid_knockedstate: args.db.open("userroomid_knockedstate"),
                userroomid_invitesender: args.db.open("userroomid_invitesender"),
            },
        }
    }

    /// All servers that take part in the room.
    pub fn room_servers(&self, room_id: &RoomId) -> (r: Vec<ServerName>)
        ensures
            is_listing(
                texts(r@),
                |server: Seq<char>| recorded::<ServerName, Vec<u8>>(self.db.roomserverids@, room_id@, server),
            ),
    {
        list_seconds::<ServerName, Vec<u8>>(&self.db.roomserverids, room_id.as_str())
    }

    /// Tells whether the server takes part in the room.
    pub fn server_in_room(&self, server: &ServerName, room_id: &RoomId) -> (r: bool)
        ensures
            r == self.db.server_in(server@, room_id@),
    {
        has_record(&self.db.serverroomids, server.as_str(), room_id.as_str())
    }

    /// All rooms that the server takes part in, as far as is known.
    pub fn server_rooms(&self, server: &ServerName) -> (r: Vec<RoomId>)
        ensures
            is_listing(
                texts(r@),
                |room: Seq<char>| recorded::<RoomId, Vec<u8>>(self.db.serverroomids@, server@, room),
            ),
    {
        list_seconds::<RoomId, Vec<u8>>(&self.db.serverroomids, server.as_str())
    }

    /// Tells whether the server can see the user: whether they share at least one
    /// room.
    pub fn server_sees_user(&self, server: &ServerName, user_id: &UserId) -> (r: bool)
        ensures
            r <==> exists|room: Seq<char>|
                RoomId::accepted(room) && #[trigger] self.db.server_in(server@, room)
                    && self.db.joined(user_id@, room),
            r == self.db.server_shares_a_room(server@, user_id@),
    {
        let rooms: Vec<RoomId> = self.server_rooms(server);
        let ghost list = texts(rooms@);
        let mut i: usize = 0;
        while i < rooms.len()
            invariant
                i <= rooms@.len(),
                list == texts(rooms@),
                is_listing(
                    list,
                    |room: Seq<char>|
                        recorded::<RoomId, Vec<u8>>(self.db.serverroomids@, server@, room),
                ),
                forall|j: int| 0 <= j < i ==> !self.db.joined(user_id@, #[trigger] list[j]),
            decreases rooms@.len() - i,
        {
            assert(list[i as int] == rooms@[i as int]@);
            assert(list.contains(list[i as int]));
            if self.is_joined(user_id, &rooms[i]) {
                assert(self.db.server_in(server@, list[i as int]));
                return true;
            }
            i = i + 1;
        }
        assert forall|room: Seq<char>|
            RoomId::accepted(room) && #[trigger] self.db.server_in(
                server@,
                room,
            ) implies !self.db.joined(user_id@, room) by {
            assert(list.contains(room));
        }
        false
    }

    /// Tells whether the two users share at least one room.
    pub fn user_sees_user(&self, user_a: &UserId, user_b: &UserId) -> (r: bool)
        ensures
            r == self.db.share_a_room(user_a@, user_b@),
    {
        let rooms: Vec<RoomId> = self.get_shared_rooms(user_a, user_b);
        proof {
            let list = texts(rooms@);
            if list.len() > 0 {
                assert(list.contains(list[0]));
                assert(self.db.shared(user_a@, user_b@, list[0]));
            } else {
                assert forall|room: Seq<char>| !self.db.shared(user_a@, user_b@, room) by {
                    assert(!list.contains(room));
                }
            }
        }
        rooms.len() > 0
    }

    /// The rooms that the two users have in common.
    pub fn get_shared_rooms(&self, user_a: &UserId, user_b: &UserId) -> (r: Vec<RoomId>)
        ensures
            is_listing(
                texts(r@),
                |room: Seq<char>| self.db.shared(user_a@, user_b@, room),
            ),
    {
        let a: Vec<RoomId> = self.rooms_joined(user_a);
        let b: Vec<RoomId> = self.rooms_joined(user_b);
        intersection_sorted(&a, &b)
    }

    /// All joined members of the room.
    pub fn room_members(&self, room_id: &RoomId) -> (r: Vec<UserId>)
        ensures
            is_listing(
                texts(r@),
                |user: Seq<char>| self.db.member(room_id@, user),
            ),
    {
        list_seconds::<UserId, Vec<u8>>(&self.db.roomuserid_joined, room_id.as_str())
    }

    /// The number of users that are in the room now.
    pub fn room_joined_count(&self, room_id: &RoomId) -> (r: Result<u64, Failure>)
        ensures
            r == stored_count(self.db.roomid_joinedcount@, encode_utf8(room_id@)),
    {
        let key: Vec<u8> = single_key_bytes(room_id.as_str());
        read_count(&self.db.roomid_joinedcount, key.as_slice())
    }

    /// All members of the room that `user_is_local` calls local users of this server,
    /// deactivated ones and guests among them.
    pub fn local_users_in_room<F: Fn(&UserId) -> bool>(
        &self,
        room_id: &RoomId,
        user_is_local: F,
    ) -> (r: Vec<UserId>)
        requires
            forall|user: &UserId| call_requires(user_is_local, (user,)),
        ensures
            in_text_order(texts(r@)),
            forall|user: Seq<char>| #[trigger]
                texts(r@).contains(user) ==> self.db.member(room_id@, user) && answers(
                    user_is_local,
                    user,
                    true,
                ),
            forall|user: Seq<char>| #[trigger]
                self.db.member(room_id@, user) && !texts(r@).contains(user) ==> answers(
                    user_is_local,
                    user,
                    false,
                ),
            self.db.lists_local(room_id@, user_is_local, texts(r@)),
    {
        let members: Vec<UserId> = self.room_members(room_id);
        let ghost list = texts(members@);
        let r: Vec<UserId> = pick(members, user_is_local);
        assert forall|user: Seq<char>| #[trigger]
            self.db.member(room_id@, user) && !texts(r@).contains(user) implies answers(
            user_is_local,
            user,
            false,
        ) by {
            assert(list.contains(user));
        }
        r
    }

    /// All members of the room that are local users of this server and that
    /// `is_active` calls active: neither deactivated nor guests.
    pub fn active_local_users_in_room<F: Fn(&UserId) -> bool, G: Fn(&UserId) -> bool>(
        &self,
        room_id: &RoomId,
        user_is_local: F,
        is_active: G,
    ) -> (r: Vec<UserId>)
        requires
            forall|user: &UserId| call_requires(user_is_local, (user,)),
            forall|user: &UserId| call_requires(is_active, (user,)),
        ensures
            in_text_order(texts(r@)),
            forall|user: Seq<char>| #[trigger]
                texts(r@).contains(user) ==> self.db.member(room_id@, user) && answers(
                    user_is_local,
                    user,
                    true,
                ) && answers(is_active, user, true),
            forall|user: Seq<char>| #[trigger]
                self.db.member(room_id@, user) && !texts(r@).contains(user) ==> answers(
                    user_is_local,
                    user,
                    false,
                ) || answers(is_active, user, false),
            self.db.lists_active(room_id@, user_is_local, is_active, texts(r@)),
    {
        let local: Vec<UserId> = self.local_users_in_room(room_id, user_is_local);
        pick(local, is_active)
    }

    /// The number of users that are invited to the room now.
    pub fn room_invited_count(&self, room_id: &RoomId) -> (r: Result<u64, Failure>)
        ensures
            r == stored_count(self.db.roomid_invitedcount@, encode_utf8(room_id@)),
    {
        let key: Vec<u8> = single_key_bytes(room_id.as_str());
        read_count(&self.db.roomid_invitedcount, key.as_slice())
    }

    /// All users that ever joined the room.
    pub fn room_useroncejoined(&self, room_id: &RoomId) -> (r: Vec<UserId>)
        ensures
            is_listing(
                texts(r@),
                |user: Seq<char>| UserId::accepted(user) && self.db.once_joined(user, room_id@),
            ),
    {
        list_firsts::<UserId, Vec<u8>>(&self.db.roomuseroncejoinedids, room_id.as_str())
    }

    /// All users that are invited to the room.
    pub fn room_members_invited(&self, room_id: &RoomId) -> (r: Vec<UserId>)
        ensures
            is_listing(
                texts(r@),
                |user: Seq<char>| recorded::<UserId, Vec<u8>>(self.db.roomuserid_invitecount@, room_id@, user),
            ),
    {
        list_seconds::<UserId, Vec<u8>>(&self.db.roomuserid_invitecount, room_id.as_str())
    }

    /// All users that are knocking on the room.
    pub fn room_members_knocked(&self, room_id: &RoomId) -> (r: Vec<UserId>)
        ensures
            is_listing(
                texts(r@),
                |user: Seq<char>| recorded::<UserId, Vec<u8>>(self.db.roomuserid_knockedcount@, room_id@, user),
            ),
    {
        list_seconds::<UserId, Vec<u8>>(&self.db.roomuserid_knockedcount, room_id.as_str())
    }

    /// The count at which the user was invited to the room.
    pub fn get_invite_count(&self, room_id: &RoomId, user_id: &UserId) -> (r: Result<u64, Failure>)
        ensures
            r == stored_count(self.db.roomuserid_invitecount@, pair_key(room_id@, user_id@)),
    {
        let key: Vec<u8> = pair_key_bytes(room_id.as_str(), user_id.as_str());
        read_count(&self.db.roomuserid_invitecount, key.as_slice())
    }

    /// The count at which the user knocked on the room.
    pub fn get_knock_count(&self, room_id: &RoomId, user_id: &UserId) -> (r: Result<u64, Failure>)
        ensures
            r == stored_count(self.db.roomuserid_knockedcount@, pair_key(room_id@, user_id@)),
    {
        let key: Vec<u8> = pair_key_bytes(room_id.as_str(), user_id.as_str());
        read_count(&self.db.roomuserid_knockedcount, key.as_slice())
    }

    /// The count at which the user left the room.
    pub fn get_left_count(&self, room_id: &RoomId, user_id: &UserId) -> (r: Result<u64, Failure>)
        ensures
            r == stored_count(self.db.roomuserid_leftcount@, pair_key(room_id@, user_id@)),
    {
        let key: Vec<u8> = pair_key_bytes(room_id.as_str(), user_id.as_str());
        read_count(&self.db.roomuserid_leftcount, key.as_slice())
    }

    /// All rooms that this user is joined to. A user whose id merely begins with this
    /// one is another user.
    pub fn rooms_joined(&self, user_id: &UserId) -> (r: Vec<RoomId>)
        ensures
            is_listing(
                texts(r@),
                |room: Seq<char>| self.db.in_joined_rooms(user_id@, room),
            ),
    {
        list_seconds::<RoomId, Vec<u8>>(&self.db.userroomid_joined, user_id.as_str())
    }

    /// All rooms that the user is invited to, each with the state events that came
    /// with the invitation.
    pub fn rooms_invited(&self, user_id: &UserId) -> (r: Vec<(RoomId, Vec<String>)>)
        ensures
            lists_states(self.db.userroomid_invitestate@, user_id@, r@),
    {
        list_states(&self.db.userroomid_invitestate, user_id)
    }

    /// All rooms that the user is knocking on, each with the state events that came
    /// with the knock.
    pub fn rooms_knocked(&self, user_id: &UserId) -> (r: Vec<(RoomId, Vec<String>)>)
        ensures
            lists_states(self.db.userroomid_knockedstate@, user_id@, r@),
    {
        list_states(&self.db.userroomid_knockedstate, user_id)
    }

    /// The state events that came with the invitation of the user to the room.
    pub fn invite_state(&self, user_id: &UserId, room_id: &RoomId) -> (r: Result<Vec<String>, Failure>)
        ensures
            match r {
                Ok(events) => stored_state(self.db.userroomid_invitestate@, pair_key(user_id@, room_id@)) == Ok::<
                    Seq<Seq<char>>,
                    Failure,
                >(event_texts(events@)),
                Err(e) => stored_state(self.db.userroomid_invitestate@, pair_key(user_id@, room_id@)) == Err::<
                    Seq<Seq<char>>,
                    Failure,
                >(e),
            },
    {
        read_state(&self.db.userroomid_invitestate, user_id, room_id)
    }

    /// The state events that came with the knock of the user on the room.
    pub fn knock_state(&self, user_id: &UserId, room_id: &RoomId) -> (r: Result<Vec<String>, Failure>)
        ensures
            match r {
                Ok(events) => stored_state(self.db.userroomid_knockedstate@, pair_key(user_id@, room_id@)) == Ok::<
                    Seq<Seq<char>>,
                    Failure,
                >(event_texts(events@)),
                Err(e) => stored_state(self.db.userroomid_knockedstate@, pair_key(user_id@, room_id@)) == Err::<
                    Seq<Seq<char>>,
                    Failure,
                >(e),
            },
    {
        read_state(&self.db.userroomid_knockedstate, user_id, room_id)
    }

    /// The event with which the user left the room, if one is stored. `decode` reads
    /// the stored bytes.
    pub fn left_state<P, E, F: Fn(&Vec<u8>) -> Result<Option<P>, E>>(
        &self,
        user_id: &UserId,
        room_id: &RoomId,
        decode: F,
    ) -> (r: Result<Option<P>, Failure>)
        requires
            forall|bytes: &Vec<u8>| call_requires(decode, (bytes,)),
        ensures
            !self.db.left(user_id@, room_id@) ==> r == Err::<Option<P>, Failure>(Failure::NotFound),
            self.db.left(user_id@, room_id@) ==> decodes(
                decode,
                self.db.userroomid_leftstate@[pair_key(user_id@, room_id@)],
                r,
            ),
    {
        let key: Vec<u8> = pair_key_bytes(user_id.as_str(), room_id.as_str());
        match self.db.userroomid_leftstate.get(key.as_slice()) {
            None => Err(Failure::NotFound),
            Some(bytes) => match decode(bytes) {
                Ok(event) => Ok(event),
                Err(_) => Err(Failure::Undecodable),
            },
        }
    }

    /// All rooms that the user left, each with the event with which they left, if
    /// one is stored. `decode` reads the stored bytes; a room whose bytes it refuses
    /// is passed over.
    pub fn rooms_left<P, E, F: Fn(&Vec<u8>) -> Result<Option<P>, E>>(
        &self,
        user_id: &UserId,
        decode: F,
    ) -> (r: Vec<(RoomId, Option<P>)>)
        requires
            forall|bytes: &Vec<u8>| call_requires(decode, (bytes,)),
        ensures
            in_text_order(first_texts(r@)),
            forall|i: int|
                0 <= i < r@.len() ==> room_id_stored(
                    self.db.userroomid_leftstate@,
                    user_id@,
                    (#[trigger] r@[i]).0@,
                ) && decodes(
                    decode,
                    self.db.userroomid_leftstate@[pair_key(user_id@, r@[i].0@)],
                    Ok(r@[i].1),
                ),
            forall|room: Seq<char>| #[trigger]
                room_id_stored(self.db.userroomid_leftstate@, user_id@, room) && !first_texts(
                    r@,
                ).contains(room) ==> decodes(
                    decode,
                    self.db.userroomid_leftstate@[pair_key(user_id@, room)],
                    Err(Failure::Undecodable),
                ),
            lists_decoded(self.db.userroomid_leftstate@, user_id@, decode, r@),
    {
        let table: &Table = &self.db.userroomid_leftstate;
        let rows: Vec<(RoomId, &Vec<u8>)> = list_rows::<RoomId, Vec<u8>>(table, user_id.as_str());
        let ghost list = first_texts(rows@);
        let mut items: Vec<Result<(RoomId, Option<P>), Failure>> = Vec::new();
        let mut i: usize = 0;
        while i < rows.len()
            invariant
                i <= rows@.len(),
                items@.len() == i,
                list == first_texts(rows@),
                forall|bytes: &Vec<u8>| call_requires(decode, (bytes,)),
                forall|j: int|
                    0 <= j < rows@.len() ==> *(#[trigger] rows@[j]).1 == table@[pair_key(
                        user_id@,
                        rows@[j].0@,
                    )],
                forall|j: int|
                    0 <= j < items@.len() ==> match #[trigger] items@[j] {
                        Ok(row) => row.0@ == list[j] && decodes(
                            decode,
                            table@[pair_key(user_id@, list[j])],
                            Ok(row.1),
                        ),
                        Err(_) => decodes::<P, E, F>(
                            decode,
                            table@[pair_key(user_id@, list[j])],
                            Err(Failure::Undecodable),
                        ),
                    },
            decreases rows@.len() - i,
        {
            assert(list[i as int] == rows@[i as int].0@);
            let ghost stored = rows@[i as int];
            match decode(rows[i].1) {
                Ok(event) => {
                    assert(decodes(decode, *stored.1, Ok(event)));
                    items.push(Ok((rows[i].0.clone(), event)));
                },
                Err(_) => {
                    assert(decodes::<P, E, F>(decode, *stored.1, Err(Failure::Undecodable)));
                    items.push(Err(Failure::Undecodable));
                },
            }
            i = i + 1;
        }
        let ghost read = items@;
        let r: Vec<(RoomId, Option<P>)> = ignore_err(items);
        proof {
            let text = |row: (RoomId, Option<P>)| row.0@;
            let belongs = |room: Seq<char>| room_id_stored(table@, user_id@, room);
            let good = |room: Seq<char>|
                exists|j: int| 0 <= j < list.len() && list[j] == room && #[trigger] read[j] is Ok;
            listing_has_no_repeats(list);
            assert forall|j: int| 0 <= j < read.len() implies match #[trigger] read[j] {
                Ok(row) => text(row) == list[j] && good(list[j]),
                Err(_) => !good(list[j]),
            } by {}
            kept_of_listing(list, belongs, read, text, good);
            assert(first_texts(r@) =~= kept(read).map_values(text));
            assert forall|j: int| 0 <= j < r@.len() implies room_id_stored(
                table@,
                user_id@,
                (#[trigger] r@[j]).0@,
            ) && decodes(decode, table@[pair_key(user_id@, r@[j].0@)], Ok(r@[j].1)) by {
                let k = choose|k: int|
                    0 <= k < read.len() && #[trigger] read[k] == Ok::<
                        (RoomId, Option<P>),
                        Failure,
                    >(kept(read)[j]);
                assert(first_texts(r@)[j] == r@[j].0@);
                assert(first_texts(r@).contains(r@[j].0@));
            }
            assert forall|room: Seq<char>| #[trigger]
                room_id_stored(table@, user_id@, room) && !first_texts(r@).contains(
                    room,
                ) implies decodes::<P, E, F>(
                decode,
                table@[pair_key(user_id@, room)],
                Err(Failure::Undecodable),
            ) by {
                assert(list.contains(room));
                let k = choose|k: int| 0 <= k < list.len() && list[k] == room;
                assert(!good(room));
                assert(read[k] is Err);
            }
        }
        r
    }

    /// Tells whether the user was ever joined to the room.
    pub fn once_joined(&self, user_id: &UserId, room_id: &RoomId) -> (r: bool)
        ensures
            r == self.db.once_joined(user_id@, room_id@),
    {
        has_record(&self.db.roomuseroncejoinedids, user_id.as_str(), room_id.as_str())
    }

    /// Tells whether the user is joined to the room.
    pub fn is_joined(&self, user_id: &UserId, room_id: &RoomId) -> (r: bool)
        ensures
            r == self.db.joined(user_id@, room_id@),
    {
        has_record(&self.db.userroomid_joined, user_id.as_str(), room_id.as_str())
    }

    /// Tells whether the user is knocking on the room.
    pub fn is_knocked(&self, user_id: &UserId, room_id: &RoomId) -> (r: bool)
        ensures
            r == self.db.knocked(user_id@, room_id@),
    {
        has_record(&self.db.userroomid_knockedstate, user_id.as_str(), room_id.as_str())
    }

    /// Tells whether the user is invited to the room.
    pub fn is_invited(&self, user_id: &UserId, room_id: &RoomId) -> (r: bool)
        ensures
            r == self.db.invited(user_id@, room_id@),
    {
        has_record(&self.db.userroomid_invitestate, user_id.as_str(), room_id.as_str())
    }

    /// Tells whether the user left the room.
    pub fn is_left(&self, user_id: &UserId, room_id: &RoomId) -> (r: bool)
        ensures
            r == self.db.left(user_id@, room_id@),
    {
        has_record(&self.db.userroomid_leftstate, user_id.as_str(), room_id.as_str())
    }

    /// The user that invited the user to the room.
    pub fn invite_sender(&self, user_id: &UserId, room_id: &RoomId) -> (r: Result<UserId, Failure>)
        ensures
            match r {
                Ok(sender) => stored_user_id(
                    self.db.userroomid_invitesender@,
                    pair_key(user_id@, room_id@),
                ) == Ok::<Seq<char>, Failure>(sender@),
                Err(e) => stored_user_id(
                    self.db.userroomid_invitesender@,
                    pair_key(user_id@, room_id@),
                ) == Err::<Seq<char>, Failure>(e),
            },
    {
        let key: Vec<u8> = pair_key_bytes(user_id.as_str(), room_id.as_str());
        read_user_id(&self.db.userroomid_invitesender, key.as_slice())
    }
}

} // verus!
