//! What the lists hold, in terms of the records.

use crate::ids::{Identifier, RoomId, ServerName, UserId};
use crate::keys::{first_field_is_followed_by_the_separator, pair_key_is_injective};
use crate::listing::{in_text_order, list_firsts, list_seconds, listing_is_unique, texts};
use crate::ord_map::OrdMap;
use crate::service::Service;
use vstd::prelude::*;
use vstd::utf8::encode_utf8;

verus! {

/// A server is listed for a room exactly if `roomserverids` holds a record under the full
/// id of the room and the server.
pub proof fn room_servers_are_those_recorded(
    service: &Service,
    room: &RoomId,
    servers: Vec<ServerName>,
    server: Seq<char>,
)
    requires
        call_ensures(Service::room_servers, (service, room), servers),
    ensures
        in_text_order(texts(servers@)),
        texts(servers@).contains(server) <==> ServerName::accepted(server)
            && service.db.roomserverids@.contains_key(
            encode_utf8(room@) + seq![0xFFu8] + encode_utf8(server),
        ),
{
    first_field_is_followed_by_the_separator(room@);
}

/// A room is listed for a server exactly if `serverroomids` holds a record under the
/// full name of the server and the room.
pub proof fn server_rooms_are_those_recorded(
    service: &Service,
    server: &ServerName,
    rooms: Vec<RoomId>,
    room: Seq<char>,
)
    requires
        call_ensures(Service::server_rooms, (service, server), rooms),
    ensures
        in_text_order(texts(rooms@)),
        texts(rooms@).contains(room) <==> RoomId::accepted(room)
            && service.db.serverroomids@.contains_key(
            encode_utf8(server@) + seq![0xFFu8] + encode_utf8(room),
        ),
{
    first_field_is_followed_by_the_separator(server@);
}

/// A user is a member of a room exactly if `roomuserid_joined` holds a record under the
/// full id of the room and the user.
pub proof fn room_members_are_those_recorded(
    service: &Service,
    room: &RoomId,
    users: Vec<UserId>,
    user: Seq<char>,
)
    requires
        call_ensures(Service::room_members, (service, room), users),
    ensures
        in_text_order(texts(users@)),
        texts(users@).contains(user) <==> UserId::accepted(user)
            && service.db.roomuserid_joined@.contains_key(
            encode_utf8(room@) + seq![0xFFu8] + encode_utf8(user),
        ),
{
    first_field_is_followed_by_the_separator(room@);
}

/// A user is listed as invited to a room exactly if `roomuserid_invitecount` holds a
/// record under the full id of the room and the user.
pub proof fn invited_members_are_those_recorded(
    service: &Service,
    room: &RoomId,
    users: Vec<UserId>,
    user: Seq<char>,
)
    requires
        call_ensures(Service::room_members_invited, (service, room), users),
    ensures
        in_text_order(texts(users@)),
        texts(users@).contains(user) <==> UserId::accepted(user)
            && service.db.roomuserid_invitecount@.contains_key(
            encode_utf8(room@) + seq![0xFFu8] + encode_utf8(user),
        ),
{
    first_field_is_followed_by_the_separator(room@);
}

/// A user is listed as knocking on a room exactly if `roomuserid_knockedcount` holds a
/// record under the full id of the room and the user.
pub proof fn knocking_members_are_those_recorded(
    service: &Service,
    room: &RoomId,
    users: Vec<UserId>,
    user: Seq<char>,
)
    requires
        call_ensures(Service::room_members_knocked, (service, room), users),
    ensures
        in_text_order(texts(users@)),
        texts(users@).contains(user) <==> UserId::accepted(user)
            && service.db.roomuserid_knockedcount@.contains_key(
            encode_utf8(room@) + seq![0xFFu8] + encode_utf8(user),
        ),
{
    first_field_is_followed_by_the_separator(room@);
}

/// A room is listed for a user exactly if `userroomid_joined` holds a record under the
/// full id of the user and the room, whatever else is on record.
pub proof fn joined_rooms_are_those_recorded(
    service: &Service,
    user: &UserId,
    rooms: Vec<RoomId>,
    room: Seq<char>,
)
    requires
        call_ensures(Service::rooms_joined, (service, user), rooms),
    ensures
        in_text_order(texts(rooms@)),
        texts(rooms@).contains(room) <==> RoomId::accepted(room)
            && service.db.userroomid_joined@.contains_key(
            encode_utf8(user@) + seq![0xFFu8] + encode_utf8(room),
        ),
{
    first_field_is_followed_by_the_separator(user@);
}

/// A user is listed as having joined a room once exactly if `roomuseroncejoinedids` holds
/// a record under the user and the full id of the room.
pub proof fn users_once_joined_are_those_recorded(
    service: &Service,
    room: &RoomId,
    users: Vec<UserId>,
    user: Seq<char>,
)
    requires
        call_ensures(Service::room_useroncejoined, (service, room), users),
    ensures
        in_text_order(texts(users@)),
        texts(users@).contains(user) <==> UserId::accepted(user)
            && service.db.roomuseroncejoinedids@.contains_key(
            encode_utf8(user) + seq![0xFFu8] + encode_utf8(room@),
        ),
{
    first_field_is_followed_by_the_separator(user);
}

/// A room is shared by two users exactly if `userroomid_joined` holds a record under each
/// of them and the room, whatever servers they belong to.
pub proof fn shared_rooms_are_those_recorded_for_both(
    service: &Service,
    a: &UserId,
    b: &UserId,
    rooms: Vec<RoomId>,
    room: Seq<char>,
)
    requires
        call_ensures(Service::get_shared_rooms, (service, a, b), rooms),
    ensures
        in_text_order(texts(rooms@)),
        texts(rooms@).contains(room) <==> RoomId::accepted(room)
            && service.db.userroomid_joined@.contains_key(
            encode_utf8(a@) + seq![0xFFu8] + encode_utf8(room),
        ) && service.db.userroomid_joined@.contains_key(
            encode_utf8(b@) + seq![0xFFu8] + encode_utf8(room),
        ),
{
    first_field_is_followed_by_the_separator(a@);
    first_field_is_followed_by_the_separator(b@);
}

/// The list of shared rooms agrees with the single questions: it holds a room exactly if
/// both users are joined to it.
pub proof fn shared_rooms_agree_with_the_questions(
    service: &Service,
    a: &UserId,
    b: &UserId,
    room: &RoomId,
    rooms: Vec<RoomId>,
    a_joined: bool,
    b_joined: bool,
)
    requires
        call_ensures(Service::get_shared_rooms, (service, a, b), rooms),
        call_ensures(Service::is_joined, (service, a, room), a_joined),
        call_ensures(Service::is_joined, (service, b, room), b_joined),
        RoomId::accepted(room@),
    ensures
        texts(rooms@).contains(room@) <==> a_joined && b_joined,
{
}

/// The list of shared rooms agrees with the two lists of joined rooms: it holds the rooms
/// that are on both, and two users see each other exactly if there is one.
pub proof fn shared_rooms_agree_with_the_joined_rooms(
    service: &Service,
    a: &UserId,
    b: &UserId,
    rooms: Vec<RoomId>,
    a_rooms: Vec<RoomId>,
    b_rooms: Vec<RoomId>,
    seen: bool,
)
    requires
        call_ensures(Service::get_shared_rooms, (service, a, b), rooms),
        call_ensures(Service::rooms_joined, (service, a), a_rooms),
        call_ensures(Service::rooms_joined, (service, b), b_rooms),
        call_ensures(Service::user_sees_user, (service, a, b), seen),
    ensures
        forall|room: Seq<char>|
            #![trigger texts(rooms@).contains(room)]
            texts(rooms@).contains(room) <==> texts(a_rooms@).contains(room) && texts(
                b_rooms@,
            ).contains(room),
        seen <==> rooms@.len() > 0,
{
    let list = texts(rooms@);
    assert forall|room: Seq<char>| #[trigger] list.contains(room) <==> texts(
        a_rooms@,
    ).contains(room) && texts(b_rooms@).contains(room) by {
        shared_rooms_are_those_recorded_for_both(service, a, b, rooms, room);
        joined_rooms_are_those_recorded(service, a, a_rooms, room);
        joined_rooms_are_those_recorded(service, b, b_rooms, room);
    }
    if rooms@.len() > 0 {
        assert(list.contains(list[0]));
        assert(service.db.shared(a@, b@, list[0]));
    }
    if seen {
        let room = choose|room: Seq<char>| service.db.shared(a@, b@, room);
        assert(list.contains(room));
    }
}

/// Storing a record under a room and a user in `roomuserid_joined` puts the user on that
/// room's list of members. Nothing else about the members of any room changes.
pub proof fn stored_member_is_listed(
    before: &Service,
    after: &Service,
    room: &RoomId,
    user: Seq<char>,
    value: Vec<u8>,
    other: &RoomId,
    was: Vec<UserId>,
    now: Vec<UserId>,
)
    requires
        UserId::accepted(user),
        after.db.roomuserid_joined@ == before.db.roomuserid_joined@.insert(
            encode_utf8(room@) + seq![0xFFu8] + encode_utf8(user),
            value,
        ),
        call_ensures(Service::room_members, (before, other), was),
        call_ensures(Service::room_members, (after, other), now),
    ensures
        forall|t: Seq<char>| #[trigger]
            texts(now@).contains(t) <==> texts(was@).contains(t) || other@ == room@ && t == user,
        other@ != room@ ==> texts(now@) == texts(was@),
{
    first_field_is_followed_by_the_separator(room@);
    first_field_is_followed_by_the_separator(other@);
    let list = texts(now@);
    assert forall|t: Seq<char>| #[trigger] list.contains(t) <==> texts(was@).contains(t) || other@
        == room@ && t == user by {
        room_members_are_those_recorded(before, other, was, t);
        room_members_are_those_recorded(after, other, now, t);
        pair_key_is_injective(other@, t, room@, user);
    }
    if other@ != room@ {
        listing_is_unique(texts(now@), texts(was@), |t: Seq<char>| texts(was@).contains(t));
    }
}

/// Storing a record under a user and a room in `userroomid_joined` puts the room on that
/// user's list of joined rooms. Nothing else about the rooms of any user changes.
pub proof fn stored_joining_is_listed(
    before: &Service,
    after: &Service,
    user: &UserId,
    room: Seq<char>,
    value: Vec<u8>,
    other: &UserId,
    was: Vec<RoomId>,
    now: Vec<RoomId>,
)
    requires
        RoomId::accepted(room),
        after.db.userroomid_joined@ == before.db.userroomid_joined@.insert(
            encode_utf8(user@) + seq![0xFFu8] + encode_utf8(room),
            value,
        ),
        call_ensures(Service::rooms_joined, (before, other), was),
        call_ensures(Service::rooms_joined, (after, other), now),
    ensures
        forall|t: Seq<char>| #[trigger]
            texts(now@).contains(t) <==> texts(was@).contains(t) || other@ == user@ && t == room,
        other@ != user@ ==> texts(now@) == texts(was@),
{
    first_field_is_followed_by_the_separator(user@);
    first_field_is_followed_by_the_separator(other@);
    let list = texts(now@);
    assert forall|t: Seq<char>| #[trigger] list.contains(t) <==> texts(was@).contains(t) || other@
        == user@ && t == room by {
        joined_rooms_are_those_recorded(before, other, was, t);
        joined_rooms_are_those_recorded(after, other, now, t);
        pair_key_is_injective(other@, t, user@, room);
    }
    if other@ != user@ {
        listing_is_unique(texts(now@), texts(was@), |t: Seq<char>| texts(was@).contains(t));
    }
}

/// The local users of a room are the members that `roomuserid_joined` records under the
/// full id of the room and that are local, `local` being what the question answers.
pub proof fn local_users_are_those_recorded<F: Fn(&UserId) -> bool>(
    service: &Service,
    room: &RoomId,
    user_is_local: F,
    local: spec_fn(Seq<char>) -> bool,
    users: Vec<UserId>,
    user: Seq<char>,
)
    requires
        forall|id: UserId, answer: bool| #[trigger]
            call_ensures(user_is_local, (&id,), answer) ==> answer == local(id@),
        call_ensures(
            Service::local_users_in_room::<F>,
            (service, room, user_is_local),
            users,
        ),
    ensures
        in_text_order(texts(users@)),
        texts(users@).contains(user) <==> UserId::accepted(user)
            && service.db.roomuserid_joined@.contains_key(
            encode_utf8(room@) + seq![0xFFu8] + encode_utf8(user),
        ) && local(user),
{
    first_field_is_followed_by_the_separator(room@);
    assert(service.db.member(room@, user) <==> UserId::accepted(user)
        && service.db.roomuserid_joined@.contains_key(
        encode_utf8(room@) + seq![0xFFu8] + encode_utf8(user),
    ));
}

/// The active local users of a room are the members that `roomuserid_joined` records
/// under the full id of the room and that are local and active.
pub proof fn active_local_users_are_those_recorded<
    F: Fn(&UserId) -> bool,
    G: Fn(&UserId) -> bool,
>(
    service: &Service,
    room: &RoomId,
    user_is_local: F,
    is_active: G,
    local: spec_fn(Seq<char>) -> bool,
    active: spec_fn(Seq<char>) -> bool,
    users: Vec<UserId>,
    user: Seq<char>,
)
    requires
        forall|id: UserId, answer: bool| #[trigger]
            call_ensures(user_is_local, (&id,), answer) ==> answer == local(id@),
        forall|id: UserId, answer: bool| #[trigger]
            call_ensures(is_active, (&id,), answer) ==> answer == active(id@),
        call_ensures(
            Service::active_local_users_in_room::<F, G>,
            (service, room, user_is_local, is_active),
            users,
        ),
    ensures
        in_text_order(texts(users@)),
        texts(users@).contains(user) <==> UserId::accepted(user)
            && service.db.roomuserid_joined@.contains_key(
            encode_utf8(room@) + seq![0xFFu8] + encode_utf8(user),
        ) && local(user) && active(user),
{
    first_field_is_followed_by_the_separator(room@);
    assert(service.db.member(room@, user) <==> UserId::accepted(user)
        && service.db.roomuserid_joined@.contains_key(
        encode_utf8(room@) + seq![0xFFu8] + encode_utf8(user),
    ));
}

/// What is listed under a first field are the identifiers that the table holds a key of,
/// the field coming first in it.
pub proof fn seconds_are_those_in_the_keys<T: Identifier, V>(
    table: &OrdMap<V>,
    first: &str,
    list: Vec<T>,
    second: Seq<char>,
)
    requires
        call_ensures(list_seconds::<T, V>, (table, first), list),
    ensures
        in_text_order(texts(list@)),
        texts(list@).contains(second) <==> T::accepted(second) && table@.contains_key(
            encode_utf8(first@) + seq![0xFFu8] + encode_utf8(second),
        ),
{
    first_field_is_followed_by_the_separator(first@);
}

/// What is listed under a second field are the identifiers that the table holds a key of,
/// the field coming second in it.
pub proof fn firsts_are_those_in_the_keys<T: Identifier, V>(
    table: &OrdMap<V>,
    second: &str,
    list: Vec<T>,
    first: Seq<char>,
)
    requires
        call_ensures(list_firsts::<T, V>, (table, second), list),
    ensures
        in_text_order(texts(list@)),
        texts(list@).contains(first) <==> T::accepted(first) && table@.contains_key(
            encode_utf8(first) + seq![0xFFu8] + encode_utf8(second@),
        ),
{
    first_field_is_followed_by_the_separator(first);
}

} // verus!
