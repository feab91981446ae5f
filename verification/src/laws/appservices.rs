//! What is answered about appservices and passed on to them.

use crate::appservice::{
    in_room, inquiry, known, namespace_answers, recall, recalled, AppServiceInRoomCache, Inquiry,
    Known, RegistrationInfo,
};
use crate::appservice_ephemeral::{ephemeral_json, serialize, EphemeralData};
use crate::failure::Failure;
use crate::ids::{Identifier, RoomId, UserId};
use crate::keys::first_field_is_followed_by_the_separator;
use crate::laws::remembered_is_recalled;
use crate::listing::{is_listing, listing_has_no_repeats, text_before};
use crate::order::{before, before_is_one_way};
use crate::service::{Data, Service};
use ruma::events::presence::PresenceEvent;
use ruma::events::receipt::ReceiptEventContent;
use ruma::{OwnedRoomId, OwnedUserId};
use vstd::prelude::*;
use vstd::utf8::encode_utf8;

verus! {

/// What the cache knows is what its maps hold, room by room.
pub proof fn known_is_what_the_cache_holds(cache: AppServiceInRoomCache, room: Seq<u8>)
    ensures
        known(cache).contains_key(room) <==> cache@.contains_key(room),
        cache@.contains_key(room) ==> known(cache)[room] == cache@[room]@,
{
}

/// An answer is recalled exactly if the cache holds it under the full id of the room and
/// the id of the appservice.
pub proof fn recalled_is_what_the_cache_holds(
    cache: &AppServiceInRoomCache,
    room: &RoomId,
    id: &str,
    r: Option<bool>,
)
    requires
        call_ensures(recall, (cache, room, id), r),
    ensures
        r is Some <==> cache@.contains_key(encode_utf8(room@)) && cache@[encode_utf8(
            room@,
        )]@.contains_key(encode_utf8(id@)),
        r is Some ==> r->0 == cache@[encode_utf8(room@)]@[encode_utf8(id@)],
{
}

proof fn in_room_by_the_records<F: Fn(&str) -> bool>(
    db: Data,
    room: Seq<char>,
    bridge: Seq<char>,
    users: F,
    matching: spec_fn(Seq<char>) -> bool,
    r: bool,
)
    requires
        forall|text: &str, answer: bool| #[trigger]
            call_ensures(users, (text,), answer) ==> answer == matching(text@),
        in_room(db, room, bridge, users, r),
    ensures
        r <==> db.userroomid_joined@.contains_key(
            encode_utf8(bridge) + seq![0xFFu8] + encode_utf8(room),
        ) || exists|user: Seq<char>|
            UserId::accepted(user) && db.roomuserid_joined@.contains_key(
                encode_utf8(room) + seq![0xFFu8] + #[trigger] encode_utf8(user),
            ) && matching(user),
{
    first_field_is_followed_by_the_separator(bridge);
    first_field_is_followed_by_the_separator(room);
    assert(db.joined(bridge, room) <==> db.userroomid_joined@.contains_key(
        encode_utf8(bridge) + seq![0xFFu8] + encode_utf8(room),
    ));
    if !db.joined(bridge, room) {
        if r {
            let user = choose|user: Seq<char>| #[trigger]
                db.member(room, user) && namespace_answers(users, user, true);
            assert(db.roomuserid_joined@.contains_key(
                encode_utf8(room) + seq![0xFFu8] + encode_utf8(user),
            ));
            assert(matching(user));
        } else {
            assert forall|user: Seq<char>|
                UserId::accepted(user) && db.roomuserid_joined@.contains_key(
                    encode_utf8(room) + seq![0xFFu8] + #[trigger] encode_utf8(user),
                ) implies !matching(user) by {
                assert(db.member(room, user));
                assert(namespace_answers(users, user, false));
            }
        }
    }
}

/// An appservice is in a room exactly if `userroomid_joined` holds a record under its own
/// user and the room, or `roomuserid_joined` holds one under the full id of the room and
/// a user in its namespace, `matching` being what the namespace answers.
pub proof fn bridge_is_in_a_room_by_the_records<F: Fn(&str) -> bool>(
    service: &Service,
    room: &RoomId,
    bridge: &UserId,
    users: &F,
    matching: spec_fn(Seq<char>) -> bool,
    r: bool,
)
    requires
        forall|text: &str, answer: bool| #[trigger]
            call_ensures(*users, (text,), answer) ==> answer == matching(text@),
        call_ensures(Service::bridge_in_room::<F>, (service, room, bridge, users), r),
    ensures
        r <==> service.db.userroomid_joined@.contains_key(
            encode_utf8(bridge@) + seq![0xFFu8] + encode_utf8(room@),
        ) || exists|user: Seq<char>|
            UserId::accepted(user) && service.db.roomuserid_joined@.contains_key(
                encode_utf8(room@) + seq![0xFFu8] + #[trigger] encode_utf8(user),
            ) && matching(user),
{
    in_room_by_the_records(service.db, room@, bridge@, *users, matching, r);
}

/// A cached answer about an appservice and a room is given again. Without one, an
/// appservice whose own user has no id is in no room, and any other is in the room
/// exactly if the records put its own user or a user of its namespace there.
pub proof fn appservice_is_in_a_room_by_cache_or_records<
    F: Fn(&str) -> bool,
    G: Fn(&UserId) -> bool,
>(
    service: &mut Service,
    room: &RoomId,
    appservice: &RegistrationInfo<F, G>,
    matching: spec_fn(Seq<char>) -> bool,
    id: &str,
    localpart: &str,
    cached: Option<bool>,
    bridge: Result<UserId, Failure>,
    r: bool,
)
    requires
        forall|text: &str, answer: bool| #[trigger]
            call_ensures(appservice.users, (text,), answer) ==> answer == matching(text@),
        id@ == appservice.registration.id@,
        localpart@ == appservice.registration.sender_localpart@,
        call_ensures(recall, (&old(service).appservice_in_room_cache, room, id), cached),
        call_ensures(
            UserId::parse_with_server_name,
            (localpart, &old(service).server_name),
            bridge,
        ),
        call_ensures(Service::appservice_in_room::<F, G>, (service, room, appservice), r),
    ensures
        cached is Some ==> r == cached->0,
        cached is None && bridge is Err ==> !r,
        cached is None && bridge is Ok ==> (r <==> old(
            service,
        ).db.userroomid_joined@.contains_key(
            encode_utf8(bridge->Ok_0@) + seq![0xFFu8] + encode_utf8(room@),
        ) || exists|user: Seq<char>|
            UserId::accepted(user) && old(service).db.roomuserid_joined@.contains_key(
                encode_utf8(room@) + seq![0xFFu8] + #[trigger] encode_utf8(user),
            ) && matching(user)),
        final(service).db == old(service).db,
        final(service).server_name == old(service).server_name,
{
    if cached is None && bridge is Ok {
        in_room_by_the_records(
            old(service).db,
            room@,
            bridge->Ok_0@,
            appservice.users,
            matching,
            r,
        );
    }
}

/// The answer about an appservice and a room is recalled afterwards, unless the own user
/// of the appservice has no id. What is recalled of any other room or appservice stays as
/// it was.
pub proof fn answer_is_recalled_afterwards<F: Fn(&str) -> bool, G: Fn(&UserId) -> bool>(
    service: &mut Service,
    room: &RoomId,
    appservice: &RegistrationInfo<F, G>,
    localpart: &str,
    bridge: Result<UserId, Failure>,
    r: bool,
    other_room: &RoomId,
    other_id: &str,
    was: Option<bool>,
    now: Option<bool>,
)
    requires
        localpart@ == appservice.registration.sender_localpart@,
        call_ensures(
            UserId::parse_with_server_name,
            (localpart, &old(service).server_name),
            bridge,
        ),
        call_ensures(Service::appservice_in_room::<F, G>, (service, room, appservice), r),
        call_ensures(recall, (&old(service).appservice_in_room_cache, other_room, other_id), was),
        call_ensures(
            recall,
            (&final(service).appservice_in_room_cache, other_room, other_id),
            now,
        ),
    ensures
        other_room@ == room@ && other_id@ == appservice.registration.id@ && (was is Some
            || bridge is Ok) ==> now == Some(r),
        !(other_room@ == room@ && other_id@ == appservice.registration.id@) || bridge is Err
            ==> now == was,
        was is Some ==> now == was,
{
    remembered_is_recalled(
        known(old(service).appservice_in_room_cache),
        room@,
        appservice.registration.id@,
        r,
        other_room@,
        other_id@,
    );
}

/// `r` is the answer about the room that is cached, or else the one by the records.
spec fn given<F: Fn(&str) -> bool>(q: Inquiry<F>, room: Seq<char>, cache: Known, r: bool) -> bool {
    match recalled(cache, room, q.id) {
        Some(answer) => r == answer,
        None => match q.bridge() {
            None => !r,
            Some(bridge) => in_room(q.db, room, bridge, q.users, r),
        },
    }
}

/// Asking in turn about rooms that are all different, each answer is the one that the
/// cache and the records gave at the start.
proof fn answers_in_turn_are_given<F: Fn(&str) -> bool>(
    q: Inquiry<F>,
    rooms: Seq<Seq<char>>,
    before: Known,
    after: Known,
)
    requires
        q.in_no_room(rooms, before, after),
        rooms.no_duplicates(),
    ensures
        forall|i: int| 0 <= i < rooms.len() ==> given(q, #[trigger] rooms[i], before, false),
        forall|room: Seq<char>, id: Seq<char>|
            !rooms.contains(room) || id != q.id ==> #[trigger] recalled(after, room, id)
                == recalled(before, room, id),
        forall|room: Seq<char>, id: Seq<char>|
            recalled(before, room, id) is Some ==> #[trigger] recalled(after, room, id)
                == recalled(before, room, id),
        q.bridge() is Some ==> forall|i: int|
            0 <= i < rooms.len() ==> recalled(after, #[trigger] rooms[i], q.id) == Some(false),
        q.bridge() is None ==> after == before,
    decreases rooms.len(),
{
    if rooms.len() > 0 {
        let short = rooms.drop_last();
        let last = rooms.last();
        let between = choose|between: Known|
            q.in_no_room(short, before, between) && #[trigger] q.in_room(
                last,
                between,
                false,
                after,
            );
        assert forall|i: int, j: int| 0 <= i < short.len() && 0 <= j < short.len() && i != j implies short[i]
            != short[j] by {
            assert(rooms[i] != rooms[j]);
        }
        answers_in_turn_are_given(q, short, before, between);
        assert(!short.contains(last)) by {
            if short.contains(last) {
                let i = choose|i: int| 0 <= i < short.len() && short[i] == last;
                assert(rooms[i] == rooms[rooms.len() - 1]);
            }
        }
        assert(recalled(between, last, q.id) == recalled(before, last, q.id));
        assert forall|i: int| 0 <= i < rooms.len() implies given(
            q,
            #[trigger] rooms[i],
            before,
            false,
        ) by {
            if i < short.len() {
                assert(short[i] == rooms[i]);
            }
        }
        assert forall|room: Seq<char>, id: Seq<char>|
            !rooms.contains(room) || id != q.id implies #[trigger] recalled(after, room, id)
            == recalled(before, room, id) by {
            remembered_is_recalled(between, last, q.id, false, room, id);
            if !rooms.contains(room) {
                assert(rooms[rooms.len() - 1] == last);
                assert(!short.contains(room)) by {
                    if short.contains(room) {
                        let i = choose|i: int| 0 <= i < short.len() && short[i] == room;
                        assert(rooms[i] == room);
                    }
                }
            }
            assert(recalled(between, room, id) == recalled(before, room, id));
        }
        assert forall|room: Seq<char>, id: Seq<char>|
            recalled(before, room, id) is Some implies #[trigger] recalled(after, room, id)
            == recalled(before, room, id) by {
            remembered_is_recalled(between, last, q.id, false, room, id);
            assert(recalled(between, room, id) == recalled(before, room, id));
        }
        if q.bridge() is Some {
            assert forall|i: int| 0 <= i < rooms.len() implies recalled(
                after,
                #[trigger] rooms[i],
                q.id,
            ) == Some(false) by {
                remembered_is_recalled(between, last, q.id, false, rooms[i], q.id);
                if i < short.len() {
                    assert(short[i] == rooms[i]);
                }
            }
        }
    }
}

/// A search goes through the first `n` rooms without finding the appservice, and ends
/// there or finds it in the next.
proof fn search_is_given<F: Fn(&str) -> bool>(
    q: Inquiry<F>,
    rooms: Seq<Seq<char>>,
    before: Known,
    r: bool,
    after: Known,
) -> (n: int)
    requires
        q.in_some_room(rooms, before, r, after),
        rooms.no_duplicates(),
    ensures
        0 <= n <= rooms.len(),
        r ==> n < rooms.len() && given(q, rooms[n], before, true),
        !r ==> n == rooms.len(),
        forall|i: int| 0 <= i < n ==> given(q, #[trigger] rooms[i], before, false),
        forall|room: Seq<char>, id: Seq<char>|
            recalled(before, room, id) is Some || id != q.id || !rooms.contains(room)
                ==> #[trigger] recalled(after, room, id) == recalled(before, room, id),
        q.bridge() is None ==> after == before,
        q.bridge() is Some ==> forall|i: int|
            0 <= i < n ==> recalled(after, #[trigger] rooms[i], q.id) == Some(false),
        q.bridge() is Some && r ==> recalled(after, rooms[n], q.id) == Some(true),
        forall|i: int|
            n < i < rooms.len() ==> recalled(after, #[trigger] rooms[i], q.id) == recalled(
                before,
                rooms[i],
                q.id,
            ),
{
    if r {
        let (n, between) = choose|n: int, between: Known|
            0 <= n < rooms.len() && #[trigger] q.in_no_room(rooms.take(n), before, between)
                && q.in_room(rooms[n], between, true, after);
        let asked = rooms.take(n);
        assert forall|a: int, b: int| 0 <= a < asked.len() && 0 <= b < asked.len() && a != b implies asked[a]
            != asked[b] by {
            assert(rooms[a] != rooms[b]);
        }
        answers_in_turn_are_given(q, asked, before, between);
        assert forall|i: int| n <= i < rooms.len() implies !asked.contains(#[trigger] rooms[i]) by {
            if asked.contains(rooms[i]) {
                let a = choose|a: int| 0 <= a < asked.len() && asked[a] == rooms[i];
                assert(rooms[a] == rooms[i]);
            }
        }
        assert(recalled(between, rooms[n], q.id) == recalled(before, rooms[n], q.id));
        assert(given(q, rooms[n], before, true));
        assert forall|i: int| 0 <= i < n implies given(q, #[trigger] rooms[i], before, false) by {
            assert(asked[i] == rooms[i]);
        }
        assert forall|room: Seq<char>, id: Seq<char>|
            recalled(before, room, id) is Some || id != q.id || !rooms.contains(
                room,
            ) implies #[trigger] recalled(after, room, id) == recalled(before, room, id) by {
            remembered_is_recalled(between, rooms[n], q.id, true, room, id);
            if !rooms.contains(room) {
                assert(room != rooms[n]);
                assert(!asked.contains(room)) by {
                    if asked.contains(room) {
                        let a = choose|a: int| 0 <= a < asked.len() && asked[a] == room;
                        assert(rooms[a] == room);
                    }
                }
            }
            assert(recalled(between, room, id) == recalled(before, room, id));
        }
        if q.bridge() is Some {
            assert forall|i: int| 0 <= i < n implies recalled(after, #[trigger] rooms[i], q.id)
                == Some(false) by {
                assert(asked[i] == rooms[i]);
                assert(rooms[i] != rooms[n]);
                remembered_is_recalled(between, rooms[n], q.id, true, rooms[i], q.id);
            }
            remembered_is_recalled(between, rooms[n], q.id, true, rooms[n], q.id);
        }
        assert forall|i: int| n < i < rooms.len() implies recalled(after, #[trigger] rooms[i], q.id)
            == recalled(before, rooms[i], q.id) by {
            assert(rooms[i] != rooms[n]);
            remembered_is_recalled(between, rooms[n], q.id, true, rooms[i], q.id);
            assert(recalled(between, rooms[i], q.id) == recalled(before, rooms[i], q.id));
        }
        n
    } else {
        answers_in_turn_are_given(q, rooms, before, after);
        rooms.len() as int
    }
}

/// An appservice sees a user exactly if the user is one of its own, or it is in a room
/// that `userroomid_joined` records under the full id of the user. It is in a room if the
/// cached answer says so; where none is cached, if the records put its own user or a user
/// of its namespace there. `own` and `matching` are what the appservice's questions
/// answer.
pub proof fn appservice_sees_whom_it_meets<F: Fn(&str) -> bool, G: Fn(&UserId) -> bool>(
    service: &mut Service,
    user: &UserId,
    appservice: &RegistrationInfo<F, G>,
    matching: spec_fn(Seq<char>) -> bool,
    own: bool,
    localpart: &str,
    bridge: Result<UserId, Failure>,
    in_it: spec_fn(Seq<char>) -> bool,
    r: bool,
)
    requires
        forall|text: &str, answer: bool| #[trigger]
            call_ensures(appservice.users, (text,), answer) ==> answer == matching(text@),
        forall|answer: bool| #[trigger]
            call_ensures(appservice.user_match, (user,), answer) ==> answer == own,
        localpart@ == appservice.registration.sender_localpart@,
        call_ensures(
            UserId::parse_with_server_name,
            (localpart, &old(service).server_name),
            bridge,
        ),
        forall|room: Seq<char>| #[trigger]
            in_it(room) <==> (if old(service).appservice_in_room_cache@.contains_key(
                encode_utf8(room),
            ) && old(service).appservice_in_room_cache@[encode_utf8(room)]@.contains_key(
                encode_utf8(appservice.registration.id@),
            ) {
                old(service).appservice_in_room_cache@[encode_utf8(room)]@[encode_utf8(
                    appservice.registration.id@,
                )]
            } else {
                bridge is Ok && (old(service).db.userroomid_joined@.contains_key(
                    encode_utf8(bridge->Ok_0@) + seq![0xFFu8] + encode_utf8(room),
                ) || exists|member: Seq<char>|
                    UserId::accepted(member) && old(service).db.roomuserid_joined@.contains_key(
                        encode_utf8(room) + seq![0xFFu8] + #[trigger] encode_utf8(member),
                    ) && matching(member))
            }),
        call_ensures(Service::appservice_sees_user::<F, G>, (service, user, appservice), r),
    ensures
        r <==> own || exists|room: Seq<char>|
            RoomId::accepted(room) && old(service).db.userroomid_joined@.contains_key(
                encode_utf8(user@) + seq![0xFFu8] + encode_utf8(room),
            ) && #[trigger] in_it(room),
        final(service).db == old(service).db,
        final(service).server_name == old(service).server_name,
{
    if call_ensures(appservice.user_match, (user,), false) {
        first_field_is_followed_by_the_separator(user@);
        let db = old(service).db;
        let q = inquiry(*old(service), *appservice);
        let before = known(old(service).appservice_in_room_cache);
        let after = known(final(service).appservice_in_room_cache);
        if !own {
            let rooms = choose|rooms: Seq<Seq<char>>|
                is_listing(
                    rooms,
                    |room: Seq<char>| db.in_joined_rooms(user@, room),
                ) && #[trigger] q.in_some_room(rooms, before, r, after);
            listing_has_no_repeats(rooms);
            let n = search_is_given(q, rooms, before, r, after);
            assert forall|room: Seq<char>, answer: bool| #[trigger]
                given(q, room, before, answer) implies in_it(room) == answer by {
                if recalled(before, room, q.id) is None && bridge is Ok {
                    in_room_by_the_records(
                        db,
                        room,
                        bridge->Ok_0@,
                        appservice.users,
                        matching,
                        answer,
                    );
                }
            }
            if r {
                assert(rooms.contains(rooms[n]));
                assert(in_it(rooms[n]));
            } else {
                assert forall|room: Seq<char>|
                    RoomId::accepted(room) && db.userroomid_joined@.contains_key(
                        encode_utf8(user@) + seq![0xFFu8] + encode_utf8(room),
                    ) implies !(#[trigger] in_it(room)) by {
                    assert(db.in_joined_rooms(user@, room));
                    assert(rooms.contains(room));
                    let i = choose|i: int| 0 <= i < rooms.len() && rooms[i] == room;
                    assert(given(q, rooms[i], before, false));
                }
            }
        }
    }
}

/// The rooms of a user are asked about in order, up to the first that the appservice is
/// in: the answers about these are recalled afterwards, and nothing new about any other
/// room. Nothing is asked about a user of its own, and nothing is recalled of an
/// appservice whose own user has no id.
pub proof fn rooms_are_asked_about_in_order<F: Fn(&str) -> bool, G: Fn(&UserId) -> bool>(
    service: &mut Service,
    user: &UserId,
    appservice: &RegistrationInfo<F, G>,
    matching: spec_fn(Seq<char>) -> bool,
    own: bool,
    localpart: &str,
    bridge: Result<UserId, Failure>,
    in_it: spec_fn(Seq<char>) -> bool,
    r: bool,
    room: &RoomId,
    id: &str,
    was: Option<bool>,
    now: Option<bool>,
)
    requires
        forall|text: &str, answer: bool| #[trigger]
            call_ensures(appservice.users, (text,), answer) ==> answer == matching(text@),
        forall|answer: bool| #[trigger]
            call_ensures(appservice.user_match, (user,), answer) ==> answer == own,
        localpart@ == appservice.registration.sender_localpart@,
        call_ensures(
            UserId::parse_with_server_name,
            (localpart, &old(service).server_name),
            bridge,
        ),
        forall|room: Seq<char>| #[trigger]
            in_it(room) <==> (if old(service).appservice_in_room_cache@.contains_key(
                encode_utf8(room),
            ) && old(service).appservice_in_room_cache@[encode_utf8(room)]@.contains_key(
                encode_utf8(appservice.registration.id@),
            ) {
                old(service).appservice_in_room_cache@[encode_utf8(room)]@[encode_utf8(
                    appservice.registration.id@,
                )]
            } else {
                bridge is Ok && (old(service).db.userroomid_joined@.contains_key(
                    encode_utf8(bridge->Ok_0@) + seq![0xFFu8] + encode_utf8(room),
                ) || exists|member: Seq<char>|
                    UserId::accepted(member) && old(service).db.roomuserid_joined@.contains_key(
                        encode_utf8(room) + seq![0xFFu8] + #[trigger] encode_utf8(member),
                    ) && matching(member))
            }),
        call_ensures(Service::appservice_sees_user::<F, G>, (service, user, appservice), r),
        RoomId::accepted(room@),
        id@ == appservice.registration.id@,
        call_ensures(recall, (&old(service).appservice_in_room_cache, room, id), was),
        call_ensures(recall, (&final(service).appservice_in_room_cache, room, id), now),
    ensures
        own || bridge is Err || was is Some ==> now == was,
        !old(service).db.userroomid_joined@.contains_key(
            encode_utf8(user@) + seq![0xFFu8] + encode_utf8(room@),
        ) ==> now == was,
        !own && bridge is Ok && was is None && old(service).db.userroomid_joined@.contains_key(
            encode_utf8(user@) + seq![0xFFu8] + encode_utf8(room@),
        ) ==> now == (if exists|other: Seq<char>|
            RoomId::accepted(other) && old(service).db.userroomid_joined@.contains_key(
                encode_utf8(user@) + seq![0xFFu8] + encode_utf8(other),
            ) && before(encode_utf8(other), encode_utf8(room@)) && #[trigger] in_it(other) {
            None
        } else {
            Some(in_it(room@))
        }),
{
    first_field_is_followed_by_the_separator(user@);
    let db = old(service).db;
    let q = inquiry(*old(service), *appservice);
    let cache = known(old(service).appservice_in_room_cache);
    let after = known(final(service).appservice_in_room_cache);
    if !own {
        let rooms = choose|rooms: Seq<Seq<char>>|
            is_listing(
                rooms,
                |room: Seq<char>| db.in_joined_rooms(user@, room),
            ) && #[trigger] q.in_some_room(rooms, cache, r, after);
        listing_has_no_repeats(rooms);
        let n = search_is_given(q, rooms, cache, r, after);
        assert forall|room: Seq<char>, answer: bool| #[trigger]
            given(q, room, cache, answer) implies in_it(room) == answer by {
            if recalled(cache, room, q.id) is None && bridge is Ok {
                in_room_by_the_records(
                    db,
                    room,
                    bridge->Ok_0@,
                    appservice.users,
                    matching,
                    answer,
                );
            }
        }
        let joined = |other: Seq<char>|
            RoomId::accepted(other) && db.userroomid_joined@.contains_key(
                encode_utf8(user@) + seq![0xFFu8] + encode_utf8(other),
            );
        assert forall|other: Seq<char>| joined(other) == #[trigger] rooms.contains(other) by {
            assert(db.in_joined_rooms(user@, other) == joined(other));
        }
        if joined(room@) && bridge is Ok && was is None {
            assert(rooms.contains(room@));
            let k = choose|k: int| 0 <= k < rooms.len() && rooms[k] == room@;
            if k <= n {
                assert forall|other: Seq<char>|
                    joined(other) && before(encode_utf8(other), encode_utf8(room@)) implies !(
                #[trigger] in_it(other)) by {
                    assert(rooms.contains(other));
                    let j = choose|j: int| 0 <= j < rooms.len() && rooms[j] == other;
                    before_is_one_way(encode_utf8(other), encode_utf8(room@));
                    before_is_one_way(encode_utf8(room@), encode_utf8(room@));
                    if j > k {
                        assert(text_before(rooms[k], rooms[j]));
                    }
                    assert(j < k);
                    assert(given(q, rooms[j], cache, false));
                }
                if k < n {
                    assert(given(q, rooms[k], cache, false));
                }
            } else {
                assert(rooms.contains(rooms[n]));
                assert(joined(rooms[n]));
                assert(text_before(rooms[n], rooms[k]));
                assert(in_it(rooms[n]));
            }
        }
    }
}

/// Asking whether an appservice sees a user changes no answer that is cached, and nothing
/// that is cached about other appservices.
pub proof fn seeing_changes_no_cached_answer<F: Fn(&str) -> bool, G: Fn(&UserId) -> bool>(
    service: &mut Service,
    user: &UserId,
    appservice: &RegistrationInfo<F, G>,
    r: bool,
    room: &RoomId,
    id: &str,
    was: Option<bool>,
    now: Option<bool>,
)
    requires
        call_ensures(Service::appservice_sees_user::<F, G>, (service, user, appservice), r),
        call_ensures(recall, (&old(service).appservice_in_room_cache, room, id), was),
        call_ensures(recall, (&final(service).appservice_in_room_cache, room, id), now),
    ensures
        was is Some || id@ != appservice.registration.id@ ==> now == was,
{
    let db = old(service).db;
    let q = inquiry(*old(service), *appservice);
    let before = known(old(service).appservice_in_room_cache);
    let after = known(final(service).appservice_in_room_cache);
    if after != before {
        let rooms = choose|rooms: Seq<Seq<char>>|
            is_listing(
                rooms,
                |room: Seq<char>| db.in_joined_rooms(user@, room),
            ) && #[trigger] q.in_some_room(rooms, before, r, after);
        listing_has_no_repeats(rooms);
        search_is_given(q, rooms, before, r, after);
    }
}

/// After the cache is cleared nothing is recalled of any room or appservice, and no room
/// is counted; the records stay.
pub proof fn cleared_cache_recalls_nothing(
    service: &mut Service,
    after: &Service,
    room: &RoomId,
    id: &str,
    now: Option<bool>,
    usage: (usize, usize),
)
    requires
        call_ensures(Service::clear_appservice_in_room_cache, (service,), ()),
        *after == *final(service),
        call_ensures(recall, (&after.appservice_in_room_cache, room, id), now),
        call_ensures(Service::get_appservice_in_room_cache_usage, (after,), usage),
    ensures
        now is None,
        usage.0 == 0,
        after.db == old(service).db,
        after.server_name == old(service).server_name,
{
}

/// The usage of the cache is the number of rooms that something is cached for, and room
/// for at least as many.
pub proof fn usage_counts_the_rooms(service: &Service, usage: (usize, usize))
    requires
        call_ensures(Service::get_appservice_in_room_cache_usage, (service,), usage),
    ensures
        usage.0 == service.appservice_in_room_cache@.dom().len(),
        usage.1 >= usage.0,
{
    assert(known(service.appservice_in_room_cache).dom()
        =~= service.appservice_in_room_cache@.dom());
}

/// A typing event carries the room and all the users, in order.
pub proof fn typing_carries_the_room_and_users(
    room_id: OwnedRoomId,
    user_ids: Vec<OwnedUserId>,
    r: EphemeralData,
)
    requires
        call_ensures(crate::appservice_ephemeral::typing, (room_id, user_ids), r),
    ensures
        r is Typing,
        r->Typing_0.room_id == room_id,
        r->Typing_0.content.user_ids@ == user_ids@,
{
}

/// A receipt event carries the room and the receipts.
pub proof fn receipt_carries_the_room_and_receipts(
    content: ReceiptEventContent,
    room_id: OwnedRoomId,
    r: EphemeralData,
)
    requires
        call_ensures(crate::appservice_ephemeral::receipt, (content, room_id), r),
    ensures
        r is Receipt,
        r->Receipt_0.room_id == room_id,
        r->Receipt_0.content == content,
{
}

/// A presence event is the one given.
pub proof fn presence_carries_the_event(event: PresenceEvent, r: EphemeralData)
    requires
        call_ensures(crate::appservice_ephemeral::presence, (event,), r),
    ensures
        r is Presence,
        r->Presence_0 == event,
{
}

/// The bytes of an event are its JSON form, all of it; where it has none, that is said.
pub proof fn serialized_is_the_json_form(ephemeral: &EphemeralData, r: Result<Vec<u8>, Failure>)
    requires
        call_ensures(serialize, (ephemeral,), r),
    ensures
        match ephemeral_json(*ephemeral) {
            Some(json) => r is Ok && r->Ok_0@ == json,
            None => r is Err && r->Err_0 == Failure::Json,
        },
{
}

} // verus!
