//! What holds of the state cache as a whole. The modules below say of each function what
//! its result has to do with the records and with the results of other functions.

use crate::appservice::{in_room, namespace_answers, recalled, remembering, Inquiry, Known};
use crate::failure::Failure;
use crate::ids::{Identifier, RoomId, UserId};
use crate::keys::{
    first_field, first_field_is_exact, pair_key, pair_key_is_injective, utf8_tells_texts_apart,
};
use crate::listing::{
    first_texts, in_text_order, is_listing, listing_has_no_repeats, listing_is_unique, recorded,
};
use crate::membership::MembershipState;
use crate::order::begins_with;
use crate::service::{answers, decodes, room_id_stored, stored_state, Data};
use crate::values::{stored_count, Records};
use vstd::prelude::*;
use vstd::utf8::encode_utf8;

pub mod appservices;
pub mod contents;
pub mod foundations;
pub mod lists;
pub mod questions;

verus! {

/// Seeing one another is mutual, and two users see each other exactly if the list
/// of the rooms they share is not empty.
pub proof fn seeing_is_mutual(db: Data, a: Seq<char>, b: Seq<char>, rooms: Seq<Seq<char>>)
    requires
        is_listing(rooms, |room: Seq<char>| db.shared(a, b, room)),
    ensures
        db.share_a_room(a, b) == db.share_a_room(b, a),
        db.share_a_room(a, b) <==> rooms.len() > 0,
{
    if db.share_a_room(a, b) {
        let room = choose|room: Seq<char>| db.shared(a, b, room);
        assert(db.shared(b, a, room));
        assert(rooms.contains(room));
    }
    if db.share_a_room(b, a) {
        let room = choose|room: Seq<char>| db.shared(b, a, room);
        assert(db.shared(a, b, room));
    }
    if rooms.len() > 0 {
        assert(rooms.contains(rooms[0]));
        assert(db.shared(a, b, rooms[0]));
    }
}

/// The rooms that two users share do not depend on which of them is named first.
pub proof fn shared_rooms_are_mutual(
    db: Data,
    a: Seq<char>,
    b: Seq<char>,
    rooms: Seq<Seq<char>>,
    others: Seq<Seq<char>>,
)
    requires
        is_listing(rooms, |room: Seq<char>| db.shared(a, b, room)),
        is_listing(others, |room: Seq<char>| db.shared(b, a, room)),
    ensures
        rooms == others,
{
    let belongs = |room: Seq<char>| db.shared(a, b, room);
    assert(is_listing(others, belongs)) by {
        assert forall|room: Seq<char>| #[trigger] others.contains(room) <==> belongs(room) by {
            assert(db.shared(a, b, room) == db.shared(b, a, room));
        }
    }
    listing_is_unique(rooms, others, belongs);
}

/// The rooms that a user shares with themselves are the rooms they are joined to.
pub proof fn shared_with_oneself(
    db: Data,
    user: Seq<char>,
    shared: Seq<Seq<char>>,
    joined: Seq<Seq<char>>,
)
    requires
        is_listing(shared, |room: Seq<char>| db.shared(user, user, room)),
        is_listing(joined, |room: Seq<char>| db.in_joined_rooms(user, room)),
    ensures
        shared == joined,
{
    let belongs = |room: Seq<char>| db.in_joined_rooms(user, room);
    assert(is_listing(shared, belongs)) by {
        assert forall|room: Seq<char>| #[trigger] shared.contains(room) <==> belongs(room) by {
            assert(db.shared(user, user, room) == db.in_joined_rooms(user, room));
        }
    }
    listing_is_unique(shared, joined, belongs);
}

/// The list of a user's joined rooms and the single question agree: a room is listed
/// exactly if the user is joined to it.
pub proof fn joined_rooms_are_those_joined(
    db: Data,
    user: Seq<char>,
    room: Seq<char>,
    rooms: Seq<Seq<char>>,
)
    requires
        is_listing(rooms, |room: Seq<char>| db.in_joined_rooms(user, room)),
        RoomId::accepted(room),
    ensures
        rooms.contains(room) <==> db.joined(user, room),
{
}

/// The list of a server's rooms and the single question agree.
pub proof fn server_rooms_are_those_taken_part_in(
    db: Data,
    server: Seq<char>,
    room: Seq<char>,
    rooms: Seq<Seq<char>>,
)
    requires
        is_listing(
            rooms,
            |room: Seq<char>| recorded::<RoomId, Vec<u8>>(db.serverroomids@, server, room),
        ),
        RoomId::accepted(room),
    ensures
        rooms.contains(room) <==> db.server_in(server, room),
{
}

/// The list of the users that ever joined a room and the single question agree: a
/// user is listed exactly if they once joined, and no user is listed twice.
pub proof fn users_once_joined_are_those_listed(
    db: Data,
    user: Seq<char>,
    room: Seq<char>,
    users: Seq<Seq<char>>,
)
    requires
        is_listing(
            users,
            |user: Seq<char>| UserId::accepted(user) && db.once_joined(user, room),
        ),
        UserId::accepted(user),
    ensures
        users.contains(user) <==> db.once_joined(user, room),
        users.no_duplicates(),
{
    listing_has_no_repeats(users);
}

/// A list of identifiers and the count under each agree: exactly what is not listed
/// has no count to be found.
pub proof fn listed_exactly_if_counted<T: Identifier>(
    table: Records,
    first: Seq<char>,
    second: Seq<char>,
    list: Seq<Seq<char>>,
)
    requires
        is_listing(list, |t: Seq<char>| recorded::<T, Vec<u8>>(table, first, t)),
        T::accepted(second),
    ensures
        !list.contains(second) <==> stored_count(table, pair_key(first, second)) == Err::<
            u64,
            Failure,
        >(Failure::NotFound),
{
}

/// A room that is listed with its state events is one for which a record is stored,
/// and the events are those that the single question gives; a room on record that is
/// not listed holds events that cannot be read.
pub proof fn listed_exactly_if_readable(
    table: Records,
    user: Seq<char>,
    room: Seq<char>,
    rooms: Seq<Seq<char>>,
)
    requires
        is_listing(
            rooms,
            |room: Seq<char>|
                room_id_stored(table, user, room) && stored_state(
                    table,
                    pair_key(user, room),
                ) is Ok,
        ),
        RoomId::accepted(room),
    ensures
        rooms.contains(room) <==> stored_state(table, pair_key(user, room)) is Ok,
        !rooms.contains(room) ==> (stored_state(table, pair_key(user, room)) == Err::<
            Seq<Seq<char>>,
            Failure,
        >(Failure::NotFound) <==> !table.contains_key(pair_key(user, room))),
{
}

/// Where the decoder never both reads and refuses the same bytes, the rooms that a
/// user left are listed in full: those on record whose bytes it reads, and no others.
pub proof fn left_rooms_are_the_readable_ones<
    P,
    E,
    F: Fn(&Vec<u8>) -> Result<Option<P>, E>,
>(
    table: Records,
    user: Seq<char>,
    decode: F,
    rows: Seq<(RoomId, Option<P>)>,
)
    requires
        forall|bytes: Vec<u8>, event: Option<P>|
            !(#[trigger] decodes(decode, bytes, Ok(event)) && decodes(
                decode,
                bytes,
                Err(Failure::Undecodable),
            )),
        in_text_order(first_texts(rows)),
        forall|i: int|
            0 <= i < rows.len() ==> room_id_stored(table, user, (#[trigger] rows[i]).0@)
                && decodes(decode, table[pair_key(user, rows[i].0@)], Ok(rows[i].1)),
        forall|room: Seq<char>| #[trigger]
            room_id_stored(table, user, room) && !first_texts(rows).contains(room) ==> decodes(
                decode,
                table[pair_key(user, room)],
                Err(Failure::Undecodable),
            ),
    ensures
        is_listing(
            first_texts(rows),
            |room: Seq<char>|
                room_id_stored(table, user, room) && exists|event: Option<P>| #[trigger]
                    decodes(decode, table[pair_key(user, room)], Ok(event)),
        ),
{
    let list = first_texts(rows);
    assert forall|room: Seq<char>| #[trigger]
        list.contains(room) <==> room_id_stored(table, user, room) && exists|event: Option<P>|
            #[trigger] decodes(decode, table[pair_key(user, room)], Ok(event)) by {
        if list.contains(room) {
            let i = choose|i: int| 0 <= i < list.len() && list[i] == room;
            assert(rows[i].0@ == room);
            assert(decodes(decode, table[pair_key(user, room)], Ok(rows[i].1)));
        }
    }
}

/// A list of what is stored under a first field depends on no records but those whose
/// keys begin with that field: two tables that agree on these give the same list.
pub proof fn list_reads_only_its_own_records<T: Identifier>(
    table: Records,
    other: Records,
    first: Seq<char>,
    list: Seq<Seq<char>>,
    other_list: Seq<Seq<char>>,
)
    requires
        forall|key: Seq<u8>|
            begins_with(key, first_field(first)) ==> (#[trigger] table.contains_key(key)
                <==> other.contains_key(key)),
        is_listing(list, |t: Seq<char>| recorded::<T, Vec<u8>>(table, first, t)),
        is_listing(other_list, |t: Seq<char>| recorded::<T, Vec<u8>>(other, first, t)),
    ensures
        list == other_list,
{
    let belongs = |t: Seq<char>| recorded::<T, Vec<u8>>(table, first, t);
    assert(is_listing(other_list, belongs)) by {
        assert forall|t: Seq<char>| #[trigger] other_list.contains(t) <==> belongs(t) by {
            first_field_is_exact(first, t, first);
            assert(table.contains_key(pair_key(first, t)) <==> other.contains_key(
                pair_key(first, t),
            ));
        }
    }
    listing_is_unique(list, other_list, belongs);
}

/// What is written is read back: once a record is stored under `first` and `second`,
/// `second` is on the list of `first`, and nothing else about the list of any first
/// field has changed.
pub proof fn stored_is_listed<T: Identifier>(
    table: Records,
    first: Seq<char>,
    second: Seq<char>,
    value: Vec<u8>,
    other: Seq<char>,
    was: Seq<Seq<char>>,
    now: Seq<Seq<char>>,
)
    requires
        T::accepted(second),
        is_listing(was, |t: Seq<char>| recorded::<T, Vec<u8>>(table, other, t)),
        is_listing(
            now,
            |t: Seq<char>|
                recorded::<T, Vec<u8>>(table.insert(pair_key(first, second), value), other, t),
        ),
    ensures
        forall|t: Seq<char>| #[trigger]
            now.contains(t) <==> was.contains(t) || other == first && t == second,
        other != first ==> now == was,
{
    let after = table.insert(pair_key(first, second), value);
    assert forall|t: Seq<char>| #[trigger]
        now.contains(t) <==> was.contains(t) || other == first && t == second by {
        pair_key_is_injective(other, t, first, second);
        assert(recorded::<T, Vec<u8>>(after, other, t) <==> recorded::<T, Vec<u8>>(
            table,
            other,
            t,
        ) || other == first && t == second);
        assert(was.contains(t) <==> recorded::<T, Vec<u8>>(table, other, t));
    }
    if other != first {
        let belongs = |t: Seq<char>| recorded::<T, Vec<u8>>(table, other, t);
        assert(is_listing(now, belongs)) by {
            assert forall|t: Seq<char>| #[trigger] now.contains(t) <==> belongs(t) by {
                assert(was.contains(t) <==> belongs(t));
            }
        }
        listing_is_unique(was, now, belongs);
    }
}

/// What is taken out is gone: once the record under `first` and `second` is removed,
/// `second` is not on the list of `first`, and nothing else about the list of any first
/// field has changed.
pub proof fn removed_is_not_listed<T: Identifier>(
    table: Records,
    first: Seq<char>,
    second: Seq<char>,
    other: Seq<char>,
    was: Seq<Seq<char>>,
    now: Seq<Seq<char>>,
)
    requires
        is_listing(was, |t: Seq<char>| recorded::<T, Vec<u8>>(table, other, t)),
        is_listing(
            now,
            |t: Seq<char>|
                recorded::<T, Vec<u8>>(table.remove(pair_key(first, second)), other, t),
        ),
    ensures
        forall|t: Seq<char>| #[trigger]
            now.contains(t) <==> was.contains(t) && !(other == first && t == second),
        other != first ==> now == was,
{
    let after = table.remove(pair_key(first, second));
    assert forall|t: Seq<char>| #[trigger]
        now.contains(t) <==> was.contains(t) && !(other == first && t == second) by {
        pair_key_is_injective(other, t, first, second);
        assert(recorded::<T, Vec<u8>>(after, other, t) <==> recorded::<T, Vec<u8>>(
            table,
            other,
            t,
        ) && !(other == first && t == second));
        assert(was.contains(t) <==> recorded::<T, Vec<u8>>(table, other, t));
    }
    if other != first {
        let belongs = |t: Seq<char>| recorded::<T, Vec<u8>>(table, other, t);
        assert(is_listing(now, belongs)) by {
            assert forall|t: Seq<char>| #[trigger] now.contains(t) <==> belongs(t) by {
                assert(was.contains(t) <==> belongs(t));
            }
        }
        listing_is_unique(was, now, belongs);
    }
}

/// Once it is on record that a user joined a room, the user is on that room's list of
/// those who ever joined, and nothing else about the list of any room has changed.
pub proof fn recorded_joining_is_listed(
    table: Records,
    user: Seq<char>,
    room: Seq<char>,
    value: Vec<u8>,
    other: Seq<char>,
    was: Seq<Seq<char>>,
    now: Seq<Seq<char>>,
)
    requires
        UserId::accepted(user),
        is_listing(
            was,
            |t: Seq<char>| UserId::accepted(t) && table.contains_key(pair_key(t, other)),
        ),
        is_listing(
            now,
            |t: Seq<char>|
                UserId::accepted(t) && table.insert(pair_key(user, room), value).contains_key(
                    pair_key(t, other),
                ),
        ),
    ensures
        forall|t: Seq<char>| #[trigger]
            now.contains(t) <==> was.contains(t) || other == room && t == user,
        other != room ==> now == was,
{
    let belongs = |t: Seq<char>| UserId::accepted(t) && table.contains_key(pair_key(t, other));
    assert forall|t: Seq<char>| #[trigger]
        now.contains(t) <==> was.contains(t) || other == room && t == user by {
        pair_key_is_injective(t, other, user, room);
        assert(was.contains(t) <==> belongs(t));
    }
    if other != room {
        assert(is_listing(now, belongs)) by {
            assert forall|t: Seq<char>| #[trigger] now.contains(t) <==> belongs(t) by {
                assert(was.contains(t) <==> belongs(t));
            }
        }
        listing_is_unique(was, now, belongs);
    }
}

/// `question` gives no user two different answers.
pub open spec fn is_consistent<F: Fn(&UserId) -> bool>(question: F) -> bool {
    forall|user: Seq<char>|
        !(#[trigger] answers(question, user, true) && answers(question, user, false))
}

/// Where locality is a plain fact about a user, the local users of a room are listed
/// in full: the members of the room that are local, and no one else.
pub proof fn local_users_are_the_local_members<F: Fn(&UserId) -> bool>(
    db: Data,
    room: Seq<char>,
    user_is_local: F,
    list: Seq<Seq<char>>,
)
    requires
        is_consistent(user_is_local),
        in_text_order(list),
        forall|user: Seq<char>| #[trigger]
            list.contains(user) ==> db.member(room, user) && answers(user_is_local, user, true),
        forall|user: Seq<char>| #[trigger]
            db.member(room, user) && !list.contains(user) ==> answers(user_is_local, user, false),
    ensures
        is_listing(
            list,
            |user: Seq<char>| db.member(room, user) && answers(user_is_local, user, true),
        ),
{
}

/// Where locality and activity are plain facts about a user, the active local users
/// of a room are exactly those of its local users that are active.
pub proof fn active_users_are_the_active_local_users<
    F: Fn(&UserId) -> bool,
    G: Fn(&UserId) -> bool,
>(
    db: Data,
    room: Seq<char>,
    user_is_local: F,
    is_active: G,
    local: Seq<Seq<char>>,
    list: Seq<Seq<char>>,
)
    requires
        is_consistent(user_is_local),
        is_consistent(is_active),
        is_listing(
            local,
            |user: Seq<char>| db.member(room, user) && answers(user_is_local, user, true),
        ),
        in_text_order(list),
        forall|user: Seq<char>| #[trigger]
            list.contains(user) ==> db.member(room, user) && answers(user_is_local, user, true)
                && answers(is_active, user, true),
        forall|user: Seq<char>| #[trigger]
            db.member(room, user) && !list.contains(user) ==> answers(user_is_local, user, false)
                || answers(is_active, user, false),
    ensures
        is_listing(
            list,
            |user: Seq<char>| local.contains(user) && answers(is_active, user, true),
        ),
{
    assert forall|user: Seq<char>| #[trigger] list.contains(user) <==> local.contains(user)
        && answers(is_active, user, true) by {
        if local.contains(user) {
            assert(db.member(room, user));
            assert(answers(user_is_local, user, true));
        }
    }
}

/// A user that is joined to a room counts as joined whatever else is on record; one
/// has no membership exactly if nothing is on record; and one counts as banned
/// exactly if the only record is of having been joined once.
pub proof fn membership_follows_the_records(db: Data, user: Seq<char>, room: Seq<char>)
    ensures
        db.membership(user, room) == Some(MembershipState::Join) <==> db.joined(user, room),
        db.membership(user, room) is None <==> !db.joined(user, room) && !db.left(user, room)
            && !db.knocked(user, room) && !db.invited(user, room) && !db.once_joined(user, room),
        db.membership(user, room) == Some(MembershipState::Ban) <==> db.once_joined(user, room)
            && !db.joined(user, room) && !db.left(user, room) && !db.knocked(user, room)
            && !db.invited(user, room),
        db.membership(user, room) == Some(MembershipState::Leave) ==> db.left(user, room),
        db.membership(user, room) == Some(MembershipState::Knock) ==> db.knocked(user, room),
        db.membership(user, room) == Some(MembershipState::Invite) ==> db.invited(user, room),
{
}

/// Remembering an answer makes it the one recalled, and leaves every other answer as
/// it was.
pub proof fn remembered_is_recalled(
    known: Known,
    room: Seq<char>,
    id: Seq<char>,
    answer: bool,
    other_room: Seq<char>,
    other_id: Seq<char>,
)
    ensures
        recalled(remembering(known, room, id, answer), other_room, other_id) == (if other_room
            == room && other_id == id {
            Some(answer)
        } else {
            recalled(known, other_room, other_id)
        }),
{
    if encode_utf8(other_room) == encode_utf8(room) {
        utf8_tells_texts_apart(other_room, room);
    }
    if encode_utf8(other_id) == encode_utf8(id) {
        utf8_tells_texts_apart(other_id, id);
    }
}

/// After the cache is cleared nothing is recalled.
pub proof fn cleared_is_forgotten(room: Seq<char>, id: Seq<char>)
    ensures
        recalled(Known::empty(), room, id) is None,
{
}

/// Where the namespace gives no user id two different answers, an appservice is in a
/// room exactly if its own user is joined to it or a member of it is in the
/// namespace.
pub proof fn in_room_exactly<F: Fn(&str) -> bool>(
    db: Data,
    room: Seq<char>,
    bridge: Seq<char>,
    users: F,
    r: bool,
)
    requires
        forall|user: Seq<char>|
            !(#[trigger] namespace_answers(users, user, true) && namespace_answers(
                users,
                user,
                false,
            )),
        in_room(db, room, bridge, users, r),
    ensures
        r <==> db.joined(bridge, room) || exists|user: Seq<char>| #[trigger]
            db.member(room, user) && namespace_answers(users, user, true),
{
}

/// Asking about an appservice never changes an answer that is already cached.
pub proof fn cached_answers_stay<F: Fn(&str) -> bool>(
    q: Inquiry<F>,
    room: Seq<char>,
    before: Known,
    r: bool,
    after: Known,
    other_room: Seq<char>,
    other_id: Seq<char>,
)
    requires
        q.in_room(room, before, r, after),
        recalled(before, other_room, other_id) is Some,
    ensures
        recalled(after, other_room, other_id) == recalled(before, other_room, other_id),
{
    remembered_is_recalled(before, room, q.id, r, other_room, other_id);
}

/// Asking again gives the same answer and leaves the cache as it is.
pub proof fn asking_again_repeats_the_answer<F: Fn(&str) -> bool>(
    q: Inquiry<F>,
    room: Seq<char>,
    before: Known,
    r: bool,
    after: Known,
    again: bool,
    later: Known,
)
    requires
        q.in_room(room, before, r, after),
        q.in_room(room, after, again, later),
    ensures
        again == r,
        later == after,
{
    remembered_is_recalled(before, room, q.id, r, room, q.id);
}

/// `r` is what the records say about the appservice being in the room.
pub open spec fn true_of_records<F: Fn(&str) -> bool>(
    q: Inquiry<F>,
    room: Seq<char>,
    r: bool,
) -> bool {
    match q.bridge() {
        None => !r,
        Some(bridge) => in_room(q.db, room, bridge, q.users, r),
    }
}

/// Every cached answer about the appservice is what the records say.
pub open spec fn truthful<F: Fn(&str) -> bool>(q: Inquiry<F>, known: Known) -> bool {
    forall|room: Seq<char>|
        match #[trigger] recalled(known, room, q.id) {
            Some(answer) => true_of_records(q, room, answer),
            None => true,
        }
}

/// An empty cache is truthful.
pub proof fn empty_cache_is_truthful<F: Fn(&str) -> bool>(q: Inquiry<F>)
    ensures
        truthful(q, Known::empty()),
{
}

/// While the records stay as they are, a truthful cache stays truthful, and every
/// answer is what the records say.
pub proof fn answers_are_true<F: Fn(&str) -> bool>(
    q: Inquiry<F>,
    room: Seq<char>,
    before: Known,
    r: bool,
    after: Known,
)
    requires
        truthful(q, before),
        q.in_room(room, before, r, after),
    ensures
        true_of_records(q, room, r),
        truthful(q, after),
{
    assert(recalled(before, room, q.id) is Some ==> true_of_records(q, room, r));
    assert forall|other: Seq<char>|
        match #[trigger] recalled(after, other, q.id) {
            Some(answer) => true_of_records(q, other, answer),
            None => true,
        } by {
        remembered_is_recalled(before, room, q.id, r, other, q.id);
        assert(recalled(before, other, q.id) is Some ==> true_of_records(
            q,
            other,
            recalled(before, other, q.id).unwrap(),
        ));
    }
}

proof fn answers_in_turn_are_true<F: Fn(&str) -> bool>(
    q: Inquiry<F>,
    rooms: Seq<Seq<char>>,
    before: Known,
    after: Known,
)
    requires
        truthful(q, before),
        q.in_no_room(rooms, before, after),
    ensures
        forall|i: int| 0 <= i < rooms.len() ==> true_of_records(q, #[trigger] rooms[i], false),
        truthful(q, after),
    decreases rooms.len(),
{
    if rooms.len() > 0 {
        let between = choose|between: Known|
            q.in_no_room(rooms.drop_last(), before, between) && #[trigger] q.in_room(
                rooms.last(),
                between,
                false,
                after,
            );
        answers_in_turn_are_true(q, rooms.drop_last(), before, between);
        answers_are_true(q, rooms.last(), between, false, after);
        assert forall|i: int| 0 <= i < rooms.len() implies true_of_records(
            q,
            #[trigger] rooms[i],
            false,
        ) by {
            if i < rooms.len() - 1 {
                assert(rooms.drop_last()[i] == rooms[i]);
            }
        }
    }
}

/// From a truthful cache, an appservice is found to be in one of the rooms only if
/// the records put it in one of them, and in none only if they put it in none.
pub proof fn search_is_true<F: Fn(&str) -> bool>(
    q: Inquiry<F>,
    rooms: Seq<Seq<char>>,
    before: Known,
    r: bool,
    after: Known,
)
    requires
        truthful(q, before),
        q.in_some_room(rooms, before, r, after),
    ensures
        r ==> exists|i: int| 0 <= i < rooms.len() && true_of_records(q, #[trigger] rooms[i], true),
        !r ==> forall|i: int|
            0 <= i < rooms.len() ==> true_of_records(q, #[trigger] rooms[i], false),
        truthful(q, after),
{
    if r {
        let (i, between) = choose|i: int, between: Known|
            0 <= i < rooms.len() && #[trigger] q.in_no_room(rooms.take(i), before, between)
                && q.in_room(rooms[i], between, true, after);
        answers_in_turn_are_true(q, rooms.take(i), before, between);
        answers_are_true(q, rooms[i], between, true, after);
    } else {
        answers_in_turn_are_true(q, rooms, before, after);
    }
}

} // verus!
