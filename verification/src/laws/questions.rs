//! What is answered about a single user, room or server, in terms of the records.

use crate::failure::Failure;
use crate::ids::{Identifier, RoomId, ServerName, UserId};
use crate::keys::first_field_is_followed_by_the_separator;
use crate::membership::{membership_of, MembershipState};
use crate::service::Service;
use vstd::prelude::*;
use vstd::utf8::encode_utf8;

verus! {

/// Every question may be asked about any user, room and server.
pub proof fn any_user_room_and_server_may_be_asked_about(
    service: &Service,
    user: &UserId,
    other: &UserId,
    room: &RoomId,
    server: &ServerName,
)
    ensures
        call_requires(Service::is_joined, (service, user, room)),
        call_requires(Service::is_left, (service, user, room)),
        call_requires(Service::is_knocked, (service, user, room)),
        call_requires(Service::is_invited, (service, user, room)),
        call_requires(Service::once_joined, (service, user, room)),
        call_requires(Service::user_membership, (service, user, room)),
        call_requires(Service::invite_sender, (service, user, room)),
        call_requires(Service::invite_state, (service, user, room)),
        call_requires(Service::knock_state, (service, user, room)),
        call_requires(Service::rooms_joined, (service, user)),
        call_requires(Service::rooms_invited, (service, user)),
        call_requires(Service::rooms_knocked, (service, user)),
        call_requires(Service::get_shared_rooms, (service, user, other)),
        call_requires(Service::user_sees_user, (service, user, other)),
        call_requires(Service::server_sees_user, (service, server, user)),
        call_requires(Service::server_in_room, (service, server, room)),
        call_requires(Service::server_rooms, (service, server)),
        call_requires(Service::room_servers, (service, room)),
        call_requires(Service::room_members, (service, room)),
        call_requires(Service::room_members_invited, (service, room)),
        call_requires(Service::room_members_knocked, (service, room)),
        call_requires(Service::room_useroncejoined, (service, room)),
        call_requires(Service::room_joined_count, (service, room)),
        call_requires(Service::room_invited_count, (service, room)),
        call_requires(Service::get_invite_count, (service, room, user)),
        call_requires(Service::get_knock_count, (service, room, user)),
        call_requires(Service::get_left_count, (service, room, user)),
{
}

/// A user is joined to a room exactly if `userroomid_joined` holds a record under the
/// user and the room, whatever else is on record.
pub proof fn joined_exactly_if_recorded(
    service: &Service,
    user: &UserId,
    room: &RoomId,
    r: bool,
)
    requires
        call_ensures(Service::is_joined, (service, user, room), r),
    ensures
        r <==> service.db.userroomid_joined@.contains_key(
            encode_utf8(user@) + seq![0xFFu8] + encode_utf8(room@),
        ),
{
    first_field_is_followed_by_the_separator(user@);
}

/// A user left a room exactly if `userroomid_leftstate` holds a record under the user
/// and the room, whatever else is on record.
pub proof fn left_exactly_if_recorded(service: &Service, user: &UserId, room: &RoomId, r: bool)
    requires
        call_ensures(Service::is_left, (service, user, room), r),
    ensures
        r <==> service.db.userroomid_leftstate@.contains_key(
            encode_utf8(user@) + seq![0xFFu8] + encode_utf8(room@),
        ),
{
    first_field_is_followed_by_the_separator(user@);
}

/// A user is knocking on a room exactly if `userroomid_knockedstate` holds a record
/// under the user and the room, whatever else is on record.
pub proof fn knocked_exactly_if_recorded(
    service: &Service,
    user: &UserId,
    room: &RoomId,
    r: bool,
)
    requires
        call_ensures(Service::is_knocked, (service, user, room), r),
    ensures
        r <==> service.db.userroomid_knockedstate@.contains_key(
            encode_utf8(user@) + seq![0xFFu8] + encode_utf8(room@),
        ),
{
    first_field_is_followed_by_the_separator(user@);
}

/// A user is invited to a room exactly if `userroomid_invitestate` holds a record under
/// the user and the room, whatever else is on record.
pub proof fn invited_exactly_if_recorded(
    service: &Service,
    user: &UserId,
    room: &RoomId,
    r: bool,
)
    requires
        call_ensures(Service::is_invited, (service, user, room), r),
    ensures
        r <==> service.db.userroomid_invitestate@.contains_key(
            encode_utf8(user@) + seq![0xFFu8] + encode_utf8(room@),
        ),
{
    first_field_is_followed_by_the_separator(user@);
}

/// A user once joined a room exactly if `roomuseroncejoinedids` holds a record under
/// the user and the room, whatever else is on record.
pub proof fn once_joined_exactly_if_recorded(
    service: &Service,
    user: &UserId,
    room: &RoomId,
    r: bool,
)
    requires
        call_ensures(Service::once_joined, (service, user, room), r),
    ensures
        r <==> service.db.roomuseroncejoinedids@.contains_key(
            encode_utf8(user@) + seq![0xFFu8] + encode_utf8(room@),
        ),
{
    first_field_is_followed_by_the_separator(user@);
}

/// A server takes part in a room exactly if `serverroomids` holds a record under the
/// server and the room, whatever else is on record.
pub proof fn server_takes_part_exactly_if_recorded(
    service: &Service,
    server: &ServerName,
    room: &RoomId,
    r: bool,
)
    requires
        call_ensures(Service::server_in_room, (service, server, room), r),
    ensures
        r <==> service.db.serverroomids@.contains_key(
            encode_utf8(server@) + seq![0xFFu8] + encode_utf8(room@),
        ),
{
    first_field_is_followed_by_the_separator(server@);
}

/// The membership of a user in a room is decided by whether each of five tables holds a
/// record under the user and the room: a record of joining counts before all others,
/// then one of leaving, of knocking and of an invitation; a user with none but the
/// record of having joined once is banned.
pub proof fn membership_is_decided_by_the_tables(
    service: &Service,
    user: &UserId,
    room: &RoomId,
    key: Seq<u8>,
    r: Option<MembershipState>,
)
    requires
        call_ensures(Service::user_membership, (service, user, room), r),
        key == encode_utf8(user@) + seq![0xFFu8] + encode_utf8(room@),
    ensures
        service.db.userroomid_joined@.contains_key(key) ==> r == Some(MembershipState::Join),
        !service.db.userroomid_joined@.contains_key(key)
            && service.db.userroomid_leftstate@.contains_key(key) ==> r == Some(
            MembershipState::Leave,
        ),
        !service.db.userroomid_joined@.contains_key(key)
            && !service.db.userroomid_leftstate@.contains_key(key)
            && service.db.userroomid_knockedstate@.contains_key(key) ==> r == Some(
            MembershipState::Knock,
        ),
        !service.db.userroomid_joined@.contains_key(key)
            && !service.db.userroomid_leftstate@.contains_key(key)
            && !service.db.userroomid_knockedstate@.contains_key(key)
            && service.db.userroomid_invitestate@.contains_key(key) ==> r == Some(
            MembershipState::Invite,
        ),
        !service.db.userroomid_joined@.contains_key(key)
            && !service.db.userroomid_leftstate@.contains_key(key)
            && !service.db.userroomid_knockedstate@.contains_key(key)
            && !service.db.userroomid_invitestate@.contains_key(key) ==> (r == Some(
            MembershipState::Ban,
        ) <==> service.db.roomuseroncejoinedids@.contains_key(key)) && (r is None
            <==> !service.db.roomuseroncejoinedids@.contains_key(key)),
{
    first_field_is_followed_by_the_separator(user@);
}

/// The membership and the five single questions agree: the first of join, leave, knock
/// and invite that is answered yes is the membership.
pub proof fn membership_agrees_with_the_questions(
    service: &Service,
    user: &UserId,
    room: &RoomId,
    joined: bool,
    left: bool,
    knocked: bool,
    invited: bool,
    once: bool,
    r: Option<MembershipState>,
)
    requires
        call_ensures(Service::is_joined, (service, user, room), joined),
        call_ensures(Service::is_left, (service, user, room), left),
        call_ensures(Service::is_knocked, (service, user, room), knocked),
        call_ensures(Service::is_invited, (service, user, room), invited),
        call_ensures(Service::once_joined, (service, user, room), once),
        call_ensures(Service::user_membership, (service, user, room), r),
    ensures
        r == Some(MembershipState::Join) <==> joined,
        r == Some(MembershipState::Leave) <==> !joined && left,
        r == Some(MembershipState::Knock) <==> !joined && !left && knocked,
        r == Some(MembershipState::Invite) <==> !joined && !left && !knocked && invited,
        r == Some(MembershipState::Ban) <==> !joined && !left && !knocked && !invited && once,
        r is None <==> !joined && !left && !knocked && !invited && !once,
{
}

/// Of the five records, the first one present in the order join, leave, knock, invite,
/// once joined decides the membership.
pub proof fn first_record_decides_the_membership(
    joined: bool,
    left: bool,
    knocked: bool,
    invited: bool,
    once: bool,
    r: Option<MembershipState>,
)
    requires
        call_ensures(membership_of, (joined, left, knocked, invited, once), r),
    ensures
        r == Some(MembershipState::Join) <==> joined,
        r == Some(MembershipState::Leave) <==> !joined && left,
        r == Some(MembershipState::Knock) <==> !joined && !left && knocked,
        r == Some(MembershipState::Invite) <==> !joined && !left && !knocked && invited,
        r == Some(MembershipState::Ban) <==> !joined && !left && !knocked && !invited && once,
        r is None <==> !joined && !left && !knocked && !invited && !once,
{
}

/// A server sees a user exactly if there is a room that `serverroomids` puts the server
/// in and that `userroomid_joined` puts the user in.
pub proof fn server_sees_exactly_whom_it_shares_a_room_with(
    service: &Service,
    server: &ServerName,
    user: &UserId,
    r: bool,
)
    requires
        call_ensures(Service::server_sees_user, (service, server, user), r),
    ensures
        r <==> exists|room: Seq<char>|
            RoomId::accepted(room) && service.db.serverroomids@.contains_key(
                encode_utf8(server@) + seq![0xFFu8] + #[trigger] encode_utf8(room),
            ) && service.db.userroomid_joined@.contains_key(
                encode_utf8(user@) + seq![0xFFu8] + encode_utf8(room),
            ),
{
    first_field_is_followed_by_the_separator(user@);
    first_field_is_followed_by_the_separator(server@);
    if r {
        let room = choose|room: Seq<char>|
            RoomId::accepted(room) && #[trigger] service.db.server_in(server@, room)
                && service.db.joined(user@, room);
        assert(service.db.serverroomids@.contains_key(
            encode_utf8(server@) + seq![0xFFu8] + encode_utf8(room),
        ));
    } else {
        assert forall|room: Seq<char>| RoomId::accepted(room) implies !(
        service.db.serverroomids@.contains_key(
            encode_utf8(server@) + seq![0xFFu8] + #[trigger] encode_utf8(room),
        ) && service.db.userroomid_joined@.contains_key(
            encode_utf8(user@) + seq![0xFFu8] + encode_utf8(room),
        )) by {
            assert(!(service.db.server_in(server@, room) && service.db.joined(user@, room)));
        }
    }
}

/// Two users see each other exactly if there is a room that `userroomid_joined` puts
/// both of them in, whatever servers they belong to.
pub proof fn users_see_exactly_whom_they_share_a_room_with(
    service: &Service,
    a: &UserId,
    b: &UserId,
    r: bool,
)
    requires
        call_ensures(Service::user_sees_user, (service, a, b), r),
    ensures
        r <==> exists|room: Seq<char>|
            RoomId::accepted(room) && service.db.userroomid_joined@.contains_key(
                encode_utf8(a@) + seq![0xFFu8] + #[trigger] encode_utf8(room),
            ) && service.db.userroomid_joined@.contains_key(
                encode_utf8(b@) + seq![0xFFu8] + encode_utf8(room),
            ),
{
    first_field_is_followed_by_the_separator(a@);
    first_field_is_followed_by_the_separator(b@);
    if r {
        let room = choose|room: Seq<char>| service.db.shared(a@, b@, room);
        assert(service.db.userroomid_joined@.contains_key(
            encode_utf8(a@) + seq![0xFFu8] + encode_utf8(room),
        ));
    } else {
        assert forall|room: Seq<char>| RoomId::accepted(room) implies !(
        service.db.userroomid_joined@.contains_key(
            encode_utf8(a@) + seq![0xFFu8] + #[trigger] encode_utf8(room),
        ) && service.db.userroomid_joined@.contains_key(
            encode_utf8(b@) + seq![0xFFu8] + encode_utf8(room),
        )) by {
            assert(!service.db.shared(a@, b@, room));
        }
    }
}

/// The sender of an invitation is the user whose id is stored under the invited user and
/// the room: the stored bytes are exactly the bytes of the id. Each failure says what is
/// wrong with the record.
pub proof fn invite_sender_is_the_stored_user(
    service: &Service,
    user: &UserId,
    room: &RoomId,
    key: Seq<u8>,
    sender: Seq<char>,
    r: Result<UserId, Failure>,
)
    requires
        call_ensures(Service::invite_sender, (service, user, room), r),
        key == encode_utf8(user@) + seq![0xFFu8] + encode_utf8(room@),
    ensures
        r == Err::<UserId, Failure>(Failure::NotFound)
            <==> !service.db.userroomid_invitesender@.contains_key(key),
        service.db.userroomid_invitesender@.contains_key(key)
            && service.db.userroomid_invitesender@[key]@ == encode_utf8(sender) ==> (
        if UserId::accepted(sender) {
            r is Ok && r->Ok_0@ == sender
        } else {
            r == Err::<UserId, Failure>(Failure::NotAnId)
        }),
        service.db.userroomid_invitesender@.contains_key(key) && (forall|text: Seq<char>|
            service.db.userroomid_invitesender@[key]@ != #[trigger] encode_utf8(text)) ==> r
            == Err::<UserId, Failure>(Failure::NotText),
{
    first_field_is_followed_by_the_separator(user@);
    if service.db.userroomid_invitesender@.contains_key(key) {
        let bytes = service.db.userroomid_invitesender@[key]@;
        vstd::utf8::encode_utf8_valid_utf8(sender);
        vstd::utf8::encode_utf8_decode_utf8(sender);
        if vstd::utf8::valid_utf8(bytes) {
            vstd::utf8::decode_utf8_encode_utf8(bytes);
            assert(bytes == encode_utf8(vstd::utf8::decode_utf8(bytes)));
        }
    }
}

} // verus!
