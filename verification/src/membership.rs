//! How a user stands to a room.

use crate::ids::{RoomId, UserId};
use crate::service::{Data, Service};
use vstd::prelude::*;

verus! {

/// How a user stands to a room.
#[derive(Clone, Copy, Debug, PartialEq, Eq, Structural)]
pub enum MembershipState {
    Ban,
    Invite,
    Join,
    Knock,
    Leave,
}

/// The membership that the records speak for. Of several records the first in the
/// order join, leave, knock, invite counts; a user that was once joined and has no
/// other record is banned.
pub open spec fn membership(
    joined: bool,
    left: bool,
    knocked: bool,
    invited: bool,
    once_joined: bool,
) -> Option<MembershipState> {
    if joined {
        Some(MembershipState::Join)
    } else if left {
        Some(MembershipState::Leave)
    } else if knocked {
        Some(MembershipState::Knock)
    } else if invited {
        Some(MembershipState::Invite)
    } else if once_joined {
        Some(MembershipState::Ban)
    } else {
        None
    }
}

impl Data {
    /// The membership of the user in the room.
    pub open spec fn membership(&self, user: Seq<char>, room: Seq<char>) -> Option<
        MembershipState,
    > {
        membership(
            self.joined(user, room),
            self.left(user, room),
            self.knocked(user, room),
            self.invited(user, room),
            self.once_joined(user, room),
        )
    }
}

/// The membership that the records speak for.
pub fn membership_of(
    joined: bool,
    left: bool,
    knocked: bool,
    invited: bool,
    once_joined: bool,
) -> (r: Option<MembershipState>)
    ensures
        r == membership(joined, left, knocked, invited, once_joined),
{
    match (joined, left, knocked, invited, once_joined) {
        (true, _, _, _, _) => Some(MembershipState::Join),
        (_, true, _, _, _) => Some(MembershipState::Leave),
        (_, _, true, _, _) => Some(MembershipState::Knock),
        (_, _, _, true, _) => Some(MembershipState::Invite),
        (false, false, false, false, true) => Some(MembershipState::Ban),
        _ => None,
    }
}

impl Service {
    /// The membership of the user in the room, if anything is on record.
    pub fn user_membership(&self, user_id: &UserId, room_id: &RoomId) -> (r: Option<
        MembershipState,
    >)
        ensures
            r == self.db.membership(user_id@, room_id@),
    {
        membership_of(
            self.is_joined(user_id, room_id),
            self.is_left(user_id, room_id),
            self.is_knocked(user_id, room_id),
            self.is_invited(user_id, room_id),
            self.once_joined(user_id, room_id),
        )
    }
}

} // verus!
