//! Identifiers of users, rooms and servers.

use crate::failure::Failure;
use vstd::prelude::*;
use vstd::utf8::encode_utf8;

verus! {

/// The reason why a text is no identifier.
#[verifier::external_type_specification]
#[verifier::external_body]
pub struct ExIdParseError(ruma::IdParseError);

/// Whether `ruma::ServerName::parse` accepts the text.
pub uninterp spec fn server_name_accepted(text: Seq<char>) -> bool;

/// The first colon of the text is at `colon`; no NUL comes before it, and a server
/// name follows it.
pub open spec fn on_server_after(text: Seq<char>, colon: int) -> bool {
    &&& 0 <= colon < text.len()
    &&& text[colon] == ':'
    &&& !text.take(colon).contains(':')
    &&& !text.take(colon).contains('\0')
    &&& server_name_accepted(text.skip(colon + 1))
}

/// A user id: at most 255 bytes that begin with `@`, with a localpart that holds no
/// NUL, a colon and the name of a server.
pub open spec fn user_id_accepted(text: Seq<char>) -> bool {
    &&& encode_utf8(text).len() <= 255
    &&& text.len() > 0
    &&& text[0] == '@'
    &&& exists|colon: int| on_server_after(text, colon)
}

/// A room id: at most 255 bytes that begin with `!` and hold no NUL.
pub open spec fn room_id_accepted(text: Seq<char>) -> bool {
    &&& encode_utf8(text).len() <= 255
    &&& text.len() > 0
    &&& text[0] == '!'
    &&& !text.contains('\0')
}

/// The user id that `id` stands for on the server `server_name`: `id` itself where
/// it is written out with its `@`, else the user with that localpart.
pub open spec fn completed_user_id(id: Seq<char>, server_name: Seq<char>) -> Option<Seq<char>> {
    if id.len() > 0 && id[0] == '@' {
        if user_id_accepted(id) {
            Some(id)
        } else {
            None
        }
    } else if id.contains(':') || id.contains('\0') {
        None
    } else {
        Some(seq!['@'] + id + seq![':'] + server_name)
    }
}

/// Calls `ruma::UserId::parse`, which accepts a text of at most 255 bytes that begins
/// with `@`, has a colon with no NUL before the first one, and goes on after it with
/// what `ruma::ServerName::parse` accepts, and keeps it as it is.
#[verifier::external_body]
fn parse_user_id(text: &str) -> (r: Result<String, ruma::IdParseError>)
    ensures
        r is Ok <==> user_id_accepted(text@),
        r matches Ok(id) ==> id@ == text@,
{
    ruma::UserId::parse(text).map(|id| id.as_str().to_owned())
}

/// Calls `ruma::RoomId::parse`, which accepts a text of at most 255 bytes that
/// begins with `!` and holds no NUL, and keeps it as it is.
#[verifier::external_body]
fn parse_room_id(text: &str) -> (r: Result<String, ruma::IdParseError>)
    ensures
        r is Ok <==> room_id_accepted(text@),
        r matches Ok(id) ==> id@ == text@,
{
    ruma::RoomId::parse(text).map(|id| id.as_str().to_owned())
}

/// Calls `ruma::ServerName::parse`, which checks the text and keeps it as it is.
/// Which texts it accepts is given a name here and not spelt out.
#[verifier::external_body]
fn parse_server_name(text: &str) -> (r: Result<String, ruma::IdParseError>)
    ensures
        r is Ok <==> server_name_accepted(text@),
        r matches Ok(id) ==> id@ == text@,
{
    ruma::ServerName::parse(text).map(|id| id.as_str().to_owned())
}

/// Calls `ruma::UserId::parse_with_server_name`. A text that begins with `@` goes
/// through `ruma::UserId::parse`; any other becomes the localpart of a user on the
/// given server, unless it holds a colon or a NUL. The length of the completed id
/// is not checked.
#[verifier::external_body]
fn parse_user_id_with_server_name(id: &str, server_name: &str) -> (r: Result<
    String,
    ruma::IdParseError,
>)
    requires
        server_name_accepted(server_name@),
    ensures
        r is Ok <==> completed_user_id(id@, server_name@) is Some,
        r matches Ok(user_id) ==> completed_user_id(id@, server_name@) == Some(user_id@),
{
    let server_name = <&ruma::ServerName>::try_from(server_name)?;
    ruma::UserId::parse_with_server_name(id, server_name).map(|id| id.as_str().to_owned())
}

/// A kind of identifier that is stored as its text.
pub trait Identifier: View<V = Seq<char>> + Sized {
    /// The texts that are identifiers of this kind.
    spec fn accepted(text: Seq<char>) -> bool;

    /// Reads the identifier that `text` spells.
    fn parse(text: &str) -> (r: Result<Self, Failure>)
        ensures
            r is Ok <==> Self::accepted(text@),
            r matches Ok(id) ==> id@ == text@,
            r matches Err(e) ==> e == Failure::NotAnId,
    ;
}

/// The id of a user, such as `@alice:example.org`.
#[derive(Debug, PartialEq, Eq)]
pub struct UserId {
    id: String,
}

/// The id of a room, such as `!room:example.org`.
#[derive(Debug, PartialEq, Eq)]
pub struct RoomId {
    id: String,
}

/// The name of a server, such as `example.org`.
#[derive(Debug, PartialEq, Eq)]
pub struct ServerName {
    id: String,
}

impl View for UserId {
    type V = Seq<char>;

    closed spec fn view(&self) -> Seq<char> {
        self.id@
    }
}

impl View for RoomId {
    type V = Seq<char>;

    closed spec fn view(&self) -> Seq<char> {
        self.id@
    }
}

impl View for ServerName {
    type V = Seq<char>;

    closed spec fn view(&self) -> Seq<char> {
        self.id@
    }
}

impl Identifier for UserId {
    open spec fn accepted(text: Seq<char>) -> bool {
        user_id_accepted(text)
    }

    fn parse(text: &str) -> (r: Result<Self, Failure>) {
        match parse_user_id(text) {
            Ok(id) => Ok(UserId { id }),
            Err(_) => Err(Failure::NotAnId),
        }
    }
}

impl Identifier for RoomId {
    open spec fn accepted(text: Seq<char>) -> bool {
        room_id_accepted(text)
    }

    fn parse(text: &str) -> (r: Result<Self, Failure>) {
        match parse_room_id(text) {
            Ok(id) => Ok(RoomId { id }),
            Err(_) => Err(Failure::NotAnId),
        }
    }
}

impl Identifier for ServerName {
    open spec fn accepted(text: Seq<char>) -> bool {
        server_name_accepted(text)
    }

    fn parse(text: &str) -> (r: Result<Self, Failure>) {
        match parse_server_name(text) {
            Ok(id) => Ok(ServerName { id }),
            Err(_) => Err(Failure::NotAnId),
        }
    }
}

impl UserId {
    /// The id as text.
    pub fn as_str(&self) -> (r: &str)
        ensures
            r@ == self@,
    {
        self.id.as_str()
    }

    /// The user that `id` stands for on `server_name`: a full user id, or the
    /// localpart of one of that server's users.
    pub fn parse_with_server_name(id: &str, server_name: &ServerName) -> (r: Result<UserId, Failure>)
        ensures
            match r {
                Ok(user_id) => completed_user_id(id@, server_name@) == Some(user_id@),
                Err(e) => completed_user_id(id@, server_name@) is None && e == Failure::NotAnId,
            },
    {
        proof {
            use_type_invariant(server_name);
        }
        match parse_user_id_with_server_name(id, server_name.as_str()) {
            Ok(id) => Ok(UserId { id }),
            Err(_) => Err(Failure::NotAnId),
        }
    }
}

impl RoomId {
    #[verifier::type_invariant]
    spec fn well_formed(self) -> bool {
        room_id_accepted(self.id@)
    }

    /// The id as text.
    pub fn as_str(&self) -> (r: &str)
        ensures
            r@ == self@,
            room_id_accepted(r@),
    {
        proof {
            use_type_invariant(self);
        }
        self.id.as_str()
    }
}

impl ServerName {
    #[verifier::type_invariant]
    spec fn well_formed(self) -> bool {
        server_name_accepted(self.id@)
    }

    /// The name as text.
    pub fn as_str(&self) -> (r: &str)
        ensures
            r@ == self@,
            server_name_accepted(r@),
    {
        proof {
            use_type_invariant(self);
        }
        self.id.as_str()
    }
}

impl Clone for UserId {
    fn clone(&self) -> (r: Self)
        ensures
            r@ == self@,
    {
        UserId { id: self.id.clone() }
    }
}

impl Clone for RoomId {
    fn clone(&self) -> (r: Self)
        ensures
            r@ == self@,
    {
        proof {
            use_type_invariant(self);
        }
        RoomId { id: self.id.clone() }
    }
}

impl Clone for ServerName {
    fn clone(&self) -> (r: Self)
        ensures
            r@ == self@,
    {
        proof {
            use_type_invariant(self);
        }
        ServerName { id: self.id.clone() }
    }
}

} // verus!
