//! What can go wrong when a record is read or an event is written.

use vstd::prelude::*;

verus! {

/// Why a question about the stored records has no answer.
#[derive(Clone, Copy, Debug, PartialEq, Eq, Structural)]
pub enum Failure {
    /// There is no such record.
    NotFound,
    /// The stored bytes are not UTF-8.
    NotText,
    /// The text is not an identifier of the kind that is stored there.
    NotAnId,
    /// The stored bytes are too few to hold a count.
    NotACount,
    /// The bytes are not the JSON that is stored there, or the value has no JSON
    /// form.
    Json,
    /// The caller's own decoder refused the stored bytes.
    Undecodable,
}

} // verus!
