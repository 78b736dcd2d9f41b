//! Identifiers.

use vstd::prelude::*;

verus! {

/// Has the shape of a hyphenated UUID.
pub open spec fn uuid_shape(id: Seq<char>) -> bool {
    &&& id.len() == 36
    &&& id[8] == '-'
    &&& id[13] == '-'
    &&& id[18] == '-'
    &&& id[23] == '-'
}

/// `uuid::Uuid::new_v4`, written by `to_string`: a fresh random identifier, of
/// which only the hyphenated shape is claimed.
#[verifier::external_body]
pub(crate) fn new_id() -> (r: String)
    ensures
        uuid_shape(r@),
{
    uuid::Uuid::new_v4().to_string()
}

} // verus!
