//! Fresh identifiers for findings, events, previews and actions.
use vstd::prelude::*;

verus! {

/// A new random identifier from `uuid::Uuid::new_v4`, in its hyphenated
/// lower-case text form. The contract claims only the 36-character length of
/// that form: the value is random, so nothing else about it, uniqueness
/// included, is stated.
#[verifier::external_body]
pub(crate) fn new_id() -> (r: String)
    ensures
        r@.len() == 36,
{
    uuid::Uuid::new_v4().hyphenated().to_string()
}

} // verus!
