use vstd::prelude::*;

verus! {

/// Relies on jsonwebtoken::get_current_timestamp: the system clock as whole
/// seconds since the Unix epoch. Nothing is assumed of its value.
#[verifier::external_body]
pub(crate) fn current_timestamp() -> usize {
    jsonwebtoken::get_current_timestamp() as usize
}

} // verus!
