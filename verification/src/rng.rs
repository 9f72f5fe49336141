use vstd::prelude::*;

verus! {

/// Relies on rand::random_range: a draw from the thread-local generator,
/// uniform over the half-open range; it panics only on an empty range, which
/// the precondition rules out.
#[verifier::external_body]
pub(crate) fn random_in_range(low: i64, high: i64) -> (r: i64)
    requires
        low < high,
    ensures
        low <= r < high,
{
    rand::random_range(low..high)
}

} // verus!
