use vstd::prelude::*;

verus! {

/// Relies on rand::random_range over a half-open integer range: the sample lies
/// in `[lo, hi)`; it panics only on an empty range, which `requires` excludes.
#[verifier::external_body]
pub(crate) fn random_in(lo: i64, hi: i64) -> (r: i64)
    requires
        lo < hi,
    ensures
        lo <= r < hi,
{
    rand::random_range(lo..hi)
}

} // verus!
