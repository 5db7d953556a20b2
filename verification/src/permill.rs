//! The part of `sp_arithmetic` that candidates use: the `Permill` type of
//! their commission.

use sp_arithmetic::Permill;
use vstd::prelude::*;

verus! {

/// `sp_arithmetic::Permill`, parts of a million; Verus sees nothing inside
/// a value of it, which candidates only carry.
#[verifier::external_type_specification]
#[verifier::external_body]
pub struct ExPermill(sp_arithmetic::Permill);

/// `Clone` of `Permill`, which the crate derives together with `Copy`: the
/// clone is the value itself.
pub assume_specification[<sp_arithmetic::Permill as Clone>::clone](p: &Permill) -> (r: Permill)
    ensures
        r == *p,
;

/// What `Permill::from_parts` returns for `parts`.
pub uninterp spec fn permill_of_parts(parts: u32) -> Permill;

/// Calls `Permill::from_parts`. Claimed: the result depends on `parts`
/// alone (the source builds it from `parts` capped at a million, nothing
/// else), so it is `permill_of_parts(parts)`.
#[verifier::external_body]
pub(crate) fn permill_from_parts(parts: u32) -> (p: Permill)
    ensures
        p == permill_of_parts(parts),
{
    Permill::from_parts(parts)
}

} // verus!
