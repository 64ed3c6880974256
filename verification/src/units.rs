//! Counting the units of a fixed size that a number of pages fills.

use vstd::prelude::*;

verus! {

/// The number of units of `pages_per_unit` pages that `num_pages` pages need:
/// the quotient, rounded up, so that a remainder takes a unit of its own.
pub open spec fn units_for(num_pages: int, pages_per_unit: int) -> int {
    (num_pages + pages_per_unit - 1) / pages_per_unit
}

/// The units that `units_for` counts hold all the pages, and one unit fewer
/// would not.
pub proof fn lemma_units_for_is_least(num_pages: int, pages_per_unit: int)
    requires
        0 <= num_pages,
        1 <= pages_per_unit,
    ensures
        (units_for(num_pages, pages_per_unit) - 1) * pages_per_unit < num_pages,
        num_pages <= units_for(num_pages, pages_per_unit) * pages_per_unit,
        0 <= units_for(num_pages, pages_per_unit) <= num_pages,
{
    let n = num_pages + pages_per_unit - 1;
    let q = n / pages_per_unit;
    assert(n == q * pages_per_unit + n % pages_per_unit && 0 <= n % pages_per_unit
        < pages_per_unit) by (nonlinear_arith)
        requires
            q == n / pages_per_unit,
            1 <= pages_per_unit,
    ;
    assert((q - 1) * pages_per_unit == q * pages_per_unit - pages_per_unit) by (nonlinear_arith);
    assert(0 <= q <= num_pages) by (nonlinear_arith)
        requires
            n == q * pages_per_unit + n % pages_per_unit,
            0 <= n % pages_per_unit < pages_per_unit,
            n == num_pages + pages_per_unit - 1,
            0 <= num_pages,
            1 <= pages_per_unit,
    ;
}

/// Counts the units of `pages_per_unit` pages that `num_pages` pages need.
pub fn units_needed(num_pages: u32, pages_per_unit: u32) -> (units: u32)
    requires
        1 <= pages_per_unit,
    ensures
        units == units_for(num_pages as int, pages_per_unit as int),
{
    proof {
        lemma_units_for_is_least(num_pages as int, pages_per_unit as int);
    }
    let padded: u64 = num_pages as u64 + pages_per_unit as u64 - 1;
    (padded / pages_per_unit as u64) as u32
}

} // verus!
