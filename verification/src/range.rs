//! Mapping of a percentage-like integer onto a closed numeric range.
//!
//! The mapped point `min + (max - min) * (target / 100)` is an exact
//! rational with denominator 100, so it is returned scaled by 100 as an
//! integer: `map_to_range_scaled(min, max, target)` is one hundred times
//! the mapped value. Callers that need the plain value divide by 100 in
//! whatever numeric type they work in.
use vstd::prelude::*;

verus! {

/// The mapped point of the range `[min, max]` at percentage `target`,
/// scaled by 100: `100 * min + (max - min) * min(target, 100)`.
pub open spec fn range_point_scaled(min: u32, max: u32, target: u32) -> int {
    100 * (min as int) + (max as int - min as int) * (if target > 100 {
        100int
    } else {
        target as int
    })
}

/// Maps `target`, a percentage clamped to at most 100 (no clamp below),
/// onto the closed range `[min, max]`; the result is the mapped value
/// multiplied by 100, which is exact. Total: never fails for any `target`.
pub fn map_to_range_scaled(min: u32, max: u32, target: u32) -> (r: u64)
    requires
        min <= max,
    ensures
        r == range_point_scaled(min, max, target),
{
    let capped_target: u32 = if target > 100 {
        100
    } else {
        target
    };
    let span: u64 = (max - min) as u64;
    proof {
        assert(span * capped_target <= span * 100) by (nonlinear_arith)
            requires
                0 <= span,
                0 <= capped_target <= 100,
        ;
    }
    100 * (min as u64) + span * (capped_target as u64)
}

/// The degenerate range `min == max` ignores `target`: the mapped value
/// is exactly `min`, for every `target` including the clamped boundary.
pub proof fn lemma_degenerate_range(min: u32, max: u32, target: u32)
    requires
        min == max,
    ensures
        range_point_scaled(min, max, target) == 100 * min,
{
}

/// Monotonicity in `target`: for a fixed range, raising the percentage
/// never lowers the mapped value.
pub proof fn lemma_monotone_in_target(min: u32, max: u32, t1: u32, t2: u32)
    requires
        min <= max,
        t1 <= t2,
    ensures
        range_point_scaled(min, max, t1) <= range_point_scaled(min, max, t2),
{
    let c1: int = if t1 > 100 { 100int } else { t1 as int };
    let c2: int = if t2 > 100 { 100int } else { t2 as int };
    assert((max as int - min as int) * c1 <= (max as int - min as int) * c2) by (nonlinear_arith)
        requires
            max as int - min as int >= 0,
            0 <= c1 <= c2,
    ;
}

/// The mapped value stays inside the scaled range: between `100 * min`
/// and `100 * max` for every `target`.
pub proof fn lemma_in_range(min: u32, max: u32, target: u32)
    requires
        min <= max,
    ensures
        100 * min <= range_point_scaled(min, max, target) <= 100 * max,
{
    let c: int = if target > 100 { 100int } else { target as int };
    assert(0 <= (max as int - min as int) * c <= (max as int - min as int) * 100)
        by (nonlinear_arith)
        requires
            max as int - min as int >= 0,
            0 <= c <= 100,
    ;
}

} // verus!
