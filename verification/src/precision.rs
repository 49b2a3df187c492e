//! How many bits the viewport needs at a given zoom depth.
//!
//! The viewport's scale exponent is the base-2 logarithm of the number of
//! pixels per unit of the plane, and it grows as the view zooms in. Only its
//! ceiling matters for precision, so the functions here take that integer.
//! Distances between neighbouring pixels shrink to `2^-exponent`; the working
//! precision keeps a fixed number of bits beyond that, and never falls below
//! a floor that is ample for shallow zoom. Past the mantissa width of double
//! precision, fixed-precision arithmetic can no longer tell neighbouring
//! pixels apart and arbitrary precision has to take over.

use vstd::prelude::*;

verus! {

/// Bits of working precision kept beyond what the scale exponent asks for.
pub const EXTRA_PRECISION_BITS: u32 = 16;

/// Least working precision, in bits.
pub const MIN_PRECISION_BITS: u32 = 64;

/// Mantissa width of double precision, in bits.
pub const FIXED_MANTISSA_BITS: i32 = 52;

/// Working precision, in bits, at a scale exponent whose ceiling is
/// `exponent_ceil`.
pub open spec fn working_precision(exponent_ceil: int) -> int {
    if exponent_ceil + EXTRA_PRECISION_BITS < MIN_PRECISION_BITS {
        MIN_PRECISION_BITS as int
    } else {
        exponent_ceil + EXTRA_PRECISION_BITS
    }
}

/// Whether a scale exponent whose ceiling is `exponent_ceil` exceeds what
/// fixed precision resolves. For an exponent `e` and the integer 52,
/// `e > 52` holds exactly if the ceiling of `e` is above 52.
pub open spec fn needs_high_precision(exponent_ceil: int) -> bool {
    exponent_ceil > FIXED_MANTISSA_BITS
}

/// Working precision, in bits, at a scale exponent whose ceiling is
/// `exponent_ceil`.
pub fn precision(exponent_ceil: i32) -> (bits: u32)
    ensures
        bits == working_precision(exponent_ceil as int),
        bits >= MIN_PRECISION_BITS,
{
    let wanted: i64 = exponent_ceil as i64 + EXTRA_PRECISION_BITS as i64;
    if wanted < MIN_PRECISION_BITS as i64 {
        MIN_PRECISION_BITS
    } else {
        wanted as u32
    }
}

/// Whether the arbitrary-precision path has to run at a scale exponent whose
/// ceiling is `exponent_ceil`.
pub fn high_precision(exponent_ceil: i32) -> (high: bool)
    ensures
        high == needs_high_precision(exponent_ceil as int),
{
    exponent_ceil > FIXED_MANTISSA_BITS
}

/// Zooming in never lowers the working precision, and once arbitrary
/// precision is needed it stays needed: both are monotone in the scale
/// exponent, which zooming in only raises.
pub proof fn lemma_precision_grows_with_depth(shallow: int, deep: int)
    requires
        shallow <= deep,
    ensures
        working_precision(shallow) <= working_precision(deep),
        needs_high_precision(shallow) ==> needs_high_precision(deep),
{
}

/// The exponents after a run of zoom steps: each entry of `steps` is added
/// to the exponent in turn.
pub open spec fn exponent_after(start: int, steps: Seq<int>) -> int
    decreases steps.len(),
{
    if steps.len() == 0 {
        start
    } else {
        exponent_after(start, steps.drop_last()) + steps.last()
    }
}

/// Along any run of zoom-in steps, the working precision never falls from
/// one step to a later one, and arbitrary precision, once needed, is needed
/// at every later step.
pub proof fn lemma_precision_along_zoom_in(start: int, steps: Seq<int>, earlier: int, later: int)
    requires
        forall|k: int| 0 <= k < steps.len() ==> steps[k] >= 0,
        0 <= earlier <= later <= steps.len(),
    ensures
        exponent_after(start, steps.take(earlier)) <= exponent_after(start, steps.take(later)),
        working_precision(exponent_after(start, steps.take(earlier))) <= working_precision(
            exponent_after(start, steps.take(later)),
        ),
        needs_high_precision(exponent_after(start, steps.take(earlier)))
            ==> needs_high_precision(exponent_after(start, steps.take(later))),
    decreases later - earlier,
{
    if earlier < later {
        lemma_precision_along_zoom_in(start, steps, earlier, later - 1);
        assert(steps.take(later).drop_last() =~= steps.take(later - 1));
        assert(steps.take(later).last() == steps[later - 1]);
    }
}

} // verus!
