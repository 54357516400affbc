//! Numbers written in a spec, held as IEEE-754 binary64 bit patterns.
//!
//! The library never computes with floating point. It only compares the
//! numbers a spec states, and binary64 comparison is a function of the bit
//! patterns: patterns whose magnitude (sign bit cleared) exceeds that of
//! infinity are NaN and compare false with everything; every other pattern
//! has a `rank` (its magnitude, negated when the sign bit is set), and two
//! such values compare exactly as their ranks do. Positive and negative
//! zero share rank 0, as they compare equal.
use vstd::prelude::*;
use vstd::std_specs::cmp::PartialEqSpecImpl;

verus! {

/// Bit pattern of positive infinity. A pattern whose magnitude is larger is NaN.
pub const INFINITY_BITS: u64 = 0x7FF0_0000_0000_0000;

/// Bit pattern of negative infinity.
pub const NEG_INFINITY_BITS: u64 = 0xFFF0_0000_0000_0000;

/// The sign bit.
pub const SIGN_BIT: u64 = 0x8000_0000_0000_0000;

/// A number as a spec states it: its binary64 value, by bit pattern, and
/// the text in which that value is displayed (the shortest decimal that
/// reads back as the same value, `inf`, `-inf` or `NaN`).
#[derive(Debug, Clone)]
pub struct Number {
    pub bits: u64,
    pub text: String,
}

/// Numbers are equal when their values are: `0.0` equals `-0.0`, a NaN
/// equals nothing, and the display text plays no part.
impl PartialEq for Number {
    fn eq(&self, other: &Number) -> (r: bool) {
        eq(self.bits, other.bits)
    }
}

impl PartialEqSpecImpl for Number {
    open spec fn obeys_eq_spec() -> bool {
        true
    }

    open spec fn eq_spec(&self, other: &Number) -> bool {
        spec_eq(self.bits, other.bits)
    }
}

pub open spec fn spec_negative(bits: u64) -> bool {
    bits >= SIGN_BIT
}

pub open spec fn magnitude(bits: u64) -> int {
    if spec_negative(bits) {
        bits - SIGN_BIT
    } else {
        bits as int
    }
}

pub open spec fn spec_nan(bits: u64) -> bool {
    magnitude(bits) > INFINITY_BITS
}

pub open spec fn spec_finite(bits: u64) -> bool {
    magnitude(bits) < INFINITY_BITS
}

/// Position of a non-NaN value on the extended real line.
pub open spec fn rank(bits: u64) -> int {
    if spec_negative(bits) {
        -magnitude(bits)
    } else {
        magnitude(bits)
    }
}

/// `a < b` on binary64 values.
pub open spec fn spec_lt(a: u64, b: u64) -> bool {
    !spec_nan(a) && !spec_nan(b) && rank(a) < rank(b)
}

/// `a == b` on binary64 values.
pub open spec fn spec_eq(a: u64, b: u64) -> bool {
    !spec_nan(a) && !spec_nan(b) && rank(a) == rank(b)
}

/// `a <= b` on binary64 values.
pub open spec fn spec_le(a: u64, b: u64) -> bool {
    !spec_nan(a) && !spec_nan(b) && rank(a) <= rank(b)
}

fn magnitude_of(bits: u64) -> (m: u64)
    ensures
        m == magnitude(bits),
        m < SIGN_BIT,
{
    if bits >= SIGN_BIT {
        bits - SIGN_BIT
    } else {
        bits
    }
}

/// True when the pattern is neither infinite nor NaN.
pub fn is_finite(bits: u64) -> (r: bool)
    ensures
        r == spec_finite(bits),
{
    magnitude_of(bits) < INFINITY_BITS
}

/// True when the pattern is NaN.
pub fn is_nan(bits: u64) -> (r: bool)
    ensures
        r == spec_nan(bits),
{
    magnitude_of(bits) > INFINITY_BITS
}

/// `a < b`.
pub fn lt(a: u64, b: u64) -> (r: bool)
    ensures
        r == spec_lt(a, b),
{
    if is_nan(a) || is_nan(b) {
        return false;
    }
    let ma = magnitude_of(a);
    let mb = magnitude_of(b);
    let na = a >= SIGN_BIT;
    let nb = b >= SIGN_BIT;
    if na && nb {
        mb < ma
    } else if na {
        !(ma == 0 && mb == 0)
    } else if nb {
        false
    } else {
        ma < mb
    }
}

/// `a == b`.
pub fn eq(a: u64, b: u64) -> (r: bool)
    ensures
        r == spec_eq(a, b),
{
    if is_nan(a) || is_nan(b) {
        return false;
    }
    let ma = magnitude_of(a);
    let mb = magnitude_of(b);
    if (a >= SIGN_BIT) == (b >= SIGN_BIT) {
        ma == mb
    } else {
        ma == 0 && mb == 0
    }
}

/// `a <= b`.
pub fn le(a: u64, b: u64) -> (r: bool)
    ensures
        r == spec_le(a, b),
{
    lt(a, b) || eq(a, b)
}

/// Comparison of values that are not NaN is a total order: of `a < b`,
/// `a == b` and `b < a` exactly one holds. A NaN is neither below, above,
/// nor equal to anything, itself included.
pub proof fn lemma_comparison_total(a: u64, b: u64)
    ensures
        !spec_nan(a) && !spec_nan(b) ==> (spec_lt(a, b) || spec_eq(a, b) || spec_lt(b, a)),
        !(spec_lt(a, b) && spec_eq(a, b)),
        !(spec_lt(a, b) && spec_lt(b, a)),
        spec_nan(a) ==> !spec_lt(a, b) && !spec_lt(b, a) && !spec_eq(a, b) && !spec_eq(b, a),
        spec_le(a, b) == (spec_lt(a, b) || spec_eq(a, b)),
{
}

/// `<` and `<=` chain.
pub proof fn lemma_comparison_transitive(a: u64, b: u64, c: u64)
    ensures
        spec_lt(a, b) && spec_lt(b, c) ==> spec_lt(a, c),
        spec_le(a, b) && spec_le(b, c) ==> spec_le(a, c),
        spec_lt(a, b) && spec_le(b, c) ==> spec_lt(a, c),
        spec_le(a, b) && spec_lt(b, c) ==> spec_lt(a, c),
{
}

/// Negative infinity lies below every other value that is not NaN, and
/// positive infinity above it; finite values lie strictly between them.
pub proof fn lemma_infinities_bound_the_line(x: u64)
    ensures
        !spec_nan(x) ==> spec_le(NEG_INFINITY_BITS, x) && spec_le(x, INFINITY_BITS),
        spec_finite(x) ==> spec_lt(NEG_INFINITY_BITS, x) && spec_lt(x, INFINITY_BITS),
{
}

} // verus!
