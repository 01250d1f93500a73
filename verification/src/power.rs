//! Exponents of the factors of a composite: exact decimals with fifteen
//! fractional digits.
//!
//! An exponent is held as a count of steps of 1e-15, and the count as a
//! 64-bit integer. So the exponents run from -9223.372036854775807 to
//! 9223.372036854775807, the same distance to both sides of zero. Inside
//! that range a sum and a negation are exact, and a product is exact but
//! for the digits behind the fifteenth, which are cut off. A result beyond
//! the range is the end of the range on its side: the arithmetic saturates
//! where it would overflow. `lemma_exact` and `lemma_product_exact` state
//! where results are exact.

use vstd::prelude::*;

verus! {

/// The count that stands for the exponent one.
pub const POWER_ONE: i64 = 1_000_000_000_000_000;

/// Below this magnitude (1e-10 of a whole) an exponent counts as cancelled.
pub const POWER_EPSILON: i64 = 100_000;

/// The largest count that an exponent holds. The smallest is its negative.
pub const POWER_LIMIT: i64 = 9_223_372_036_854_775_807;

/// Whether `x` is a count that an exponent can hold.
pub open spec fn in_range(x: int) -> bool {
    -POWER_LIMIT <= x <= POWER_LIMIT
}

/// `x` brought into the range of the counts that an exponent can hold.
pub open spec fn saturate(x: int) -> int {
    if x > POWER_LIMIT {
        POWER_LIMIT as int
    } else if x < -POWER_LIMIT {
        -POWER_LIMIT
    } else {
        x
    }
}

/// `x` brought into the range of 32-bit integers.
pub open spec fn saturate32(x: int) -> int {
    if x > i32::MAX {
        i32::MAX as int
    } else if x < i32::MIN {
        i32::MIN as int
    } else {
        x
    }
}

/// The quotient of `x` by a positive `d`, rounded towards zero.
pub open spec fn truncated_quotient(x: int, d: int) -> int {
    if x >= 0 {
        x / d
    } else {
        -((-x) / d)
    }
}

/// The count of the sum of two exponents.
pub open spec fn power_sum(a: int, b: int) -> int {
    saturate(a + b)
}

/// The count of the product of two exponents.
pub open spec fn power_product(a: int, b: int) -> int {
    saturate(truncated_quotient(a * b, POWER_ONE as int))
}

/// The count of the exponent with the opposite sign.
pub open spec fn power_negation(a: int) -> int {
    saturate(-a)
}

/// Whether an exponent is too small to keep: its magnitude is under 1e-10.
pub open spec fn negligible(a: int) -> bool {
    -POWER_EPSILON < a < POWER_EPSILON
}

/// Where sums and negations are exact: a sum that is in the range is the
/// sum of the counts, and the negation of a count in the range is its
/// negative, which is in the range too. Neither changes whether a count is
/// cancelled beyond what the true result says.
pub proof fn lemma_exact(a: int, b: int)
    ensures
        in_range(power_sum(a, b)),
        in_range(power_negation(a)),
        in_range(power_product(a, b)),
        in_range(a + b) ==> power_sum(a, b) == a + b,
        in_range(a) ==> power_negation(a) == -a,
        in_range(truncated_quotient(a * b, POWER_ONE as int)) ==> power_product(a, b)
            == truncated_quotient(a * b, POWER_ONE as int),
        negligible(power_sum(a, b)) == negligible(a + b),
        negligible(power_negation(a)) == negligible(a),
{
}

/// Where products are exact: the product of a count in the range with a
/// count of magnitude up to one is the product of the two, cut off behind
/// the fifteenth digit, and its magnitude is not above that of the first.
pub proof fn lemma_product_exact(a: int, b: int)
    requires
        in_range(a),
        -POWER_ONE <= b <= POWER_ONE,
    ensures
        power_product(a, b) == truncated_quotient(a * b, POWER_ONE as int),
        a >= 0 ==> -a <= power_product(a, b) <= a,
        a <= 0 ==> a <= power_product(a, b) <= -a,
{
    let one = POWER_ONE as int;
    let size = if a >= 0 {
        a
    } else {
        -a
    };
    let x = a * b;
    assert(-(size * one) <= x <= size * one) by (nonlinear_arith)
        requires
            x == a * b,
            -size <= a <= size,
            -one <= b <= one,
            size >= 0,
            one > 0,
    ;
    assert(size * one == one * size) by (nonlinear_arith);
    vstd::arithmetic::div_mod::lemma_div_multiples_vanish(size, one);
    if x >= 0 {
        vstd::arithmetic::div_mod::lemma_div_is_ordered(x, one * size, one);
        vstd::arithmetic::div_mod::lemma_div_pos_is_pos(x, one);
    } else {
        vstd::arithmetic::div_mod::lemma_div_is_ordered(-x, one * size, one);
        vstd::arithmetic::div_mod::lemma_div_pos_is_pos(-x, one);
    }
}

/// A signed decimal exponent. Its view is the number of 1e-15 steps it
/// holds, so that `POWER_ONE` steps make the exponent one. The view lies
/// between `-POWER_LIMIT` and `POWER_LIMIT`.
#[derive(Clone, Copy, Debug, PartialEq, Eq, Structural)]
pub struct Power {
    steps: i64,
}

impl View for Power {
    type V = int;

    closed spec fn view(&self) -> int {
        self.steps as int
    }
}

impl Power {
    /// The invariant: the count is in the range.
    #[verifier::type_invariant]
    pub open spec fn wf(self) -> bool {
        in_range(self@)
    }

    /// Two exponents with the same count are the same exponent.
    pub proof fn lemma_view_injective(a: Power, b: Power)
        requires
            a@ == b@,
        ensures
            a == b,
    {
    }

    /// The exponent with the count `count`, where that is the count of one.
    pub closed spec fn from_count(count: int) -> Power {
        Power { steps: count as i64 }
    }

    /// An exponent is the exponent of its count.
    pub proof fn lemma_from_count(self)
        ensures
            Power::from_count(self@) == self,
    {
    }

    /// The exponent that holds `steps` steps of 1e-15, or the end of the
    /// range where that is beyond it.
    pub fn from_steps(steps: i64) -> (p: Power)
        ensures
            p@ == saturate(steps as int),
    {
        if steps < -POWER_LIMIT {
            Power { steps: -POWER_LIMIT }
        } else {
            Power { steps }
        }
    }

    /// The number of 1e-15 steps in this exponent.
    pub fn steps(&self) -> (steps: i64)
        ensures
            steps == self@,
            in_range(steps as int),
    {
        proof {
            use_type_invariant(self);
        }
        self.steps
    }

    /// The exponent zero.
    pub fn zero() -> (p: Power)
        ensures
            p@ == 0,
    {
        Power { steps: 0 }
    }

    /// The exponent one.
    pub fn one() -> (p: Power)
        ensures
            p@ == POWER_ONE,
    {
        Power { steps: POWER_ONE }
    }

    /// The whole exponent `n`.
    pub fn whole(n: i32) -> (p: Power)
        ensures
            p@ == saturate(n * POWER_ONE),
    {
        let one: i128 = POWER_ONE as i128;
        let count: i128 = n as i128;
        assert(-0x8000_0000 * one <= count * one <= 0x8000_0000 * one) by (nonlinear_arith)
            requires
                -0x8000_0000 <= count <= 0x8000_0000,
                one > 0,
        ;
        let wide: i128 = count * one;
        Power { steps: clamp(wide) }
    }

    /// Whether the magnitude is under 1e-10.
    pub fn is_negligible(&self) -> (b: bool)
        ensures
            b == negligible(self@),
    {
        -POWER_EPSILON < self.steps && self.steps < POWER_EPSILON
    }

    /// Whether the exponent is above zero.
    pub fn is_positive(&self) -> (b: bool)
        ensures
            b == (self@ > 0),
    {
        self.steps > 0
    }

    /// The sum, saturating.
    pub fn plus(&self, other: Power) -> (p: Power)
        ensures
            p@ == power_sum(self@, other@),
    {
        let wide: i128 = (self.steps as i128) + (other.steps as i128);
        Power { steps: clamp(wide) }
    }

    /// The exponent with the opposite sign, saturating.
    pub fn negated(&self) -> (p: Power)
        ensures
            p@ == power_negation(self@),
    {
        let wide: i128 = -(self.steps as i128);
        Power { steps: clamp(wide) }
    }

    /// The product, rounded towards zero to fifteen fractional digits and
    /// saturating.
    pub fn times(&self, other: Power) -> (p: Power)
        ensures
            p@ == power_product(self@, other@),
    {
        let a: i128 = self.steps as i128;
        let b: i128 = other.steps as i128;
        let limit: i128 = 0x8000_0000_0000_0000;
        assert(-limit * limit <= a * b <= limit * limit) by (nonlinear_arith)
            requires
                -limit <= a <= limit,
                -limit <= b <= limit,
        ;
        let wide: i128 = a * b;
        let one: i128 = POWER_ONE as i128;
        let quotient: i128 = if wide >= 0 {
            wide / one
        } else {
            -((-wide) / one)
        };
        Power { steps: clamp(quotient) }
    }
}

/// `x` brought into the range of the counts.
fn clamp(x: i128) -> (r: i64)
    ensures
        r == saturate(x as int),
{
    if x > POWER_LIMIT as i128 {
        POWER_LIMIT
    } else if x < -(POWER_LIMIT as i128) {
        -POWER_LIMIT
    } else {
        x as i64
    }
}

} // verus!
