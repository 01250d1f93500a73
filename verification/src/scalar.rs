//! Quantities: a magnitude with its dimension, the unit it is shown in, and
//! the precision it is known to.

use crate::error::Error;
use crate::magnitude::Magnitude;
use crate::power::Power;
use crate::power::{saturate32, POWER_ONE};
use crate::units::{
    equivalent, exponent, kept, lemma_distinct_singles_differ, lemma_equivalent_symmetric,
    lemma_product_exponent, product, quotient, raised, single, CompositeUnit, CompositeUnitClass,
};
use vstd::prelude::*;

verus! {

/// How exactly a magnitude is known.
#[derive(Clone, Copy, Debug, PartialEq, Eq, Structural)]
pub enum Precision {
    /// To this many significant figures.
    SigFigs(i32),
    /// To within this fraction of itself.
    PercentError(Magnitude),
    /// Exactly.
    Exact,
}

/// What the arithmetic on magnitudes found for one request. `value` is the
/// number asked for. The other fields are filled for the requests that ask
/// for them, and not read otherwise.
#[derive(Clone, Copy, Debug, PartialEq, Eq, Structural)]
pub struct Answer {
    /// The number that was asked for.
    pub value: Magnitude,
    /// For a sum, product or quotient with an operand known to a percent
    /// error: the percent error of the result.
    pub percent: Magnitude,
    /// For a sum: the order of magnitude of the left operand, the floor of
    /// the base-ten logarithm of its absolute value.
    pub lhs_order: i32,
    /// For a sum: the order of magnitude of the right operand.
    pub rhs_order: i32,
    /// For a sum: the order of magnitude of the sum.
    pub new_order: i32,
    /// For a power: the exponent.
    pub exponent: Power,
}

/// The significant figures of a sum of two magnitudes known to `lhs_figures`
/// and `rhs_figures` significant figures. The last digit known of an operand
/// stands at its order of magnitude less its figures; the sum is known down
/// to the coarser of the two, so it has as many figures as lie between that
/// digit and its own order of magnitude, and never fewer than none.
pub open spec fn figures_of_sum(
    lhs_order: int,
    lhs_figures: int,
    rhs_order: int,
    rhs_figures: int,
    new_order: int,
) -> int {
    let lhs_last = lhs_order - lhs_figures;
    let rhs_last = rhs_order - rhs_figures;
    let last = if lhs_last >= rhs_last {
        lhs_last
    } else {
        rhs_last
    };
    if new_order - last < 0 {
        0
    } else {
        saturate32(new_order - last)
    }
}

/// The precision of a sum or difference. An exact operand adds no
/// uncertainty: the other operand's precision is taken as it is. Two
/// operands known to significant figures give `figures_of_sum`. Otherwise a
/// percent error is involved, and the result has the percent error that the
/// arithmetic found.
pub open spec fn precision_of_sum(lhs: Precision, rhs: Precision, facts: Answer) -> Precision {
    match (lhs, rhs) {
        (Precision::Exact, _) => rhs,
        (_, Precision::Exact) => lhs,
        (Precision::SigFigs(l), Precision::SigFigs(r)) => Precision::SigFigs(
            figures_of_sum(
                facts.lhs_order as int,
                l as int,
                facts.rhs_order as int,
                r as int,
                facts.new_order as int,
            ) as i32,
        ),
        _ => Precision::PercentError(facts.percent),
    }
}

/// The precision of a product or quotient. An exact operand adds no
/// uncertainty. Two operands known to significant figures give the smaller
/// number of figures. Otherwise a percent error is involved, and the result
/// has the percent error that the arithmetic found.
pub open spec fn precision_of_product(lhs: Precision, rhs: Precision, facts: Answer) -> Precision {
    match (lhs, rhs) {
        (Precision::Exact, _) => rhs,
        (_, Precision::Exact) => lhs,
        (Precision::SigFigs(l), Precision::SigFigs(r)) => Precision::SigFigs(
            if l <= r {
                l
            } else {
                r
            },
        ),
        _ => Precision::PercentError(facts.percent),
    }
}

impl Precision {
    /// The precision of `figures` significant figures, of which there must be
    /// one at least.
    pub fn sig_figs(figures: i32) -> (p: Option<Precision>)
        ensures
            p == if figures >= 1 {
                Some(Precision::SigFigs(figures))
            } else {
                None
            },
    {
        if figures >= 1 {
            Some(Precision::SigFigs(figures))
        } else {
            None
        }
    }

    /// The precision of the sum of two magnitudes of precisions `self` and
    /// `rhs`.
    pub fn of_sum(self, rhs: Precision, facts: &Answer) -> (p: Precision)
        ensures
            p == precision_of_sum(self, rhs, *facts),
    {
        match (self, rhs) {
            (Precision::Exact, _) => rhs,
            (_, Precision::Exact) => self,
            (Precision::SigFigs(l), Precision::SigFigs(r)) => {
                let lhs_last: i64 = facts.lhs_order as i64 - l as i64;
                let rhs_last: i64 = facts.rhs_order as i64 - r as i64;
                let last: i64 = if lhs_last >= rhs_last {
                    lhs_last
                } else {
                    rhs_last
                };
                let figures: i64 = facts.new_order as i64 - last;
                if figures < 0 {
                    Precision::SigFigs(0)
                } else if figures > 0x7fff_ffff {
                    Precision::SigFigs(0x7fff_ffff)
                } else {
                    Precision::SigFigs(figures as i32)
                }
            },
            _ => Precision::PercentError(facts.percent),
        }
    }

    /// The precision of the product or quotient of two magnitudes of
    /// precisions `self` and `rhs`.
    pub fn of_product(self, rhs: Precision, facts: &Answer) -> (p: Precision)
        ensures
            p == precision_of_product(self, rhs, *facts),
    {
        match (self, rhs) {
            (Precision::Exact, _) => rhs,
            (_, Precision::Exact) => self,
            (Precision::SigFigs(l), Precision::SigFigs(r)) => Precision::SigFigs(
                if l <= r {
                    l
                } else {
                    r
                },
            ),
            _ => Precision::PercentError(facts.percent),
        }
    }
}

/// A product of magnitudes known to significant figures is known to the
/// fewer of the two; a sum with an exact operand is known as the other
/// operand is.
pub proof fn lemma_weakest_link(lhs: i32, rhs: i32, other: Precision, facts: Answer)
    ensures
        precision_of_product(Precision::SigFigs(lhs), Precision::SigFigs(rhs), facts)
            == Precision::SigFigs(
            if lhs <= rhs {
                lhs
            } else {
                rhs
            },
        ),
        precision_of_sum(Precision::Exact, other, facts) == other,
        precision_of_sum(other, Precision::Exact, facts) == other,
        precision_of_product(Precision::Exact, other, facts) == other,
        precision_of_product(other, Precision::Exact, facts) == other,
{
}

/// A quantity.
#[derive(Debug)]
pub struct Scalar {
    value: Magnitude,
    precision: Precision,
    unit: CompositeUnitClass,
    display_unit: CompositeUnit,
}

/// What a `Scalar` holds.
#[verifier::ext_equal]
pub struct ScalarModel {
    /// The magnitude, in the base units of the dimension.
    pub value: Magnitude,
    pub precision: Precision,
    /// The dimension.
    pub unit: Map<nat, int>,
    /// The unit in which the quantity is shown.
    pub display_unit: Map<nat, int>,
}

impl View for Scalar {
    type V = ScalarModel;

    closed spec fn view(&self) -> ScalarModel {
        ScalarModel {
            value: self.value,
            precision: self.precision,
            unit: self.unit@,
            display_unit: self.display_unit@,
        }
    }
}

impl Clone for Scalar {
    fn clone(&self) -> (copy: Self)
        ensures
            copy@ == self@,
    {
        Scalar {
            value: self.value,
            precision: self.precision,
            unit: self.unit.clone(),
            display_unit: self.display_unit.clone(),
        }
    }
}

/// The sum `facts` of two quantities, if they have the same dimension: it
/// has the dimension and shown unit of the left operand.
pub open spec fn scalar_sum(lhs: ScalarModel, rhs: ScalarModel, facts: Answer) -> Result<
    ScalarModel,
    Error,
> {
    if equivalent(lhs.unit, rhs.unit) {
        Ok(
            ScalarModel {
                value: facts.value,
                precision: precision_of_sum(lhs.precision, rhs.precision, facts),
                unit: lhs.unit,
                display_unit: lhs.display_unit,
            },
        )
    } else {
        Err(Error::DimensionMismatch)
    }
}

/// The product `facts` of two quantities: dimensions and shown units
/// multiply.
pub open spec fn scalar_product(lhs: ScalarModel, rhs: ScalarModel, facts: Answer) -> ScalarModel {
    ScalarModel {
        value: facts.value,
        precision: precision_of_product(lhs.precision, rhs.precision, facts),
        unit: product(lhs.unit, rhs.unit),
        display_unit: product(lhs.display_unit, rhs.display_unit),
    }
}

/// The quotient `facts` of two quantities: dimensions and shown units
/// divide.
pub open spec fn scalar_quotient(lhs: ScalarModel, rhs: ScalarModel, facts: Answer) -> ScalarModel {
    ScalarModel {
        value: facts.value,
        precision: precision_of_product(lhs.precision, rhs.precision, facts),
        unit: quotient(lhs.unit, rhs.unit),
        display_unit: quotient(lhs.display_unit, rhs.display_unit),
    }
}

/// The power `facts` of a quantity: dimension and shown unit are raised to
/// the exponent, the precision stays.
pub open spec fn scalar_power(base: ScalarModel, facts: Answer) -> ScalarModel {
    ScalarModel {
        value: facts.value,
        precision: base.precision,
        unit: raised(base.unit, facts.exponent@),
        display_unit: raised(base.display_unit, facts.exponent@),
    }
}

/// Whether a quantity can be made with this precision: significant figures
/// come one at least.
pub open spec fn constructible(precision: Precision) -> bool {
    precision matches Precision::SigFigs(figures) ==> figures >= 1
}

impl Scalar {
    /// The quantity of the given magnitude, precision, dimension and shown
    /// unit. There is none with fewer than one significant figure.
    pub fn new(
        value: Magnitude,
        precision: Precision,
        unit: CompositeUnitClass,
        display_unit: CompositeUnit,
    ) -> (scalar: Option<Scalar>)
        ensures
            match scalar {
                Some(s) => constructible(precision) && s@ == (ScalarModel {
                    value,
                    precision,
                    unit: unit@,
                    display_unit: display_unit@,
                }),
                None => !constructible(precision),
            },
    {
        match precision {
            Precision::SigFigs(figures) => {
                if figures < 1 {
                    return None;
                }
            },
            _ => {},
        }
        Some(Scalar { value, precision, unit, display_unit })
    }

    /// The quantity without dimension that is exactly `value`.
    pub fn exact(value: Magnitude) -> (scalar: Scalar)
        ensures
            scalar@ == (ScalarModel {
                value,
                precision: Precision::Exact,
                unit: Map::empty(),
                display_unit: Map::empty(),
            }),
    {
        Scalar {
            value,
            precision: Precision::Exact,
            unit: CompositeUnitClass::identity(),
            display_unit: CompositeUnit::identity(),
        }
    }

    /// One of the unit `display_unit`, of the dimension `unit`, where the
    /// ratio of the unit to the base units is `ratio`.
    pub fn one_of(ratio: Magnitude, unit: CompositeUnitClass, display_unit: CompositeUnit) -> (scalar: Scalar)
        ensures
            scalar@ == (ScalarModel {
                value: ratio,
                precision: Precision::Exact,
                unit: unit@,
                display_unit: display_unit@,
            }),
    {
        Scalar { value: ratio, precision: Precision::Exact, unit, display_unit }
    }

    /// The sum of two quantities, found by the arithmetic to be `facts`.
    /// Fails where the dimensions differ.
    pub fn add(&self, other: &Scalar, facts: &Answer) -> (sum: Result<Scalar, Error>)
        ensures
            match sum {
                Ok(s) => scalar_sum(self@, other@, *facts) == Ok::<ScalarModel, Error>(s@),
                Err(e) => scalar_sum(self@, other@, *facts) == Err::<ScalarModel, Error>(e),
            },
    {
        if !self.unit.same_dimension(&other.unit) {
            return Err(Error::DimensionMismatch);
        }
        Ok(
            Scalar {
                value: facts.value,
                precision: self.precision.of_sum(other.precision, facts),
                unit: self.unit.clone(),
                display_unit: self.display_unit.clone(),
            },
        )
    }

    /// The difference of two quantities: the sum of the first and the
    /// negated second. The arithmetic found the magnitude of the second to
    /// negate to `negated`, and the sum to be `facts`. Fails where the
    /// dimensions differ.
    pub fn sub(&self, other: &Scalar, negated: Magnitude, facts: &Answer) -> (difference: Result<
        Scalar,
        Error,
    >)
        ensures
            match difference {
                Ok(s) => scalar_sum(self@, ScalarModel { value: negated, ..other@ }, *facts) == Ok::<
                    ScalarModel,
                    Error,
                >(s@),
                Err(e) => scalar_sum(self@, ScalarModel { value: negated, ..other@ }, *facts)
                    == Err::<ScalarModel, Error>(e),
            },
    {
        let opposite = other.clone().neg(negated);
        self.add(&opposite, facts)
    }

    /// The product of two quantities, found by the arithmetic to be `facts`.
    pub fn mul(self, rhs: Scalar, facts: &Answer) -> (product: Scalar)
        ensures
            product@ == scalar_product(self@, rhs@, *facts),
    {
        Scalar {
            value: facts.value,
            precision: self.precision.of_product(rhs.precision, facts),
            unit: self.unit.mul(rhs.unit),
            display_unit: self.display_unit.mul(rhs.display_unit),
        }
    }

    /// The quotient of two quantities, found by the arithmetic to be
    /// `facts`.
    pub fn div(self, rhs: Scalar, facts: &Answer) -> (quotient: Scalar)
        ensures
            quotient@ == scalar_quotient(self@, rhs@, *facts),
    {
        Scalar {
            value: facts.value,
            precision: self.precision.of_product(rhs.precision, facts),
            unit: self.unit.div(rhs.unit),
            display_unit: self.display_unit.div(rhs.display_unit),
        }
    }

    /// The quantity raised to a power, found by the arithmetic to be
    /// `facts`.
    pub fn pow(&self, facts: &Answer) -> (power: Scalar)
        ensures
            power@ == scalar_power(self@, *facts),
    {
        let mut unit = self.unit.clone();
        unit.pow(facts.exponent);
        let mut display_unit = self.display_unit.clone();
        display_unit.pow(facts.exponent);
        Scalar { value: facts.value, precision: self.precision, unit, display_unit }
    }

    /// The quantity with the magnitude `negated`, which the arithmetic found
    /// by negating its own. Dimension, shown unit and precision stay.
    pub fn neg(self, negated: Magnitude) -> (opposite: Scalar)
        ensures
            opposite@ == (ScalarModel { value: negated, ..self@ }),
    {
        Scalar {
            value: negated,
            precision: self.precision,
            unit: self.unit,
            display_unit: self.display_unit,
        }
    }

    /// The dimension.
    pub fn unit(&self) -> (unit: &CompositeUnitClass)
        ensures
            unit@ == self@.unit,
    {
        &self.unit
    }

    /// The unit in which the quantity is shown.
    pub fn display_unit(&self) -> (unit: &CompositeUnit)
        ensures
            unit@ == self@.display_unit,
    {
        &self.display_unit
    }

    /// Has the quantity shown in `display_unit` from now on.
    pub fn set_display_unit(&mut self, display_unit: CompositeUnit)
        ensures
            final(self)@ == (ScalarModel { display_unit: display_unit@, ..old(self)@ }),
    {
        self.display_unit = display_unit;
    }

    /// The magnitude, in the base units of the dimension.
    pub fn raw_value(&self) -> (value: Magnitude)
        ensures
            value == self@.value,
    {
        self.value
    }

    /// How exactly the magnitude is known.
    pub fn precision(&self) -> (precision: Precision)
        ensures
            precision == self@.precision,
    {
        self.precision
    }
}

/// An exact quantity and another of the same dimension are added in either
/// order, and the sum is known as exactly as the other is: to its
/// significant figures or its percent error, or exactly where the other is
/// exact too. The magnitude of the sum is the one that the arithmetic found.
pub proof fn lemma_exact_operand(exact: ScalarModel, other: ScalarModel, one_way: Answer, other_way: Answer)
    requires
        exact.precision == Precision::Exact,
        kept(exact.unit),
        kept(other.unit),
        equivalent(exact.unit, other.unit),
    ensures
        scalar_sum(exact, other, one_way) matches Ok(sum) && sum.precision == other.precision
            && sum.value == one_way.value && sum.unit == exact.unit,
        scalar_sum(other, exact, other_way) matches Ok(sum) && sum.precision == other.precision
            && sum.value == other_way.value && sum.unit == other.unit,
{
    lemma_equivalent_symmetric(exact.unit, other.unit);
}

/// Quantities of two different simple dimensions are not added, and their
/// product has both dimensions.
pub proof fn lemma_mixed_dimensions(lhs: ScalarModel, rhs: ScalarModel, a: nat, b: nat, facts: Answer)
    requires
        a != b,
        lhs.unit == single(a),
        rhs.unit == single(b),
    ensures
        scalar_sum(lhs, rhs, facts) == Err::<ScalarModel, Error>(Error::DimensionMismatch),
        scalar_product(lhs, rhs, facts).unit == product(single(a), single(b)),
        exponent(scalar_product(lhs, rhs, facts).unit, a) == POWER_ONE,
        exponent(scalar_product(lhs, rhs, facts).unit, b) == POWER_ONE,
{
    lemma_distinct_singles_differ(a, b);
    lemma_product_exponent(single(a), single(b), a);
    lemma_product_exponent(single(a), single(b), b);
}

} // verus!
