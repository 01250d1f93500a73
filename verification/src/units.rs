//! Unit classes, units, and the algebra of their products and quotients.

use crate::bag::{keepable, merged, scaled, Factor, QuantityBag};
use crate::expression::names_view;
use crate::magnitude::Magnitude;
use crate::power::{in_range, negligible, power_negation, saturate32, Power, POWER_ONE};
use crate::text::{
    ascii_small, char_to_lowercase, chars_of, concat, is_ascii, is_ascii_capital, lowercase,
    string_of,
};
use crate::storage::StorageId;
use std::marker::PhantomData;
use vstd::prelude::*;

verus! {

/// A dimension, such as length or time. The first name is the one shown.
#[derive(Debug)]
pub struct UnitClass {
    pub names: Vec<String>,
}

/// The identity of a declared unit class.
pub type UnitClassId = StorageId<UnitClass>;

/// The identity of a declared unit.
pub type UnitId = StorageId<Unit>;

/// A product or quotient of unit classes: a dimension.
pub type CompositeUnitClass = Composite<UnitClassId>;

/// A product or quotient of units.
pub type CompositeUnit = Composite<UnitId>;

/// A concrete unit. The first name is the one shown.
#[derive(Debug)]
pub struct Unit {
    pub names: Vec<String>,
    /// The dimension that the unit measures.
    pub class: CompositeUnitClass,
    pub symbol: String,
    /// With `prefix_exponent`, the number by which a value in this unit is
    /// multiplied to give the value in the base unit of its class: that
    /// number is `base_ratio` times ten to the power `prefix_exponent`.
    pub base_ratio: Magnitude,
    /// The power of ten of the metric prefix that the unit carries, zero
    /// for a unit without one.
    pub prefix_exponent: i32,
}

/// What a `Unit` holds.
#[verifier::ext_equal]
pub struct UnitModel {
    pub names: Seq<Seq<char>>,
    pub class: Map<nat, int>,
    pub symbol: Seq<char>,
    pub base_ratio: Magnitude,
    pub prefix_exponent: i32,
}

impl View for Unit {
    type V = UnitModel;

    open spec fn view(&self) -> UnitModel {
        UnitModel {
            names: names_view(self.names@),
            class: self.class@,
            symbol: self.symbol@,
            base_ratio: self.base_ratio,
            prefix_exponent: self.prefix_exponent,
        }
    }
}

/// What a list of units holds.
pub open spec fn units_view(list: Seq<Unit>) -> Seq<UnitModel> {
    Seq::new(list.len(), |i: int| list[i]@)
}

/// A new list with copies of `names`.
pub fn copy_names(names: &Vec<String>) -> (copy: Vec<String>)
    ensures
        names_view(copy@) == names_view(names@),
{
    let mut copy: Vec<String> = Vec::new();
    let mut i: usize = 0;
    while i < names.len()
        invariant
            i <= names@.len(),
            copy@.len() == i,
            forall|k: int| 0 <= k < i ==> copy@[k]@ == names@[k]@,
        decreases names@.len() - i,
    {
        copy.push(names[i].clone());
        i = i + 1;
    }
    assert(names_view(copy@) =~= names_view(names@));
    copy
}

/// A name made ready for a prefix: its first character in lower case. A name
/// without characters becomes three question marks.
pub open spec fn prefixable(name: Seq<char>) -> Seq<char> {
    if name.len() == 0 {
        "???"@
    } else {
        lowercase(name[0]) + name.skip(1)
    }
}

/// A name that begins with an ASCII character is made ready for a prefix by
/// putting a capital at its start in lower case: `Meter` becomes `meter`,
/// and `meter` stays as it is.
pub proof fn lemma_prefixable_ascii(name: Seq<char>)
    requires
        name.len() > 0,
        is_ascii(name[0]),
    ensures
        prefixable(name).len() == name.len(),
        prefixable(name).skip(1) == name.skip(1),
        is_ascii_capital(name[0]) ==> prefixable(name)[0] == ascii_small(name[0]),
        !is_ascii_capital(name[0]) ==> prefixable(name) == name,
{
    assert(prefixable(name).skip(1) =~= name.skip(1));
    if !is_ascii_capital(name[0]) {
        assert(prefixable(name) =~= name);
    }
}

/// The names of the variant of a unit called `names` with the prefix at
/// `prefix`.
pub open spec fn variant_names(names: Seq<Seq<char>>, prefix: int) -> Seq<Seq<char>> {
    Seq::new(names.len(), |i: int| metric_prefix_name(prefix) + prefixable(names[i]))
}

/// The variant of `unit` with the prefix at `prefix`: the prefix goes in
/// front of every name and its abbreviation in front of the symbol, and its
/// power of ten is added to that of the unit.
pub open spec fn variant(unit: UnitModel, prefix: int) -> UnitModel {
    UnitModel {
        names: variant_names(unit.names, prefix),
        class: unit.class,
        symbol: metric_prefix_abbreviation(prefix) + unit.symbol,
        base_ratio: unit.base_ratio,
        prefix_exponent: saturate32(unit.prefix_exponent + metric_prefix_exponent(prefix)) as i32,
    }
}

/// The position of the first prefix that a unit of the given kind gets.
pub open spec fn first_prefix(prefix_type: UnitPrefixType) -> int {
    match prefix_type {
        UnitPrefixType::Plain => METRIC_PREFIX_COUNT as int,
        UnitPrefixType::Metric => 0,
        UnitPrefixType::PartialMetric => SMALL_PREFIXES_START as int,
    }
}

/// The variants that a unit of the given kind gets, from the largest prefix
/// to the smallest.
pub open spec fn variants(unit: UnitModel, prefix_type: UnitPrefixType) -> Seq<UnitModel> {
    Seq::new(
        (METRIC_PREFIX_COUNT - first_prefix(prefix_type)) as nat,
        |k: int| variant(unit, first_prefix(prefix_type) + k),
    )
}

/// Reads `name` for a prefix.
pub fn make_prefixable(name: &String) -> (ready: String)
    ensures
        ready@ == prefixable(name@),
{
    let chars = chars_of(name.as_str());
    if chars.len() == 0 {
        return "???".to_owned();
    }
    let lower = char_to_lowercase(chars[0]);
    let mut ready = string_of(&lower, 0, lower.len());
    assert(lower@.subrange(0, lower@.len() as int) =~= lower@);
    let rest = string_of(&chars, 1, chars.len());
    ready = concat(ready.as_str(), rest.as_str());
    assert(chars@.subrange(1, chars@.len() as int) =~= chars@.skip(1));
    ready
}

impl Unit {
    /// The variant of this unit with the prefix at `prefix`.
    pub fn variant(&self, prefix: usize) -> (unit: Unit)
        requires
            prefix < METRIC_PREFIX_COUNT,
        ensures
            unit@ == variant(self@, prefix as int),
    {
        let with = metric_prefix(prefix);
        let mut names: Vec<String> = Vec::new();
        let mut i: usize = 0;
        while i < self.names.len()
            invariant
                i <= self.names@.len(),
                names@.len() == i,
                with.name@ == metric_prefix_name(prefix as int),
                forall|k: int|
                    0 <= k < i ==> names@[k]@ == metric_prefix_name(prefix as int) + prefixable(
                        self.names@[k]@,
                    ),
            decreases self.names@.len() - i,
        {
            let ready = make_prefixable(&self.names[i]);
            names.push(concat(with.name, ready.as_str()));
            i = i + 1;
        }
        assert(names_view(names@) =~= variant_names(names_view(self.names@), prefix as int));
        let shifted: i64 = self.prefix_exponent as i64 + with.exponent as i64;
        let prefix_exponent: i32 = if shifted > 0x7fff_ffff {
            0x7fff_ffff
        } else if shifted < -0x8000_0000 {
            -0x8000_0000
        } else {
            shifted as i32
        };
        Unit {
            names,
            class: self.class.clone(),
            symbol: concat(with.abbreviation, self.symbol.as_str()),
            base_ratio: self.base_ratio,
            prefix_exponent,
        }
    }

    /// The variants that this unit gets as a unit of the given kind.
    pub fn variants(&self, prefix_type: UnitPrefixType) -> (list: Vec<Unit>)
        ensures
            units_view(list@) == variants(self@, prefix_type),
    {
        let first: usize = match prefix_type {
            UnitPrefixType::Plain => METRIC_PREFIX_COUNT,
            UnitPrefixType::Metric => 0,
            UnitPrefixType::PartialMetric => SMALL_PREFIXES_START,
        };
        let mut list: Vec<Unit> = Vec::new();
        let mut prefix: usize = first;
        while prefix < METRIC_PREFIX_COUNT
            invariant
                first <= prefix <= METRIC_PREFIX_COUNT,
                list@.len() == prefix - first,
                forall|k: int| 0 <= k < list@.len() ==> list@[k]@ == variant(self@, first + k),
            decreases METRIC_PREFIX_COUNT - prefix,
        {
            list.push(self.variant(prefix));
            prefix = prefix + 1;
        }
        assert(units_view(list@) =~= variants(self@, prefix_type));
        list
    }
}

/// How a declared unit is multiplied into prefixed variants.
#[derive(Clone, Copy, Debug, PartialEq, Eq, Hash, Structural)]
pub enum UnitPrefixType {
    /// A plain unit.
    Plain,
    /// Every prefix, from yotta down to yocto.
    Metric,
    /// Only the prefixes that make the unit smaller, from deci down to yocto.
    PartialMetric,
}

/// A metric prefix: its name, its abbreviation, and the power of ten it
/// multiplies by.
#[derive(Clone, Copy, Debug)]
pub struct MetricPrefix {
    pub name: &'static str,
    pub abbreviation: &'static str,
    pub exponent: i32,
}

/// The number of metric prefixes.
pub const METRIC_PREFIX_COUNT: usize = 20;

/// The position of the first prefix that makes a unit smaller.
pub const SMALL_PREFIXES_START: usize = 10;

/// The power of ten of the prefix at `index`, from the largest prefix to the
/// smallest.
pub open spec fn metric_prefix_exponent(index: int) -> int {
    if index < 8 {
        24 - 3 * index
    } else if index == 8 {
        2
    } else if index == 9 {
        1
    } else if index == 10 {
        -1
    } else if index == 11 {
        -2
    } else {
        33 - 3 * index
    }
}

/// The prefix at `index`, from yotta (0) to yocto (19).
pub fn metric_prefix(index: usize) -> (prefix: MetricPrefix)
    requires
        index < METRIC_PREFIX_COUNT,
    ensures
        prefix.exponent == metric_prefix_exponent(index as int),
        prefix.name@ == metric_prefix_name(index as int),
        prefix.abbreviation@ == metric_prefix_abbreviation(index as int),
{
    match index {
        0 => MetricPrefix { name: "Yotta", abbreviation: "Y", exponent: 24 },
        1 => MetricPrefix { name: "Zetta", abbreviation: "Z", exponent: 21 },
        2 => MetricPrefix { name: "Exa", abbreviation: "E", exponent: 18 },
        3 => MetricPrefix { name: "Peta", abbreviation: "P", exponent: 15 },
        4 => MetricPrefix { name: "Tera", abbreviation: "T", exponent: 12 },
        5 => MetricPrefix { name: "Giga", abbreviation: "G", exponent: 9 },
        6 => MetricPrefix { name: "Mega", abbreviation: "M", exponent: 6 },
        7 => MetricPrefix { name: "Kilo", abbreviation: "k", exponent: 3 },
        8 => MetricPrefix { name: "Hecto", abbreviation: "h", exponent: 2 },
        9 => MetricPrefix { name: "Deka", abbreviation: "da", exponent: 1 },
        10 => MetricPrefix { name: "Deci", abbreviation: "d", exponent: -1 },
        11 => MetricPrefix { name: "Centi", abbreviation: "c", exponent: -2 },
        12 => MetricPrefix { name: "Milli", abbreviation: "m", exponent: -3 },
        13 => MetricPrefix { name: "Micro", abbreviation: "\u{3bc}", exponent: -6 },
        14 => MetricPrefix { name: "Nano", abbreviation: "n", exponent: -9 },
        15 => MetricPrefix { name: "Pico", abbreviation: "p", exponent: -12 },
        16 => MetricPrefix { name: "Femto", abbreviation: "f", exponent: -15 },
        17 => MetricPrefix { name: "Atto", abbreviation: "a", exponent: -18 },
        18 => MetricPrefix { name: "Zepto", abbreviation: "z", exponent: -21 },
        _ => MetricPrefix { name: "Yocto", abbreviation: "y", exponent: -24 },
    }
}

/// The name of the prefix at `index`.
pub open spec fn metric_prefix_name(index: int) -> Seq<char> {
    if index == 0 {
        "Yotta"@
    } else if index == 1 {
        "Zetta"@
    } else if index == 2 {
        "Exa"@
    } else if index == 3 {
        "Peta"@
    } else if index == 4 {
        "Tera"@
    } else if index == 5 {
        "Giga"@
    } else if index == 6 {
        "Mega"@
    } else if index == 7 {
        "Kilo"@
    } else if index == 8 {
        "Hecto"@
    } else if index == 9 {
        "Deka"@
    } else if index == 10 {
        "Deci"@
    } else if index == 11 {
        "Centi"@
    } else if index == 12 {
        "Milli"@
    } else if index == 13 {
        "Micro"@
    } else if index == 14 {
        "Nano"@
    } else if index == 15 {
        "Pico"@
    } else if index == 16 {
        "Femto"@
    } else if index == 17 {
        "Atto"@
    } else if index == 18 {
        "Zepto"@
    } else {
        "Yocto"@
    }
}

/// The abbreviation of the prefix at `index`.
pub open spec fn metric_prefix_abbreviation(index: int) -> Seq<char> {
    if index == 0 {
        "Y"@
    } else if index == 1 {
        "Z"@
    } else if index == 2 {
        "E"@
    } else if index == 3 {
        "P"@
    } else if index == 4 {
        "T"@
    } else if index == 5 {
        "G"@
    } else if index == 6 {
        "M"@
    } else if index == 7 {
        "k"@
    } else if index == 8 {
        "h"@
    } else if index == 9 {
        "da"@
    } else if index == 10 {
        "d"@
    } else if index == 11 {
        "c"@
    } else if index == 12 {
        "m"@
    } else if index == 13 {
        "\u{3bc}"@
    } else if index == 14 {
        "n"@
    } else if index == 15 {
        "p"@
    } else if index == 16 {
        "f"@
    } else if index == 17 {
        "a"@
    } else if index == 18 {
        "z"@
    } else {
        "y"@
    }
}

/// The exponent that the composite `c` gives to `id`, zero where `c` does
/// not hold it.
pub open spec fn exponent(c: Map<nat, int>, id: nat) -> int {
    if c.dom().contains(id) {
        c[id]
    } else {
        0
    }
}

/// Whether `c` can be the view of a composite: every exponent it holds is
/// in the range of the exponents, and none is cancelled.
pub open spec fn kept(c: Map<nat, int>) -> bool {
    forall|id: nat| c.dom().contains(id) ==> keepable(#[trigger] c[id])
}

/// The composite with a single factor `id`, to the power one.
pub open spec fn single(id: nat) -> Map<nat, int> {
    Map::<nat, int>::empty().insert(id, POWER_ONE as int)
}

/// The product of two composites.
pub open spec fn product(a: Map<nat, int>, b: Map<nat, int>) -> Map<nat, int> {
    Map::new(
        |id: nat| merged(exponent(a, id), exponent(b, id)) != 0,
        |id: nat| merged(exponent(a, id), exponent(b, id)),
    )
}

/// The composite `c` with every exponent multiplied by `by`.
pub open spec fn raised(c: Map<nat, int>, by: int) -> Map<nat, int> {
    Map::new(|id: nat| scaled(exponent(c, id), by) != 0, |id: nat| scaled(exponent(c, id), by))
}

/// The quotient of two composites: the product of the first with the second
/// raised to the power minus one.
pub open spec fn quotient(a: Map<nat, int>, b: Map<nat, int>) -> Map<nat, int> {
    product(a, raised(b, -POWER_ONE))
}

/// Whether two composites stand for the same dimension: their quotient
/// cancels completely.
pub open spec fn equivalent(a: Map<nat, int>, b: Map<nat, int>) -> bool {
    quotient(a, b) == Map::<nat, int>::empty()
}

/// A product or quotient of identifiers of one kind, each raised to a power.
/// `I` is the kind of identifier.
#[verifier::reject_recursive_types(I)]
#[derive(Debug)]
pub struct Composite<I> {
    factors: QuantityBag,
    kind: PhantomData<I>,
}

impl<I> View for Composite<I> {
    type V = Map<nat, int>;

    closed spec fn view(&self) -> Map<nat, int> {
        Map::new(|id: nat| self.factors.power(id) != 0, |id: nat| self.factors.power(id))
    }
}

impl<I> Clone for Composite<I> {
    fn clone(&self) -> (copy: Self)
        ensures
            copy@ == self@,
            copy.factors() == self.factors(),
    {
        let factors = self.factors.clone();
        let copy = Composite { factors, kind: PhantomData };
        assert(copy@ =~= self@);
        copy
    }
}

impl<I> Composite<I> {
    /// The factors, sorted by identifier.
    pub closed spec fn factors(&self) -> Seq<Factor> {
        self.factors.entries()
    }

    /// The invariant of the factor list.
    pub closed spec fn wf(&self) -> bool {
        self.factors.wf()
    }

    /// The view holds exactly the factors, and none of them is cancelled.
    pub proof fn lemma_view(&self)
        requires
            self.wf(),
        ensures
            kept(self@),
            forall|k: int|
                0 <= k < self.factors().len() ==> exponent(
                    self@,
                    (#[trigger] self.factors()[k]).1 as nat,
                ) == self.factors()[k].0@ && self@.dom().contains(self.factors()[k].1 as nat),
            forall|id: nat|
                self@.dom().contains(id) ==> exists|k: int|
                    0 <= k < self.factors().len() && (#[trigger] self.factors()[k]).1 == id,
            (self@ == Map::<nat, int>::empty()) == (self.factors().len() == 0),
    {
        assert forall|k: int| 0 <= k < self.factors().len() implies exponent(
            self@,
            (#[trigger] self.factors()[k]).1 as nat,
        ) == self.factors()[k].0@ && self@.dom().contains(self.factors()[k].1 as nat) by {
            self.factors.lemma_power_of_entry(k);
        }
        assert forall|id: nat| self@.dom().contains(id) implies exists|k: int|
            0 <= k < self.factors().len() && (#[trigger] self.factors()[k]).1 == id by {
            assert(self.factors.power(id) != 0);
            let k = self.factors.lemma_entry_of_power(id);
            assert(self.factors()[k].1 == id);
        }
        assert forall|id: nat| self@.dom().contains(id) implies keepable(#[trigger] self@[id]) by {
            assert(self.factors.power(id) != 0);
            let k = self.factors.lemma_entry_of_power(id);
            self.factors.lemma_power_of_entry(k);
            assert(self@[id] == self.factors.power(id));
        }
        if self.factors().len() == 0 {
            assert forall|id: nat| !self@.dom().contains(id) by {
                if self@.dom().contains(id) {
                    let k = self.factors.lemma_entry_of_power(id);
                }
            }
            assert(self@ =~= Map::<nat, int>::empty());
        } else {
            self.factors.lemma_power_of_entry(0);
            assert(self@.dom().contains(self.factors()[0].1 as nat));
        }
    }

    /// The identifiers of the factors strictly increase.
    pub proof fn lemma_factors_ordered(&self)
        requires
            self.wf(),
        ensures
            forall|i: int, j: int|
                0 <= i < j < self.factors().len() ==> (#[trigger] self.factors()[i]).1 < (
                #[trigger] self.factors()[j]).1,
    {
        self.factors.lemma_entries_ordered();
    }

    /// What holds of every composite that the program holds: the invariant
    /// of its factor list.
    pub fn check(&self)
        ensures
            self.wf(),
    {
        proof {
            use_type_invariant(&self.factors);
        }
    }

    /// Composites with the same view have the same factors.
    pub proof fn lemma_same_view(a: &Self, b: &Self)
        requires
            a.wf(),
            b.wf(),
            a@ == b@,
        ensures
            a.factors() == b.factors(),
    {
        assert forall|id: nat| a.factors.power(id) == b.factors.power(id) by {
            assert(a@.dom().contains(id) == (a.factors.power(id) != 0));
            assert(b@.dom().contains(id) == (b.factors.power(id) != 0));
            if a@.dom().contains(id) {
                assert(a@[id] == a.factors.power(id));
                assert(b@[id] == b.factors.power(id));
            }
        }
        QuantityBag::lemma_equal_powers(&a.factors, &b.factors);
    }

    /// The composite without factors: no unit, no dimension.
    pub fn identity() -> (c: Self)
        ensures
            c.wf(),
            c@ == Map::<nat, int>::empty(),
    {
        let c = Composite { factors: QuantityBag::new(), kind: PhantomData };
        assert(c@ =~= Map::<nat, int>::empty());
        c
    }

    /// Whether the composite has no factors.
    pub fn is_identity(&self) -> (b: bool)
        ensures
            b == (self@ == Map::<nat, int>::empty()),
    {
        proof {
            use_type_invariant(&self.factors);
            self.lemma_view();
        }
        self.factors.len() == 0
    }

    /// The number of factors.
    pub fn len(&self) -> (n: usize)
        ensures
            n == self.factors().len(),
    {
        self.factors.len()
    }

    /// The factor at position `k`, in the order of the identifiers.
    pub fn factor(&self, k: usize) -> (f: Factor)
        requires
            k < self.factors().len(),
        ensures
            f == self.factors()[k as int],
    {
        self.factors.entry(k)
    }

    /// The exponent of the identifier at position `index` of its pool.
    pub fn power_of(&self, index: usize) -> (p: Power)
        ensures
            p@ == exponent(self@, index as nat),
    {
        self.factors.get(index)
    }

    /// Raises the composite to the power `exp`: every exponent is multiplied
    /// by it, and factors whose exponent is cancelled leave.
    pub fn pow(&mut self, exp: Power)
        ensures
            final(self).wf(),
            final(self)@ == raised(old(self)@, exp@),
    {
        let mut factors = self.factors.clone();
        factors.mul(exp);
        let ghost before = self@;
        self.factors = factors;
        assert(self@ =~= raised(before, exp@));
    }

    /// The product of two composites.
    pub fn mul(self, rhs: Self) -> (c: Self)
        ensures
            c.wf(),
            c@ == product(self@, rhs@),
    {
        let ghost a = self@;
        let ghost b = rhs@;
        let c = Composite { factors: self.factors.union(rhs.factors), kind: PhantomData };
        assert(c@ =~= product(a, b));
        c
    }

    /// Multiplies this composite by `rhs`.
    pub fn mul_assign(&mut self, rhs: Self)
        ensures
            final(self).wf(),
            final(self)@ == product(old(self)@, rhs@),
    {
        let ghost before = self@;
        let factors = self.factors.clone().union(rhs.factors);
        self.factors = factors;
        assert(self@ =~= product(before, rhs@));
    }

    /// Divides this composite by `rhs`.
    pub fn div_assign(&mut self, rhs: Self)
        ensures
            final(self).wf(),
            final(self)@ == quotient(old(self)@, rhs@),
    {
        let ghost before = self@;
        let ghost b = rhs@;
        let mut divisor = rhs.factors;
        divisor.mul(Power::from_steps(-POWER_ONE));
        let ghost inverse = Composite::<I> { factors: divisor, kind: PhantomData };
        assert(inverse@ =~= raised(b, -POWER_ONE));
        let factors = self.factors.clone().union(divisor);
        self.factors = factors;
        assert(self@ =~= quotient(before, b));
    }

    /// The quotient of two composites.
    pub fn div(self, rhs: Self) -> (c: Self)
        ensures
            c.wf(),
            c@ == quotient(self@, rhs@),
    {
        let ghost a = self@;
        let ghost b = rhs@;
        let mut divisor = rhs.factors;
        divisor.mul(Power::from_steps(-POWER_ONE));
        let ghost inverse = Composite::<I> { factors: divisor, kind: PhantomData };
        assert(inverse@ =~= raised(b, -POWER_ONE));
        let c = Composite { factors: self.factors.union(divisor), kind: PhantomData };
        assert(c@ =~= quotient(a, b));
        c
    }

    /// Whether the two composites stand for the same dimension.
    pub fn same_dimension(&self, other: &Self) -> (b: bool)
        ensures
            b == equivalent(self@, other@),
    {
        self.clone().div(other.clone()).is_identity()
    }

    /// Whether the two composites have the same factors with the same
    /// exponents.
    pub fn same_factors(&self, other: &Self) -> (b: bool)
        ensures
            b == (self@ == other@),
    {
        let b = self.factors.same_entries(&other.factors);
        proof {
            use_type_invariant(&self.factors);
            use_type_invariant(&other.factors);
            if self@ == other@ {
                Self::lemma_same_view(self, other);
            }
            if b {
                QuantityBag::lemma_equal_entries(&self.factors, &other.factors);
                assert(self@ =~= other@);
            }
        }
        b
    }
}

impl<T> Composite<StorageId<T>> {
    /// The composite of the single factor `id`, to the power one.
    pub fn from(id: StorageId<T>) -> (c: Self)
        ensures
            c.wf(),
            c@ == single(id@),
    {
        let mut factors = QuantityBag::new();
        factors.add(id.index(), Power::one());
        let c = Composite { factors, kind: PhantomData };
        assert(c@ =~= single(id@));
        c
    }
}

impl<I> PartialEq for Composite<I> {
    /// Composites are equal when they stand for the same dimension.
    fn eq(&self, other: &Self) -> (b: bool) {
        self.same_dimension(other)
    }
}

impl<I> vstd::std_specs::cmp::PartialEqSpecImpl for Composite<I> {
    open spec fn obeys_eq_spec() -> bool {
        true
    }

    open spec fn eq_spec(&self, other: &Self) -> bool {
        equivalent(self@, other@)
    }
}

impl<I> Eq for Composite<I> {

}

/// Raising to the power minus one negates an exponent, exactly.
pub proof fn lemma_inverse_exponent(p: int)
    requires
        keepable(p),
    ensures
        scaled(p, -POWER_ONE) == -p,
        power_negation(p) == -p,
        keepable(-p),
{
    let one = POWER_ONE as int;
    if p >= 0 {
        vstd::arithmetic::div_mod::lemma_div_multiples_vanish(p, one);
        assert(p * (-one) == -(one * p)) by (nonlinear_arith);
        assert(one * p >= 0) by (nonlinear_arith)
            requires
                p >= 0,
                one > 0,
        ;
    } else {
        vstd::arithmetic::div_mod::lemma_div_multiples_vanish(-p, one);
        assert(p * (-one) == one * (-p)) by (nonlinear_arith);
        assert(one * (-p) >= 0) by (nonlinear_arith)
            requires
                p < 0,
                one > 0,
        ;
    }
}

/// The exponent that a product gives to an identifier is what merging its
/// two exponents gives. Where the sum is in the range of the exponents and
/// is not cancelled, it is their sum; where two exponents cancel, the
/// identifier leaves.
pub proof fn lemma_product_exponent(a: Map<nat, int>, b: Map<nat, int>, id: nat)
    ensures
        exponent(product(a, b), id) == merged(exponent(a, id), exponent(b, id)),
        ({
            let x = exponent(a, id);
            let y = exponent(b, id);
            &&& in_range(x + y) && (x == 0 || y == 0 || !negligible(x + y)) ==> exponent(
                product(a, b),
                id,
            ) == x + y
            &&& x != 0 && y != 0 && negligible(x + y) ==> exponent(product(a, b), id) == 0
        }),
{
}

/// The product does not depend on the order of its operands.
pub proof fn lemma_product_commutes(a: Map<nat, int>, b: Map<nat, int>)
    ensures
        product(a, b) == product(b, a),
{
    assert(product(a, b) =~= product(b, a));
}

/// The exponent that a quotient gives to an identifier: the merge of the
/// dividend's exponent with the negated exponent of the divisor.
pub proof fn lemma_quotient_exponent(a: Map<nat, int>, b: Map<nat, int>, id: nat)
    requires
        kept(b),
    ensures
        exponent(quotient(a, b), id) == merged(
            exponent(a, id),
            if exponent(b, id) == 0 {
                0
            } else {
                power_negation(exponent(b, id))
            },
        ),
{
    let y = exponent(b, id);
    if y != 0 {
        assert(b.dom().contains(id));
        assert(!negligible(b[id]));
        lemma_inverse_exponent(y);
    } else {
        assert(0 * (-POWER_ONE) == 0) by (nonlinear_arith);
    }
}

/// A composite divided by itself cancels completely.
pub proof fn lemma_quotient_of_itself(c: Map<nat, int>)
    requires
        kept(c),
    ensures
        quotient(c, c) == Map::<nat, int>::empty(),
        equivalent(c, c),
{
    assert forall|id: nat| !quotient(c, c).dom().contains(id) by {
        lemma_quotient_exponent(c, c, id);
    }
    assert(quotient(c, c) =~= Map::<nat, int>::empty());
}

proof fn lemma_equivalent_turned(a: Map<nat, int>, b: Map<nat, int>)
    requires
        kept(a),
        kept(b),
        equivalent(a, b),
    ensures
        equivalent(b, a),
{
    assert forall|id: nat| !quotient(b, a).dom().contains(id) by {
        lemma_quotient_exponent(a, b, id);
        lemma_quotient_exponent(b, a, id);
        assert(exponent(quotient(a, b), id) == 0);
        let x = exponent(a, id);
        let y = exponent(b, id);
        if x != 0 {
            assert(a.dom().contains(id));
            lemma_inverse_exponent(x);
        }
        if y != 0 {
            assert(b.dom().contains(id));
            lemma_inverse_exponent(y);
        }
        crate::power::lemma_exact(x, -y);
        crate::power::lemma_exact(y, -x);
    }
    assert(quotient(b, a) =~= Map::<nat, int>::empty());
}

/// Having the same dimension does not depend on the order of the two
/// composites.
pub proof fn lemma_equivalent_symmetric(a: Map<nat, int>, b: Map<nat, int>)
    requires
        kept(a),
        kept(b),
    ensures
        equivalent(a, b) == equivalent(b, a),
{
    if equivalent(a, b) {
        lemma_equivalent_turned(a, b);
    }
    if equivalent(b, a) {
        lemma_equivalent_turned(b, a);
    }
}

/// Two different identifiers make composites of different dimensions.
pub proof fn lemma_distinct_singles_differ(a: nat, b: nat)
    requires
        a != b,
    ensures
        !equivalent(single(a), single(b)),
{
    lemma_quotient_exponent(single(a), single(b), a);
    assert(exponent(single(a), a) == POWER_ONE);
    assert(exponent(single(b), a) == 0);
    assert(quotient(single(a), single(b)).dom().contains(a));
}

/// Multiplying by a second identifier and dividing by it again gives the
/// first back.
pub proof fn lemma_multiply_then_divide(a: nat, b: nat)
    requires
        a != b,
    ensures
        quotient(product(single(a), single(b)), single(b)) == single(a),
        equivalent(quotient(product(single(a), single(b)), single(b)), single(a)),
{
    let ab = product(single(a), single(b));
    let back = quotient(ab, single(b));
    assert forall|id: nat| exponent(back, id) == exponent(single(a), id) by {
        lemma_quotient_exponent(ab, single(b), id);
        lemma_product_exponent(single(a), single(b), id);
    }
    assert(back =~= single(a)) by {
        assert forall|id: nat| back.dom().contains(id) == single(a).dom().contains(id) by {
            assert(exponent(back, id) == exponent(single(a), id));
        }
        assert forall|id: nat| back.dom().contains(id) implies back[id] == single(a)[id] by {
            assert(exponent(back, id) == exponent(single(a), id));
        }
    }
    lemma_quotient_of_itself(single(a));
}

/// A unit raised to a power and then to the reciprocal of that power has the
/// dimension it had. Both must be exponents, that is in the range of the
/// exponents, and the reciprocal need only be right to the last digit:
/// `root` times `power` may differ from one by as much as one step of the
/// larger of the two. The power must not be so small that it counts as
/// cancelled.
pub proof fn lemma_power_then_root(id: nat, power: int, root: int)
    requires
        in_range(power),
        in_range(root),
        !negligible(power),
        vstd::math::abs(power * root - POWER_ONE * POWER_ONE) <= vstd::math::abs(power)
            || vstd::math::abs(power * root - POWER_ONE * POWER_ONE) <= vstd::math::abs(root),
    ensures
        exponent(raised(single(id), power), id) == power,
        equivalent(raised(raised(single(id), power), root), single(id)),
{
    let one = POWER_ONE as int;
    let first = raised(single(id), power);
    // raising the exponent one to `power` gives `power` itself
    assert(one * power == power * one) by (nonlinear_arith);
    if power >= 0 {
        vstd::arithmetic::div_mod::lemma_div_multiples_vanish(power, one);
        assert(one * power >= 0) by (nonlinear_arith)
            requires
                power >= 0,
                one > 0,
        ;
    } else {
        vstd::arithmetic::div_mod::lemma_div_multiples_vanish(-power, one);
        assert(-(one * power) == one * (-power)) by (nonlinear_arith);
        assert(one * power < 0) by (nonlinear_arith)
            requires
                power < 0,
                one > 0,
        ;
    }
    assert(scaled(one, power) == power);
    assert(exponent(single(id), id) == one);
    assert(exponent(first, id) == power);
    // raising `power` to `root` gives one, give or take less than the
    // cancellation threshold
    let x = power * root;
    let slack: int = 9224;
    assert(one * (one - slack) <= x <= one * (one + slack)) by (nonlinear_arith)
        requires
            x - one * one <= 9223372036854775808,
            x - one * one >= -9223372036854775808,
            one == 1_000_000_000_000_000,
            slack == 9224,
    ;
    assert(one * (one - slack) > 0) by (nonlinear_arith)
        requires
            one == 1_000_000_000_000_000,
            slack == 9224,
    ;
    vstd::arithmetic::div_mod::lemma_div_multiples_vanish(one - slack, one);
    vstd::arithmetic::div_mod::lemma_div_multiples_vanish(one + slack, one);
    vstd::arithmetic::div_mod::lemma_div_is_ordered(one * (one - slack), x, one);
    vstd::arithmetic::div_mod::lemma_div_is_ordered(x, one * (one + slack), one);
    let second = x / one;
    assert(one - slack <= second <= one + slack);
    assert(scaled(power, root) == second);
    let back = raised(first, root);
    assert(exponent(back, id) == second);
    assert forall|other: nat| other != id implies exponent(back, other) == 0 by {
        assert(exponent(single(id), other) == 0);
        assert(0 * power == 0) by (nonlinear_arith);
        assert(exponent(first, other) == 0);
        assert(0 * root == 0) by (nonlinear_arith);
    }
    assert(kept(single(id)));
    assert forall|other: nat| !quotient(back, single(id)).dom().contains(other) by {
        lemma_quotient_exponent(back, single(id), other);
    }
    assert(quotient(back, single(id)) =~= Map::<nat, int>::empty());
}

} // verus!
