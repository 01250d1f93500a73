use ackulator::bag::QuantityBag;
use ackulator::many_to_one::ManyToOneMap;
use ackulator::power::{Power, POWER_EPSILON, POWER_LIMIT, POWER_ONE};
use ackulator::storage::{StorageId, StoragePool};
use ackulator::units::{
    metric_prefix, Composite, CompositeUnit, Unit, UnitPrefixType, METRIC_PREFIX_COUNT,
    SMALL_PREFIXES_START,
};

fn unit_id(index: usize) -> StorageId<Unit> {
    StorageId::from_index(index)
}

fn power_of(x: f64) -> Power {
    Power::from_steps((x * POWER_ONE as f64).round() as i64)
}

#[test]
fn pool_hands_out_the_announced_identifier() {
    let mut pool: StoragePool<u32> = StoragePool::new();
    assert_eq!(pool.len(), 0);
    for n in 0..5u32 {
        let announced = pool.next_id();
        let given = pool.push(n * 10);
        assert_eq!(announced.index(), given.index());
        assert_eq!(given.index(), n as usize);
    }
    assert_eq!(*pool.index(StorageId::from_index(3)), 30);
    assert_eq!(pool.len(), 5);
}

#[test]
fn power_arithmetic_is_exact_in_range() {
    assert_eq!(Power::whole(3).steps(), 3 * POWER_ONE);
    assert_eq!(Power::one().steps(), POWER_ONE);
    assert_eq!(Power::whole(2).plus(Power::whole(-5)).steps(), -3 * POWER_ONE);
    assert_eq!(Power::whole(2).times(Power::whole(-5)).steps(), -10 * POWER_ONE);
    assert_eq!(power_of(0.5).times(Power::whole(3)).steps(), 1_500_000_000_000_000);
    assert_eq!(Power::whole(7).negated().steps(), -7 * POWER_ONE);
    // the product is rounded towards zero
    assert_eq!(Power::from_steps(1).times(power_of(0.5)).steps(), 0);
    assert_eq!(Power::from_steps(-3).times(power_of(0.5)).steps(), -1);
}

#[test]
fn power_arithmetic_saturates() {
    let most = Power::from_steps(POWER_LIMIT);
    let least = Power::from_steps(-POWER_LIMIT);
    assert_eq!(POWER_LIMIT, i64::MAX);
    assert_eq!(most.plus(Power::one()).steps(), POWER_LIMIT);
    assert_eq!(least.plus(Power::whole(-1)).steps(), -POWER_LIMIT);
    assert_eq!(least.negated().steps(), POWER_LIMIT);
    assert_eq!(most.negated().steps(), -POWER_LIMIT);
    assert_eq!(most.times(Power::whole(2)).steps(), POWER_LIMIT);
    assert_eq!(most.times(Power::whole(-2)).steps(), -POWER_LIMIT);
    assert_eq!(Power::whole(i32::MAX).steps(), POWER_LIMIT);
    assert_eq!(Power::whole(i32::MIN).steps(), -POWER_LIMIT);
    // the range is the same to both sides of zero
    assert_eq!(Power::from_steps(i64::MIN).steps(), -POWER_LIMIT);
    assert_eq!(Power::from_steps(i64::MIN).negated().steps(), POWER_LIMIT);
}

#[test]
fn power_arithmetic_is_exact_up_to_the_ends_of_the_range() {
    // 9223 whole and 0.372036854775807 is the largest exponent
    let whole = Power::whole(9223);
    let rest = Power::from_steps(372_036_854_775_807);
    assert_eq!(whole.plus(rest).steps(), POWER_LIMIT);
    assert_eq!(whole.plus(rest).negated().steps(), -POWER_LIMIT);
    assert_eq!(whole.negated().plus(rest.negated()).steps(), -POWER_LIMIT);
    assert_eq!(Power::whole(96).times(Power::whole(96)).steps(), 9216 * POWER_ONE);
    assert_eq!(Power::whole(97).times(Power::whole(-96)).steps(), -POWER_LIMIT);
    // times a factor of magnitude up to one nothing saturates
    assert_eq!(Power::from_steps(POWER_LIMIT).times(Power::one()).steps(), POWER_LIMIT);
    assert_eq!(Power::from_steps(-POWER_LIMIT).times(Power::whole(-1)).steps(), POWER_LIMIT);
    assert_eq!(Power::from_steps(POWER_LIMIT).times(power_of(0.5)).steps(), POWER_LIMIT / 2);
}

#[test]
fn cancellation_threshold_is_one_in_ten_billion() {
    assert!(Power::from_steps(POWER_EPSILON - 1).is_negligible());
    assert!(!Power::from_steps(POWER_EPSILON).is_negligible());
    assert!(Power::from_steps(1 - POWER_EPSILON).is_negligible());
    assert!(!Power::from_steps(-POWER_EPSILON).is_negligible());
    assert!(Power::zero().is_negligible());
    assert_eq!(POWER_EPSILON as f64 / POWER_ONE as f64, 1e-10);
}

#[test]
fn adding_to_a_bag_keeps_it_sorted_and_cancels() {
    let mut bag = QuantityBag::new();
    bag.add(5, Power::whole(1));
    bag.add(1, Power::whole(2));
    bag.add(3, Power::whole(3));
    assert_eq!(bag.len(), 3);
    assert_eq!(bag.entry(0), (Power::whole(2), 1));
    assert_eq!(bag.entry(1), (Power::whole(3), 3));
    assert_eq!(bag.entry(2), (Power::whole(1), 5));
    bag.add(3, Power::whole(-3));
    assert_eq!(bag.len(), 2);
    assert_eq!(bag.get(3), Power::zero());
    bag.add(1, Power::whole(1));
    assert_eq!(bag.get(1), Power::whole(3));
    // an amount too small to keep is not put in
    bag.add(9, Power::from_steps(POWER_EPSILON - 1));
    assert_eq!(bag.len(), 2);
    assert_eq!(bag.get(9), Power::zero());
}

#[test]
fn a_merge_keeps_a_sum_of_exactly_the_threshold() {
    let mut a = QuantityBag::new();
    a.add(4, Power::whole(1));
    // the sum is exactly 1e-10: it stays
    let mut b = QuantityBag::new();
    b.add(4, Power::from_steps(POWER_EPSILON - POWER_ONE));
    let kept = a.clone().union(b);
    assert_eq!(kept.len(), 1);
    assert_eq!(kept.get(4), Power::from_steps(POWER_EPSILON));
    // the sum is one step under 1e-10: the identifier leaves
    let mut c = QuantityBag::new();
    c.add(4, Power::from_steps(POWER_EPSILON - 1 - POWER_ONE));
    let dropped = a.clone().union(c);
    assert_eq!(dropped.len(), 0);
    assert_eq!(dropped.get(4), Power::zero());
    let mut d = QuantityBag::new();
    d.add(4, Power::from_steps(1 - POWER_EPSILON - POWER_ONE));
    assert_eq!(a.clone().union(d).len(), 0);
    let mut e = QuantityBag::new();
    e.add(4, Power::from_steps(-POWER_EPSILON - POWER_ONE));
    assert_eq!(a.union(e).get(4), Power::from_steps(-POWER_EPSILON));
}

#[test]
fn merging_and_adding_cancel_alike() {
    // 2e-10 and -1e-10 make 1e-10, whichever way they meet
    let mut bag = QuantityBag::new();
    bag.add(1, Power::from_steps(2 * POWER_EPSILON));
    let mut other = QuantityBag::new();
    other.add(1, Power::from_steps(-POWER_EPSILON));
    let merged = bag.clone().union(other);
    bag.add(1, Power::from_steps(-POWER_EPSILON));
    assert_eq!(bag.get(1), Power::from_steps(POWER_EPSILON));
    assert_eq!(merged.get(1), Power::from_steps(POWER_EPSILON));
    assert_eq!(merged, bag);
    for steps in [POWER_EPSILON - 1, POWER_EPSILON, POWER_EPSILON + 1, 0, -POWER_EPSILON, 1 - POWER_EPSILON] {
        let amount = Power::from_steps(steps - POWER_ONE);
        let mut added = QuantityBag::new();
        added.add(7, Power::one());
        let mut one = QuantityBag::new();
        one.add(7, amount);
        let merged = added.clone().union(one);
        added.add(7, amount);
        assert_eq!(merged, added, "{} steps", steps);
    }
}

#[test]
fn scaling_by_zero_empties_a_bag() {
    let mut bag = QuantityBag::new();
    bag.add(1, Power::whole(2));
    bag.add(2, Power::whole(-1));
    bag.mul(power_of(0.5));
    assert_eq!(bag.get(1), Power::whole(1));
    assert_eq!(bag.get(2), power_of(-0.5));
    bag.mul(Power::zero());
    assert_eq!(bag.len(), 0);
}

#[test]
fn union_adds_exponents_in_either_order() {
    let mut x = QuantityBag::new();
    x.add(1, Power::whole(2));
    x.add(4, Power::whole(-1));
    x.add(6, power_of(0.5));
    let mut y = QuantityBag::new();
    y.add(0, Power::whole(1));
    y.add(4, Power::whole(3));
    y.add(6, power_of(-0.5));
    let xy = x.clone().union(y.clone());
    let yx = y.clone().union(x.clone());
    assert_eq!(xy, yx);
    for id in 0..8usize {
        let sum = x.get(id).plus(y.get(id));
        assert_eq!(xy.get(id), sum);
    }
    assert_eq!(xy.len(), 3);
}

#[test]
fn composite_equality_is_by_dimension() {
    let a: CompositeUnit = Composite::from(unit_id(0));
    let b: CompositeUnit = Composite::from(unit_id(1));
    assert!(a != b);
    assert!(!a.same_dimension(&b));
    let back = a.clone().mul(b.clone()).div(b.clone());
    assert!(back == a);
    assert!(back.same_factors(&a));
    assert!(a.clone().div(a.clone()).is_identity());
    assert!(CompositeUnit::identity().is_identity());
    assert!(!a.is_identity());
}

#[test]
fn composite_product_and_quotient_have_the_summed_exponents() {
    let a: CompositeUnit = Composite::from(unit_id(2));
    let b: CompositeUnit = Composite::from(unit_id(5));
    let c = a.clone().mul(a.clone()).div(b.clone());
    assert_eq!(c.len(), 2);
    assert_eq!(c.power_of(2), Power::whole(2));
    assert_eq!(c.power_of(5), Power::whole(-1));
    assert_eq!(c.power_of(3), Power::zero());
    assert_eq!(c.factor(0), (Power::whole(2), 2));
    let d = b.clone().mul(a.clone());
    let e = a.mul(b);
    assert!(d.same_factors(&e));
}

#[test]
fn a_composite_is_multiplied_and_divided_in_place() {
    let a: CompositeUnit = Composite::from(unit_id(2));
    let b: CompositeUnit = Composite::from(unit_id(5));
    let mut c = a.clone();
    c.mul_assign(b.clone());
    assert!(c.same_factors(&a.clone().mul(b.clone())));
    c.div_assign(a.clone());
    assert!(c.same_factors(&b));
    c.div_assign(b.clone());
    assert!(c.is_identity());
    c.div_assign(b.clone());
    assert_eq!(c.power_of(5), Power::whole(-1));
}

#[test]
fn equality_of_dimensions_does_not_depend_on_the_order() {
    let a: CompositeUnit = Composite::from(unit_id(1));
    let mut nearly = a.clone();
    nearly.pow(Power::from_steps(POWER_ONE + POWER_EPSILON - 1));
    let mut apart = a.clone();
    apart.pow(Power::from_steps(POWER_ONE + POWER_EPSILON));
    assert!(a == nearly && nearly == a);
    assert!(a != apart && apart != a);
    let mut most = a.clone();
    most.pow(Power::from_steps(POWER_LIMIT));
    let mut least = a.clone();
    least.pow(Power::from_steps(-POWER_LIMIT));
    assert!(most != least && least != most);
    assert!(most.clone().mul(least.clone()).is_identity());
}

#[test]
fn raising_and_taking_the_root_gives_the_unit_back() {
    for n in [2.0f64, 3.0, 7.0, -4.0, 0.5, 12.5, 1.0 / 3.0, 9000.0, 0.0002, -0.001] {
        let unit: CompositeUnit = Composite::from(unit_id(3));
        let mut raised = unit.clone();
        raised.pow(power_of(n));
        assert_eq!(raised.power_of(3), power_of(n));
        raised.pow(power_of(1.0 / n));
        assert!(raised == unit, "exponent {}", n);
    }
}

#[test]
fn raising_to_zero_gives_the_identity() {
    let mut unit: CompositeUnit = Composite::from(unit_id(3));
    unit.pow(Power::zero());
    assert!(unit.is_identity());
}

#[test]
fn the_prefix_table_runs_from_yotta_to_yocto() {
    assert_eq!(METRIC_PREFIX_COUNT, 20);
    assert_eq!(SMALL_PREFIXES_START, 10);
    let expected = [
        ("Yotta", "Y", 24),
        ("Zetta", "Z", 21),
        ("Exa", "E", 18),
        ("Peta", "P", 15),
        ("Tera", "T", 12),
        ("Giga", "G", 9),
        ("Mega", "M", 6),
        ("Kilo", "k", 3),
        ("Hecto", "h", 2),
        ("Deka", "da", 1),
        ("Deci", "d", -1),
        ("Centi", "c", -2),
        ("Milli", "m", -3),
        ("Micro", "\u{3bc}", -6),
        ("Nano", "n", -9),
        ("Pico", "p", -12),
        ("Femto", "f", -15),
        ("Atto", "a", -18),
        ("Zepto", "z", -21),
        ("Yocto", "y", -24),
    ];
    for (index, (name, abbreviation, exponent)) in expected.iter().enumerate() {
        let prefix = metric_prefix(index);
        assert_eq!(prefix.name, *name);
        assert_eq!(prefix.abbreviation, *abbreviation);
        assert_eq!(prefix.exponent, *exponent);
    }
    assert!(UnitPrefixType::Metric != UnitPrefixType::PartialMetric);
}

#[test]
fn many_keys_lead_to_one_item() {
    let mut map: ManyToOneMap<u32> = ManyToOneMap::new();
    let meter = vec!["Meter".to_string(), "Meters".to_string()];
    assert!(!map.contains_any_key(&meter));
    map.insert(meter.clone(), 7);
    map.insert(vec!["Second".to_string()], 9);
    assert!(map.contains_any_key(&vec!["Foot".to_string(), "Meters".to_string()]));
    assert!(!map.contains_any_key(&vec!["Foot".to_string(), "Feet".to_string()]));
    assert!(!map.contains_any_key(&Vec::new()));
    assert_eq!(map.get(&"Meter".to_string()), Some(&7));
    assert_eq!(map.get(&"Meters".to_string()), Some(&7));
    assert_eq!(map.get(&"Second".to_string()), Some(&9));
    assert_eq!(map.get(&"meter".to_string()), None);
    assert!(map.contains_key(&"Second".to_string()));
    let (key, item) = map.get_key_value(&"Meters".to_string()).unwrap();
    assert_eq!(key, "Meters");
    assert_eq!(*item, 7);
    assert!(map.get_key_value(&"Feet".to_string()).is_none());
    // a key inserted again leads to the later item
    map.insert(vec!["Meter".to_string()], 11);
    assert_eq!(map.get(&"Meter".to_string()), Some(&11));
    assert_eq!(map.get(&"Meters".to_string()), Some(&7));
}

#[test]
fn identifiers_compare_by_position() {
    let a: StorageId<Unit> = StorageId::from_index(4);
    let b: StorageId<Unit> = StorageId::from_index(4);
    let c: StorageId<Unit> = StorageId::from_index(5);
    assert!(a == b);
    assert!(a != c);
    let copy = a;
    assert_eq!(copy.index(), a.index());
}
