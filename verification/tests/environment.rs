use ackulator::data::{Data, Entity, EntityClass, MetaData, ValueData};
use ackulator::error::Error;
use ackulator::evaluate::{AmbiguityResolutionContext, Operand, Request, Resolution};
use ackulator::execute::Execution;
use ackulator::expression::NumberLiteral;
use ackulator::grammar::parse_expression;
use ackulator::instance::Instance;
use ackulator::magnitude::Magnitude;
use ackulator::power::{Power, POWER_ONE};
use ackulator::scalar::{Answer, Precision, Scalar};
use ackulator::statement::{parse_statement, parse_statements, Statement};
use ackulator::storage::StorageId;
use ackulator::units::{
    metric_prefix, Composite, CompositeUnit, CompositeUnitClass, Unit, UnitClass, UnitPrefixType,
};

fn magnitude(x: f64) -> Magnitude {
    Magnitude::from_bits(x.to_bits())
}

fn number(m: Magnitude) -> f64 {
    f64::from_bits(m.to_bits())
}

fn literal_value(literal: &NumberLiteral) -> f64 {
    if literal.malformed {
        return f64::NAN;
    }
    let mut result = 0f64;
    if let Some(part) = &literal.integer_part {
        result += part.parse::<f64>().unwrap();
    }
    if let Some(part) = &literal.fractional_part {
        result += format!(".{}", part).parse::<f64>().unwrap();
    }
    if let Some(power) = literal.exponent {
        result *= 10f64.powi(power);
    }
    if literal.negative {
        -result
    } else {
        result
    }
}

fn order(x: f64) -> i32 {
    x.abs().log10().floor() as i32
}

fn percent_error(operand: &Operand) -> f64 {
    let value = number(operand.value);
    match operand.precision {
        Precision::SigFigs(figures) => 10f64.powi(order(value) + 1 - figures) / value,
        Precision::PercentError(p) => number(p),
        Precision::Exact => 0.0,
    }
}

fn answer(value: f64) -> Answer {
    Answer {
        value: magnitude(value),
        percent: magnitude(0.0),
        lhs_order: 0,
        rhs_order: 0,
        new_order: 0,
        exponent: Power::zero(),
    }
}

fn compute(request: &Request) -> Answer {
    match request {
        Request::Literal(literal) => answer(literal_value(literal)),
        Request::Negate(a) => answer(-number(*a)),
        Request::Add(lhs, rhs) => {
            let (a, b) = (number(lhs.value), number(rhs.value));
            let sum = a + b;
            let range = a * percent_error(lhs) + b * percent_error(rhs);
            Answer {
                value: magnitude(sum),
                percent: magnitude(range / sum),
                lhs_order: order(a),
                rhs_order: order(b),
                new_order: order(sum),
                exponent: Power::zero(),
            }
        }
        Request::Mul(lhs, rhs) | Request::Div(lhs, rhs) => {
            let (a, b) = (number(lhs.value), number(rhs.value));
            let value = if matches!(request, Request::Mul(..)) { a * b } else { a / b };
            let (p, q) = (percent_error(lhs), percent_error(rhs));
            Answer { percent: magnitude((p * p + q * q).sqrt()), ..answer(value) }
        }
        Request::Ratio(factors) => {
            let mut ratio = 1.0;
            for factor in factors {
                let unit = number(factor.base_ratio) * 10f64.powi(factor.prefix_exponent);
                ratio *= unit.powf(factor.power.steps() as f64 / POWER_ONE as f64);
            }
            answer(ratio)
        }
        Request::Pow { base, exponent, exponent_ratio } => {
            let by = number(*exponent) / number(*exponent_ratio);
            Answer {
                exponent: Power::from_steps((by * POWER_ONE as f64).round() as i64),
                ..answer(number(*base).powf(by))
            }
        }
    }
}

fn evaluate(instance: &Instance, source: &str) -> Result<Data, Error> {
    let (rest, expression) = parse_expression(source).expect("an expression");
    assert_eq!(rest, "");
    let mut answers = Vec::new();
    loop {
        match instance.resolve_expression(&expression, AmbiguityResolutionContext::default(), &answers) {
            Resolution::Done(data) => return Ok(data),
            Resolution::Failed(error) => return Err(error),
            Resolution::Pending(request) => answers.push(compute(&request)),
        }
    }
}

fn execute(instance: &mut Instance, statement: &Statement) -> Result<Option<Data>, Error> {
    let mut answers = Vec::new();
    loop {
        match instance.execute_statement(statement, &answers) {
            Execution::Done => return Ok(None),
            Execution::Shown(data) => return Ok(Some(data)),
            Execution::Failed(error) => return Err(error),
            Execution::Pending(request) => answers.push(compute(&request)),
        }
    }
}

fn run(instance: &mut Instance, source: &str) -> Result<Option<Data>, Error> {
    let (rest, statement) = parse_statement(source).expect("a statement");
    assert_eq!(rest, "");
    execute(instance, &statement)
}

fn scalar(data: Data) -> Scalar {
    match data {
        Data::Value(ValueData::Scalar(s)) => s,
        other => panic!("no quantity: {:?}", other),
    }
}

fn names(list: &[&str]) -> Vec<String> {
    list.iter().map(|s| s.to_string()).collect()
}

fn unit_of<'a>(instance: &'a Instance, name: &str) -> Option<&'a Unit> {
    match instance.lookup_item(&name.to_string()).as_meta {
        Some(MetaData::Unit(composite)) => {
            assert_eq!(composite.len(), 1);
            let (power, index) = composite.factor(0);
            assert_eq!(power, Power::one());
            instance.unit(StorageId::from_index(index))
        }
        _ => None,
    }
}

fn resolves(instance: &Instance, name: &str) -> bool {
    let item = instance.lookup_item(&name.to_string());
    item.as_meta.is_some() || item.as_value.is_some() || item.as_label.is_some()
}

fn bootstrapped() -> Instance {
    let mut instance = Instance::new();
    run(&mut instance, "make entity_class called metric").unwrap();
    run(&mut instance, "make entity_class called partial_metric").unwrap();
    instance
}

fn with_length_and_time() -> Instance {
    let mut instance = bootstrapped();
    for source in [
        "make unit_class called Length",
        "make base_unit called Meter, Meters { class: Length, symbol: \"m\", metric }",
        "make unit_class called Time",
        "make base_unit called Second, Seconds { class: Time, symbol: \"s\", partial_metric }",
    ] {
        assert_eq!(run(&mut instance, source).map(|shown| shown.is_none()), Ok(true), "{}", source);
    }
    instance
}

fn label_quantity(instance: &mut Instance, name: &str, value: f64, precision: Precision, unit: &str) {
    let display: CompositeUnit = match unit_of(instance, unit) {
        Some(_) => match instance.lookup_item(&unit.to_string()).as_meta {
            Some(MetaData::Unit(composite)) => composite.clone(),
            _ => unreachable!(),
        },
        None => Composite::identity(),
    };
    let class: CompositeUnitClass = display.unit_class(instance).unwrap();
    let quantity = Scalar::new(magnitude(value), precision, class, display).unwrap();
    instance.declare_label(names(&[name]), Data::Value(ValueData::Scalar(quantity))).unwrap();
}

#[test]
fn a_taken_alias_rejects_the_whole_declaration() {
    let mut instance = Instance::new();
    instance.add_unit_class(UnitClass { names: names(&["Length"]) }).unwrap();
    let length = match instance.lookup_item(&"Length".to_string()).as_meta {
        Some(MetaData::UnitClass(class)) => class.clone(),
        other => panic!("{:?}", other),
    };
    let meter = Unit {
        names: names(&["Meter", "Meters"]),
        class: length.clone(),
        symbol: "m".to_string(),
        base_ratio: magnitude(1.0),
        prefix_exponent: 0,
    };
    assert_eq!(instance.add_unit(meter, UnitPrefixType::Plain).map(|id| id.index()), Ok(0));
    let foot = Unit {
        names: names(&["Foot", "Meters"]),
        class: length,
        symbol: "ft".to_string(),
        base_ratio: magnitude(0.3048),
        prefix_exponent: 0,
    };
    assert_eq!(instance.add_unit(foot, UnitPrefixType::Plain).map(|id| id.index()), Err(Error::NameCollision));
    assert!(!resolves(&instance, "Foot"));
    assert!(resolves(&instance, "Meters"));
    assert!(instance.unit(StorageId::from_index(1)).is_none());
    assert_eq!(
        instance.add_unit_class(UnitClass { names: names(&["Area", "Length"]) }).map(|id| id.index()),
        Err(Error::NameCollision)
    );
    assert!(!resolves(&instance, "Area"));
    assert_eq!(
        instance.add_entity_class(EntityClass { names: names(&["Ball", "Meter"]) }).map(|id| id.index()),
        Err(Error::NameCollision)
    );
    assert!(!resolves(&instance, "Ball"));
}

#[test]
fn a_variant_that_collides_rejects_the_base_unit_too() {
    let mut instance = with_length_and_time();
    // "Kilogram" is free, but the variant "Millimeter" of "meter" is taken
    let source = "make base_unit called Gram, meter { class: Length, symbol: \"g\", metric }";
    assert_eq!(run(&mut instance, source).map(|_| ()), Err(Error::NameCollision));
    assert!(!resolves(&instance, "Gram"));
    assert!(!resolves(&instance, "Kilogram"));
    // a variant may not take a name of its own unit either
    let source = "make base_unit called Kilobyte, byte { class: Length, symbol: \"B\", metric }";
    assert_eq!(run(&mut instance, source).map(|_| ()), Err(Error::NameCollision));
    assert!(!resolves(&instance, "byte"));
    assert!(!resolves(&instance, "Megabyte"));
}

#[test]
fn a_metric_unit_gets_twenty_variants() {
    let instance = with_length_and_time();
    let meter = unit_of(&instance, "Meter").unwrap();
    assert_eq!(meter.names, names(&["Meter", "Meters"]));
    assert_eq!(meter.symbol, "m");
    assert_eq!(number(meter.base_ratio), 1.0);
    assert_eq!(meter.prefix_exponent, 0);
    let mut found = 0;
    for index in 0..20 {
        let prefix = metric_prefix(index);
        for base in ["meter", "meters"] {
            let name = format!("{}{}", prefix.name, base);
            let unit = unit_of(&instance, &name).unwrap_or_else(|| panic!("{} is missing", name));
            assert_eq!(number(unit.base_ratio), 1.0);
            assert_eq!(unit.prefix_exponent, prefix.exponent);
            assert_eq!(unit.symbol, format!("{}m", prefix.abbreviation));
            assert_eq!(unit.names.len(), 2);
            found += 1;
        }
    }
    assert_eq!(found, 40);
    assert!(unit_of(&instance, "Kilometer").is_some());
    assert!(unit_of(&instance, "Yoctometers").is_some());
    assert!(!resolves(&instance, "KiloMeter"));
}

#[test]
fn a_partial_metric_unit_gets_the_ten_small_variants() {
    let instance = with_length_and_time();
    for index in 0..20 {
        let prefix = metric_prefix(index);
        let name = format!("{}second", prefix.name);
        assert_eq!(resolves(&instance, &name), index >= 10, "{}", name);
        if index >= 10 {
            assert_eq!(unit_of(&instance, &name).unwrap().prefix_exponent, prefix.exponent);
        }
    }
    assert!(resolves(&instance, "Decisecond"));
    assert!(resolves(&instance, "Yoctoseconds"));
    assert!(!resolves(&instance, "Kilosecond"));
    // 1 + 20 variants of the meter, 1 + 10 of the second
    assert!(instance.unit(StorageId::from_index(31)).is_some());
    assert!(instance.unit(StorageId::from_index(32)).is_none());
}

#[test]
fn the_first_letter_is_lowered_behind_a_prefix() {
    let mut instance = bootstrapped();
    run(&mut instance, "make unit_class called Length").unwrap();
    run(
        &mut instance,
        "make base_unit called \u{c5}ngstr\u{f6}m, \u{3a9}hm { class: Length, symbol: \"A\", metric }",
    )
    .unwrap();
    assert!(resolves(&instance, "Kilo\u{e5}ngstr\u{f6}m"));
    assert!(resolves(&instance, "Milli\u{3c9}hm"));
    assert!(!resolves(&instance, "Kilo\u{c5}ngstr\u{f6}m"));
}

#[test]
fn names_are_looked_up_in_three_kinds() {
    let mut instance = with_length_and_time();
    run(&mut instance, "make label called Length for Time").unwrap();
    run(&mut instance, "make value called Length { symbol: \"x\" }").unwrap();
    let item = instance.lookup_item(&"Length".to_string());
    assert!(matches!(item.as_meta, Some(MetaData::UnitClass(_))));
    assert!(item.as_value.is_some());
    let (stored, data) = item.as_label.unwrap();
    assert_eq!(stored, "Length");
    assert!(matches!(data, Data::Meta(MetaData::UnitClass(_))));
    // values go first by default, meta items where they are preferred
    let values_first = AmbiguityResolutionContext::PreferValues.resolve(&item).unwrap();
    assert!(matches!(values_first, Data::Value(ValueData::Entity(_))));
    let meta_first = AmbiguityResolutionContext::PreferMetaItems.resolve(&item).unwrap();
    assert!(matches!(meta_first, Data::Meta(MetaData::UnitClass(_))));
    assert_eq!(AmbiguityResolutionContext::default(), AmbiguityResolutionContext::PreferValues);
    // a label is the last resort
    run(&mut instance, "make label called Speed for Length").unwrap();
    let item = instance.lookup_item(&"Speed".to_string());
    assert!(item.as_meta.is_none() && item.as_value.is_none());
    assert!(AmbiguityResolutionContext::PreferMetaItems.resolve(&item).is_some());
    let nothing = instance.lookup_item(&"Nothing".to_string());
    assert!(AmbiguityResolutionContext::PreferValues.resolve(&nothing).is_none());
    // a meta item goes before a label
    run(&mut instance, "make label called Time for Length").unwrap();
    let item = instance.lookup_item(&"Time".to_string());
    let chosen = AmbiguityResolutionContext::PreferValues.resolve(&item).unwrap();
    match chosen {
        Data::Meta(MetaData::UnitClass(class)) => {
            let time = match evaluate(&instance, "Time / Time * Time") {
                Ok(Data::Meta(MetaData::UnitClass(c))) => c,
                other => panic!("{:?}", other),
            };
            assert!(class == time);
        }
        other => panic!("{:?}", other),
    }
}

#[test]
fn the_product_is_as_precise_as_its_weakest_operand() {
    let mut instance = with_length_and_time();
    label_quantity(&mut instance, "two", 2.0, Precision::SigFigs(3), "none");
    label_quantity(&mut instance, "three", 3.0, Precision::SigFigs(5), "none");
    let product = scalar(evaluate(&instance, "two * three").unwrap());
    assert_eq!(product.precision(), Precision::SigFigs(3));
    assert_eq!(number(product.raw_value()), 6.0);
    let quotient = scalar(evaluate(&instance, "three / two").unwrap());
    assert_eq!(quotient.precision(), Precision::SigFigs(3));
    assert_eq!(number(quotient.raw_value()), 1.5);
    let exact = scalar(evaluate(&instance, "2 * 3").unwrap());
    assert_eq!(exact.precision(), Precision::Exact);
    assert_eq!(number(exact.raw_value()), 6.0);
}

#[test]
fn an_exact_operand_leaves_the_precision_of_the_other() {
    let mut instance = with_length_and_time();
    label_quantity(&mut instance, "y", 1.5, Precision::SigFigs(2), "none");
    let sum = scalar(evaluate(&instance, "4 + y").unwrap());
    assert_eq!(sum.precision(), Precision::SigFigs(2));
    assert_eq!(number(sum.raw_value()), 5.5);
    let sum = scalar(evaluate(&instance, "y + 4").unwrap());
    assert_eq!(sum.precision(), Precision::SigFigs(2));
    let difference = scalar(evaluate(&instance, "y - 4").unwrap());
    assert_eq!(difference.precision(), Precision::SigFigs(2));
    assert_eq!(number(difference.raw_value()), -2.5);
}

#[test]
fn a_sum_is_known_down_to_the_coarser_last_digit() {
    let mut instance = with_length_and_time();
    // 1230 is known down to the tens, 4.56 down to the hundredths
    label_quantity(&mut instance, "a", 1230.0, Precision::SigFigs(3), "none");
    label_quantity(&mut instance, "b", 4.56, Precision::SigFigs(3), "none");
    let sum = scalar(evaluate(&instance, "a + b").unwrap());
    assert_eq!(number(sum.raw_value()), 1234.56);
    assert_eq!(sum.precision(), Precision::SigFigs(3));
    // the figures never go below none
    label_quantity(&mut instance, "c", 1000.0, Precision::SigFigs(1), "none");
    label_quantity(&mut instance, "d", -999.0, Precision::SigFigs(3), "none");
    let sum = scalar(evaluate(&instance, "c + d").unwrap());
    assert_eq!(sum.precision(), Precision::SigFigs(0));
    assert_eq!(Precision::sig_figs(0), None);
    assert!(Scalar::new(magnitude(1.0), Precision::SigFigs(0), Composite::identity(), Composite::identity())
        .is_none());
    assert!(Scalar::new(magnitude(1.0), Precision::SigFigs(-2), Composite::identity(), Composite::identity())
        .is_none());
    assert!(Scalar::new(magnitude(1.0), Precision::SigFigs(1), Composite::identity(), Composite::identity())
        .is_some());
    assert_eq!(Precision::sig_figs(4), Some(Precision::SigFigs(4)));
}

#[test]
fn percent_errors_combine() {
    let mut instance = with_length_and_time();
    label_quantity(&mut instance, "p", 10.0, Precision::PercentError(magnitude(0.03)), "none");
    label_quantity(&mut instance, "q", 5.0, Precision::PercentError(magnitude(0.04)), "none");
    let product = scalar(evaluate(&instance, "p * q").unwrap());
    match product.precision() {
        Precision::PercentError(p) => assert!((number(p) - 0.05).abs() < 1e-12),
        other => panic!("{:?}", other),
    }
    let sum = scalar(evaluate(&instance, "p + q").unwrap());
    match sum.precision() {
        Precision::PercentError(p) => assert!((number(p) - 0.5 / 15.0).abs() < 1e-12),
        other => panic!("{:?}", other),
    }
}

#[test]
fn quantities_of_different_dimensions_are_not_added() {
    let mut instance = with_length_and_time();
    label_quantity(&mut instance, "l", 2.0, Precision::Exact, "Meter");
    label_quantity(&mut instance, "t", 4.0, Precision::Exact, "Second");
    assert_eq!(evaluate(&instance, "l + t").map(|_| ()), Err(Error::DimensionMismatch));
    assert_eq!(evaluate(&instance, "l - t").map(|_| ()), Err(Error::DimensionMismatch));
    let product = scalar(evaluate(&instance, "l * t").unwrap());
    assert_eq!(number(product.raw_value()), 8.0);
    let length_time = match evaluate(&instance, "Length * Time") {
        Ok(Data::Meta(MetaData::UnitClass(class))) => class,
        other => panic!("{:?}", other),
    };
    assert!(*product.unit() == length_time);
    assert_eq!(product.unit().len(), 2);
    let sum = scalar(evaluate(&instance, "l + l").unwrap());
    assert_eq!(number(sum.raw_value()), 4.0);
}

#[test]
fn a_unit_stands_for_one_of_itself() {
    let instance = with_length_and_time();
    let distance = scalar(evaluate(&instance, "3 * Kilometers").unwrap());
    assert_eq!(number(distance.raw_value()), 3000.0);
    assert_eq!(distance.precision(), Precision::Exact);
    let length = match evaluate(&instance, "Length") {
        Ok(Data::Meta(MetaData::UnitClass(class))) => class,
        other => panic!("{:?}", other),
    };
    assert!(*distance.unit() == length);
    let kilometers = match evaluate(&instance, "Kilometers") {
        Ok(Data::Meta(MetaData::Unit(unit))) => unit,
        other => panic!("{:?}", other),
    };
    assert!(distance.display_unit().same_factors(&kilometers));
    let speed = scalar(evaluate(&instance, "Meter / Second * 10").unwrap());
    assert_eq!(number(speed.raw_value()), 10.0);
    let per_milli = scalar(evaluate(&instance, "6 / (Millisecond * Millisecond)").unwrap());
    assert!((number(per_milli.raw_value()) - 6e6).abs() < 1e-6);
    assert_eq!(per_milli.unit().power_of(1), Power::whole(-2));
}

#[test]
fn a_quantity_is_raised_with_its_dimension() {
    let mut instance = with_length_and_time();
    label_quantity(&mut instance, "side", 3.0, Precision::SigFigs(2), "Meter");
    let area = scalar(evaluate(&instance, "side ^ 2").unwrap());
    assert_eq!(number(area.raw_value()), 9.0);
    assert_eq!(area.precision(), Precision::SigFigs(2));
    assert_eq!(area.unit().power_of(0), Power::whole(2));
    assert_eq!(area.display_unit().len(), 1);
    assert_eq!(area.display_unit().factor(0).0, Power::whole(2));
    let root = scalar(evaluate(&instance, "(side ^ 2) ^ 0.5").unwrap());
    assert!(*root.unit() == *scalar(evaluate(&instance, "side").unwrap()).unit());
}

#[test]
fn operands_that_do_not_fit_are_a_type_mismatch() {
    let mut instance = with_length_and_time();
    run(&mut instance, "make value called ball { symbol: \"b\" }").unwrap();
    for source in [
        "metric * 2",
        "2 * metric",
        "Meter * Length",
        "Length / Meter",
        "ball + 1",
        "1 - ball",
        "\"a\" * 2",
        "2 / \"a\"",
        "Meter + Meter",
        "Meter - Second",
        "Meter ^ Second",
        "Length + Time",
        "Length ^ Length",
        "2 + Meter",
        "Meter - 2",
        "Second ^ 2",
        "2 ^ Second",
        "2 * Length",
        "Length / 2",
    ] {
        assert_eq!(evaluate(&instance, source).map(|_| ()), Err(Error::TypeMismatch), "{}", source);
    }
    assert!(evaluate(&instance, "Meter * Second / Meter").is_ok());
    assert!(evaluate(&instance, "Length * Time").is_ok());
}

#[test]
fn unknown_names_and_functions_fail() {
    let instance = with_length_and_time();
    assert_eq!(evaluate(&instance, "Furlong").map(|_| ()), Err(Error::UndefinedName));
    assert_eq!(evaluate(&instance, "1 + Furlong").map(|_| ()), Err(Error::UndefinedName));
    assert_eq!(evaluate(&instance, "sin(1)").map(|_| ()), Err(Error::UnimplementedFeature));
    assert_eq!(evaluate(&instance, "{ unknown }").map(|_| ()), Err(Error::UndefinedName));
    assert_eq!(evaluate(&instance, "{ Meter }").map(|_| ()), Err(Error::TypeMismatch));
    assert_eq!(evaluate(&instance, "{ a: Furlong }").map(|_| ()), Err(Error::UndefinedName));
}

#[test]
fn an_entity_keeps_the_last_value_of_a_property_and_each_class_once() {
    let instance = with_length_and_time();
    let entity = match evaluate(&instance, "{ metric, a: 1, b: \"x\", metric, a: Length }") {
        Ok(Data::Value(ValueData::Entity(entity))) => entity,
        other => panic!("{:?}", other),
    };
    assert_eq!(entity.classes.len(), 1);
    assert_eq!(entity.properties.len(), 2);
    assert_eq!(entity.properties[0].0, "a");
    assert!(matches!(entity.properties[0].1, Data::Meta(MetaData::UnitClass(_))));
    assert_eq!(entity.properties[1].0, "b");
    assert!(matches!(entity.properties[1].1, Data::Value(ValueData::String(ref s)) if s == "x"));
}

#[test]
fn a_malformed_number_is_no_number() {
    let instance = Instance::new();
    let value = scalar(evaluate(&instance, "1e99999999999").unwrap());
    assert!(number(value.raw_value()).is_nan());
    let value = scalar(evaluate(&instance, "-12.5e-1").unwrap());
    assert_eq!(number(value.raw_value()), -1.25);
    assert!(value.unit().is_identity());
    assert!(value.display_unit().is_identity());
}

#[test]
fn evaluation_waits_for_each_answer_in_turn() {
    let instance = Instance::new();
    let (_, expression) = parse_expression("1 + 2").unwrap();
    let context = AmbiguityResolutionContext::default();
    let mut answers = Vec::new();
    match instance.resolve_expression(&expression, context, &answers) {
        Resolution::Pending(Request::Literal(literal)) => {
            assert_eq!(literal.integer_part.as_deref(), Some("1"))
        }
        other => panic!("{:?}", other),
    }
    answers.push(answer(1.0));
    match instance.resolve_expression(&expression, context, &answers) {
        Resolution::Pending(Request::Literal(literal)) => {
            assert_eq!(literal.integer_part.as_deref(), Some("2"))
        }
        other => panic!("{:?}", other),
    }
    answers.push(answer(2.0));
    match instance.resolve_expression(&expression, context, &answers) {
        Resolution::Pending(Request::Add(lhs, rhs)) => {
            assert_eq!(number(lhs.value), 1.0);
            assert_eq!(number(rhs.value), 2.0);
            assert_eq!(lhs.precision, Precision::Exact);
        }
        other => panic!("{:?}", other),
    }
    // the evaluator takes the sum as it is given
    answers.push(answer(42.0));
    match instance.resolve_expression(&expression, context, &answers) {
        Resolution::Done(data) => assert_eq!(number(scalar(data).raw_value()), 42.0),
        other => panic!("{:?}", other),
    }
}

#[test]
fn a_base_unit_needs_its_class_and_symbol_and_nothing_else() {
    let mut instance = bootstrapped();
    run(&mut instance, "make unit_class called Length").unwrap();
    run(&mut instance, "make entity_class called round").unwrap();
    for source in [
        "make base_unit called A { class: Length }",
        "make base_unit called A { symbol: \"a\" }",
        "make base_unit called A { class: \"Length\", symbol: \"a\" }",
        "make base_unit called A { class: Length, symbol: Length }",
        "make base_unit called A { class: Length, symbol: \"a\", more: 1 }",
        "make base_unit called A { class: Length, symbol: \"a\", round }",
        "make base_unit called A { class: Length, symbol: \"a\", metric, partial_metric }",
        "make base_unit called A Length",
        "make derived_unit called A { symbol: \"a\" }",
        "make derived_unit called A { symbol: \"a\", value: Length }",
        "make value called A Length",
        "make value called A 2",
    ] {
        assert_eq!(run(&mut instance, source).map(|_| ()), Err(Error::TypeMismatch), "{}", source);
        assert!(!resolves(&instance, "A"));
    }
    let mut bare = Instance::new();
    run(&mut bare, "make unit_class called Length").unwrap();
    let source = "make base_unit called A { class: Length, symbol: \"a\" }";
    assert_eq!(run(&mut bare, source).map(|_| ()), Err(Error::UndefinedName));
}

#[test]
fn a_derived_unit_takes_dimension_and_ratio_from_its_value() {
    let mut instance = with_length_and_time();
    run(
        &mut instance,
        "make derived_unit called Foot, Feet { symbol: \"ft\", value: 0.3048 * Meters, }",
    )
    .unwrap();
    let foot = unit_of(&instance, "Feet").unwrap();
    assert_eq!(number(foot.base_ratio), 0.3048);
    assert_eq!(foot.prefix_exponent, 0);
    assert_eq!(foot.symbol, "ft");
    let length = match evaluate(&instance, "Length") {
        Ok(Data::Meta(MetaData::UnitClass(class))) => class,
        other => panic!("{:?}", other),
    };
    assert!(foot.class == length);
    assert!(!resolves(&instance, "Kilofoot"));
    let ten = scalar(evaluate(&instance, "10 * Feet").unwrap());
    assert!((number(ten.raw_value()) - 3.048).abs() < 1e-12);
}

#[test]
fn declarations_of_labels_and_values_are_all_or_nothing() {
    let mut instance = with_length_and_time();
    run(&mut instance, "make label called Velocity for Length / Time").unwrap();
    assert_eq!(
        run(&mut instance, "make label called Speed, Velocity for Length / Time").map(|_| ()),
        Err(Error::NameCollision)
    );
    assert!(!resolves(&instance, "Speed"));
    run(&mut instance, "make value called ball, sphere { round: 1 }").unwrap();
    assert_eq!(
        run(&mut instance, "make value called cube, ball { }").map(|_| ()),
        Err(Error::NameCollision)
    );
    assert!(!resolves(&instance, "cube"));
    // a failed evaluation declares nothing
    assert_eq!(
        run(&mut instance, "make label called Late for Length + Missing").map(|_| ()),
        Err(Error::UndefinedName)
    );
    assert!(!resolves(&instance, "Late"));
    assert_eq!(
        instance.declare_value(names(&["sphere"]), Entity { properties: Vec::new(), classes: Vec::new() }),
        Err(Error::NameCollision)
    );
}

#[test]
fn show_hands_the_value_back() {
    let mut instance = with_length_and_time();
    let shown = run(&mut instance, "show 2 * Meters / Second").unwrap().unwrap();
    let speed = scalar(shown);
    assert_eq!(number(speed.raw_value()), 2.0);
    assert_eq!(speed.display_unit().len(), 2);
}

#[test]
fn the_example_program_runs_up_to_its_last_statement() {
    let program = "
make unit_class called Length
make base_unit called Meter, Meters { class: Length, symbol: \"m\", metric }
make unit_class called Time
make base_unit called Second, Seconds { class: Time, symbol: \"s\", partial_metric }
make label called Velocity for Length / Time
show (1 * Meter / Second ^ 2) is Acceleration
";
    // six statements can be read, and then input is left over
    let mut rest = program.to_string();
    let mut statements = Vec::new();
    while let Ok((behind, statement)) = parse_statement(&rest) {
        statements.push(statement);
        rest = behind;
    }
    assert_eq!(statements.len(), 6);
    assert_eq!(rest, "is Acceleration\n");
    assert!(matches!(statements[5], Statement::Show(_)));
    let error = parse_statements(program).unwrap_err();
    assert_eq!(error.remaining, "is Acceleration\n");

    let mut instance = bootstrapped();
    for statement in &statements[..4] {
        assert_eq!(execute(&mut instance, statement).map(|shown| shown.is_none()), Ok(true));
    }
    for index in 0..20 {
        let prefix = metric_prefix(index);
        assert!(resolves(&instance, &format!("{}meter", prefix.name)));
        assert_eq!(resolves(&instance, &format!("{}second", prefix.name)), index >= 10);
    }
    assert!(instance.unit(StorageId::from_index(31)).is_some());
    assert!(instance.unit(StorageId::from_index(32)).is_none());

    assert_eq!(execute(&mut instance, &statements[4]).map(|shown| shown.is_none()), Ok(true));
    assert!(instance.unit(StorageId::from_index(32)).is_none());
    assert!(instance.unit_class(StorageId::from_index(2)).is_none());
    match instance.lookup_item(&"Velocity".to_string()).as_label {
        Some((_, Data::Meta(MetaData::UnitClass(class)))) => {
            assert_eq!(class.power_of(0), Power::whole(1));
            assert_eq!(class.power_of(1), Power::whole(-1));
        }
        other => panic!("{:?}", other),
    }
    // a unit is not raised to a power
    assert_eq!(execute(&mut instance, &statements[5]).map(|_| ()), Err(Error::TypeMismatch));
}

#[test]
fn an_ascii_capital_becomes_its_small_letter_behind_a_prefix() {
    let mut instance = bootstrapped();
    run(&mut instance, "make unit_class called Length").unwrap();
    for code in 0..128u32 {
        let c = char::from_u32(code).unwrap();
        let lower: String = c.to_lowercase().collect();
        let expected = if c.is_ascii_uppercase() { ((code + 32) as u8 as char).to_string() } else { c.to_string() };
        assert_eq!(lower, expected, "U+{:04X}", code);
    }
    for c in 'A'..='Z' {
        let source = format!("make base_unit called {}unit{}, _{}2 {{ class: Length, symbol: \"u\", metric }}", c, c, c);
        run(&mut instance, &source).unwrap();
        let small = c.to_ascii_lowercase();
        assert!(resolves(&instance, &format!("Kilo{}unit{}", small, c)));
        assert!(resolves(&instance, &format!("Yocto_{}2", c)));
        assert!(!resolves(&instance, &format!("Kilo{}unit{}", c, c)));
    }
}

#[test]
fn evaluated_entities_have_no_name_and_no_class_twice() {
    let mut instance = with_length_and_time();
    run(&mut instance, "make value called inner { metric, metric, a: 1, a: 2, b: 3 }").unwrap();
    let data = evaluate(&instance, "{ partial_metric, metric, partial_metric, x: inner, y: 1, x: { a: 1, a: Length } }").unwrap();
    let entity = match data {
        Data::Value(ValueData::Entity(entity)) => entity,
        other => panic!("{:?}", other),
    };
    assert_eq!(entity.classes.len(), 2);
    let names: Vec<&str> = entity.properties.iter().map(|p| p.0.as_str()).collect();
    assert_eq!(names, vec!["x", "y"]);
    match &entity.properties[0].1 {
        Data::Value(ValueData::Entity(inner)) => {
            assert_eq!(inner.properties.len(), 1);
            assert!(matches!(inner.properties[0].1, Data::Meta(MetaData::UnitClass(_))));
        }
        other => panic!("{:?}", other),
    }
    match instance.lookup_item(&"inner".to_string()).as_value {
        Some(stored) => {
            assert_eq!(stored.classes.len(), 1);
            assert_eq!(stored.properties.len(), 2);
        }
        None => panic!("inner is missing"),
    }
}
