//! Evaluation of expressions against an instance.
//!
//! The evaluator decides what is to be computed and what the result is made
//! of; the arithmetic on magnitudes is done outside of it. Where it needs a
//! number it takes the next of the answers it was given, and where there is
//! none left it stops with the request that the next answer has to meet.
//! Evaluating again with that answer added goes one step further.

use crate::data::{
    classes_view, lemma_properties_model, names_distinct, properties_model, well_formed,
    well_formed_entity, Data, DataModel, Entity, EntityClassId, EntityModel, MetaData, MetaModel,
    ValueData, ValueModel,
};
use crate::error::Error;
use crate::expression::{
    lemma_properties_view, names_view, properties_view, BinaryOp, Expression, ExpressionModel,
    NumberLiteral, NumberLiteralModel, UnaryOp,
};
use crate::instance::{data_view, entity_view, meta_view, Instance};
use crate::magnitude::Magnitude;
use crate::power::Power;
use crate::scalar::{
    scalar_power, scalar_product, scalar_quotient, scalar_sum, Answer, Precision, Scalar,
    ScalarModel,
};
use crate::storage::StorageId;
use crate::units::{
    equivalent, exponent, product, quotient, raised, Composite, CompositeUnit, CompositeUnitClass,
    Unit,
};
use vstd::prelude::*;

verus! {

/// How to choose where a name stands for several things.
#[derive(Clone, Copy, Debug, PartialEq, Eq, Structural)]
pub enum AmbiguityResolutionContext {
    /// A unit class, unit or entity class goes before a value.
    PreferMetaItems,
    /// A value goes before a unit class, unit or entity class.
    PreferValues,
}

impl Default for AmbiguityResolutionContext {
    fn default() -> (context: Self)
        ensures
            context == AmbiguityResolutionContext::PreferValues,
    {
        AmbiguityResolutionContext::PreferValues
    }
}

/// What a name stands for under `context`, given what it stands for in each
/// of the three kinds of names. A context that prefers meta items takes the
/// meta item if there is one. Otherwise the value is taken, then the meta
/// item, then the label, whichever is there first.
pub open spec fn resolved(
    context: AmbiguityResolutionContext,
    meta: Option<MetaModel>,
    value: Option<EntityModel>,
    label: Option<DataModel>,
) -> Option<DataModel> {
    if context == AmbiguityResolutionContext::PreferMetaItems && meta.is_some() {
        Some(DataModel::Meta(meta.unwrap()))
    } else if value.is_some() {
        Some(DataModel::Value(ValueModel::Entity(value.unwrap())))
    } else if meta.is_some() {
        Some(DataModel::Meta(meta.unwrap()))
    } else {
        label
    }
}

/// A magnitude with its precision, as an operand of the arithmetic.
#[derive(Clone, Copy, Debug, PartialEq, Eq, Structural)]
pub struct Operand {
    pub value: Magnitude,
    pub precision: Precision,
}

/// One factor of the ratio of a composite unit to the base units: the unit's
/// ratio is `base_ratio` times ten to the power `prefix_exponent`, and it
/// enters the product raised to `power`.
#[derive(Clone, Copy, Debug, PartialEq, Eq, Structural)]
pub struct RatioFactor {
    pub base_ratio: Magnitude,
    pub prefix_exponent: i32,
    pub power: Power,
}

/// What the evaluator asks of the arithmetic.
#[derive(Debug)]
pub enum Request {
    /// The number that a literal writes. A malformed literal writes no
    /// number.
    Literal(NumberLiteral),
    /// The negation of a number.
    Negate(Magnitude),
    /// The sum of two numbers, the orders of magnitude of the two and of the
    /// sum, and the percent error of the sum where an operand has one.
    Add(Operand, Operand),
    /// The product of two numbers, and its percent error where an operand
    /// has one.
    Mul(Operand, Operand),
    /// The quotient of two numbers, and its percent error where an operand
    /// has one.
    Div(Operand, Operand),
    /// The product of the ratios of the factors, each raised to its power.
    Ratio(Vec<RatioFactor>),
    /// The exponent `exponent` divided by `exponent_ratio`, as a number and
    /// as a power, and `base` raised to it.
    Pow { base: Magnitude, exponent: Magnitude, exponent_ratio: Magnitude },
}

/// What a `Request` holds.
pub enum RequestModel {
    Literal(NumberLiteralModel),
    Negate(Magnitude),
    Add(Operand, Operand),
    Mul(Operand, Operand),
    Div(Operand, Operand),
    Ratio(Seq<RatioFactor>),
    Pow { base: Magnitude, exponent: Magnitude, exponent_ratio: Magnitude },
}

impl View for Request {
    type V = RequestModel;

    open spec fn view(&self) -> RequestModel {
        match self {
            Request::Literal(literal) => RequestModel::Literal(literal@),
            Request::Negate(a) => RequestModel::Negate(*a),
            Request::Add(a, b) => RequestModel::Add(*a, *b),
            Request::Mul(a, b) => RequestModel::Mul(*a, *b),
            Request::Div(a, b) => RequestModel::Div(*a, *b),
            Request::Ratio(factors) => RequestModel::Ratio(factors@),
            Request::Pow { base, exponent, exponent_ratio } => RequestModel::Pow {
                base: *base,
                exponent: *exponent,
                exponent_ratio: *exponent_ratio,
            },
        }
    }
}

/// How far an evaluation got: to its end, to a failure, or to a request that
/// the answers given do not cover.
#[derive(Debug)]
pub enum Resolution {
    Done(Data),
    Failed(Error),
    Pending(Request),
}

/// A stage of an evaluation, in the model: a result with the number of
/// answers used for it, a failure, or a request for the next answer.
pub enum Step<T> {
    Ready(T, nat),
    Failed(Error),
    Pending(RequestModel),
}

/// A stage of an evaluation: a result with the number of answers used for
/// it, a failure, or a request for the next answer.
pub enum Stage<T> {
    Ready(T, usize),
    Failed(Error),
    Pending(Request),
}

/// The answer to `request`: the next of `answers` behind the `used` first,
/// or the request itself where no answer is left.
pub open spec fn ask(answers: Seq<Answer>, used: nat, request: RequestModel) -> Step<Answer> {
    if used < answers.len() {
        Step::Ready(answers[used as int], used + 1)
    } else {
        Step::Pending(request)
    }
}

/// The operand that a quantity makes.
pub open spec fn operand(s: ScalarModel) -> Operand {
    Operand { value: s.value, precision: s.precision }
}

/// The quantity without dimension that is exactly `value`.
pub open spec fn plain_number(value: Magnitude) -> ScalarModel {
    ScalarModel { value, precision: Precision::Exact, unit: Map::empty(), display_unit: Map::empty() }
}

/// Whether every factor of `c` is below `bound`.
pub open spec fn below(c: Map<nat, int>, bound: nat) -> bool {
    forall|id: nat| c.dom().contains(id) ==> id < bound
}

/// The factors of the ratio of the composite unit `c`, for its units below
/// `bound`, in the order of their identifiers.
pub open spec fn ratio_factors(c: Map<nat, int>, units: Seq<Unit>, bound: nat) -> Seq<RatioFactor>
    decreases bound,
{
    if bound == 0 {
        Seq::empty()
    } else {
        let id = (bound - 1) as nat;
        let rest = ratio_factors(c, units, id);
        if c.dom().contains(id) && id < units.len() {
            rest.push(
                RatioFactor {
                    base_ratio: units[id as int].base_ratio,
                    prefix_exponent: units[id as int].prefix_exponent,
                    power: Power::from_count(c[id]),
                },
            )
        } else {
            rest
        }
    }
}

/// The dimension of the composite unit `c`, for its units below `bound`:
/// the product, in the order of the identifiers, of the dimension of each
/// unit raised to the power that the unit has in `c`.
pub open spec fn dimension(c: Map<nat, int>, units: Seq<Unit>, bound: nat) -> Map<nat, int>
    decreases bound,
{
    if bound == 0 {
        Map::empty()
    } else {
        let id = (bound - 1) as nat;
        let rest = dimension(c, units, id);
        if c.dom().contains(id) && id < units.len() {
            product(rest, raised(units[id as int].class@, c[id]))
        } else {
            rest
        }
    }
}

/// `classes` with the class `id`, which is not added a second time.
pub open spec fn with_class(classes: Seq<nat>, id: nat) -> Seq<nat> {
    if classes.contains(id) {
        classes
    } else {
        classes.push(id)
    }
}

/// The position of the first property called `name`.
pub open spec fn property_at(properties: Seq<(Seq<char>, DataModel)>, name: Seq<char>) -> Option<
    int,
>
    decreases properties.len(),
{
    if properties.len() == 0 {
        None
    } else if property_at(properties.drop_last(), name).is_some() {
        property_at(properties.drop_last(), name)
    } else if properties.last().0 == name {
        Some(properties.len() - 1)
    } else {
        None
    }
}

/// `properties` with the property `name` set to `value`: a property of that
/// name is replaced, otherwise the property is added.
pub open spec fn with_property(
    properties: Seq<(Seq<char>, DataModel)>,
    name: Seq<char>,
    value: DataModel,
) -> Seq<(Seq<char>, DataModel)> {
    match property_at(properties, name) {
        Some(i) => properties.update(i, (name, value)),
        None => properties.push((name, value)),
    }
}

/// The classes that the names `names` stand for, if each of them stands
/// for an entity class.
pub open spec fn class_tags(instance: &Instance, names: Seq<Seq<char>>) -> Result<Seq<nat>, Error>
    decreases names.len(),
{
    if names.len() == 0 {
        Ok(Seq::empty())
    } else {
        match class_tags(instance, names.drop_last()) {
            Ok(classes) => match meta_view(instance.meta(names.last())) {
                Some(MetaModel::EntityClass(id)) => Ok(with_class(classes, id)),
                Some(_) => Err(Error::TypeMismatch),
                None => Err(Error::UndefinedName),
            },
            Err(e) => Err(e),
        }
    }
}

/// The quantity that a composite unit stands for when it meets a quantity:
/// one of that unit, exactly. Its magnitude is the ratio of the unit to the
/// base units, which the arithmetic finds.
pub open spec fn unit_scalar(
    instance: &Instance,
    unit: Map<nat, int>,
    answers: Seq<Answer>,
    used: nat,
) -> Step<ScalarModel> {
    let count = instance.units().len();
    if !below(unit, count) {
        Step::Failed(Error::UndefinedName)
    } else {
        match ask(answers, used, RequestModel::Ratio(ratio_factors(unit, instance.units(), count))) {
            Step::Ready(ratio, next) => Step::Ready(
                ScalarModel {
                    value: ratio.value,
                    precision: Precision::Exact,
                    unit: dimension(unit, instance.units(), count),
                    display_unit: unit,
                },
                next,
            ),
            Step::Failed(e) => Step::Failed(e),
            Step::Pending(r) => Step::Pending(r),
        }
    }
}

/// What a binary operator makes of two quantities.
pub open spec fn scalar_binary(
    instance: &Instance,
    lhs: ScalarModel,
    op: BinaryOp,
    rhs: ScalarModel,
    answers: Seq<Answer>,
    used: nat,
) -> Step<DataModel> {
    match op {
        BinaryOp::Add => if !equivalent(lhs.unit, rhs.unit) {
            Step::Failed(Error::DimensionMismatch)
        } else {
            match ask(answers, used, RequestModel::Add(operand(lhs), operand(rhs))) {
                Step::Ready(sum, next) => Step::Ready(
                    DataModel::Value(ValueModel::Scalar(scalar_sum(lhs, rhs, sum).unwrap())),
                    next,
                ),
                Step::Failed(e) => Step::Failed(e),
                Step::Pending(r) => Step::Pending(r),
            }
        },
        BinaryOp::Sub => if !equivalent(lhs.unit, rhs.unit) {
            Step::Failed(Error::DimensionMismatch)
        } else {
            match ask(answers, used, RequestModel::Negate(rhs.value)) {
                Step::Ready(negated, middle) => {
                    let opposite = ScalarModel { value: negated.value, ..rhs };
                    match ask(
                        answers,
                        middle,
                        RequestModel::Add(operand(lhs), operand(opposite)),
                    ) {
                        Step::Ready(sum, next) => Step::Ready(
                            DataModel::Value(
                                ValueModel::Scalar(scalar_sum(lhs, opposite, sum).unwrap()),
                            ),
                            next,
                        ),
                        Step::Failed(e) => Step::Failed(e),
                        Step::Pending(r) => Step::Pending(r),
                    }
                },
                Step::Failed(e) => Step::Failed(e),
                Step::Pending(r) => Step::Pending(r),
            }
        },
        BinaryOp::Mul => match ask(answers, used, RequestModel::Mul(operand(lhs), operand(rhs))) {
            Step::Ready(found, next) => Step::Ready(
                DataModel::Value(ValueModel::Scalar(scalar_product(lhs, rhs, found))),
                next,
            ),
            Step::Failed(e) => Step::Failed(e),
            Step::Pending(r) => Step::Pending(r),
        },
        BinaryOp::Div => match ask(answers, used, RequestModel::Div(operand(lhs), operand(rhs))) {
            Step::Ready(found, next) => Step::Ready(
                DataModel::Value(ValueModel::Scalar(scalar_quotient(lhs, rhs, found))),
                next,
            ),
            Step::Failed(e) => Step::Failed(e),
            Step::Pending(r) => Step::Pending(r),
        },
        BinaryOp::Pow => {
            let count = instance.units().len();
            if !below(rhs.display_unit, count) {
                Step::Failed(Error::UndefinedName)
            } else {
                match ask(
                    answers,
                    used,
                    RequestModel::Ratio(ratio_factors(rhs.display_unit, instance.units(), count)),
                ) {
                    Step::Ready(ratio, middle) => match ask(
                        answers,
                        middle,
                        RequestModel::Pow {
                            base: lhs.value,
                            exponent: rhs.value,
                            exponent_ratio: ratio.value,
                        },
                    ) {
                        Step::Ready(found, next) => Step::Ready(
                            DataModel::Value(ValueModel::Scalar(scalar_power(lhs, found))),
                            next,
                        ),
                        Step::Failed(e) => Step::Failed(e),
                        Step::Pending(r) => Step::Pending(r),
                    },
                    Step::Failed(e) => Step::Failed(e),
                    Step::Pending(r) => Step::Pending(r),
                }
            }
        },
    }
}

/// What a binary operator makes of two composites of one kind: their
/// product or quotient. Composites are not added, subtracted or raised.
pub open spec fn composite_binary(lhs: Map<nat, int>, op: BinaryOp, rhs: Map<nat, int>) -> Result<
    Map<nat, int>,
    Error,
> {
    match op {
        BinaryOp::Mul => Ok(product(lhs, rhs)),
        BinaryOp::Div => Ok(quotient(lhs, rhs)),
        _ => Err(Error::TypeMismatch),
    }
}

/// What a binary operator makes of two operands.
///
/// An entity class, an entity or a string is no operand. A unit and a unit
/// class do not mix, nor do a quantity and a unit class. Units are
/// multiplied and divided among themselves, and so are unit classes. A unit
/// that meets a quantity is multiplied or divided as one of that unit.
/// Quantities are added, subtracted, multiplied, divided and raised.
pub open spec fn binary(
    instance: &Instance,
    lhs: DataModel,
    op: BinaryOp,
    rhs: DataModel,
    answers: Seq<Answer>,
    used: nat,
) -> Step<DataModel> {
    match (lhs, rhs) {
        (DataModel::Meta(MetaModel::Unit(a)), DataModel::Meta(MetaModel::Unit(b))) => {
            match composite_binary(a, op, b) {
                Ok(c) => Step::Ready(DataModel::Meta(MetaModel::Unit(c)), used),
                Err(e) => Step::Failed(e),
            }
        },
        (DataModel::Meta(MetaModel::UnitClass(a)), DataModel::Meta(MetaModel::UnitClass(b))) => {
            match composite_binary(a, op, b) {
                Ok(c) => Step::Ready(DataModel::Meta(MetaModel::UnitClass(c)), used),
                Err(e) => Step::Failed(e),
            }
        },
        (DataModel::Value(ValueModel::Scalar(s)), DataModel::Meta(MetaModel::Unit(u))) => {
            if op != BinaryOp::Mul && op != BinaryOp::Div {
                Step::Failed(Error::TypeMismatch)
            } else {
                match unit_scalar(instance, u, answers, used) {
                    Step::Ready(one, next) => scalar_binary(instance, s, op, one, answers, next),
                    Step::Failed(e) => Step::Failed(e),
                    Step::Pending(r) => Step::Pending(r),
                }
            }
        },
        (DataModel::Meta(MetaModel::Unit(u)), DataModel::Value(ValueModel::Scalar(s))) => {
            if op != BinaryOp::Mul && op != BinaryOp::Div {
                Step::Failed(Error::TypeMismatch)
            } else {
                match unit_scalar(instance, u, answers, used) {
                    Step::Ready(one, next) => scalar_binary(instance, one, op, s, answers, next),
                    Step::Failed(e) => Step::Failed(e),
                    Step::Pending(r) => Step::Pending(r),
                }
            }
        },
        (DataModel::Value(ValueModel::Scalar(a)), DataModel::Value(ValueModel::Scalar(b))) => {
            scalar_binary(instance, a, op, b, answers, used)
        },
        _ => Step::Failed(Error::TypeMismatch),
    }
}

/// What a unary operator makes of an operand: the negation of a quantity.
/// Nothing else is negated.
pub open spec fn unary(op: UnaryOp, rhs: DataModel, answers: Seq<Answer>, used: nat) -> Step<
    DataModel,
> {
    match rhs {
        DataModel::Value(ValueModel::Scalar(s)) => match ask(
            answers,
            used,
            RequestModel::Negate(s.value),
        ) {
            Step::Ready(negated, next) => Step::Ready(
                DataModel::Value(ValueModel::Scalar(ScalarModel { value: negated.value, ..s })),
                next,
            ),
            Step::Failed(e) => Step::Failed(e),
            Step::Pending(r) => Step::Pending(r),
        },
        _ => Step::Failed(Error::TypeMismatch),
    }
}

/// What `name` stands for in `instance` under `context`.
pub open spec fn named(
    instance: &Instance,
    name: Seq<char>,
    context: AmbiguityResolutionContext,
) -> Option<DataModel> {
    resolved(
        context,
        meta_view(instance.meta(name)),
        entity_view(instance.value(name)),
        data_view(instance.label(name)),
    )
}

/// What `expression` evaluates to in `instance`, with the answers behind
/// the `used` first for the numbers it needs.
pub open spec fn evaluation(
    instance: &Instance,
    expression: ExpressionModel,
    context: AmbiguityResolutionContext,
    answers: Seq<Answer>,
    used: nat,
) -> Step<DataModel>
    decreases expression,
{
    match expression {
        ExpressionModel::NumericLiteral(literal) => match ask(
            answers,
            used,
            RequestModel::Literal(literal),
        ) {
            Step::Ready(number, next) => Step::Ready(
                DataModel::Value(ValueModel::Scalar(plain_number(number.value))),
                next,
            ),
            Step::Failed(e) => Step::Failed(e),
            Step::Pending(r) => Step::Pending(r),
        },
        ExpressionModel::StringLiteral(text) => Step::Ready(
            DataModel::Value(ValueModel::String(text)),
            used,
        ),
        ExpressionModel::LookupName(name) => match named(instance, name, context) {
            Some(data) => Step::Ready(data, used),
            None => Step::Failed(Error::UndefinedName),
        },
        ExpressionModel::UnaryExpr(op, rhs) => match evaluation(
            instance,
            *rhs,
            context,
            answers,
            used,
        ) {
            Step::Ready(value, next) => unary(op, value, answers, next),
            Step::Failed(e) => Step::Failed(e),
            Step::Pending(r) => Step::Pending(r),
        },
        ExpressionModel::BinaryExpr(lhs, op, rhs) => match evaluation(
            instance,
            *lhs,
            context,
            answers,
            used,
        ) {
            Step::Ready(left, middle) => match evaluation(instance, *rhs, context, answers, middle) {
                Step::Ready(right, next) => binary(instance, left, op, right, answers, next),
                Step::Failed(e) => Step::Failed(e),
                Step::Pending(r) => Step::Pending(r),
            },
            Step::Failed(e) => Step::Failed(e),
            Step::Pending(r) => Step::Pending(r),
        },
        ExpressionModel::ApplyFunction { .. } => Step::Failed(Error::UnimplementedFeature),
        ExpressionModel::BuildEntity { properties, class_names } => match class_tags(
            instance,
            class_names,
        ) {
            Ok(classes) => match evaluated_properties(
                instance,
                properties,
                context,
                answers,
                used,
            ) {
                Step::Ready(values, next) => Step::Ready(
                    DataModel::Value(
                        ValueModel::Entity(EntityModel { properties: values, classes }),
                    ),
                    next,
                ),
                Step::Failed(e) => Step::Failed(e),
                Step::Pending(r) => Step::Pending(r),
            },
            Err(e) => Step::Failed(e),
        },
    }
}

/// The properties of an entity, evaluated one after the other.
pub open spec fn evaluated_properties(
    instance: &Instance,
    properties: Seq<(Seq<char>, ExpressionModel)>,
    context: AmbiguityResolutionContext,
    answers: Seq<Answer>,
    used: nat,
) -> Step<Seq<(Seq<char>, DataModel)>>
    decreases properties,
{
    if properties.len() == 0 {
        Step::Ready(Seq::empty(), used)
    } else {
        match evaluated_properties(instance, properties.drop_last(), context, answers, used) {
            Step::Ready(values, middle) => match evaluation(
                instance,
                properties.last().1,
                context,
                answers,
                middle,
            ) {
                Step::Ready(value, next) => Step::Ready(
                    with_property(values, properties.last().0, value),
                    next,
                ),
                Step::Failed(e) => Step::Failed(e),
                Step::Pending(r) => Step::Pending(r),
            },
            Step::Failed(e) => Step::Failed(e),
            Step::Pending(r) => Step::Pending(r),
        }
    }
}

/// Whether a stage that was reached with some answers is reached with more
/// answers too: a result or a failure stays what it is, only a request may
/// be answered.
pub open spec fn settled<T>(with_some: Step<T>, with_more: Step<T>) -> bool {
    with_some is Pending || with_more == with_some
}

proof fn lemma_unit_scalar_settled(
    instance: &Instance,
    unit: Map<nat, int>,
    answers: Seq<Answer>,
    more: Seq<Answer>,
    used: nat,
)
    ensures
        settled(
            unit_scalar(instance, unit, answers, used),
            unit_scalar(instance, unit, answers + more, used),
        ),
        unit_scalar(instance, unit, answers, used) matches Step::Ready(_, next) ==> next
            <= answers.len(),
{
}

proof fn lemma_scalar_binary_settled(
    instance: &Instance,
    lhs: ScalarModel,
    op: BinaryOp,
    rhs: ScalarModel,
    answers: Seq<Answer>,
    more: Seq<Answer>,
    used: nat,
)
    ensures
        settled(
            scalar_binary(instance, lhs, op, rhs, answers, used),
            scalar_binary(instance, lhs, op, rhs, answers + more, used),
        ),
        scalar_binary(instance, lhs, op, rhs, answers, used) matches Step::Ready(_, next) ==> next
            <= answers.len(),
{
}

proof fn lemma_binary_settled(
    instance: &Instance,
    lhs: DataModel,
    op: BinaryOp,
    rhs: DataModel,
    answers: Seq<Answer>,
    more: Seq<Answer>,
    used: nat,
)
    requires
        used <= answers.len(),
    ensures
        settled(
            binary(instance, lhs, op, rhs, answers, used),
            binary(instance, lhs, op, rhs, answers + more, used),
        ),
        binary(instance, lhs, op, rhs, answers, used) matches Step::Ready(_, next) ==> next
            <= answers.len(),
{
    match (lhs, rhs) {
        (DataModel::Value(ValueModel::Scalar(s)), DataModel::Meta(MetaModel::Unit(u))) => {
            lemma_unit_scalar_settled(instance, u, answers, more, used);
            match unit_scalar(instance, u, answers, used) {
                Step::Ready(one, next) => {
                    lemma_scalar_binary_settled(instance, s, op, one, answers, more, next);
                },
                _ => {},
            }
        },
        (DataModel::Meta(MetaModel::Unit(u)), DataModel::Value(ValueModel::Scalar(s))) => {
            lemma_unit_scalar_settled(instance, u, answers, more, used);
            match unit_scalar(instance, u, answers, used) {
                Step::Ready(one, next) => {
                    lemma_scalar_binary_settled(instance, one, op, s, answers, more, next);
                },
                _ => {},
            }
        },
        (DataModel::Value(ValueModel::Scalar(a)), DataModel::Value(ValueModel::Scalar(b))) => {
            lemma_scalar_binary_settled(instance, a, op, b, answers, more, used);
        },
        _ => {},
    }
}

/// An evaluation that came to a result or to a failure comes to the same
/// with any answers added behind those it was given: the answers it did not
/// use do not matter, and it uses no more than it was given.
pub proof fn lemma_evaluation_settled(
    instance: &Instance,
    expression: ExpressionModel,
    context: AmbiguityResolutionContext,
    answers: Seq<Answer>,
    more: Seq<Answer>,
    used: nat,
)
    requires
        used <= answers.len(),
    ensures
        settled(
            evaluation(instance, expression, context, answers, used),
            evaluation(instance, expression, context, answers + more, used),
        ),
        evaluation(instance, expression, context, answers, used) matches Step::Ready(_, next)
            ==> used <= next <= answers.len(),
    decreases expression,
{
    match expression {
        ExpressionModel::UnaryExpr(op, rhs) => {
            lemma_evaluation_settled(instance, *rhs, context, answers, more, used);
        },
        ExpressionModel::BinaryExpr(lhs, op, rhs) => {
            lemma_evaluation_settled(instance, *lhs, context, answers, more, used);
            match evaluation(instance, *lhs, context, answers, used) {
                Step::Ready(left, middle) => {
                    lemma_evaluation_settled(instance, *rhs, context, answers, more, middle);
                    match evaluation(instance, *rhs, context, answers, middle) {
                        Step::Ready(right, next) => {
                            lemma_binary_settled(instance, left, op, right, answers, more, next);
                        },
                        _ => {},
                    }
                },
                _ => {},
            }
        },
        ExpressionModel::BuildEntity { properties, class_names } => {
            lemma_properties_settled(instance, properties, context, answers, more, used);
        },
        _ => {},
    }
}

proof fn lemma_properties_settled(
    instance: &Instance,
    properties: Seq<(Seq<char>, ExpressionModel)>,
    context: AmbiguityResolutionContext,
    answers: Seq<Answer>,
    more: Seq<Answer>,
    used: nat,
)
    requires
        used <= answers.len(),
    ensures
        settled(
            evaluated_properties(instance, properties, context, answers, used),
            evaluated_properties(instance, properties, context, answers + more, used),
        ),
        evaluated_properties(instance, properties, context, answers, used) matches Step::Ready(
            _,
            next,
        ) ==> used <= next <= answers.len(),
    decreases properties,
{
    if properties.len() > 0 {
        lemma_properties_settled(instance, properties.drop_last(), context, answers, more, used);
        match evaluated_properties(instance, properties.drop_last(), context, answers, used) {
            Step::Ready(values, middle) => {
                lemma_evaluation_settled(
                    instance,
                    properties.last().1,
                    context,
                    answers,
                    more,
                    middle,
                );
            },
            _ => {},
        }
    }
}


/// Setting a property keeps names apart and keeps well-formed values
/// well formed.
proof fn lemma_with_property(properties: Seq<(Seq<char>, DataModel)>, name: Seq<char>, value: DataModel)
    requires
        names_distinct(properties),
        forall|i: int| 0 <= i < properties.len() ==> well_formed((#[trigger] properties[i]).1),
        well_formed(value),
    ensures
        names_distinct(with_property(properties, name, value)),
        forall|i: int|
            0 <= i < with_property(properties, name, value).len() ==> well_formed(
                (#[trigger] with_property(properties, name, value)[i]).1,
            ),
{
    lemma_property_at(properties, name);
    let after = with_property(properties, name, value);
    match property_at(properties, name) {
        Some(at) => {
            assert forall|i: int, j: int| 0 <= i < j < after.len() implies (#[trigger] after[i]).0 != (
            #[trigger] after[j]).0 by {
                assert(properties[i].0 != properties[j].0);
            }
            assert forall|i: int| 0 <= i < after.len() implies well_formed((#[trigger] after[i]).1) by {
                if i != at {
                    assert(well_formed(properties[i].1));
                }
            }
        },
        None => {
            assert forall|i: int, j: int| 0 <= i < j < after.len() implies (#[trigger] after[i]).0 != (
            #[trigger] after[j]).0 by {
                if j < properties.len() {
                    assert(properties[i].0 != properties[j].0);
                } else {
                    assert(properties[i].0 != name);
                }
            }
            assert forall|i: int| 0 <= i < after.len() implies well_formed((#[trigger] after[i]).1) by {
                if i < properties.len() {
                    assert(well_formed(properties[i].1));
                }
            }
        },
    }
}

/// The classes read from a list of names hold no class twice.
proof fn lemma_class_tags_distinct(instance: &Instance, names: Seq<Seq<char>>)
    ensures
        class_tags(instance, names) matches Ok(classes) ==> classes.no_duplicates(),
    decreases names.len(),
{
    if names.len() > 0 {
        lemma_class_tags_distinct(instance, names.drop_last());
    }
}

/// What an expression evaluates to in a sound instance is well formed: no
/// entity in it has a property name or a class twice.
pub proof fn lemma_evaluation_well_formed(
    instance: &Instance,
    expression: ExpressionModel,
    context: AmbiguityResolutionContext,
    answers: Seq<Answer>,
    used: nat,
)
    requires
        instance.sound(),
    ensures
        evaluation(instance, expression, context, answers, used) matches Step::Ready(data, _)
            ==> well_formed(data),
    decreases expression,
{
    match expression {
        ExpressionModel::LookupName(name) => {
            if entity_view(instance.value(name)).is_some() {
                assert(well_formed_entity(entity_view(instance.value(name)).unwrap()));
            }
            if data_view(instance.label(name)).is_some() {
                assert(well_formed(data_view(instance.label(name)).unwrap()));
            }
        },
        ExpressionModel::UnaryExpr(op, rhs) => {},
        ExpressionModel::BinaryExpr(lhs, op, rhs) => {
            match evaluation(instance, *lhs, context, answers, used) {
                Step::Ready(left, middle) => {
                    match evaluation(instance, *rhs, context, answers, middle) {
                        Step::Ready(right, next) => {
                            lemma_binary_plain(instance, left, op, right, answers, next);
                        },
                        _ => {},
                    }
                },
                _ => {},
            }
        },
        ExpressionModel::BuildEntity { properties, class_names } => {
            lemma_class_tags_distinct(instance, class_names);
            lemma_properties_well_formed(instance, properties, context, answers, used);
        },
        _ => {},
    }
}

/// A binary operator gives a unit, a unit class or a quantity, never an
/// entity.
proof fn lemma_binary_plain(
    instance: &Instance,
    lhs: DataModel,
    op: BinaryOp,
    rhs: DataModel,
    answers: Seq<Answer>,
    used: nat,
)
    ensures
        binary(instance, lhs, op, rhs, answers, used) matches Step::Ready(data, _)
            ==> well_formed(data),
{
}

proof fn lemma_properties_well_formed(
    instance: &Instance,
    properties: Seq<(Seq<char>, ExpressionModel)>,
    context: AmbiguityResolutionContext,
    answers: Seq<Answer>,
    used: nat,
)
    requires
        instance.sound(),
    ensures
        evaluated_properties(instance, properties, context, answers, used) matches Step::Ready(
            values,
            _,
        ) ==> names_distinct(values) && forall|i: int|
            0 <= i < values.len() ==> well_formed((#[trigger] values[i]).1),
    decreases properties,
{
    if properties.len() > 0 {
        lemma_properties_well_formed(instance, properties.drop_last(), context, answers, used);
        match evaluated_properties(instance, properties.drop_last(), context, answers, used) {
            Step::Ready(values, middle) => {
                lemma_evaluation_well_formed(
                    instance,
                    properties.last().1,
                    context,
                    answers,
                    middle,
                );
                match evaluation(instance, properties.last().1, context, answers, middle) {
                    Step::Ready(value, next) => {
                        lemma_with_property(values, properties.last().0, value);
                    },
                    _ => {},
                }
            },
            _ => {},
        }
    }
}


/// The model of an optional borrowed meta item.
pub open spec fn borrowed_meta(item: Option<&MetaData>) -> Option<MetaModel> {
    match item {
        Some(m) => Some(m@),
        None => None,
    }
}

/// The model of an optional borrowed entity.
pub open spec fn borrowed_entity(item: Option<&Entity>) -> Option<EntityModel> {
    match item {
        Some(e) => Some(e.model()),
        None => None,
    }
}

/// The model of an optional borrowed label.
pub open spec fn borrowed_label(item: Option<(&String, &Data)>) -> Option<DataModel> {
    match item {
        Some((_, d)) => Some(d.model()),
        None => None,
    }
}

impl AmbiguityResolutionContext {
    /// What to take a name for that stands for the things in `item`.
    pub fn resolve(self, item: &crate::data::AmbiguousItem) -> (data: Option<Data>)
        ensures
            data_view(data) == resolved(
                self,
                borrowed_meta(item.as_meta),
                borrowed_entity(item.as_value),
                borrowed_label(item.as_label),
            ),
    {
        match self {
            AmbiguityResolutionContext::PreferMetaItems => {
                if let Some(meta) = item.as_meta {
                    return Some(Data::Meta(meta.clone()));
                }
            },
            AmbiguityResolutionContext::PreferValues => {},
        }
        if let Some(entity) = item.as_value {
            Some(Data::Value(ValueData::Entity(entity.duplicate())))
        } else if let Some(meta) = item.as_meta {
            Some(Data::Meta(meta.clone()))
        } else if let Some((_, data)) = item.as_label {
            Some(data.duplicate())
        } else {
            None
        }
    }
}

/// The stage that a stage of answers stands for.
pub open spec fn answer_stage(stage: Stage<Answer>) -> Step<Answer> {
    match stage {
        Stage::Ready(a, n) => Step::Ready(a, n as nat),
        Stage::Failed(e) => Step::Failed(e),
        Stage::Pending(r) => Step::Pending(r@),
    }
}

/// The stage that a stage of quantities stands for.
pub open spec fn scalar_stage(stage: Stage<Scalar>) -> Step<ScalarModel> {
    match stage {
        Stage::Ready(s, n) => Step::Ready(s@, n as nat),
        Stage::Failed(e) => Step::Failed(e),
        Stage::Pending(r) => Step::Pending(r@),
    }
}

/// The stage that a stage of data stands for.
pub open spec fn data_stage(stage: Stage<Data>) -> Step<DataModel> {
    match stage {
        Stage::Ready(d, n) => Step::Ready(d.model(), n as nat),
        Stage::Failed(e) => Step::Failed(e),
        Stage::Pending(r) => Step::Pending(r@),
    }
}

/// The stage that a stage of properties stands for.
pub open spec fn properties_stage(stage: Stage<Vec<(String, Data)>>) -> Step<
    Seq<(Seq<char>, DataModel)>,
> {
    match stage {
        Stage::Ready(list, n) => Step::Ready(properties_model(list@), n as nat),
        Stage::Failed(e) => Step::Failed(e),
        Stage::Pending(r) => Step::Pending(r@),
    }
}

/// Takes the next answer, or hands the request back.
pub(crate) fn take_answer(answers: &Vec<Answer>, used: usize, request: Request) -> (stage: Stage<Answer>)
    ensures
        answer_stage(stage) == ask(answers@, used as nat, request@),
        stage matches Stage::Ready(_, next) ==> next == used + 1 && next <= answers@.len(),
{
    if used < answers.len() {
        Stage::Ready(answers[used], used + 1)
    } else {
        Stage::Pending(request)
    }
}

proof fn lemma_ratio_skip(c: Map<nat, int>, units: Seq<Unit>, low: nat, high: nat)
    requires
        low <= high,
        forall|id: nat| low <= id < high ==> !c.dom().contains(id),
    ensures
        ratio_factors(c, units, high) == ratio_factors(c, units, low),
        dimension(c, units, high) == dimension(c, units, low),
    decreases high,
{
    if low < high {
        lemma_ratio_skip(c, units, low, (high - 1) as nat);
    }
}

/// The operand that a quantity makes.
fn operand_of(s: &Scalar) -> (o: Operand)
    ensures
        o == operand(s@),
{
    Operand { value: s.raw_value(), precision: s.precision() }
}

/// The position that `property_at` gives is that of the first property of
/// the name, and it gives none only where there is no such property.
pub proof fn lemma_property_at(properties: Seq<(Seq<char>, DataModel)>, name: Seq<char>)
    ensures
        match property_at(properties, name) {
            Some(i) => {
                &&& 0 <= i < properties.len()
                &&& properties[i].0 == name
                &&& forall|j: int| 0 <= j < i ==> (#[trigger] properties[j]).0 != name
            },
            None => forall|j: int| 0 <= j < properties.len() ==> (#[trigger] properties[j]).0 != name,
        },
    decreases properties.len(),
{
    if properties.len() > 0 {
        let rest = properties.drop_last();
        lemma_property_at(rest, name);
        match property_at(rest, name) {
            Some(i) => {
                assert(rest[i] == properties[i]);
                assert forall|j: int| 0 <= j < i implies (#[trigger] properties[j]).0 != name by {
                    assert(rest[j] == properties[j]);
                }
            },
            None => {
                assert forall|j: int| 0 <= j < properties.len() - 1 implies (
                #[trigger] properties[j]).0 != name by {
                    assert(rest[j] == properties[j]);
                }
            },
        }
    }
}

/// Sets the property `name` to `value`: a property of that name is
/// replaced, otherwise the property is added.
pub(crate) fn set_property(properties: &mut Vec<(String, Data)>, name: String, value: Data)
    ensures
        properties_model(final(properties)@) == with_property(
            properties_model(old(properties)@),
            name@,
            value.model(),
        ),
{
    let ghost before = properties@;
    let ghost model = properties_model(before);
    proof {
        lemma_properties_model(before);
        lemma_property_at(model, name@);
    }
    let mut i: usize = 0;
    while i < properties.len()
        invariant
            properties@ == before,
            before == old(properties)@,
            model == properties_model(before),
            model.len() == before.len(),
            i <= before.len(),
            forall|j: int| 0 <= j < before.len() ==> (#[trigger] model[j]) == (
                before[j].0@,
                before[j].1.model(),
            ),
            forall|j: int| 0 <= j < i ==> (#[trigger] model[j]).0 != name@,
        decreases before.len() - i,
    {
        if properties[i].0 == name {
            assert(model[i as int].0 == name@);
            proof {
                lemma_property_at(model, name@);
            }
            assert(property_at(model, name@) == Some(i as int));
            properties.set(i, (name, value));
            proof {
                lemma_properties_model(properties@);
                assert(properties_model(properties@) =~= model.update(
                    i as int,
                    (name@, value.model()),
                ));
            }
            return ;
        }
        assert(model[i as int].0 != name@);
        i = i + 1;
    }
    proof {
        lemma_property_at(model, name@);
    }
    assert(property_at(model, name@).is_none());
    properties.push((name, value));
    proof {
        assert(properties@.drop_last() =~= before);
    }
}

impl Composite<crate::units::UnitId> {
    /// The factors of the ratio of this composite unit to the base units,
    /// if all its units are units of `instance`.
    pub fn base_ratio_factors(&self, instance: &Instance) -> (found: Option<Vec<RatioFactor>>)
        ensures
            match found {
                Some(list) => below(self@, instance.units().len()) && list@ == ratio_factors(
                    self@,
                    instance.units(),
                    instance.units().len(),
                ),
                None => !below(self@, instance.units().len()),
            },
    {
        self.check();
        proof {
            self.lemma_view();
            self.lemma_factors_ordered();
        }
        let ghost c = self@;
        let ghost units = instance.units();
        let mut list: Vec<RatioFactor> = Vec::new();
        let mut k: usize = 0;
        let ghost mut bound: nat = 0;
        while k < self.len()
            invariant
                self.wf(),
                c == self@,
                units == instance.units(),
                k <= self.factors().len(),
                k == 0 ==> bound == 0,
                k > 0 ==> bound == self.factors()[k - 1].1 + 1,
                bound <= units.len(),
                list@ == ratio_factors(c, units, bound),
                forall|j: int|
                    0 <= j < self.factors().len() ==> exponent(
                        c,
                        (#[trigger] self.factors()[j]).1 as nat,
                    ) == self.factors()[j].0@ && c.dom().contains(self.factors()[j].1 as nat),
                forall|id: nat|
                    c.dom().contains(id) ==> exists|j: int|
                        0 <= j < self.factors().len() && (#[trigger] self.factors()[j]).1 == id,
                forall|i: int, j: int|
                    0 <= i < j < self.factors().len() ==> (#[trigger] self.factors()[i]).1 < (
                    #[trigger] self.factors()[j]).1,
            decreases self.factors().len() - k,
        {
            let (power, index) = self.factor(k);
            let unit: &Unit = match instance.unit(StorageId::from_index(index)) {
                Some(unit) => unit,
                None => {
                    assert(c.dom().contains(index as nat));
                    return None;
                },
            };
            proof {
                assert forall|id: nat| bound <= id < index implies !c.dom().contains(id) by {
                    if c.dom().contains(id) {
                        let j = choose|j: int|
                            0 <= j < self.factors().len() && (#[trigger] self.factors()[j]).1 == id;
                        if j < k {
                            if j < k - 1 {
                                assert(self.factors()[j].1 < self.factors()[k - 1].1);
                            }
                        } else if j > k {
                            assert(self.factors()[k as int].1 < self.factors()[j].1);
                        }
                    }
                }
                if k > 0 {
                    assert(self.factors()[k - 1].1 < self.factors()[k as int].1);
                }
                lemma_ratio_skip(c, units, bound, index as nat);
                power.lemma_from_count();
                assert(c[index as nat] == power@);
                bound = (index + 1) as nat;
            }
            list.push(
                RatioFactor {
                    base_ratio: unit.base_ratio,
                    prefix_exponent: unit.prefix_exponent,
                    power,
                },
            );
            k = k + 1;
        }
        proof {
            assert forall|id: nat| bound <= id implies !c.dom().contains(id) by {
                if c.dom().contains(id) {
                    let j = choose|j: int|
                        0 <= j < self.factors().len() && (#[trigger] self.factors()[j]).1 == id;
                    if j < k - 1 {
                        assert(self.factors()[j].1 < self.factors()[k - 1].1);
                    }
                }
            }
            lemma_ratio_skip(c, units, bound, units.len());
        }
        Some(list)
    }

    /// The dimension of this composite unit, if all its units are units of
    /// `instance`: the product of the dimensions of its units, each raised
    /// to the power that the unit has.
    pub fn unit_class(&self, instance: &Instance) -> (found: Option<CompositeUnitClass>)
        ensures
            match found {
                Some(class) => below(self@, instance.units().len()) && class@ == dimension(
                    self@,
                    instance.units(),
                    instance.units().len(),
                ),
                None => !below(self@, instance.units().len()),
            },
    {
        self.check();
        proof {
            self.lemma_view();
            self.lemma_factors_ordered();
        }
        let ghost c = self@;
        let ghost units = instance.units();
        let mut result: CompositeUnitClass = Composite::identity();
        let mut k: usize = 0;
        let ghost mut bound: nat = 0;
        while k < self.len()
            invariant
                self.wf(),
                c == self@,
                units == instance.units(),
                k <= self.factors().len(),
                k == 0 ==> bound == 0,
                k > 0 ==> bound == self.factors()[k - 1].1 + 1,
                bound <= units.len(),
                result@ == dimension(c, units, bound),
                forall|j: int|
                    0 <= j < self.factors().len() ==> exponent(
                        c,
                        (#[trigger] self.factors()[j]).1 as nat,
                    ) == self.factors()[j].0@ && c.dom().contains(self.factors()[j].1 as nat),
                forall|id: nat|
                    c.dom().contains(id) ==> exists|j: int|
                        0 <= j < self.factors().len() && (#[trigger] self.factors()[j]).1 == id,
                forall|i: int, j: int|
                    0 <= i < j < self.factors().len() ==> (#[trigger] self.factors()[i]).1 < (
                    #[trigger] self.factors()[j]).1,
            decreases self.factors().len() - k,
        {
            let (power, index) = self.factor(k);
            let unit: &Unit = match instance.unit(StorageId::from_index(index)) {
                Some(unit) => unit,
                None => {
                    assert(c.dom().contains(index as nat));
                    return None;
                },
            };
            proof {
                assert forall|id: nat| bound <= id < index implies !c.dom().contains(id) by {
                    if c.dom().contains(id) {
                        let j = choose|j: int|
                            0 <= j < self.factors().len() && (#[trigger] self.factors()[j]).1 == id;
                        if j < k {
                            if j < k - 1 {
                                assert(self.factors()[j].1 < self.factors()[k - 1].1);
                            }
                        } else if j > k {
                            assert(self.factors()[k as int].1 < self.factors()[j].1);
                        }
                    }
                }
                if k > 0 {
                    assert(self.factors()[k - 1].1 < self.factors()[k as int].1);
                }
                lemma_ratio_skip(c, units, bound, index as nat);
                assert(c[index as nat] == power@);
                bound = (index + 1) as nat;
            }
            let mut class = unit.class.clone();
            class.pow(power);
            result = result.mul(class);
            k = k + 1;
        }
        proof {
            assert forall|id: nat| bound <= id implies !c.dom().contains(id) by {
                if c.dom().contains(id) {
                    let j = choose|j: int|
                        0 <= j < self.factors().len() && (#[trigger] self.factors()[j]).1 == id;
                    if j < k - 1 {
                        assert(self.factors()[j].1 < self.factors()[k - 1].1);
                    }
                }
            }
            lemma_ratio_skip(c, units, bound, units.len());
        }
        Some(result)
    }

    /// One of this unit as a quantity, where the arithmetic found the ratio
    /// of the unit to the base units to be `ratio`. Needs all the units of
    /// the composite to be units of `instance`.
    pub fn as_scalar(&self, instance: &Instance, ratio: Magnitude) -> (found: Option<Scalar>)
        ensures
            match found {
                Some(s) => below(self@, instance.units().len()) && s@ == (ScalarModel {
                    value: ratio,
                    precision: Precision::Exact,
                    unit: dimension(self@, instance.units(), instance.units().len()),
                    display_unit: self@,
                }),
                None => !below(self@, instance.units().len()),
            },
    {
        match self.unit_class(instance) {
            Some(class) => Some(Scalar::one_of(ratio, class, self.clone())),
            None => None,
        }
    }
}

/// Whether `id` is one of `classes`.
fn has_class(classes: &Vec<EntityClassId>, id: EntityClassId) -> (found: bool)
    ensures
        found == classes_view(classes@).contains(id@),
{
    let mut i: usize = 0;
    while i < classes.len()
        invariant
            i <= classes@.len(),
            forall|j: int| 0 <= j < i ==> classes_view(classes@)[j] != id@,
        decreases classes@.len() - i,
    {
        if classes[i].index() == id.index() {
            assert(classes_view(classes@)[i as int] == id@);
            return true;
        }
        i = i + 1;
    }
    false
}

/// Evaluating a list of properties stops where evaluating its first
/// properties stops.
proof fn lemma_properties_stop(
    instance: &Instance,
    properties: Seq<(Seq<char>, ExpressionModel)>,
    context: AmbiguityResolutionContext,
    answers: Seq<Answer>,
    used: nat,
    upto: int,
)
    requires
        0 <= upto <= properties.len(),
        !(evaluated_properties(instance, properties.take(upto), context, answers, used) is Ready),
    ensures
        evaluated_properties(instance, properties, context, answers, used) == evaluated_properties(
            instance,
            properties.take(upto),
            context,
            answers,
            used,
        ),
    decreases properties.len() - upto,
{
    if upto < properties.len() {
        assert(properties.take(upto + 1).drop_last() =~= properties.take(upto));
        lemma_properties_stop(instance, properties, context, answers, used, upto + 1);
    } else {
        assert(properties.take(upto) =~= properties);
    }
}

impl Instance {
    /// One of the unit `unit` as a quantity.
    fn unit_scalar(&self, unit: &CompositeUnit, answers: &Vec<Answer>, used: usize) -> (stage: Stage<
        Scalar,
    >)
        ensures
            scalar_stage(stage) == unit_scalar(self, unit@, answers@, used as nat),
            stage matches Stage::Ready(_, next) ==> used <= next <= answers@.len(),
    {
        let factors = match unit.base_ratio_factors(self) {
            Some(factors) => factors,
            None => {
                return Stage::Failed(Error::UndefinedName);
            },
        };
        let (ratio, next) = match take_answer(answers, used, Request::Ratio(factors)) {
            Stage::Ready(ratio, next) => (ratio, next),
            Stage::Failed(e) => {
                return Stage::Failed(e);
            },
            Stage::Pending(r) => {
                return Stage::Pending(r);
            },
        };
        match unit.as_scalar(self, ratio.value) {
            Some(one) => Stage::Ready(one, next),
            None => Stage::Failed(Error::UndefinedName),
        }
    }

    /// What a binary operator makes of two quantities.
    fn scalar_binary(
        &self,
        lhs: Scalar,
        op: BinaryOp,
        rhs: Scalar,
        answers: &Vec<Answer>,
        used: usize,
    ) -> (stage: Stage<Data>)
        ensures
            data_stage(stage) == scalar_binary(self, lhs@, op, rhs@, answers@, used as nat),
            stage matches Stage::Ready(_, next) ==> used <= next <= answers@.len(),
    {
        match op {
            BinaryOp::Add => {
                if !lhs.unit().same_dimension(rhs.unit()) {
                    return Stage::Failed(Error::DimensionMismatch);
                }
                let request = Request::Add(operand_of(&lhs), operand_of(&rhs));
                match take_answer(answers, used, request) {
                    Stage::Ready(sum, next) => match lhs.add(&rhs, &sum) {
                        Ok(s) => Stage::Ready(Data::Value(ValueData::Scalar(s)), next),
                        Err(e) => Stage::Failed(e),
                    },
                    Stage::Failed(e) => Stage::Failed(e),
                    Stage::Pending(r) => Stage::Pending(r),
                }
            },
            BinaryOp::Sub => {
                if !lhs.unit().same_dimension(rhs.unit()) {
                    return Stage::Failed(Error::DimensionMismatch);
                }
                let (negated, middle) = match take_answer(
                    answers,
                    used,
                    Request::Negate(rhs.raw_value()),
                ) {
                    Stage::Ready(negated, middle) => (negated, middle),
                    Stage::Failed(e) => {
                        return Stage::Failed(e);
                    },
                    Stage::Pending(r) => {
                        return Stage::Pending(r);
                    },
                };
                let request = Request::Add(
                    operand_of(&lhs),
                    Operand { value: negated.value, precision: rhs.precision() },
                );
                match take_answer(answers, middle, request) {
                    Stage::Ready(sum, next) => match lhs.sub(&rhs, negated.value, &sum) {
                        Ok(s) => Stage::Ready(Data::Value(ValueData::Scalar(s)), next),
                        Err(e) => Stage::Failed(e),
                    },
                    Stage::Failed(e) => Stage::Failed(e),
                    Stage::Pending(r) => Stage::Pending(r),
                }
            },
            BinaryOp::Mul => {
                let request = Request::Mul(operand_of(&lhs), operand_of(&rhs));
                match take_answer(answers, used, request) {
                    Stage::Ready(found, next) => Stage::Ready(
                        Data::Value(ValueData::Scalar(lhs.mul(rhs, &found))),
                        next,
                    ),
                    Stage::Failed(e) => Stage::Failed(e),
                    Stage::Pending(r) => Stage::Pending(r),
                }
            },
            BinaryOp::Div => {
                let request = Request::Div(operand_of(&lhs), operand_of(&rhs));
                match take_answer(answers, used, request) {
                    Stage::Ready(found, next) => Stage::Ready(
                        Data::Value(ValueData::Scalar(lhs.div(rhs, &found))),
                        next,
                    ),
                    Stage::Failed(e) => Stage::Failed(e),
                    Stage::Pending(r) => Stage::Pending(r),
                }
            },
            BinaryOp::Pow => {
                let factors = match rhs.display_unit().base_ratio_factors(self) {
                    Some(factors) => factors,
                    None => {
                        return Stage::Failed(Error::UndefinedName);
                    },
                };
                let (ratio, middle) = match take_answer(answers, used, Request::Ratio(factors)) {
                    Stage::Ready(ratio, middle) => (ratio, middle),
                    Stage::Failed(e) => {
                        return Stage::Failed(e);
                    },
                    Stage::Pending(r) => {
                        return Stage::Pending(r);
                    },
                };
                let request = Request::Pow {
                    base: lhs.raw_value(),
                    exponent: rhs.raw_value(),
                    exponent_ratio: ratio.value,
                };
                match take_answer(answers, middle, request) {
                    Stage::Ready(found, next) => Stage::Ready(
                        Data::Value(ValueData::Scalar(lhs.pow(&found))),
                        next,
                    ),
                    Stage::Failed(e) => Stage::Failed(e),
                    Stage::Pending(r) => Stage::Pending(r),
                }
            },
        }
    }

    /// What a unary operator makes of an operand.
    pub(crate) fn resolve_unary_expression(
        &self,
        op: UnaryOp,
        rhs: Data,
        answers: &Vec<Answer>,
        used: usize,
    ) -> (stage: Stage<Data>)
        ensures
            data_stage(stage) == unary(op, rhs.model(), answers@, used as nat),
            stage matches Stage::Ready(_, next) ==> used <= next <= answers@.len(),
    {
        match rhs {
            Data::Value(ValueData::Scalar(s)) => {
                match take_answer(answers, used, Request::Negate(s.raw_value())) {
                    Stage::Ready(negated, next) => Stage::Ready(
                        Data::Value(ValueData::Scalar(s.neg(negated.value))),
                        next,
                    ),
                    Stage::Failed(e) => Stage::Failed(e),
                    Stage::Pending(r) => Stage::Pending(r),
                }
            },
            _ => Stage::Failed(Error::TypeMismatch),
        }
    }

    /// What a binary operator makes of two operands.
    pub(crate) fn resolve_binary_expression(
        &self,
        lhs: Data,
        op: BinaryOp,
        rhs: Data,
        answers: &Vec<Answer>,
        used: usize,
    ) -> (stage: Stage<Data>)
        requires
            used <= answers@.len(),
        ensures
            data_stage(stage) == binary(self, lhs.model(), op, rhs.model(), answers@, used as nat),
            stage matches Stage::Ready(_, next) ==> used <= next <= answers@.len(),
    {
        match (lhs, rhs) {
            (Data::Meta(MetaData::Unit(a)), Data::Meta(MetaData::Unit(b))) => match op {
                BinaryOp::Mul => Stage::Ready(Data::Meta(MetaData::Unit(a.mul(b))), used),
                BinaryOp::Div => Stage::Ready(Data::Meta(MetaData::Unit(a.div(b))), used),
                _ => Stage::Failed(Error::TypeMismatch),
            },
            (Data::Meta(MetaData::UnitClass(a)), Data::Meta(MetaData::UnitClass(b))) => match op {
                BinaryOp::Mul => Stage::Ready(Data::Meta(MetaData::UnitClass(a.mul(b))), used),
                BinaryOp::Div => Stage::Ready(Data::Meta(MetaData::UnitClass(a.div(b))), used),
                _ => Stage::Failed(Error::TypeMismatch),
            },
            (Data::Value(ValueData::Scalar(s)), Data::Meta(MetaData::Unit(u))) => {
                match op {
                    BinaryOp::Mul | BinaryOp::Div => {},
                    _ => {
                        return Stage::Failed(Error::TypeMismatch);
                    },
                }
                match self.unit_scalar(&u, answers, used) {
                    Stage::Ready(one, next) => self.scalar_binary(s, op, one, answers, next),
                    Stage::Failed(e) => Stage::Failed(e),
                    Stage::Pending(r) => Stage::Pending(r),
                }
            },
            (Data::Meta(MetaData::Unit(u)), Data::Value(ValueData::Scalar(s))) => {
                match op {
                    BinaryOp::Mul | BinaryOp::Div => {},
                    _ => {
                        return Stage::Failed(Error::TypeMismatch);
                    },
                }
                match self.unit_scalar(&u, answers, used) {
                    Stage::Ready(one, next) => self.scalar_binary(one, op, s, answers, next),
                    Stage::Failed(e) => Stage::Failed(e),
                    Stage::Pending(r) => Stage::Pending(r),
                }
            },
            (Data::Value(ValueData::Scalar(a)), Data::Value(ValueData::Scalar(b))) => {
                self.scalar_binary(a, op, b, answers, used)
            },
            _ => Stage::Failed(Error::TypeMismatch),
        }
    }

    /// The classes that the names `names` stand for.
    fn class_tags(&self, names: &Vec<String>) -> (tags: Result<Vec<EntityClassId>, Error>)
        ensures
            match tags {
                Ok(classes) => class_tags(self, names_view(names@)) == Ok::<Seq<nat>, Error>(
                    classes_view(classes@),
                ),
                Err(e) => class_tags(self, names_view(names@)) == Err::<Seq<nat>, Error>(e),
            },
    {
        let mut classes: Vec<EntityClassId> = Vec::new();
        let mut i: usize = 0;
        let ghost all = names_view(names@);
        assert(all.take(0) =~= Seq::<Seq<char>>::empty());
        assert(classes_view(classes@) =~= Seq::<nat>::empty());
        while i < names.len()
            invariant
                i <= names@.len(),
                all == names_view(names@),
                class_tags(self, all.take(i as int)) == Ok::<Seq<nat>, Error>(
                    classes_view(classes@),
                ),
            decreases names@.len() - i,
        {
            proof {
                assert(all.take(i + 1).drop_last() =~= all.take(i as int));
                assert(all.take(i + 1).last() == names@[i as int]@);
            }
            let item = self.lookup_item(&names[i]);
            match item.as_meta {
                Some(MetaData::EntityClass(id)) => {
                    if !has_class(&classes, *id) {
                        assert(classes_view(classes@.push(*id)) =~= classes_view(classes@).push(
                            id@,
                        ));
                        classes.push(*id);
                    }
                },
                Some(_) => {
                    proof {
                        lemma_class_tags_stop(self, all, i + 1);
                    }
                    return Err(Error::TypeMismatch);
                },
                None => {
                    proof {
                        lemma_class_tags_stop(self, all, i + 1);
                    }
                    return Err(Error::UndefinedName);
                },
            }
            i = i + 1;
        }
        assert(all.take(i as int) =~= all);
        Ok(classes)
    }

    /// Evaluates the properties of an entity, one after the other.
    fn resolve_properties(
        &self,
        properties: &Vec<(String, Expression)>,
        context: AmbiguityResolutionContext,
        answers: &Vec<Answer>,
        used: usize,
    ) -> (stage: Stage<Vec<(String, Data)>>)
        requires
            used <= answers@.len(),
        ensures
            properties_stage(stage) == evaluated_properties(
                self,
                properties_view(properties@),
                context,
                answers@,
                used as nat,
            ),
            stage matches Stage::Ready(_, next) ==> used <= next <= answers@.len(),
        decreases properties,
    {
        let ghost all = properties_view(properties@);
        proof {
            lemma_properties_view(properties@);
            assert(all.take(0) =~= Seq::<(Seq<char>, ExpressionModel)>::empty());
        }
        let mut values: Vec<(String, Data)> = Vec::new();
        let mut at: usize = used;
        let mut i: usize = 0;
        while i < properties.len()
            invariant
                i <= properties@.len(),
                used <= at <= answers@.len(),
                all == properties_view(properties@),
                all.len() == properties@.len(),
                forall|k: int|
                    0 <= k < properties@.len() ==> (#[trigger] all[k]) == (
                        properties@[k].0@,
                        properties@[k].1@,
                    ),
                evaluated_properties(self, all.take(i as int), context, answers@, used as nat)
                    == Step::Ready(properties_model(values@), at as nat),
            decreases properties@.len() - i,
        {
            proof {
                assert(all.take(i + 1).drop_last() =~= all.take(i as int));
                assert(all.take(i + 1).last() == all[i as int]);
            }
            match self.resolve_at(&properties[i].1, context, answers, at) {
                Stage::Ready(value, next) => {
                    set_property(&mut values, properties[i].0.clone(), value);
                    at = next;
                },
                Stage::Failed(e) => {
                    proof {
                        lemma_properties_stop(self, all, context, answers@, used as nat, i + 1);
                    }
                    return Stage::Failed(e);
                },
                Stage::Pending(r) => {
                    proof {
                        lemma_properties_stop(self, all, context, answers@, used as nat, i + 1);
                    }
                    return Stage::Pending(r);
                },
            }
            i = i + 1;
        }
        assert(all.take(i as int) =~= all);
        Stage::Ready(values, at)
    }

    /// Evaluates `expression` with the answers behind the `used` first.
    pub(crate) fn resolve_at(
        &self,
        expression: &Expression,
        context: AmbiguityResolutionContext,
        answers: &Vec<Answer>,
        used: usize,
    ) -> (stage: Stage<Data>)
        requires
            used <= answers@.len(),
        ensures
            data_stage(stage) == evaluation(self, expression@, context, answers@, used as nat),
            stage matches Stage::Ready(_, next) ==> used <= next <= answers@.len(),
        decreases expression,
    {
        match expression {
            Expression::NumericLiteral(literal) => {
                match take_answer(answers, used, Request::Literal(literal.clone())) {
                    Stage::Ready(number, next) => Stage::Ready(
                        Data::Value(ValueData::Scalar(Scalar::exact(number.value))),
                        next,
                    ),
                    Stage::Failed(e) => Stage::Failed(e),
                    Stage::Pending(r) => Stage::Pending(r),
                }
            },
            Expression::StringLiteral(text) => Stage::Ready(
                Data::Value(ValueData::String(text.clone())),
                used,
            ),
            Expression::LookupName(name) => {
                let item = self.lookup_item(name);
                match context.resolve(&item) {
                    Some(data) => Stage::Ready(data, used),
                    None => Stage::Failed(Error::UndefinedName),
                }
            },
            Expression::UnaryExpr(op, rhs) => match self.resolve_at(rhs, context, answers, used) {
                Stage::Ready(value, next) => self.resolve_unary_expression(
                    *op,
                    value,
                    answers,
                    next,
                ),
                Stage::Failed(e) => Stage::Failed(e),
                Stage::Pending(r) => Stage::Pending(r),
            },
            Expression::BinaryExpr(lhs, op, rhs) => {
                let (left, middle) = match self.resolve_at(lhs, context, answers, used) {
                    Stage::Ready(left, middle) => (left, middle),
                    Stage::Failed(e) => {
                        return Stage::Failed(e);
                    },
                    Stage::Pending(r) => {
                        return Stage::Pending(r);
                    },
                };
                match self.resolve_at(rhs, context, answers, middle) {
                    Stage::Ready(right, next) => self.resolve_binary_expression(
                        left,
                        *op,
                        right,
                        answers,
                        next,
                    ),
                    Stage::Failed(e) => Stage::Failed(e),
                    Stage::Pending(r) => Stage::Pending(r),
                }
            },
            Expression::ApplyFunction { .. } => Stage::Failed(Error::UnimplementedFeature),
            Expression::BuildEntity { properties, class_names } => {
                let classes = match self.class_tags(class_names) {
                    Ok(classes) => classes,
                    Err(e) => {
                        return Stage::Failed(e);
                    },
                };
                match self.resolve_properties(properties, context, answers, used) {
                    Stage::Ready(values, next) => Stage::Ready(
                        Data::Value(ValueData::Entity(Entity { properties: values, classes })),
                        next,
                    ),
                    Stage::Failed(e) => Stage::Failed(e),
                    Stage::Pending(r) => Stage::Pending(r),
                }
            },
        }
    }

    /// Evaluates `expression` as far as `answers` reach: to its value, to a
    /// failure, or to the request that the next answer has to meet.
    pub fn resolve_expression(
        &self,
        expression: &Expression,
        context: AmbiguityResolutionContext,
        answers: &Vec<Answer>,
    ) -> (resolution: Resolution)
        ensures
            match resolution {
                Resolution::Done(data) => {
                    &&& evaluation(self, expression@, context, answers@, 0) matches Step::Ready(
                        model,
                        _,
                    )
                    &&& data.model() == model
                },
                Resolution::Failed(e) => evaluation(self, expression@, context, answers@, 0)
                    == Step::<DataModel>::Failed(e),
                Resolution::Pending(r) => evaluation(self, expression@, context, answers@, 0)
                    == Step::<DataModel>::Pending(r@),
            },
            self.sound() ==> (resolution matches Resolution::Done(data) ==> well_formed(
                data.model(),
            )),
    {
        proof {
            if self.sound() {
                lemma_evaluation_well_formed(self, expression@, context, answers@, 0);
            }
        }
        match self.resolve_at(expression, context, answers, 0) {
            Stage::Ready(data, _) => Resolution::Done(data),
            Stage::Failed(e) => Resolution::Failed(e),
            Stage::Pending(r) => Resolution::Pending(r),
        }
    }
}

/// Reading class names stops where reading the first of them stops.
proof fn lemma_class_tags_stop(instance: &Instance, names: Seq<Seq<char>>, upto: int)
    requires
        0 <= upto <= names.len(),
        class_tags(instance, names.take(upto)) is Err,
    ensures
        class_tags(instance, names) == class_tags(instance, names.take(upto)),
    decreases names.len() - upto,
{
    if upto < names.len() {
        assert(names.take(upto + 1).drop_last() =~= names.take(upto));
        lemma_class_tags_stop(instance, names, upto + 1);
    } else {
        assert(names.take(upto) =~= names);
    }
}

} // verus!
