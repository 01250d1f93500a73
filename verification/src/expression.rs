//! The expressions of the language, as trees.

use vstd::prelude::*;

verus! {

#[derive(Clone, Copy, Debug, PartialEq, Eq, Hash, Structural)]
pub enum UnaryOp {
    Negate,
}

#[derive(Clone, Copy, Debug, PartialEq, Eq, Hash, Structural)]
pub enum BinaryOp {
    Add,
    Sub,
    Mul,
    Div,
    Pow,
}

/// A numeric literal as it was written: the sign, the digits before and
/// after the decimal point, and the decimal exponent. Turning it into a
/// magnitude is left to whoever does the arithmetic.
#[derive(Debug)]
pub struct NumberLiteral {
    /// Whether the literal began with a minus sign.
    pub negative: bool,
    /// The digits before the decimal point, if there were any.
    pub integer_part: Option<String>,
    /// The digits after the decimal point, if there was one.
    pub fractional_part: Option<String>,
    /// The signed decimal exponent, if one was written. Zero where
    /// `malformed` is set.
    pub exponent: Option<i32>,
    /// Whether the exponent was too large to read. Such a literal stands for
    /// no number at all.
    pub malformed: bool,
}

/// What a `NumberLiteral` holds, with its digits as sequences.
pub struct NumberLiteralModel {
    pub negative: bool,
    pub integer_part: Option<Seq<char>>,
    pub fractional_part: Option<Seq<char>>,
    pub exponent: Option<i32>,
    pub malformed: bool,
}

/// The view of an optional string.
pub open spec fn text_view(text: Option<String>) -> Option<Seq<char>> {
    match text {
        Some(s) => Some(s@),
        None => None,
    }
}

impl View for NumberLiteral {
    type V = NumberLiteralModel;

    open spec fn view(&self) -> NumberLiteralModel {
        NumberLiteralModel {
            negative: self.negative,
            integer_part: text_view(self.integer_part),
            fractional_part: text_view(self.fractional_part),
            exponent: self.exponent,
            malformed: self.malformed,
        }
    }
}

impl Clone for NumberLiteral {
    fn clone(&self) -> (copy: Self)
        ensures
            copy@ == self@,
    {
        NumberLiteral {
            negative: self.negative,
            integer_part: match &self.integer_part {
                Some(s) => Some(s.clone()),
                None => None,
            },
            fractional_part: match &self.fractional_part {
                Some(s) => Some(s.clone()),
                None => None,
            },
            exponent: self.exponent,
            malformed: self.malformed,
        }
    }
}

/// An expression.
#[derive(Debug)]
pub enum Expression {
    NumericLiteral(NumberLiteral),
    StringLiteral(String),
    LookupName(String),
    UnaryExpr(UnaryOp, Box<Expression>),
    BinaryExpr(Box<Expression>, BinaryOp, Box<Expression>),
    ApplyFunction { function: Box<Expression>, arguments: Vec<Expression> },
    /// An entity written out: its properties with their values, and the
    /// names of the classes it is tagged with.
    BuildEntity { properties: Vec<(String, Expression)>, class_names: Vec<String> },
}

/// What an `Expression` holds, with strings and lists as sequences.
pub enum ExpressionModel {
    NumericLiteral(NumberLiteralModel),
    StringLiteral(Seq<char>),
    LookupName(Seq<char>),
    UnaryExpr(UnaryOp, Box<ExpressionModel>),
    BinaryExpr(Box<ExpressionModel>, BinaryOp, Box<ExpressionModel>),
    ApplyFunction { function: Box<ExpressionModel>, arguments: Seq<ExpressionModel> },
    BuildEntity { properties: Seq<(Seq<char>, ExpressionModel)>, class_names: Seq<Seq<char>> },
}

/// The views of a list of strings.
pub open spec fn names_view(names: Seq<String>) -> Seq<Seq<char>> {
    Seq::new(names.len(), |i: int| names[i]@)
}

/// The views of a list with one more name are the views of the list with
/// the view of the name behind them.
pub proof fn lemma_push_name(list: Seq<String>, name: String)
    ensures
        names_view(list.push(name)) == names_view(list).push(name@),
{
    assert(names_view(list.push(name)) =~= names_view(list).push(name@));
}

/// The views of a list of expressions.
pub open spec fn expressions_view(list: Seq<Expression>) -> Seq<ExpressionModel>
    decreases list,
{
    if list.len() == 0 {
        Seq::empty()
    } else {
        expressions_view(list.drop_last()).push(list.last().model())
    }
}

/// The views of a list of named expressions.
pub open spec fn properties_view(list: Seq<(String, Expression)>) -> Seq<
    (Seq<char>, ExpressionModel),
>
    decreases list,
{
    if list.len() == 0 {
        Seq::empty()
    } else {
        properties_view(list.drop_last()).push((list.last().0@, list.last().1.model()))
    }
}

impl Expression {
    /// What this expression holds.
    pub open spec fn model(&self) -> ExpressionModel
        decreases self,
    {
        match self {
            Expression::NumericLiteral(literal) => ExpressionModel::NumericLiteral(literal@),
            Expression::StringLiteral(text) => ExpressionModel::StringLiteral(text@),
            Expression::LookupName(name) => ExpressionModel::LookupName(name@),
            Expression::UnaryExpr(op, rhs) => ExpressionModel::UnaryExpr(*op, Box::new(rhs.model())),
            Expression::BinaryExpr(lhs, op, rhs) => ExpressionModel::BinaryExpr(
                Box::new(lhs.model()),
                *op,
                Box::new(rhs.model()),
            ),
            Expression::ApplyFunction { function, arguments } => ExpressionModel::ApplyFunction {
                function: Box::new(function.model()),
                arguments: expressions_view(arguments@),
            },
            Expression::BuildEntity { properties, class_names } => ExpressionModel::BuildEntity {
                properties: properties_view(properties@),
                class_names: names_view(class_names@),
            },
        }
    }
}

impl Expression {
    /// A copy of this expression.
    pub fn duplicate(&self) -> (copy: Expression)
        ensures
            copy@ == self@,
        decreases self,
    {
        match self {
            Expression::NumericLiteral(literal) => Expression::NumericLiteral(literal.clone()),
            Expression::StringLiteral(text) => Expression::StringLiteral(text.clone()),
            Expression::LookupName(name) => Expression::LookupName(name.clone()),
            Expression::UnaryExpr(op, rhs) => Expression::UnaryExpr(*op, Box::new(rhs.duplicate())),
            Expression::BinaryExpr(lhs, op, rhs) => Expression::BinaryExpr(
                Box::new(lhs.duplicate()),
                *op,
                Box::new(rhs.duplicate()),
            ),
            Expression::ApplyFunction { function, arguments } => {
                let mut list: Vec<Expression> = Vec::new();
                let mut i: usize = 0;
                while i < arguments.len()
                    invariant
                        i <= arguments@.len(),
                        self is ApplyFunction,
                        self->arguments == *arguments,
                        expressions_view(list@) == expressions_view(arguments@.take(i as int)),
                    decreases arguments@.len() - i,
                {
                    let item = arguments[i].duplicate();
                    proof {
                        assert(arguments@.take(i + 1).drop_last() =~= arguments@.take(i as int));
                        assert(list@.push(item).drop_last() =~= list@);
                    }
                    list.push(item);
                    i = i + 1;
                }
                assert(arguments@.take(i as int) =~= arguments@);
                Expression::ApplyFunction { function: Box::new(function.duplicate()), arguments: list }
            },
            Expression::BuildEntity { properties, class_names } => {
                let mut list: Vec<(String, Expression)> = Vec::new();
                let mut i: usize = 0;
                while i < properties.len()
                    invariant
                        i <= properties@.len(),
                        self is BuildEntity,
                        self->properties == *properties,
                        properties_view(list@) == properties_view(properties@.take(i as int)),
                    decreases properties@.len() - i,
                {
                    let name = properties[i].0.clone();
                    let item = properties[i].1.duplicate();
                    proof {
                        assert(properties@.take(i + 1).drop_last() =~= properties@.take(i as int));
                        assert(list@.push((name, item)).drop_last() =~= list@);
                    }
                    list.push((name, item));
                    i = i + 1;
                }
                assert(properties@.take(i as int) =~= properties@);
                let mut names: Vec<String> = Vec::new();
                let mut j: usize = 0;
                while j < class_names.len()
                    invariant
                        j <= class_names@.len(),
                        names@.len() == j,
                        forall|k: int| 0 <= k < j ==> names@[k]@ == class_names@[k]@,
                    decreases class_names@.len() - j,
                {
                    names.push(class_names[j].clone());
                    j = j + 1;
                }
                assert(names_view(names@) =~= names_view(class_names@));
                Expression::BuildEntity { properties: list, class_names: names }
            },
        }
    }
}

impl Clone for Expression {
    fn clone(&self) -> (copy: Self)
        ensures
            copy@ == self@,
    {
        self.duplicate()
    }
}

impl View for Expression {
    type V = ExpressionModel;

    open spec fn view(&self) -> ExpressionModel {
        self.model()
    }
}

/// The view of a list of properties has the views of its items, in order.
pub proof fn lemma_properties_view(list: Seq<(String, Expression)>)
    ensures
        properties_view(list).len() == list.len(),
        forall|i: int|
            0 <= i < list.len() ==> (#[trigger] properties_view(list)[i]) == (
                list[i].0@,
                list[i].1@,
            ),
    decreases list.len(),
{
    if list.len() > 0 {
        lemma_properties_view(list.drop_last());
    }
}

} // verus!
