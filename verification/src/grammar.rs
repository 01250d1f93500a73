//! The grammar of expressions, from the loosest binding level to the atoms:
//!
//! ```text
//! expr10 := expr20 ( ('+'|'-') expr20 )*
//! expr20 := expr30 ( ('*'|'/') expr30 )*
//! expr30 := expr40 ( '^' expr40 )*          grouped from the right
//! expr40 := space expr50 space [ '(' arguments ')' ]
//! expr50 := number | name | '"' text '"' | '(' expr10 ')' | '{' fields '}'
//! ```
//!
//! Each rule is a function of the input and a position in it that gives the
//! tree it reads and the position behind it. Alternatives are tried in the
//! order written and the first that matches is taken; a repetition goes on
//! for as long as its item matches.

use crate::error::ParseError;
use crate::expression::{
    expressions_view, lemma_push_name, names_view, properties_view, BinaryOp, Expression,
    ExpressionModel,
};
use crate::lexical::{
    identifier, lemma_skip_space, numeric_literal, scan_identifier, scan_numeric_literal,
    scan_space, skip_space,
};
use crate::text::{chars_of, string_of};
use vstd::prelude::*;

verus! {

/// `found`, if the position in it lies between `at` and the end of the
/// input. Every rule reads forwards, so this holds of all that the rules
/// give; it is what makes them end.
pub open spec fn forward<T>(found: Option<(T, int)>, input: Seq<char>, at: int) -> Option<(T, int)> {
    match found {
        Some((_, next)) => if at <= next <= input.len() {
            found
        } else {
            None
        },
        None => None,
    }
}

/// The end of the text of a string literal that starts at `at`: the first
/// double quote or line feed, or the end of the input.
pub open spec fn text_end(input: Seq<char>, at: int) -> int
    decreases input.len() - at,
{
    if 0 <= at < input.len() && input[at] != '"' && input[at] != '\n' {
        text_end(input, at + 1)
    } else {
        at
    }
}

/// A field of an entity: its name, and its value if it has one.
pub type FieldModel = (Seq<char>, Option<ExpressionModel>);

/// The properties and class names read so far.
pub type FieldsModel = (Seq<(Seq<char>, ExpressionModel)>, Seq<Seq<char>>);

/// `fields` with one more field: a field with a value is a property, one
/// without is the name of a class.
pub open spec fn with_field(fields: FieldsModel, field: FieldModel) -> FieldsModel {
    match field.1 {
        Some(value) => (fields.0.push((field.0, value)), fields.1),
        None => (fields.0, fields.1.push(field.0)),
    }
}

/// The operator that `c` writes at the loosest level.
pub open spec fn additive(c: char) -> Option<BinaryOp> {
    if c == '+' {
        Some(BinaryOp::Add)
    } else if c == '-' {
        Some(BinaryOp::Sub)
    } else {
        None
    }
}

/// The operator that `c` writes at the second level.
pub open spec fn multiplicative(c: char) -> Option<BinaryOp> {
    if c == '*' {
        Some(BinaryOp::Mul)
    } else if c == '/' {
        Some(BinaryOp::Div)
    } else {
        None
    }
}

pub open spec fn binary(lhs: ExpressionModel, op: BinaryOp, rhs: ExpressionModel) -> ExpressionModel {
    ExpressionModel::BinaryExpr(Box::new(lhs), op, Box::new(rhs))
}

/// Sums and differences, grouped from the left.
pub open spec fn expr10(input: Seq<char>, at: int) -> Option<(ExpressionModel, int)>
    decreases input.len() - at, 9nat,
{
    match forward(expr20(input, at), input, at) {
        Some((first, next)) => Some(expr10_more(input, first, next)),
        None => None,
    }
}

/// The rest of a sum whose left operand `lhs` ends at `at`.
pub open spec fn expr10_more(input: Seq<char>, lhs: ExpressionModel, at: int) -> (
    ExpressionModel,
    int,
)
    decreases input.len() - at, 0nat,
{
    if 0 <= at < input.len() && additive(input[at]).is_some() {
        match forward(expr20(input, at + 1), input, at + 1) {
            Some((rhs, next)) => expr10_more(
                input,
                binary(lhs, additive(input[at]).unwrap(), rhs),
                next,
            ),
            None => (lhs, at),
        }
    } else {
        (lhs, at)
    }
}

/// Products and quotients, grouped from the left.
pub open spec fn expr20(input: Seq<char>, at: int) -> Option<(ExpressionModel, int)>
    decreases input.len() - at, 8nat,
{
    match forward(expr30(input, at), input, at) {
        Some((first, next)) => Some(expr20_more(input, first, next)),
        None => None,
    }
}

/// The rest of a product whose left operand `lhs` ends at `at`.
pub open spec fn expr20_more(input: Seq<char>, lhs: ExpressionModel, at: int) -> (
    ExpressionModel,
    int,
)
    decreases input.len() - at, 0nat,
{
    if 0 <= at < input.len() && multiplicative(input[at]).is_some() {
        match forward(expr30(input, at + 1), input, at + 1) {
            Some((rhs, next)) => expr20_more(
                input,
                binary(lhs, multiplicative(input[at]).unwrap(), rhs),
                next,
            ),
            None => (lhs, at),
        }
    } else {
        (lhs, at)
    }
}

/// Powers, grouped from the right.
pub open spec fn expr30(input: Seq<char>, at: int) -> Option<(ExpressionModel, int)>
    decreases input.len() - at, 7nat,
{
    match forward(expr40(input, at), input, at) {
        Some((base, next)) => if next < input.len() && input[next] == '^' {
            match forward(expr30(input, next + 1), input, next + 1) {
                Some((exponent, end)) => Some((binary(base, BinaryOp::Pow, exponent), end)),
                None => Some((base, next)),
            }
        } else {
            Some((base, next))
        },
        None => None,
    }
}

/// An atom with the space around it, and the arguments it is applied to if
/// a parenthesised list follows.
pub open spec fn expr40(input: Seq<char>, at: int) -> Option<(ExpressionModel, int)>
    decreases input.len() - at, 6nat,
{
    if at < 0 || at > input.len() {
        None
    } else {
        proof {
            lemma_skip_space(input, at);
        }
        match forward(expr50(input, skip_space(input, at)), input, skip_space(input, at)) {
            Some((term, end)) => {
                proof {
                    lemma_skip_space(input, end);
                }
                let next = skip_space(input, end);
                if 0 <= next < input.len() && input[next] == '(' {
                    let (arguments, close) = arguments(input, next + 1);
                    let last = skip_space(input, close);
                    if 0 <= last < input.len() && input[last] == ')' {
                        Some(
                            (
                                ExpressionModel::ApplyFunction {
                                    function: Box::new(term),
                                    arguments,
                                },
                                last + 1,
                            ),
                        )
                    } else {
                        Some((term, next))
                    }
                } else {
                    Some((term, next))
                }
            },
            None => None,
        }
    }
}

/// The arguments of an application, behind its opening parenthesis:
/// expressions separated by commas, with a comma allowed behind the last.
pub open spec fn arguments(input: Seq<char>, at: int) -> (Seq<ExpressionModel>, int)
    decreases input.len() - at, 10nat,
{
    match forward(expr10(input, at), input, at) {
        Some((first, next)) => {
            let (all, end) = arguments_more(input, seq![first], next);
            if 0 <= end < input.len() && input[end] == ',' {
                (all, end + 1)
            } else {
                (all, end)
            }
        },
        None => (Seq::empty(), at),
    }
}

/// The rest of a list of arguments of which `read` were read up to `at`.
pub open spec fn arguments_more(input: Seq<char>, read: Seq<ExpressionModel>, at: int) -> (
    Seq<ExpressionModel>,
    int,
)
    decreases input.len() - at, 0nat,
{
    if 0 <= at < input.len() && input[at] == ',' {
        match forward(expr10(input, at + 1), input, at + 1) {
            Some((argument, next)) => arguments_more(input, read.push(argument), next),
            None => (read, at),
        }
    } else {
        (read, at)
    }
}

/// The atoms: a number, a name, a string, an expression in parentheses, or
/// an entity in braces.
pub open spec fn expr50(input: Seq<char>, at: int) -> Option<(ExpressionModel, int)>
    decreases input.len() - at, 5nat,
{
    if at < 0 || at >= input.len() {
        None
    } else if numeric_literal(input, at).is_some() {
        Some(
            (
                ExpressionModel::NumericLiteral(numeric_literal(input, at).unwrap().0),
                numeric_literal(input, at).unwrap().1,
            ),
        )
    } else if identifier(input, at).is_some() {
        Some(
            (
                ExpressionModel::LookupName(identifier(input, at).unwrap().0),
                identifier(input, at).unwrap().1,
            ),
        )
    } else if input[at] == '"' {
        let end = text_end(input, at + 1);
        if 0 <= end < input.len() && input[end] == '"' {
            Some((ExpressionModel::StringLiteral(input.subrange(at + 1, end)), end + 1))
        } else {
            None
        }
    } else if input[at] == '(' {
        match forward(expr10(input, at + 1), input, at + 1) {
            Some((inner, end)) => if end < input.len() && input[end] == ')' {
                Some((inner, end + 1))
            } else {
                None
            },
            None => None,
        }
    } else if input[at] == '{' {
        let (fields, end) = entity_fields(input, at + 1);
        let close = skip_space(input, end);
        if 0 <= close < input.len() && input[close] == '}' {
            Some(
                (
                    ExpressionModel::BuildEntity { properties: fields.0, class_names: fields.1 },
                    close + 1,
                ),
            )
        } else {
            None
        }
    } else {
        None
    }
}

/// The fields of an entity, behind its opening brace: fields separated by
/// commas, with a comma allowed behind the last.
pub open spec fn entity_fields(input: Seq<char>, at: int) -> (FieldsModel, int)
    decreases input.len() - at, 4nat,
{
    let none: FieldsModel = (Seq::empty(), Seq::empty());
    let (fields, end) = match forward(entity_field(input, at), input, at) {
        Some((field, next)) => entity_fields_more(input, with_field(none, field), next),
        None => (none, at),
    };
    let comma = skip_space(input, end);
    if 0 <= comma < input.len() && input[comma] == ',' {
        (fields, skip_space(input, comma + 1))
    } else {
        (fields, end)
    }
}

/// The rest of a list of fields of which `read` were read up to `at`.
pub open spec fn entity_fields_more(input: Seq<char>, read: FieldsModel, at: int) -> (
    FieldsModel,
    int,
)
    decreases input.len() - at, 0nat,
{
    if at < 0 || at > input.len() {
        (read, at)
    } else {
        proof {
            lemma_skip_space(input, at);
        }
        let comma = skip_space(input, at);
        if comma < input.len() && input[comma] == ',' {
            match forward(entity_field(input, comma + 1), input, comma + 1) {
                Some((field, next)) => entity_fields_more(input, with_field(read, field), next),
                None => (read, at),
            }
        } else {
            (read, at)
        }
    }
}

/// One field of an entity, with the space around it: a name, or a name, a
/// colon and a value.
pub open spec fn entity_field(input: Seq<char>, at: int) -> Option<(FieldModel, int)>
    decreases input.len() - at, 3nat,
{
    if at < 0 || at > input.len() {
        None
    } else {
        proof {
            lemma_skip_space(input, at);
        }
        match identifier(input, skip_space(input, at)) {
            Some((name, end)) => {
                let colon = skip_space(input, end);
                let value = if at < end <= colon < input.len() && input[colon] == ':' {
                    forward(expr10(input, colon + 1), input, colon + 1)
                } else {
                    None
                };
                match value {
                    Some((value, next)) => Some(((name, Some(value)), skip_space(input, next))),
                    None => Some(((name, None), colon)),
                }
            },
            None => None,
        }
    }
}

/// The expression at the start of `input`, with the position behind it.
pub open spec fn expression(input: Seq<char>) -> Option<(ExpressionModel, int)> {
    forward(expr10(input, 0), input, 0)
}

proof fn lemma_expr10_more(input: Seq<char>, lhs: ExpressionModel, at: int)
    requires
        0 <= at <= input.len(),
    ensures
        at <= expr10_more(input, lhs, at).1 <= input.len(),
    decreases input.len() - at,
{
    if at < input.len() && additive(input[at]).is_some() {
        match forward(expr20(input, at + 1), input, at + 1) {
            Some((rhs, next)) => {
                lemma_expr10_more(input, binary(lhs, additive(input[at]).unwrap(), rhs), next);
            },
            None => {},
        }
    }
}

proof fn lemma_expr20_more(input: Seq<char>, lhs: ExpressionModel, at: int)
    requires
        0 <= at <= input.len(),
    ensures
        at <= expr20_more(input, lhs, at).1 <= input.len(),
    decreases input.len() - at,
{
    if at < input.len() && multiplicative(input[at]).is_some() {
        match forward(expr30(input, at + 1), input, at + 1) {
            Some((rhs, next)) => {
                lemma_expr20_more(input, binary(lhs, multiplicative(input[at]).unwrap(), rhs), next);
            },
            None => {},
        }
    }
}

proof fn lemma_arguments_more(input: Seq<char>, read: Seq<ExpressionModel>, at: int)
    requires
        0 <= at <= input.len(),
    ensures
        at <= arguments_more(input, read, at).1 <= input.len(),
    decreases input.len() - at,
{
    if at < input.len() && input[at] == ',' {
        match forward(expr10(input, at + 1), input, at + 1) {
            Some((argument, next)) => {
                lemma_arguments_more(input, read.push(argument), next);
            },
            None => {},
        }
    }
}

proof fn lemma_entity_fields_more(input: Seq<char>, read: FieldsModel, at: int)
    requires
        0 <= at <= input.len(),
    ensures
        at <= entity_fields_more(input, read, at).1 <= input.len(),
    decreases input.len() - at,
{
    lemma_skip_space(input, at);
    let comma = skip_space(input, at);
    if comma < input.len() && input[comma] == ',' {
        match forward(entity_field(input, comma + 1), input, comma + 1) {
            Some((field, next)) => {
                lemma_entity_fields_more(input, with_field(read, field), next);
            },
            None => {},
        }
    }
}

/// Every rule reads forwards: the position behind what it read lies
/// between the position it started at and the end of the input.
pub proof fn lemma_reads_forwards(input: Seq<char>, at: int)
    requires
        0 <= at <= input.len(),
    ensures
        forward(expr10(input, at), input, at) == expr10(input, at),
        forward(expr20(input, at), input, at) == expr20(input, at),
        forward(expr30(input, at), input, at) == expr30(input, at),
        forward(expr40(input, at), input, at) == expr40(input, at),
        forward(expr50(input, at), input, at) == expr50(input, at),
        forward(entity_field(input, at), input, at) == entity_field(input, at),
        at <= arguments(input, at).1 <= input.len(),
        at <= entity_fields(input, at).1 <= input.len(),
{
    match forward(expr20(input, at), input, at) {
        Some((first, next)) => {
            lemma_expr10_more(input, first, next);
        },
        None => {},
    }
    match forward(expr30(input, at), input, at) {
        Some((first, next)) => {
            lemma_expr20_more(input, first, next);
        },
        None => {},
    }
    lemma_skip_space(input, at);
    match forward(expr50(input, skip_space(input, at)), input, skip_space(input, at)) {
        Some((term, end)) => {
            lemma_skip_space(input, end);
            let next = skip_space(input, end);
            if next < input.len() {
                lemma_arguments(input, next + 1);
                lemma_skip_space(input, arguments(input, next + 1).1);
            }
        },
        None => {},
    }
    lemma_arguments(input, at);
    if at < input.len() {
        crate::lexical::lemma_numeric_literal(input, at);
        crate::lexical::lemma_identifier(input, at);
        lemma_text_end(input, at + 1);
        lemma_entity_fields(input, at + 1);
        lemma_skip_space(input, entity_fields(input, at + 1).1);
    }
    lemma_entity_fields(input, at);
    lemma_entity_field(input, at);
}

proof fn lemma_text_end(input: Seq<char>, at: int)
    requires
        0 <= at <= input.len(),
    ensures
        at <= text_end(input, at) <= input.len(),
    decreases input.len() - at,
{
    if at < input.len() && input[at] != '"' && input[at] != '\n' {
        lemma_text_end(input, at + 1);
    }
}

proof fn lemma_arguments(input: Seq<char>, at: int)
    requires
        0 <= at <= input.len(),
    ensures
        at <= arguments(input, at).1 <= input.len(),
{
    match forward(expr10(input, at), input, at) {
        Some((first, next)) => {
            lemma_arguments_more(input, seq![first], next);
        },
        None => {},
    }
}

proof fn lemma_entity_field(input: Seq<char>, at: int)
    requires
        0 <= at <= input.len(),
    ensures
        entity_field(input, at) matches Some((_, next)) ==> at < next <= input.len(),
{
    lemma_skip_space(input, at);
    let begin = skip_space(input, at);
    match identifier(input, begin) {
        Some((name, end)) => {
            crate::lexical::lemma_identifier(input, begin);
            lemma_skip_space(input, end);
            let colon = skip_space(input, end);
            if colon < input.len() && input[colon] == ':' {
                match forward(expr10(input, colon + 1), input, colon + 1) {
                    Some((value, next)) => {
                        lemma_skip_space(input, next);
                    },
                    None => {},
                }
            }
        },
        None => {},
    }
}

proof fn lemma_entity_fields(input: Seq<char>, at: int)
    requires
        0 <= at <= input.len(),
    ensures
        at <= entity_fields(input, at).1 <= input.len(),
{
    let none: FieldsModel = (Seq::empty(), Seq::empty());
    let (fields, end) = match forward(entity_field(input, at), input, at) {
        Some((field, next)) => {
            lemma_entity_fields_more(input, with_field(none, field), next);
            entity_fields_more(input, with_field(none, field), next)
        },
        None => (none, at),
    };
    lemma_skip_space(input, end);
    let comma = skip_space(input, end);
    if comma < input.len() {
        lemma_skip_space(input, comma + 1);
    }
}


/// The view of an optional expression.
pub open spec fn value_view(value: Option<Expression>) -> Option<ExpressionModel> {
    match value {
        Some(e) => Some(e@),
        None => None,
    }
}

proof fn lemma_push_expression(list: Seq<Expression>, e: Expression)
    ensures
        expressions_view(list.push(e)) == expressions_view(list).push(e@),
{
    assert(list.push(e).drop_last() =~= list);
}

proof fn lemma_push_property(list: Seq<(String, Expression)>, name: String, e: Expression)
    ensures
        properties_view(list.push((name, e))) == properties_view(list).push((name@, e@)),
{
    assert(list.push((name, e)).drop_last() =~= list);
}

/// Reads a sum.
pub(crate) fn parse_expr10(input: &Vec<char>, at: usize) -> (found: Option<(Expression, usize)>)
    requires
        at <= input@.len(),
    ensures
        match found {
            Some((e, next)) => expr10(input@, at as int) == Some((e@, next as int)) && at <= next
                <= input@.len(),
            None => expr10(input@, at as int).is_none(),
        },
    decreases input@.len() - at, 9nat,
{
    let (first, start) = match parse_expr20(input, at) {
        Some(found) => found,
        None => {
            return None;
        },
    };
    let ghost whole = expr10_more(input@, first@, start as int);
    let mut lhs: Expression = first;
    let mut i: usize = start;
    loop
        invariant
            at <= i <= input@.len(),
            expr10_more(input@, lhs@, i as int) == whole,
        ensures
            at <= i <= input@.len(),
            whole == (lhs@, i as int),
        decreases input@.len() - i,
    {
        if i >= input.len() {
            break;
        }
        let c: char = input[i];
        let op: BinaryOp = if c == '+' {
            BinaryOp::Add
        } else if c == '-' {
            BinaryOp::Sub
        } else {
            break;
        };
        match parse_expr20(input, i + 1) {
            Some((rhs, next)) => {
                lhs = Expression::BinaryExpr(Box::new(lhs), op, Box::new(rhs));
                i = next;
            },
            None => {
                break;
            },
        }
    }
    Some((lhs, i))
}

/// Reads a product.
pub(crate) fn parse_expr20(input: &Vec<char>, at: usize) -> (found: Option<(Expression, usize)>)
    requires
        at <= input@.len(),
    ensures
        match found {
            Some((e, next)) => expr20(input@, at as int) == Some((e@, next as int)) && at <= next
                <= input@.len(),
            None => expr20(input@, at as int).is_none(),
        },
    decreases input@.len() - at, 8nat,
{
    let (first, start) = match parse_expr30(input, at) {
        Some(found) => found,
        None => {
            return None;
        },
    };
    let ghost whole = expr20_more(input@, first@, start as int);
    let mut lhs: Expression = first;
    let mut i: usize = start;
    loop
        invariant
            at <= i <= input@.len(),
            expr20_more(input@, lhs@, i as int) == whole,
        ensures
            at <= i <= input@.len(),
            whole == (lhs@, i as int),
        decreases input@.len() - i,
    {
        if i >= input.len() {
            break;
        }
        let c: char = input[i];
        let op: BinaryOp = if c == '*' {
            BinaryOp::Mul
        } else if c == '/' {
            BinaryOp::Div
        } else {
            break;
        };
        match parse_expr30(input, i + 1) {
            Some((rhs, next)) => {
                lhs = Expression::BinaryExpr(Box::new(lhs), op, Box::new(rhs));
                i = next;
            },
            None => {
                break;
            },
        }
    }
    Some((lhs, i))
}

/// Reads a power.
pub(crate) fn parse_expr30(input: &Vec<char>, at: usize) -> (found: Option<(Expression, usize)>)
    requires
        at <= input@.len(),
    ensures
        match found {
            Some((e, next)) => expr30(input@, at as int) == Some((e@, next as int)) && at <= next
                <= input@.len(),
            None => expr30(input@, at as int).is_none(),
        },
    decreases input@.len() - at, 7nat,
{
    let (base, next) = match parse_expr40(input, at) {
        Some(found) => found,
        None => {
            return None;
        },
    };
    if next < input.len() && input[next] == '^' {
        match parse_expr30(input, next + 1) {
            Some((exponent, end)) => Some(
                (Expression::BinaryExpr(Box::new(base), BinaryOp::Pow, Box::new(exponent)), end),
            ),
            None => Some((base, next)),
        }
    } else {
        Some((base, next))
    }
}

/// Reads an atom with the space around it, and its arguments if it is
/// applied to any.
pub(crate) fn parse_expr40(input: &Vec<char>, at: usize) -> (found: Option<(Expression, usize)>)
    requires
        at <= input@.len(),
    ensures
        match found {
            Some((e, next)) => expr40(input@, at as int) == Some((e@, next as int)) && at <= next
                <= input@.len(),
            None => expr40(input@, at as int).is_none(),
        },
    decreases input@.len() - at, 6nat,
{
    let begin: usize = scan_space(input, at);
    let (term, end) = match parse_expr50(input, begin) {
        Some(found) => found,
        None => {
            return None;
        },
    };
    let next: usize = scan_space(input, end);
    if next < input.len() && input[next] == '(' {
        let (arguments, close) = parse_arguments(input, next + 1);
        let last: usize = scan_space(input, close);
        if last < input.len() && input[last] == ')' {
            return Some((Expression::ApplyFunction { function: Box::new(term), arguments }, last + 1));
        }
    }
    Some((term, next))
}

/// Reads the arguments of an application.
pub(crate) fn parse_arguments(input: &Vec<char>, at: usize) -> (found: (Vec<Expression>, usize))
    requires
        at <= input@.len(),
    ensures
        arguments(input@, at as int) == (expressions_view(found.0@), found.1 as int),
        at <= found.1 <= input@.len(),
    decreases input@.len() - at, 10nat,
{
    let mut list: Vec<Expression> = Vec::new();
    let (first, start) = match parse_expr10(input, at) {
        Some(found) => found,
        None => {
            return (list, at);
        },
    };
    let ghost whole = arguments_more(input@, seq![first@], start as int);
    proof {
        lemma_push_expression(list@, first);
        assert(expressions_view(list@).push(first@) =~= seq![first@]);
    }
    list.push(first);
    let mut i: usize = start;
    loop
        invariant
            at <= i <= input@.len(),
            arguments_more(input@, expressions_view(list@), i as int) == whole,
        ensures
            at <= i <= input@.len(),
            whole == (expressions_view(list@), i as int),
        decreases input@.len() - i,
    {
        if i >= input.len() || input[i] != ',' {
            break;
        }
        match parse_expr10(input, i + 1) {
            Some((argument, next)) => {
                proof {
                    lemma_push_expression(list@, argument);
                }
                list.push(argument);
                i = next;
            },
            None => {
                break;
            },
        }
    }
    if i < input.len() && input[i] == ',' {
        i = i + 1;
    }
    (list, i)
}

/// Reads an atom.
pub(crate) fn parse_expr50(input: &Vec<char>, at: usize) -> (found: Option<(Expression, usize)>)
    requires
        at <= input@.len(),
    ensures
        match found {
            Some((e, next)) => expr50(input@, at as int) == Some((e@, next as int)) && at < next
                <= input@.len(),
            None => expr50(input@, at as int).is_none(),
        },
    decreases input@.len() - at, 5nat,
{
    if at >= input.len() {
        return None;
    }
    if let Some((literal, next)) = scan_numeric_literal(input, at) {
        return Some((Expression::NumericLiteral(literal), next));
    }
    if let Some((name, next)) = scan_identifier(input, at) {
        return Some((Expression::LookupName(name), next));
    }
    let c: char = input[at];
    if c == '"' {
        let mut end: usize = at + 1;
        while end < input.len() && input[end] != '"' && input[end] != '\n'
            invariant
                at + 1 <= end <= input@.len(),
                text_end(input@, end as int) == text_end(input@, at + 1),
            decreases input@.len() - end,
        {
            end = end + 1;
        }
        if end < input.len() && input[end] == '"' {
            Some((Expression::StringLiteral(string_of(input, at + 1, end)), end + 1))
        } else {
            None
        }
    } else if c == '(' {
        match parse_expr10(input, at + 1) {
            Some((inner, end)) => {
                if end < input.len() && input[end] == ')' {
                    Some((inner, end + 1))
                } else {
                    None
                }
            },
            None => None,
        }
    } else if c == '{' {
        let (properties, class_names, end) = parse_entity_fields(input, at + 1);
        let close: usize = scan_space(input, end);
        if close < input.len() && input[close] == '}' {
            Some((Expression::BuildEntity { properties, class_names }, close + 1))
        } else {
            None
        }
    } else {
        None
    }
}

/// Reads the fields of an entity.
pub(crate) fn parse_entity_fields(input: &Vec<char>, at: usize) -> (found: (
    Vec<(String, Expression)>,
    Vec<String>,
    usize,
))
    requires
        at <= input@.len(),
    ensures
        entity_fields(input@, at as int) == (
            (properties_view(found.0@), names_view(found.1@)),
            found.2 as int,
        ),
        at <= found.2 <= input@.len(),
    decreases input@.len() - at, 4nat,
{
    let mut properties: Vec<(String, Expression)> = Vec::new();
    let mut class_names: Vec<String> = Vec::new();
    let mut i: usize = at;
    let ghost none: FieldsModel = (Seq::empty(), Seq::empty());
    let ghost mut whole: (FieldsModel, int) = (none, at as int);
    proof {
        assert(names_view(class_names@) =~= Seq::<Seq<char>>::empty());
    }
    match parse_entity_field(input, at) {
        Some(((name, value), start)) => {
            proof {
                whole = entity_fields_more(input@, with_field(none, (name@, value_view(value))), start as int);
            }
            match value {
                Some(value) => {
                    proof {
                        lemma_push_property(properties@, name, value);
                    }
                    properties.push((name, value));
                },
                None => {
                    proof {
                        lemma_push_name(class_names@, name);
                    }
                    class_names.push(name);
                },
            }
            i = start;
            loop
                invariant
                    at <= i <= input@.len(),
                    entity_fields_more(
                        input@,
                        (properties_view(properties@), names_view(class_names@)),
                        i as int,
                    ) == whole,
                ensures
                    at <= i <= input@.len(),
                    whole == ((properties_view(properties@), names_view(class_names@)), i as int),
                decreases input@.len() - i,
            {
                let comma: usize = scan_space(input, i);
                if comma >= input.len() || input[comma] != ',' {
                    break;
                }
                match parse_entity_field(input, comma + 1) {
                    Some(((name, value), next)) => {
                        match value {
                            Some(value) => {
                                proof {
                                    lemma_push_property(properties@, name, value);
                                }
                                properties.push((name, value));
                            },
                            None => {
                                proof {
                                    lemma_push_name(class_names@, name);
                                }
                                class_names.push(name);
                            },
                        }
                        i = next;
                    },
                    None => {
                        break;
                    },
                }
            }
        },
        None => {},
    }
    let comma: usize = scan_space(input, i);
    if comma < input.len() && input[comma] == ',' {
        i = scan_space(input, comma + 1);
    }
    (properties, class_names, i)
}

/// Reads one field of an entity.
pub(crate) fn parse_entity_field(input: &Vec<char>, at: usize) -> (found: Option<
    ((String, Option<Expression>), usize),
>)
    requires
        at <= input@.len(),
    ensures
        match found {
            Some(((name, value), next)) => entity_field(input@, at as int) == Some(
                ((name@, value_view(value)), next as int),
            ) && at < next <= input@.len(),
            None => entity_field(input@, at as int).is_none(),
        },
    decreases input@.len() - at, 3nat,
{
    let begin: usize = scan_space(input, at);
    let (name, end) = match scan_identifier(input, begin) {
        Some(found) => found,
        None => {
            return None;
        },
    };
    let colon: usize = scan_space(input, end);
    if colon < input.len() && input[colon] == ':' {
        if let Some((value, next)) = parse_expr10(input, colon + 1) {
            let last: usize = scan_space(input, next);
            return Some(((name, Some(value)), last));
        }
    }
    Some(((name, None), colon))
}

/// Reads the expression at the start of `input`. Gives the expression and
/// the input behind it, or fails where the input does not start with an
/// expression.
pub fn parse_expression(input: &str) -> (result: Result<(String, Expression), ParseError>)
    ensures
        match result {
            Ok((rest, e)) => {
                &&& expression(input@) matches Some((model, next))
                &&& e@ == model
                &&& rest@ == input@.subrange(next, input@.len() as int)
            },
            Err(error) => expression(input@).is_none() && error.remaining@ == input@,
        },
{
    let chars = chars_of(input);
    match parse_expr10(&chars, 0) {
        Some((e, next)) => Ok((string_of(&chars, next, chars.len()), e)),
        None => {
            assert(chars@.subrange(0, chars@.len() as int) =~= chars@);
            Err(ParseError { remaining: string_of(&chars, 0, chars.len()) })
        },
    }
}

} // verus!
