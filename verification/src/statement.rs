//! The statements of the language and their grammar:
//!
//! ```text
//! statement := space ( make | show ) space
//! make      := "make" kind "called" name ( ',' name )* [ value ]
//! kind      := unit_class | base_unit | derived_unit | entity_class | label | value
//! show      := "show" expression
//! ```
//!
//! A `unit_class` has no value. A `label` has the word `for` and then its
//! expression. An `entity_class` has a value only where an opening brace
//! follows. The other kinds have an expression, and do not read without one.

use crate::error::ParseError;
use crate::expression::{
    lemma_push_name, names_view, properties_view, Expression, ExpressionModel,
};
use crate::grammar::{expr10, forward, parse_expr10};
use crate::lexical::{identifier, lemma_skip_space, scan_identifier, scan_space, skip_space};
use crate::text::{chars_of, string_of};
use crate::units::copy_names;
use vstd::prelude::*;

verus! {

/// A statement: a declaration under one or more names, or a request to show
/// the value of an expression.
#[derive(Debug)]
pub enum Statement {
    MakeUnitClass(Vec<String>),
    MakeBaseUnit(Vec<String>, Expression),
    MakeDerivedUnit(Vec<String>, Expression),
    MakeEntityClass(Vec<String>, Expression),
    MakeLabel(Vec<String>, Expression),
    MakeValue(Vec<String>, Expression),
    Show(Expression),
}

/// What a `Statement` holds, with strings and lists as sequences.
pub enum StatementModel {
    MakeUnitClass(Seq<Seq<char>>),
    MakeBaseUnit(Seq<Seq<char>>, ExpressionModel),
    MakeDerivedUnit(Seq<Seq<char>>, ExpressionModel),
    MakeEntityClass(Seq<Seq<char>>, ExpressionModel),
    MakeLabel(Seq<Seq<char>>, ExpressionModel),
    MakeValue(Seq<Seq<char>>, ExpressionModel),
    Show(ExpressionModel),
}

impl View for Statement {
    type V = StatementModel;

    open spec fn view(&self) -> StatementModel {
        match self {
            Statement::MakeUnitClass(names) => StatementModel::MakeUnitClass(names_view(names@)),
            Statement::MakeBaseUnit(names, e) => StatementModel::MakeBaseUnit(names_view(names@), e@),
            Statement::MakeDerivedUnit(names, e) => StatementModel::MakeDerivedUnit(
                names_view(names@),
                e@,
            ),
            Statement::MakeEntityClass(names, e) => StatementModel::MakeEntityClass(
                names_view(names@),
                e@,
            ),
            Statement::MakeLabel(names, e) => StatementModel::MakeLabel(names_view(names@), e@),
            Statement::MakeValue(names, e) => StatementModel::MakeValue(names_view(names@), e@),
            Statement::Show(e) => StatementModel::Show(e@),
        }
    }
}

impl Clone for Statement {
    fn clone(&self) -> (copy: Self)
        ensures
            copy@ == self@,
    {
        match self {
            Statement::MakeUnitClass(names) => Statement::MakeUnitClass(copy_names(names)),
            Statement::MakeBaseUnit(names, e) => Statement::MakeBaseUnit(copy_names(names), e.clone()),
            Statement::MakeDerivedUnit(names, e) => Statement::MakeDerivedUnit(
                copy_names(names),
                e.clone(),
            ),
            Statement::MakeEntityClass(names, e) => Statement::MakeEntityClass(
                copy_names(names),
                e.clone(),
            ),
            Statement::MakeLabel(names, e) => Statement::MakeLabel(copy_names(names), e.clone()),
            Statement::MakeValue(names, e) => Statement::MakeValue(copy_names(names), e.clone()),
            Statement::Show(e) => Statement::Show(e.clone()),
        }
    }
}

/// The views of a list of statements.
pub open spec fn statements_view(list: Seq<Statement>) -> Seq<StatementModel> {
    Seq::new(list.len(), |i: int| list[i]@)
}

/// What a `make` statement declares.
#[derive(Clone, Copy, Debug, PartialEq, Eq, Hash, Structural)]
pub enum Kind {
    UnitClass,
    BaseUnit,
    DerivedUnit,
    EntityClass,
    Label,
    Value,
}

/// Whether the characters of `word` stand at `at`.
pub open spec fn word_at(input: Seq<char>, at: int, word: Seq<char>) -> bool {
    0 <= at && at + word.len() <= input.len() && input.subrange(at, at + word.len()) == word
}

/// The kind that is written at `at`, with the position behind it.
pub open spec fn kind(input: Seq<char>, at: int) -> Option<(Kind, int)> {
    if word_at(input, at, "unit_class"@) {
        Some((Kind::UnitClass, at + "unit_class"@.len()))
    } else if word_at(input, at, "base_unit"@) {
        Some((Kind::BaseUnit, at + "base_unit"@.len()))
    } else if word_at(input, at, "derived_unit"@) {
        Some((Kind::DerivedUnit, at + "derived_unit"@.len()))
    } else if word_at(input, at, "entity_class"@) {
        Some((Kind::EntityClass, at + "entity_class"@.len()))
    } else if word_at(input, at, "label"@) {
        Some((Kind::Label, at + "label"@.len()))
    } else if word_at(input, at, "value"@) {
        Some((Kind::Value, at + "value"@.len()))
    } else {
        None
    }
}

/// A name with the space around it.
pub open spec fn spaced_name(input: Seq<char>, at: int) -> Option<(Seq<char>, int)> {
    match identifier(input, skip_space(input, at)) {
        Some((name, end)) => Some((name, skip_space(input, end))),
        None => None,
    }
}

/// One or more names, separated by commas.
pub open spec fn names(input: Seq<char>, at: int) -> Option<(Seq<Seq<char>>, int)> {
    match forward(spaced_name(input, at), input, at) {
        Some((first, next)) => Some(names_more(input, seq![first], next)),
        None => None,
    }
}

/// The rest of a list of names of which `read` were read up to `at`.
pub open spec fn names_more(input: Seq<char>, read: Seq<Seq<char>>, at: int) -> (
    Seq<Seq<char>>,
    int,
)
    decreases input.len() - at,
{
    if 0 <= at < input.len() && input[at] == ',' {
        match forward(spaced_name(input, at + 1), input, at + 1) {
            Some((name, next)) => names_more(input, read.push(name), next),
            None => (read, at),
        }
    } else {
        (read, at)
    }
}

/// An expression with the space behind it.
pub open spec fn spaced_expression(input: Seq<char>, at: int) -> Option<(ExpressionModel, int)> {
    match forward(expr10(input, at), input, at) {
        Some((e, end)) => Some((e, skip_space(input, end))),
        None => None,
    }
}

/// The entity without properties or classes.
pub open spec fn empty_entity() -> ExpressionModel {
    ExpressionModel::BuildEntity { properties: Seq::empty(), class_names: Seq::empty() }
}

/// The statement that declares `names` as `kind`, read up to `at`, where the
/// value, if the kind has one, has still to be read.
pub open spec fn make_value(input: Seq<char>, kind: Kind, names: Seq<Seq<char>>, at: int) -> Option<
    (StatementModel, int),
> {
    match kind {
        Kind::UnitClass => Some((StatementModel::MakeUnitClass(names), at)),
        Kind::EntityClass => {
            let brace = skip_space(input, at);
            if 0 <= brace < input.len() && input[brace] == '{' && spaced_expression(
                input,
                at,
            ).is_some() {
                Some(
                    (
                        StatementModel::MakeEntityClass(names, spaced_expression(input, at).unwrap().0),
                        spaced_expression(input, at).unwrap().1,
                    ),
                )
            } else {
                Some((StatementModel::MakeEntityClass(names, empty_entity()), at))
            }
        },
        Kind::Label => {
            let word = skip_space(input, at);
            if word_at(input, word, "for"@) {
                match spaced_expression(input, word + "for"@.len()) {
                    Some((e, end)) => Some((StatementModel::MakeLabel(names, e), end)),
                    None => None,
                }
            } else {
                None
            }
        },
        Kind::BaseUnit => match spaced_expression(input, at) {
            Some((e, end)) => Some((StatementModel::MakeBaseUnit(names, e), end)),
            None => None,
        },
        Kind::DerivedUnit => match spaced_expression(input, at) {
            Some((e, end)) => Some((StatementModel::MakeDerivedUnit(names, e), end)),
            None => None,
        },
        Kind::Value => match spaced_expression(input, at) {
            Some((e, end)) => Some((StatementModel::MakeValue(names, e), end)),
            None => None,
        },
    }
}

/// A `make` statement.
pub open spec fn make(input: Seq<char>, at: int) -> Option<(StatementModel, int)> {
    if word_at(input, at, "make"@) {
        match kind(input, skip_space(input, at + "make"@.len())) {
            Some((kind, end)) => {
                let called = skip_space(input, end);
                if word_at(input, called, "called"@) {
                    match names(input, called + "called"@.len()) {
                        Some((names, next)) => make_value(input, kind, names, next),
                        None => None,
                    }
                } else {
                    None
                }
            },
            None => None,
        }
    } else {
        None
    }
}

/// A `show` statement.
pub open spec fn show(input: Seq<char>, at: int) -> Option<(StatementModel, int)> {
    if word_at(input, at, "show"@) {
        match forward(
            expr10(input, skip_space(input, at + "show"@.len())),
            input,
            skip_space(input, at + "show"@.len()),
        ) {
            Some((e, end)) => Some((StatementModel::Show(e), end)),
            None => None,
        }
    } else {
        None
    }
}

/// A statement with the space around it.
pub open spec fn statement(input: Seq<char>, at: int) -> Option<(StatementModel, int)> {
    let begin = skip_space(input, at);
    let found = if make(input, begin).is_some() {
        make(input, begin)
    } else {
        show(input, begin)
    };
    match found {
        Some((s, end)) => Some((s, skip_space(input, end))),
        None => None,
    }
}

/// The statements from `at` on, as many as can be read, with the position
/// behind the last.
pub open spec fn statements_more(input: Seq<char>, read: Seq<StatementModel>, at: int) -> (
    Seq<StatementModel>,
    int,
)
    decreases input.len() - at,
{
    match statement(input, at) {
        Some((s, next)) => if at < next <= input.len() {
            statements_more(input, read.push(s), next)
        } else {
            (read, at)
        },
        None => (read, at),
    }
}

/// The statements of a whole program, with the position where reading
/// stopped.
pub open spec fn program(input: Seq<char>) -> (Seq<StatementModel>, int) {
    statements_more(input, Seq::empty(), 0)
}

/// Whether `input` is a program: one or more statements and nothing else.
pub open spec fn is_program(input: Seq<char>) -> bool {
    program(input).0.len() > 0 && program(input).1 == input.len()
}

proof fn lemma_names_more(input: Seq<char>, read: Seq<Seq<char>>, at: int)
    requires
        0 <= at <= input.len(),
    ensures
        at <= names_more(input, read, at).1 <= input.len(),
    decreases input.len() - at,
{
    if at < input.len() && input[at] == ',' {
        match forward(spaced_name(input, at + 1), input, at + 1) {
            Some((name, next)) => {
                lemma_names_more(input, read.push(name), next);
            },
            None => {},
        }
    }
}

proof fn lemma_spaced_expression(input: Seq<char>, at: int)
    requires
        0 <= at <= input.len(),
    ensures
        spaced_expression(input, at) matches Some((_, next)) ==> at <= next <= input.len(),
{
    match forward(expr10(input, at), input, at) {
        Some((e, end)) => {
            lemma_skip_space(input, end);
        },
        None => {},
    }
}

/// A statement reads forwards, and at least one character: the position
/// behind it lies behind the position it started at, within the input.
pub proof fn lemma_statement_reads_forwards(input: Seq<char>, at: int)
    requires
        0 <= at <= input.len(),
    ensures
        statement(input, at) matches Some((_, next)) ==> at < next <= input.len(),
{
    reveal_strlit("make");
    reveal_strlit("show");
    lemma_skip_space(input, at);
    let begin = skip_space(input, at);
    if make(input, begin).is_some() {
        let after_make = begin + "make"@.len();
        lemma_skip_space(input, after_make);
        let (kind, end) = kind(input, skip_space(input, after_make)).unwrap();
        lemma_skip_space(input, end);
        let called = skip_space(input, end);
        let after_called = called + "called"@.len();
        let (all, next) = names(input, after_called).unwrap();
        match forward(spaced_name(input, after_called), input, after_called) {
            Some((first, middle)) => {
                lemma_names_more(input, seq![first], middle);
            },
            None => {},
        }
        lemma_spaced_expression(input, next);
        lemma_skip_space(input, next);
        let word = skip_space(input, next);
        if word_at(input, word, "for"@) {
            lemma_spaced_expression(input, word + "for"@.len());
        }
        let last = make(input, begin).unwrap().1;
        lemma_skip_space(input, last);
    } else if show(input, begin).is_some() {
        let after_show = begin + "show"@.len();
        lemma_skip_space(input, after_show);
        let last = show(input, begin).unwrap().1;
        lemma_skip_space(input, last);
    }
}


/// The position behind `word`, if its characters stand at `at`.
pub(crate) fn scan_word(input: &Vec<char>, at: usize, word: &str) -> (found: Option<usize>)
    requires
        at <= input@.len(),
    ensures
        match found {
            Some(next) => word_at(input@, at as int, word@) && next == at + word@.len(),
            None => !word_at(input@, at as int, word@),
        },
{
    let letters = chars_of(word);
    if letters.len() > input.len() - at {
        return None;
    }
    let mut i: usize = 0;
    while i < letters.len()
        invariant
            i <= letters@.len(),
            letters@ == word@,
            at + letters@.len() <= input@.len() <= usize::MAX,
            forall|k: int| 0 <= k < i ==> input@[at + k] == letters@[k],
        decreases letters@.len() - i,
    {
        if input[at + i] != letters[i] {
            assert(input@.subrange(at as int, at + word@.len())[i as int] != word@[i as int]);
            return None;
        }
        i = i + 1;
    }
    assert(input@.subrange(at as int, at + word@.len()) =~= word@);
    Some(at + letters.len())
}

/// Reads the kind of a declaration.
fn parse_kind(input: &Vec<char>, at: usize) -> (found: Option<(Kind, usize)>)
    requires
        at <= input@.len(),
    ensures
        match found {
            Some((k, next)) => kind(input@, at as int) == Some((k, next as int)) && at <= next
                <= input@.len(),
            None => kind(input@, at as int).is_none(),
        },
{
    if let Some(next) = scan_word(input, at, "unit_class") {
        Some((Kind::UnitClass, next))
    } else if let Some(next) = scan_word(input, at, "base_unit") {
        Some((Kind::BaseUnit, next))
    } else if let Some(next) = scan_word(input, at, "derived_unit") {
        Some((Kind::DerivedUnit, next))
    } else if let Some(next) = scan_word(input, at, "entity_class") {
        Some((Kind::EntityClass, next))
    } else if let Some(next) = scan_word(input, at, "label") {
        Some((Kind::Label, next))
    } else if let Some(next) = scan_word(input, at, "value") {
        Some((Kind::Value, next))
    } else {
        None
    }
}

/// Reads a name with the space around it.
fn parse_spaced_name(input: &Vec<char>, at: usize) -> (found: Option<(String, usize)>)
    requires
        at <= input@.len(),
    ensures
        match found {
            Some((name, next)) => spaced_name(input@, at as int) == Some((name@, next as int))
                && at < next <= input@.len(),
            None => spaced_name(input@, at as int).is_none(),
        },
{
    let begin: usize = scan_space(input, at);
    match scan_identifier(input, begin) {
        Some((name, end)) => Some((name, scan_space(input, end))),
        None => None,
    }
}

/// Reads the names of a declaration.
fn parse_names(input: &Vec<char>, at: usize) -> (found: Option<(Vec<String>, usize)>)
    requires
        at <= input@.len(),
    ensures
        match found {
            Some((list, next)) => names(input@, at as int) == Some(
                (names_view(list@), next as int),
            ) && at < next <= input@.len(),
            None => names(input@, at as int).is_none(),
        },
{
    let (first, start) = match parse_spaced_name(input, at) {
        Some(found) => found,
        None => {
            return None;
        },
    };
    let mut list: Vec<String> = Vec::new();
    let ghost whole = names_more(input@, seq![first@], start as int);
    proof {
        lemma_push_name(list@, first);
        assert(names_view(list@).push(first@) =~= seq![first@]);
    }
    list.push(first);
    let mut i: usize = start;
    loop
        invariant
            at < i <= input@.len(),
            names_more(input@, names_view(list@), i as int) == whole,
        ensures
            at < i <= input@.len(),
            whole == (names_view(list@), i as int),
        decreases input@.len() - i,
    {
        if i >= input.len() || input[i] != ',' {
            break;
        }
        match parse_spaced_name(input, i + 1) {
            Some((name, next)) => {
                proof {
                    lemma_push_name(list@, name);
                }
                list.push(name);
                i = next;
            },
            None => {
                break;
            },
        }
    }
    Some((list, i))
}

/// Reads an expression with the space behind it.
fn parse_spaced_expression(input: &Vec<char>, at: usize) -> (found: Option<(Expression, usize)>)
    requires
        at <= input@.len(),
    ensures
        match found {
            Some((e, next)) => spaced_expression(input@, at as int) == Some((e@, next as int))
                && at <= next <= input@.len(),
            None => spaced_expression(input@, at as int).is_none(),
        },
{
    match parse_expr10(input, at) {
        Some((e, end)) => Some((e, scan_space(input, end))),
        None => None,
    }
}

/// Reads a `make` statement.
pub(crate) fn parse_make(input: &Vec<char>, at: usize) -> (found: Option<(Statement, usize)>)
    requires
        at <= input@.len(),
    ensures
        match found {
            Some((s, next)) => make(input@, at as int) == Some((s@, next as int)) && at < next
                <= input@.len(),
            None => make(input@, at as int).is_none(),
        },
{
    let after_make: usize = match scan_word(input, at, "make") {
        Some(next) => scan_space(input, next),
        None => {
            return None;
        },
    };
    proof {
        reveal_strlit("make");
    }
    let (kind, end) = match parse_kind(input, after_make) {
        Some(found) => found,
        None => {
            return None;
        },
    };
    let called: usize = scan_space(input, end);
    let after_called: usize = match scan_word(input, called, "called") {
        Some(next) => next,
        None => {
            return None;
        },
    };
    let (names, next) = match parse_names(input, after_called) {
        Some(found) => found,
        None => {
            return None;
        },
    };
    match kind {
        Kind::UnitClass => Some((Statement::MakeUnitClass(names), next)),
        Kind::EntityClass => {
            let brace: usize = scan_space(input, next);
            if brace < input.len() && input[brace] == '{' {
                if let Some((e, last)) = parse_spaced_expression(input, next) {
                    return Some((Statement::MakeEntityClass(names, e), last));
                }
            }
            let properties: Vec<(String, Expression)> = Vec::new();
            let class_names: Vec<String> = Vec::new();
            assert(names_view(class_names@) =~= Seq::<Seq<char>>::empty());
            assert(properties_view(properties@) =~= Seq::<(Seq<char>, ExpressionModel)>::empty());
            Some(
                (
                    Statement::MakeEntityClass(
                        names,
                        Expression::BuildEntity { properties, class_names },
                    ),
                    next,
                ),
            )
        },
        Kind::Label => {
            let word: usize = scan_space(input, next);
            let after_for: usize = match scan_word(input, word, "for") {
                Some(next) => next,
                None => {
                    return None;
                },
            };
            match parse_spaced_expression(input, after_for) {
                Some((e, last)) => Some((Statement::MakeLabel(names, e), last)),
                None => None,
            }
        },
        Kind::BaseUnit => match parse_spaced_expression(input, next) {
            Some((e, last)) => Some((Statement::MakeBaseUnit(names, e), last)),
            None => None,
        },
        Kind::DerivedUnit => match parse_spaced_expression(input, next) {
            Some((e, last)) => Some((Statement::MakeDerivedUnit(names, e), last)),
            None => None,
        },
        Kind::Value => match parse_spaced_expression(input, next) {
            Some((e, last)) => Some((Statement::MakeValue(names, e), last)),
            None => None,
        },
    }
}

/// Reads a `show` statement.
pub(crate) fn parse_show(input: &Vec<char>, at: usize) -> (found: Option<(Statement, usize)>)
    requires
        at <= input@.len(),
    ensures
        match found {
            Some((s, next)) => show(input@, at as int) == Some((s@, next as int)) && at < next
                <= input@.len(),
            None => show(input@, at as int).is_none(),
        },
{
    let begin: usize = match scan_word(input, at, "show") {
        Some(next) => scan_space(input, next),
        None => {
            return None;
        },
    };
    proof {
        reveal_strlit("show");
    }
    match parse_expr10(input, begin) {
        Some((e, end)) => Some((Statement::Show(e), end)),
        None => None,
    }
}

/// Reads a statement with the space around it.
pub(crate) fn parse_statement_at(input: &Vec<char>, at: usize) -> (found: Option<(Statement, usize)>)
    requires
        at <= input@.len(),
    ensures
        match found {
            Some((s, next)) => statement(input@, at as int) == Some((s@, next as int)) && at < next
                <= input@.len(),
            None => statement(input@, at as int).is_none(),
        },
{
    let begin: usize = scan_space(input, at);
    let found = match parse_make(input, begin) {
        Some(found) => Some(found),
        None => parse_show(input, begin),
    };
    match found {
        Some((s, end)) => Some((s, scan_space(input, end))),
        None => None,
    }
}

/// Reads the statement at the start of `input`. Gives the input behind it
/// and the statement, or fails where the input does not start with one.
pub fn parse_statement(input: &str) -> (result: Result<(String, Statement), ParseError>)
    ensures
        match result {
            Ok((rest, s)) => {
                &&& statement(input@, 0) matches Some((model, next))
                &&& s@ == model
                &&& 0 <= next <= input@.len()
                &&& rest@ == input@.subrange(next, input@.len() as int)
            },
            Err(error) => statement(input@, 0).is_none() && error.remaining@ == input@,
        },
{
    let chars = chars_of(input);
    match parse_statement_at(&chars, 0) {
        Some((s, next)) => Ok((string_of(&chars, next, chars.len()), s)),
        None => {
            assert(chars@.subrange(0, chars@.len() as int) =~= chars@);
            Err(ParseError { remaining: string_of(&chars, 0, chars.len()) })
        },
    }
}

/// Reads a whole program: one statement after the other, to the end of the
/// input. Fails where no statement can be read or where input is left over,
/// and reports what was left.
pub fn parse_statements(input: &str) -> (result: Result<Vec<Statement>, ParseError>)
    ensures
        match result {
            Ok(list) => is_program(input@) && statements_view(list@) == program(input@).0,
            Err(error) => !is_program(input@) && error.remaining@ == input@.subrange(
                program(input@).1,
                input@.len() as int,
            ),
        },
{
    let chars = chars_of(input);
    let mut list: Vec<Statement> = Vec::new();
    let mut i: usize = 0;
    assert(statements_view(list@) =~= Seq::<StatementModel>::empty());
    loop
        invariant
            chars@ == input@,
            i <= chars@.len(),
            statements_more(chars@, statements_view(list@), i as int) == program(chars@),
        ensures
            chars@ == input@,
            i <= chars@.len(),
            program(chars@) == (statements_view(list@), i as int),
        decreases chars@.len() - i,
    {
        match parse_statement_at(&chars, i) {
            Some((s, next)) => {
                assert(statements_view(list@.push(s)) =~= statements_view(list@).push(s@));
                list.push(s);
                i = next;
            },
            None => {
                break;
            },
        }
    }
    if list.len() > 0 && i == chars.len() {
        Ok(list)
    } else {
        Err(ParseError { remaining: string_of(&chars, i, chars.len()) })
    }
}

} // verus!
