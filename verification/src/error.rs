//! The ways in which reading or evaluating the language can fail.

use vstd::prelude::*;

verus! {

/// The source text is not in the language, or is more than one item of it.
#[derive(Debug)]
pub struct ParseError {
    /// The input that was left unread when reading stopped.
    pub remaining: String,
}

/// An evaluation or a declaration failed.
#[derive(Clone, Copy, Debug, PartialEq, Eq, Hash, Structural)]
pub enum Error {
    /// One of the names of a declaration is already taken.
    NameCollision,
    /// A name stands for nothing.
    UndefinedName,
    /// Quantities of different dimensions were added or subtracted.
    DimensionMismatch,
    /// An operator met operands it is not defined for, or an entity does not
    /// have the properties that are asked of it.
    TypeMismatch,
    /// Applying a function is part of the grammar, not of the evaluator.
    UnimplementedFeature,
}

} // verus!
