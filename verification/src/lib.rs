//! A small language for dimensionally aware physical quantities: unit
//! classes, units, labels and entities are declared by statements, and
//! expressions over them are checked for unit correctness.
//!
//! Source text is read by the grammars of `grammar` and `statement`, over the
//! lexical layer of `lexical`. An `instance::Instance` holds what has been
//! declared; `evaluate` evaluates expressions against it and `execute`
//! executes statements on it. The algebra of units lives in `units`, on top
//! of the factor lists of `bag` and the exponents of `power`.
//!
//! The library is exact where it computes. The exponents of units are
//! decimals with fifteen fractional digits, between -9223.372036854775807
//! and 9223.372036854775807; beyond that range they saturate, and `power`
//! says where their arithmetic is exact. The magnitudes of quantities
//! are carried as they are, in `magnitude::Magnitude`, and never computed
//! with: where an evaluation needs a sum, a product or the number that a
//! literal writes, it asks for it with an `evaluate::Request`, and goes on
//! from the `scalar::Answer` it is given.

pub mod bag;
pub mod data;
pub mod error;
pub mod evaluate;
pub mod execute;
pub mod expression;
pub mod grammar;
pub mod instance;
pub mod lexical;
pub mod magnitude;
pub mod many_to_one;
pub mod power;
pub mod scalar;
pub mod statement;
pub mod storage;
pub mod text;
pub mod units;
