//! Extended regular expressions with Brzozowski derivatives.
//!
//! Terms are built over a caller-chosen alphabet through a builder, can be
//! tested for nullability, differentiated, matched against words and compiled
//! into a deterministic automaton.

use vstd::prelude::*;

pub mod alphabet;
pub mod automaton;
pub mod builder;
pub mod derivation;
pub mod display;
pub mod language;
pub mod nullability;
pub mod ops;

pub use alphabet::Alphabet;
pub use automaton::FiniteAutomaton;
pub use automaton::Matcher;

verus! {

/// A regular expression over `S` in the recommended (canonical) form.
pub type Regex<S> = builder::Regex<builder::Default<S>>;

} // verus!
