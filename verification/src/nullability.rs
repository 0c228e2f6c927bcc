//! Nullability of regular expressions.

use vstd::prelude::*;
use crate::builder::Vocabulary;
use crate::builder::Regex;

verus! {

impl<B: Vocabulary> Regex<B> {
    /// Whether the empty word is in the language of the term.
    pub open spec fn spec_is_nullable(&self) -> bool
        decreases *self,
    {
        match self {
            Regex::EmptySet => false,
            Regex::EmptyString => true,
            Regex::Symbol(_) => false,
            Regex::Concat(left, right) => left.spec_is_nullable() && right.spec_is_nullable(),
            Regex::Closure(_) => true,
            Regex::Or(left, right) => left.spec_is_nullable() || right.spec_is_nullable(),
            Regex::And(left, right) => left.spec_is_nullable() && right.spec_is_nullable(),
            Regex::Complement(inner) => !inner.spec_is_nullable(),
        }
    }

    /// The empty word's language if the term is nullable, the empty language
    /// otherwise.
    pub open spec fn spec_nullable(&self) -> Regex<B> {
        if self.spec_is_nullable() {
            Regex::EmptyString
        } else {
            Regex::EmptySet
        }
    }

    /// Returns whether the empty word is in the language of this term.
    pub fn is_nullable(&self) -> (b: bool)
        ensures
            b == self.spec_is_nullable(),
        decreases *self,
    {
        match self {
            Regex::EmptySet => false,
            Regex::EmptyString => true,
            Regex::Symbol(_) => false,
            Regex::Concat(left, right) => left.is_nullable() && right.is_nullable(),
            Regex::Closure(_) => true,
            Regex::Or(left, right) => left.is_nullable() || right.is_nullable(),
            Regex::And(left, right) => left.is_nullable() && right.is_nullable(),
            Regex::Complement(inner) => !inner.is_nullable(),
        }
    }

    /// Returns the empty word's language if this term is nullable, and the
    /// empty language otherwise.
    pub fn nullable(&self) -> (r: Regex<B>)
        ensures
            r == self.spec_nullable(),
    {
        if self.is_nullable() {
            Regex::EmptyString
        } else {
            Regex::EmptySet
        }
    }
}

} // verus!
