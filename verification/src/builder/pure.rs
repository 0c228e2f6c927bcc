//! The builder that keeps every constructor call as it was made.

use vstd::prelude::*;
use std::marker::PhantomData;
use crate::alphabet::Alphabet;
use crate::builder::Builder;
use crate::builder::Regex;
use crate::builder::Vocabulary;

verus! {

/// A builder that performs no rewriting: the term mirrors the calls.
#[derive(Debug, Hash, PartialEq, Eq)]
pub struct Pure<S: Alphabet> {
    _phantom: PhantomData<S>,
}

impl<S: Alphabet> Vocabulary for Pure<S> {
    type Symbol = S;
}

impl<S: Alphabet> Builder for Pure<S> {
    open spec fn spec_closure(inner: Regex<Self>) -> Regex<Self> {
        Regex::Closure(Box::new(inner))
    }

    open spec fn spec_concat(left: Regex<Self>, right: Regex<Self>) -> Regex<Self> {
        Regex::Concat(Box::new(left), Box::new(right))
    }

    open spec fn spec_or(left: Regex<Self>, right: Regex<Self>) -> Regex<Self> {
        Regex::Or(Box::new(left), Box::new(right))
    }

    open spec fn spec_and(left: Regex<Self>, right: Regex<Self>) -> Regex<Self> {
        Regex::And(Box::new(left), Box::new(right))
    }

    open spec fn spec_complement(inner: Regex<Self>) -> Regex<Self> {
        Regex::Complement(Box::new(inner))
    }

    #[inline]
    fn empty_set() -> (r: Regex<Self>) {
        Regex::EmptySet
    }

    #[inline]
    fn empty_string() -> (r: Regex<Self>) {
        Regex::EmptyString
    }

    #[inline]
    fn symbol(value: S) -> (r: Regex<Self>) {
        Regex::Symbol(value)
    }

    #[inline]
    fn closure(inner: Regex<Self>) -> (r: Regex<Self>) {
        Regex::Closure(Box::new(inner))
    }

    #[inline]
    fn concat(left: Regex<Self>, right: Regex<Self>) -> (r: Regex<Self>) {
        Regex::Concat(Box::new(left), Box::new(right))
    }

    #[inline]
    fn or(left: Regex<Self>, right: Regex<Self>) -> (r: Regex<Self>) {
        Regex::Or(Box::new(left), Box::new(right))
    }

    #[inline]
    fn and(left: Regex<Self>, right: Regex<Self>) -> (r: Regex<Self>) {
        Regex::And(Box::new(left), Box::new(right))
    }

    #[inline]
    fn complement(inner: Regex<Self>) -> (r: Regex<Self>) {
        Regex::Complement(Box::new(inner))
    }
}

/// Rebuilding a term of the pure builder through the pure builder gives the
/// same term.
pub proof fn rebuild_is_identity_on_pure<S: Alphabet>(term: Regex<Pure<S>>)
    ensures
        term.spec_rebuild::<Pure<S>>() == term,
    decreases term,
{
    match term {
        Regex::Concat(left, right) => {
            rebuild_is_identity_on_pure(*left);
            rebuild_is_identity_on_pure(*right);
        },
        Regex::Or(left, right) => {
            rebuild_is_identity_on_pure(*left);
            rebuild_is_identity_on_pure(*right);
        },
        Regex::And(left, right) => {
            rebuild_is_identity_on_pure(*left);
            rebuild_is_identity_on_pure(*right);
        },
        Regex::Closure(inner) => {
            rebuild_is_identity_on_pure(*inner);
        },
        Regex::Complement(inner) => {
            rebuild_is_identity_on_pure(*inner);
        },
        _ => {},
    }
}

} // verus!
