//! Convenience syntax for compactly writing literal regular expressions.

use vstd::prelude::*;
use vstd::std_specs::ops::AddSpecImpl;
use vstd::std_specs::ops::BitAndSpecImpl;
use vstd::std_specs::ops::BitOrSpecImpl;
use vstd::std_specs::ops::NotSpecImpl;
use crate::builder::Builder;
use crate::builder::Regex;

verus! {

/// Values that stand for a regular expression.
pub trait IntoRegex<B: Builder> {
    /// The term that the value stands for.
    spec fn spec_r(self) -> Regex<B>;

    fn r(self) -> (term: Regex<B>)
        ensures
            term == self.spec_r(),
    ;
}

/// Values that stand for a symbol.
pub trait IntoSymbol<B: Builder> {
    /// The term of the one symbol.
    spec fn spec_s(self) -> Regex<B>;

    fn s(self) -> (term: Regex<B>)
        ensures
            term == self.spec_s(),
    ;
}

/// Values of which a closure can be taken.
pub trait IntoClosure<B: Builder> {
    /// The closure of the value, as the builder gives it.
    spec fn spec_c(self) -> Regex<B>;

    fn c(self) -> (term: Regex<B>)
        ensures
            term == self.spec_c(),
    ;
}

/// The items joined by the builder's `concat`, from the left; the empty
/// word's language if there is none.
pub open spec fn concat_all<B: Builder>(items: Seq<Regex<B>>) -> Regex<B>
    decreases items.len(),
{
    if items.len() == 0 {
        Regex::EmptyString
    } else if items.len() == 1 {
        items[0]
    } else {
        B::spec_concat(concat_all(items.drop_last()), items.last())
    }
}

impl<B: Builder> IntoRegex<B> for () {
    open spec fn spec_r(self) -> Regex<B> {
        Regex::EmptySet
    }

    #[inline]
    fn r(self) -> (term: Regex<B>) {
        B::empty_set()
    }
}

/// The term of the one symbol.
pub fn sym<B: Builder>(value: B::Symbol) -> (term: Regex<B>)
    ensures
        term == Regex::<B>::Symbol(value),
{
    B::symbol(value)
}

impl<B: Builder> IntoSymbol<B> for B::Symbol {
    open spec fn spec_s(self) -> Regex<B> {
        Regex::Symbol(self)
    }

    #[inline]
    fn s(self) -> (term: Regex<B>) {
        B::symbol(self)
    }
}

impl<B: Builder> IntoClosure<B> for Regex<B> {
    open spec fn spec_c(self) -> Regex<B> {
        B::spec_closure(self)
    }

    #[inline]
    fn c(self) -> (term: Regex<B>) {
        B::closure(self)
    }
}

impl<B: Builder, const X: usize> IntoRegex<B> for [Regex<B>; X] {
    open spec fn spec_r(self) -> Regex<B> {
        concat_all(self@)
    }

    fn r(self) -> (term: Regex<B>) {
        if X == 0 {
            B::empty_string()
        } else {
            let mut term: Regex<B> = self[0].clone();
            let mut i: usize = 1;
            proof {
                assert(self@.take(1).len() == 1);
            }
            while i < X
                invariant
                    1 <= i <= X,
                    X == self@.len(),
                    term == concat_all(self@.take(i as int)),
                decreases X - i,
            {
                proof {
                    assert(self@.take(i + 1).drop_last() == self@.take(i as int));
                }
                term = B::concat(term, self[i].clone());
                i += 1;
            }
            proof {
                assert(self@.take(i as int) == self@);
            }
            term
        }
    }
}

impl<B: Builder> core::ops::Add for Regex<B> {
    type Output = Self;

    #[inline]
    fn add(self, rhs: Self) -> (term: Self) {
        B::concat(self, rhs)
    }
}

impl<B: Builder> AddSpecImpl for Regex<B> {
    open spec fn obeys_add_spec() -> bool {
        true
    }

    open spec fn add_req(self, rhs: Self) -> bool {
        true
    }

    open spec fn add_spec(self, rhs: Self) -> Self {
        B::spec_concat(self, rhs)
    }
}

impl<B: Builder> core::ops::BitOr for Regex<B> {
    type Output = Self;

    #[inline]
    fn bitor(self, rhs: Self) -> (term: Self) {
        B::or(self, rhs)
    }
}

impl<B: Builder> BitOrSpecImpl for Regex<B> {
    open spec fn obeys_bitor_spec() -> bool {
        true
    }

    open spec fn bitor_req(self, rhs: Self) -> bool {
        true
    }

    open spec fn bitor_spec(self, rhs: Self) -> Self {
        B::spec_or(self, rhs)
    }
}

impl<B: Builder> core::ops::BitAnd for Regex<B> {
    type Output = Self;

    #[inline]
    fn bitand(self, rhs: Self) -> (term: Self) {
        B::and(self, rhs)
    }
}

impl<B: Builder> BitAndSpecImpl for Regex<B> {
    open spec fn obeys_bitand_spec() -> bool {
        true
    }

    open spec fn bitand_req(self, rhs: Self) -> bool {
        true
    }

    open spec fn bitand_spec(self, rhs: Self) -> Self {
        B::spec_and(self, rhs)
    }
}

impl<B: Builder> core::ops::Not for Regex<B> {
    type Output = Self;

    #[inline]
    fn not(self) -> (term: Self) {
        B::complement(self)
    }
}

impl<B: Builder> NotSpecImpl for Regex<B> {
    open spec fn obeys_not_spec() -> bool {
        true
    }

    open spec fn not_req(self) -> bool {
        true
    }

    open spec fn not_spec(self) -> Self {
        B::spec_complement(self)
    }
}

} // verus!
