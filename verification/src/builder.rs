//! Regular expression terms and their builders.

use vstd::prelude::*;
use crate::alphabet::Alphabet;

pub mod canonical;
pub mod order;
pub mod pure;
pub mod similarity;

pub use pure::Pure;
pub use similarity::ApproximatelySimilarCanonical;

verus! {

/// The recommended builder.
pub type Default<S> = ApproximatelySimilarCanonical<S>;

/// What a builder builds over: the type of the symbols of its terms.
pub trait Vocabulary: Sized {
    type Symbol: Alphabet;
}

/// The eight constructors of regular expressions. Each builder says by its
/// spec functions which term a constructor call gives.
pub trait Builder: Vocabulary {
    /// The term that `closure` gives.
    spec fn spec_closure(inner: Regex<Self>) -> Regex<Self>;

    /// The term that `concat` gives.
    spec fn spec_concat(left: Regex<Self>, right: Regex<Self>) -> Regex<Self>;

    /// The term that `or` gives.
    spec fn spec_or(left: Regex<Self>, right: Regex<Self>) -> Regex<Self>;

    /// The term that `and` gives.
    spec fn spec_and(left: Regex<Self>, right: Regex<Self>) -> Regex<Self>;

    /// The term that `complement` gives.
    spec fn spec_complement(inner: Regex<Self>) -> Regex<Self>;

    fn empty_set() -> (r: Regex<Self>)
        ensures
            r == Regex::<Self>::EmptySet,
    ;

    fn empty_string() -> (r: Regex<Self>)
        ensures
            r == Regex::<Self>::EmptyString,
    ;

    fn symbol(value: Self::Symbol) -> (r: Regex<Self>)
        ensures
            r == Regex::<Self>::Symbol(value),
    ;

    fn closure(inner: Regex<Self>) -> (r: Regex<Self>)
        ensures
            r == Self::spec_closure(inner),
    ;

    fn concat(left: Regex<Self>, right: Regex<Self>) -> (r: Regex<Self>)
        ensures
            r == Self::spec_concat(left, right),
    ;

    fn or(left: Regex<Self>, right: Regex<Self>) -> (r: Regex<Self>)
        ensures
            r == Self::spec_or(left, right),
    ;

    fn and(left: Regex<Self>, right: Regex<Self>) -> (r: Regex<Self>)
        ensures
            r == Self::spec_and(left, right),
    ;

    fn complement(inner: Regex<Self>) -> (r: Regex<Self>)
        ensures
            r == Self::spec_complement(inner),
    ;
}

/// A regular expression over the symbols of the builder `B`.
#[derive(Debug, Eq, Hash, PartialEq)]
pub enum Regex<B: Vocabulary> {
    /// The language without words.
    EmptySet,
    /// The language of the empty word.
    EmptyString,
    /// The language of the one-symbol word.
    Symbol(B::Symbol),
    /// Words of the left language followed by words of the right language.
    Concat(Box<Self>, Box<Self>),
    /// Zero or more words of the inner language.
    Closure(Box<Self>),
    /// Words of either language.
    Or(Box<Self>, Box<Self>),
    /// Words of both languages.
    And(Box<Self>, Box<Self>),
    /// Words outside the inner language.
    Complement(Box<Self>),
}

impl<B: Builder> Regex<B> {
    #[inline]
    pub fn empty_set() -> (r: Self)
        ensures
            r == Regex::<B>::EmptySet,
    {
        B::empty_set()
    }

    #[inline]
    pub fn empty_string() -> (r: Self)
        ensures
            r == Regex::<B>::EmptyString,
    {
        B::empty_string()
    }

    #[inline]
    pub fn symbol(value: B::Symbol) -> (r: Self)
        ensures
            r == Regex::<B>::Symbol(value),
    {
        B::symbol(value)
    }

    #[inline]
    pub fn closure(inner: Self) -> (r: Self)
        ensures
            r == B::spec_closure(inner),
    {
        B::closure(inner)
    }

    #[inline]
    pub fn concat(left: Self, right: Self) -> (r: Self)
        ensures
            r == B::spec_concat(left, right),
    {
        B::concat(left, right)
    }

    #[inline]
    pub fn or(left: Self, right: Self) -> (r: Self)
        ensures
            r == B::spec_or(left, right),
    {
        B::or(left, right)
    }

    #[inline]
    pub fn and(left: Self, right: Self) -> (r: Self)
        ensures
            r == B::spec_and(left, right),
    {
        B::and(left, right)
    }

    #[inline]
    pub fn complement(inner: Self) -> (r: Self)
        ensures
            r == B::spec_complement(inner),
    {
        B::complement(inner)
    }

    /// The term that the builder `X` gives when the constructor calls that
    /// the term stands for are made through it, from the leaves up.
    pub open spec fn spec_rebuild<X: Builder<Symbol = B::Symbol>>(&self) -> Regex<X>
        decreases *self,
    {
        match self {
            Regex::EmptySet => Regex::EmptySet,
            Regex::EmptyString => Regex::EmptyString,
            Regex::Symbol(value) => Regex::Symbol(*value),
            Regex::Concat(left, right) => X::spec_concat(
                left.spec_rebuild::<X>(),
                right.spec_rebuild::<X>(),
            ),
            Regex::Closure(inner) => X::spec_closure(inner.spec_rebuild::<X>()),
            Regex::Or(left, right) => X::spec_or(
                left.spec_rebuild::<X>(),
                right.spec_rebuild::<X>(),
            ),
            Regex::And(left, right) => X::spec_and(
                left.spec_rebuild::<X>(),
                right.spec_rebuild::<X>(),
            ),
            Regex::Complement(inner) => X::spec_complement(inner.spec_rebuild::<X>()),
        }
    }

    /// Rebuilds this term using a different builder over the same symbols.
    pub fn rebuild<X: Builder<Symbol = B::Symbol>>(&self) -> (r: Regex<X>)
        ensures
            r == self.spec_rebuild::<X>(),
        decreases *self,
    {
        match self {
            Regex::EmptySet => X::empty_set(),
            Regex::EmptyString => X::empty_string(),
            Regex::Symbol(value) => X::symbol(value.duplicate()),
            Regex::Concat(left, right) => X::concat(left.rebuild(), right.rebuild()),
            Regex::Closure(inner) => X::closure(inner.rebuild()),
            Regex::Or(left, right) => X::or(left.rebuild(), right.rebuild()),
            Regex::And(left, right) => X::and(left.rebuild(), right.rebuild()),
            Regex::Complement(inner) => X::complement(inner.rebuild()),
        }
    }

}

impl<B: Vocabulary> Regex<B> {
    /// The codes of the symbols that occur in the term.
    pub open spec fn spec_symbols(&self) -> Set<u64>
        decreases *self,
    {
        match self {
            Regex::EmptySet => Set::empty(),
            Regex::EmptyString => Set::empty(),
            Regex::Symbol(value) => set![value.code()],
            Regex::Concat(left, right) => left.spec_symbols().union(right.spec_symbols()),
            Regex::Closure(inner) => inner.spec_symbols(),
            Regex::Or(left, right) => left.spec_symbols().union(right.spec_symbols()),
            Regex::And(left, right) => left.spec_symbols().union(right.spec_symbols()),
            Regex::Complement(inner) => inner.spec_symbols(),
        }
    }

    /// A structural copy of the term.
    pub fn duplicate(&self) -> (r: Self)
        ensures
            r == *self,
        decreases *self,
    {
        match self {
            Regex::EmptySet => Regex::EmptySet,
            Regex::EmptyString => Regex::EmptyString,
            Regex::Symbol(value) => Regex::Symbol(value.duplicate()),
            Regex::Concat(left, right) => Regex::Concat(
                Box::new(left.duplicate()),
                Box::new(right.duplicate()),
            ),
            Regex::Closure(inner) => Regex::Closure(Box::new(inner.duplicate())),
            Regex::Or(left, right) => Regex::Or(
                Box::new(left.duplicate()),
                Box::new(right.duplicate()),
            ),
            Regex::And(left, right) => Regex::And(
                Box::new(left.duplicate()),
                Box::new(right.duplicate()),
            ),
            Regex::Complement(inner) => Regex::Complement(Box::new(inner.duplicate())),
        }
    }
}

impl<B: Vocabulary> Clone for Regex<B> {
    fn clone(&self) -> (r: Self)
        ensures
            r == *self,
    {
        self.duplicate()
    }
}

} // verus!
