//! Derivatives of regular expressions, and matching by derivation.

use vstd::prelude::*;
use crate::alphabet::Alphabet;
use crate::builder::Builder;
use crate::builder::Regex;

verus! {

/// What a symbol class stands for: the listed codes, or all codes but those.
pub struct ClassModel {
    pub excluding: bool,
    pub codes: Set<u64>,
}

impl ClassModel {
    /// Whether the symbol with the given code belongs to the class.
    pub open spec fn matches(self, code: u64) -> bool {
        self.excluding != self.codes.contains(code)
    }

    /// The class of the one symbol with the given code.
    pub open spec fn single(code: u64) -> ClassModel {
        ClassModel { excluding: false, codes: set![code] }
    }

    /// The class of the symbols in either class.
    pub open spec fn union(self, other: ClassModel) -> ClassModel {
        if !self.excluding && !other.excluding {
            ClassModel { excluding: false, codes: self.codes.union(other.codes) }
        } else if self.excluding && other.excluding {
            ClassModel { excluding: true, codes: self.codes.intersect(other.codes) }
        } else if self.excluding {
            ClassModel { excluding: true, codes: self.codes.difference(other.codes) }
        } else {
            ClassModel { excluding: true, codes: other.codes.difference(self.codes) }
        }
    }

    /// The class of the symbols in both classes.
    pub open spec fn intersection(self, other: ClassModel) -> ClassModel {
        if !self.excluding && !other.excluding {
            ClassModel { excluding: false, codes: self.codes.intersect(other.codes) }
        } else if self.excluding && other.excluding {
            ClassModel { excluding: true, codes: self.codes.union(other.codes) }
        } else if self.excluding {
            ClassModel { excluding: false, codes: other.codes.difference(self.codes) }
        } else {
            ClassModel { excluding: false, codes: self.codes.difference(other.codes) }
        }
    }

    /// The class of the symbols outside the class.
    pub open spec fn complement(self) -> ClassModel {
        ClassModel { excluding: !self.excluding, codes: self.codes }
    }

    /// Union, intersection and complement of classes are those of the sets
    /// of symbols that the classes stand for.
    pub proof fn algebra_is_pointwise(self, other: ClassModel, code: u64)
        ensures
            self.union(other).matches(code) == (self.matches(code) || other.matches(code)),
            self.intersection(other).matches(code) == (self.matches(code) && other.matches(code)),
            self.complement().matches(code) == !self.matches(code),
    {
    }
}

/// A finite or cofinite set of symbols, held by their codes.
#[derive(Debug)]
pub enum Symbols {
    /// Only the given symbols.
    Include(Vec<u64>),
    /// All except the given symbols.
    Exclude(Vec<u64>),
}

impl View for Symbols {
    type V = ClassModel;

    open spec fn view(&self) -> ClassModel {
        match self {
            Symbols::Include(codes) => ClassModel { excluding: false, codes: codes@.to_set() },
            Symbols::Exclude(codes) => ClassModel { excluding: true, codes: codes@.to_set() },
        }
    }
}

/// The codes of the given symbols, in their order.
fn codes_of<S: Alphabet>(symbols: &[S]) -> (codes: Vec<u64>)
    ensures
        codes@ == symbols@.map_values(|s: S| s.code()),
{
    let mut codes: Vec<u64> = Vec::new();
    let mut i: usize = 0;
    while i < symbols.len()
        invariant
            i <= symbols.len(),
            codes@ == symbols@.take(i as int).map_values(|s: S| s.code()),
        decreases symbols.len() - i,
    {
        codes.push(symbols[i].key());
        proof {
            assert(symbols@.take(i + 1) == symbols@.take(i as int).push(symbols@[i as int]));
            assert(codes@ =~= symbols@.take(i + 1).map_values(|s: S| s.code()));
        }
        i += 1;
    }
    proof {
        assert(symbols@.take(i as int) == symbols@);
    }
    codes
}

/// Whether the code occurs in the list.
pub fn holds(codes: &Vec<u64>, code: u64) -> (b: bool)
    ensures
        b == codes@.to_set().contains(code),
{
    let mut i: usize = 0;
    while i < codes.len()
        invariant
            i <= codes.len(),
            forall|j: int| 0 <= j < i ==> codes@[j] != code,
        decreases codes.len() - i,
    {
        if codes[i] == code {
            assert(codes@.contains(code));
            return true;
        }
        i += 1;
    }
    false
}

/// The codes of `left` that occur in `right` (`inside`) or that do not.
fn kept(left: &Vec<u64>, right: &Vec<u64>, inside: bool) -> (r: Vec<u64>)
    ensures
        r@.to_set() == (if inside {
            left@.to_set().intersect(right@.to_set())
        } else {
            left@.to_set().difference(right@.to_set())
        }),
{
    let mut r: Vec<u64> = Vec::new();
    let mut i: usize = 0;
    while i < left.len()
        invariant
            i <= left.len(),
            forall|c: u64|
                r@.contains(c) <==> (left@.take(i as int).contains(c) && (right@.contains(c)
                    == inside)),
        decreases left.len() - i,
    {
        let c: u64 = left[i];
        let found: bool = holds(right, c);
        proof {
            assert(left@.take(i + 1) == left@.take(i as int).push(c));
        }
        let ghost prev = left@.take(i as int);
        let ghost next = left@.take(i + 1);
        let ghost before = r@;
        if found == inside {
            r.push(c);
            assert forall|d: u64|
                r@.contains(d) <==> (next.contains(d) && (right@.contains(d)
                    == inside)) by {
                assert(r@ == before.push(c));
                if r@.contains(d) {
                    let j = choose|j: int| 0 <= j < r@.len() && r@[j] == d;
                    if j < before.len() {
                        assert(before.contains(d));
                        let k = choose|k: int|
                            0 <= k < prev.len() && prev[k] == d;
                        assert(next[k] == d);
                    } else {
                        assert(next[i as int] == d);
                    }
                }
                if next.contains(d) && (right@.contains(d) == inside) {
                    let k = choose|k: int|
                        0 <= k < next.len() && next[k] == d;
                    if k < i {
                        assert(prev[k] == d);
                        assert(before.contains(d));
                        let j = choose|j: int| 0 <= j < before.len() && before[j] == d;
                        assert(r@[j] == d);
                    } else {
                        assert(r@[before.len() as int] == d);
                    }
                }
            }
        } else {
            assert forall|d: u64|
                r@.contains(d) <==> (next.contains(d) && (right@.contains(d)
                    == inside)) by {
                if r@.contains(d) {
                    let k = choose|k: int|
                        0 <= k < prev.len() && prev[k] == d;
                    assert(next[k] == d);
                }
                if next.contains(d) && (right@.contains(d) == inside) {
                    let k = choose|k: int|
                        0 <= k < next.len() && next[k] == d;
                    assert(k < i);
                    assert(prev[k] == d);
                }
            }
        }
        i += 1;
    }
    proof {
        assert(left@.take(i as int) == left@);
        if inside {
            assert(r@.to_set() =~= left@.to_set().intersect(right@.to_set()));
        } else {
            assert(r@.to_set() =~= left@.to_set().difference(right@.to_set()));
        }
    }
    r
}

/// The codes of both lists.
fn joined(left: Vec<u64>, right: &Vec<u64>) -> (r: Vec<u64>)
    ensures
        r@.to_set() == left@.to_set().union(right@.to_set()),
{
    let mut r: Vec<u64> = left;
    let mut i: usize = 0;
    while i < right.len()
        invariant
            i <= right.len(),
            r@ == left@ + right@.take(i as int),
        decreases right.len() - i,
    {
        r.push(right[i]);
        proof {
            assert(right@.take(i + 1) == right@.take(i as int).push(right@[i as int]));
            assert(r@ =~= left@ + right@.take(i + 1));
        }
        i += 1;
    }
    proof {
        assert(right@.take(i as int) == right@);
        assert forall|c: u64| r@.contains(c) <==> (left@.contains(c) || right@.contains(c)) by {
            if r@.contains(c) {
                let j = choose|j: int| 0 <= j < r@.len() && r@[j] == c;
                if j < left@.len() {
                    assert(left@[j] == c);
                } else {
                    assert(right@[j - left@.len()] == c);
                }
            }
            if left@.contains(c) {
                let j = choose|j: int| 0 <= j < left@.len() && left@[j] == c;
                assert(r@[j] == c);
            }
            if right@.contains(c) {
                let j = choose|j: int| 0 <= j < right@.len() && right@[j] == c;
                assert(r@[left@.len() + j] == c);
            }
        }
        assert(r@.to_set() =~= left@.to_set().union(right@.to_set()));
    }
    r
}

impl Symbols {
    /// The class of the given symbols.
    pub fn only<S: Alphabet>(symbols: &[S]) -> (class: Symbols)
        ensures
            class@ == (ClassModel {
                excluding: false,
                codes: symbols@.map_values(|s: S| s.code()).to_set(),
            }),
    {
        Symbols::Include(codes_of(symbols))
    }

    /// The class of all symbols but the given ones.
    pub fn except<S: Alphabet>(symbols: &[S]) -> (class: Symbols)
        ensures
            class@ == (ClassModel {
                excluding: true,
                codes: symbols@.map_values(|s: S| s.code()).to_set(),
            }),
    {
        Symbols::Exclude(codes_of(symbols))
    }

    /// The class of the one symbol with the given code.
    pub fn only_code(code: u64) -> (class: Symbols)
        ensures
            class@ == ClassModel::single(code),
    {
        let mut codes: Vec<u64> = Vec::new();
        codes.push(code);
        proof {
            assert(codes@[0] == code);
            assert(codes@.to_set() =~= set![code]);
        }
        Symbols::Include(codes)
    }

    /// Whether the symbol belongs to the class.
    pub fn matches<S: Alphabet>(&self, symbol: &S) -> (b: bool)
        ensures
            b == self@.matches(symbol.code()),
    {
        match self {
            Symbols::Include(included) => holds(included, symbol.key()),
            Symbols::Exclude(excluded) => !holds(excluded, symbol.key()),
        }
    }

    /// The class of the symbols that are in this class or in the other.
    pub fn bitor(self, other: Symbols) -> (class: Symbols)
        ensures
            class@ == self@.union(other@),
    {
        match (self, other) {
            (Symbols::Include(left), Symbols::Include(right)) => Symbols::Include(
                joined(left, &right),
            ),
            (Symbols::Exclude(left), Symbols::Exclude(right)) => Symbols::Exclude(
                kept(&left, &right, true),
            ),
            (Symbols::Include(included), Symbols::Exclude(excluded)) => Symbols::Exclude(
                kept(&excluded, &included, false),
            ),
            (Symbols::Exclude(excluded), Symbols::Include(included)) => Symbols::Exclude(
                kept(&excluded, &included, false),
            ),
        }
    }

    /// The class of the symbols that are in this class and in the other.
    pub fn bitand(self, other: Symbols) -> (class: Symbols)
        ensures
            class@ == self@.intersection(other@),
    {
        match (self, other) {
            (Symbols::Include(left), Symbols::Include(right)) => Symbols::Include(
                kept(&left, &right, true),
            ),
            (Symbols::Exclude(left), Symbols::Exclude(right)) => Symbols::Exclude(
                joined(left, &right),
            ),
            (Symbols::Include(included), Symbols::Exclude(excluded)) => Symbols::Include(
                kept(&included, &excluded, false),
            ),
            (Symbols::Exclude(excluded), Symbols::Include(included)) => Symbols::Include(
                kept(&included, &excluded, false),
            ),
        }
    }

    /// The class of the symbols that are not in this class.
    pub fn not(self) -> (class: Symbols)
        ensures
            class@ == self@.complement(),
    {
        match self {
            Symbols::Include(symbols) => Symbols::Exclude(symbols),
            Symbols::Exclude(symbols) => Symbols::Include(symbols),
        }
    }
}

impl<B: Builder> Regex<B> {
    /// The derivative of the term by a class of symbols, built by `B`.
    pub open spec fn spec_derive_symbols(&self, class: ClassModel) -> Regex<B>
        decreases *self,
    {
        match self {
            Regex::EmptySet => Regex::EmptySet,
            Regex::EmptyString => Regex::EmptySet,
            Regex::Symbol(inner) => if class.matches(inner.code()) {
                Regex::EmptyString
            } else {
                Regex::EmptySet
            },
            Regex::Concat(left, right) => B::spec_or(
                B::spec_concat(left.spec_derive_symbols(class), **right),
                B::spec_concat(left.spec_nullable(), right.spec_derive_symbols(class)),
            ),
            Regex::Closure(inner) => B::spec_concat(
                inner.spec_derive_symbols(class),
                B::spec_closure(**inner),
            ),
            Regex::Or(left, right) => B::spec_or(
                left.spec_derive_symbols(class),
                right.spec_derive_symbols(class),
            ),
            Regex::And(left, right) => B::spec_and(
                left.spec_derive_symbols(class),
                right.spec_derive_symbols(class),
            ),
            Regex::Complement(inner) => B::spec_complement(inner.spec_derive_symbols(class)),
        }
    }

    /// The derivative of the term by one symbol.
    pub open spec fn spec_derive(&self, symbol: B::Symbol) -> Regex<B> {
        self.spec_derive_symbols(ClassModel::single(symbol.code()))
    }

    /// The derivative of the term by a word: the derivatives by its symbols,
    /// taken one after the other from the left.
    pub open spec fn spec_derive_iter(&self, symbols: Seq<B::Symbol>) -> Regex<B>
        decreases symbols.len(),
    {
        if symbols.len() == 0 {
            *self
        } else {
            self.spec_derive_iter(symbols.drop_last()).spec_derive(symbols.last())
        }
    }

    /// Whether the word is in the language of the term, by derivation.
    pub open spec fn spec_is_match(&self, symbols: Seq<B::Symbol>) -> bool {
        self.spec_derive_iter(symbols).spec_is_nullable()
    }

    /// Returns the derivative of this term by the given symbols, taken one
    /// after the other.
    pub fn derive_iter(&self, symbols: &[B::Symbol]) -> (d: Regex<B>)
        ensures
            d == self.spec_derive_iter(symbols@),
    {
        let mut d: Regex<B> = self.clone();
        let mut i: usize = 0;
        while i < symbols.len()
            invariant
                i <= symbols.len(),
                d == self.spec_derive_iter(symbols@.take(i as int)),
            decreases symbols.len() - i,
        {
            proof {
                assert(symbols@.take(i + 1).drop_last() == symbols@.take(i as int));
            }
            d = d.derive(&symbols[i]);
            i += 1;
        }
        proof {
            assert(symbols@.take(i as int) == symbols@);
        }
        d
    }

    /// Returns the derivative of this term by the given symbol.
    #[inline]
    pub fn derive(&self, symbol: &B::Symbol) -> (d: Regex<B>)
        ensures
            d == self.spec_derive(*symbol),
    {
        self.derive_symbols(&Symbols::only_code(symbol.key()))
    }

    /// Returns the derivative of this term by the given class of symbols.
    pub fn derive_symbols(&self, symbol: &Symbols) -> (d: Regex<B>)
        ensures
            d == self.spec_derive_symbols(symbol@),
        decreases *self,
    {
        match self {
            Regex::EmptySet => B::empty_set(),
            Regex::EmptyString => B::empty_set(),
            Regex::Symbol(inner) => {
                if symbol.matches(inner) {
                    B::empty_string()
                } else {
                    B::empty_set()
                }
            },
            Regex::Concat(left, right) => B::or(
                B::concat(left.derive_symbols(symbol), right.duplicate()),
                B::concat(left.nullable(), right.derive_symbols(symbol)),
            ),
            Regex::Closure(inner) => B::concat(
                inner.derive_symbols(symbol),
                B::closure(inner.duplicate()),
            ),
            Regex::Or(left, right) => B::or(
                left.derive_symbols(symbol),
                right.derive_symbols(symbol),
            ),
            Regex::And(left, right) => B::and(
                left.derive_symbols(symbol),
                right.derive_symbols(symbol),
            ),
            Regex::Complement(inner) => B::complement(inner.derive_symbols(symbol)),
        }
    }

    /// Returns whether the word is in the language of this term.
    pub fn is_match(&self, symbols: &[B::Symbol]) -> (b: bool)
        ensures
            b == self.spec_is_match(symbols@),
    {
        self.derive_iter(symbols).is_nullable()
    }

    /// For a term whose symbols are all listed, the derivative by the class
    /// of the unlisted symbols is the derivative by any unlisted symbol.
    pub proof fn derivative_by_unlisted(&self, listed: Set<u64>, code: u64)
        requires
            self.spec_symbols().subset_of(listed),
            !listed.contains(code),
        ensures
            self.spec_derive_symbols(ClassModel { excluding: true, codes: listed })
                == self.spec_derive_symbols(ClassModel::single(code)),
        decreases *self,
    {
        match self {
            Regex::Symbol(inner) => {
                assert(self.spec_symbols().contains(inner.code()));
            },
            Regex::Concat(left, right) => {
                left.derivative_by_unlisted(listed, code);
                right.derivative_by_unlisted(listed, code);
            },
            Regex::Or(left, right) => {
                left.derivative_by_unlisted(listed, code);
                right.derivative_by_unlisted(listed, code);
            },
            Regex::And(left, right) => {
                left.derivative_by_unlisted(listed, code);
                right.derivative_by_unlisted(listed, code);
            },
            Regex::Closure(inner) => {
                inner.derivative_by_unlisted(listed, code);
            },
            Regex::Complement(inner) => {
                inner.derivative_by_unlisted(listed, code);
            },
            _ => {},
        }
    }

    /// Deriving by a word that starts with `symbol` is deriving by `symbol`
    /// and then by the rest of the word.
    pub proof fn derive_iter_unfolds_at_front(&self, symbol: B::Symbol, rest: Seq<B::Symbol>)
        ensures
            self.spec_derive_iter(seq![symbol] + rest) == self.spec_derive(symbol).spec_derive_iter(
                rest,
            ),
        decreases rest.len(),
    {
        let word = seq![symbol] + rest;
        if rest.len() == 0 {
            assert(word.drop_last() =~= Seq::<B::Symbol>::empty());
            assert(word.last() == symbol);
            assert(self.spec_derive_iter(word.drop_last()) == *self);
        } else {
            self.derive_iter_unfolds_at_front(symbol, rest.drop_last());
            assert(word.drop_last() =~= seq![symbol] + rest.drop_last());
            assert(word.last() == rest.last());
        }
    }

    /// A word that starts with `symbol` matches the term exactly when the
    /// rest of the word matches the derivative of the term by `symbol`.
    pub proof fn derivative_is_sound(&self, symbol: B::Symbol, rest: Seq<B::Symbol>)
        ensures
            self.spec_is_match(seq![symbol] + rest) == self.spec_derive(symbol).spec_is_match(rest),
    {
        self.derive_iter_unfolds_at_front(symbol, rest);
    }
}

} // verus!
