//! The languages of regular expressions, and what nullability and
//! derivatives say about them.

use vstd::prelude::*;
use crate::alphabet::Alphabet;
use crate::builder::canonical::lemma_merged_operands;
use crate::builder::canonical::merged_operands;
use crate::builder::similarity::fold;
use crate::builder::similarity::is_top;
use crate::builder::similarity::join;
use crate::builder::similarity::lemma_to_set_of_sum;
use crate::builder::similarity::merged;
use crate::builder::similarity::operands;
use crate::builder::similarity::lemma_operands_not_empty;
use crate::builder::similarity::ApproximatelySimilarCanonical;
use crate::builder::similarity::Junction;
use crate::builder::Builder;
use crate::builder::Pure;
use crate::builder::Regex;
use crate::builder::Vocabulary;
use crate::derivation::ClassModel;

verus! {

impl<B: Vocabulary> Regex<B> {
    /// Whether the word is in the language of the term.
    pub open spec fn accepts(&self, word: Seq<B::Symbol>) -> bool
        decreases *self, word.len(),
    {
        match self {
            Regex::EmptySet => false,
            Regex::EmptyString => word.len() == 0,
            Regex::Symbol(symbol) => word.len() == 1 && word[0].code() == symbol.code(),
            Regex::Concat(left, right) => exists|k: int|
                0 <= k <= word.len() && left.accepts(#[trigger] word.take(k)) && right.accepts(
                    word.skip(k),
                ),
            Regex::Closure(inner) => word.len() == 0 || exists|k: int|
                1 <= k <= word.len() && inner.accepts(#[trigger] word.take(k)) && self.accepts(
                    word.skip(k),
                ),
            Regex::Or(left, right) => left.accepts(word) || right.accepts(word),
            Regex::And(left, right) => left.accepts(word) && right.accepts(word),
            Regex::Complement(inner) => !inner.accepts(word),
        }
    }

    /// A term is nullable exactly when the empty word is in its language.
    pub proof fn nullable_iff_accepts_empty(&self)
        ensures
            self.spec_is_nullable() == self.accepts(Seq::empty()),
        decreases *self,
    {
        let empty = Seq::<B::Symbol>::empty();
        match self {
            Regex::Concat(left, right) => {
                left.nullable_iff_accepts_empty();
                right.nullable_iff_accepts_empty();
                assert(empty.take(0) =~= empty);
                assert(empty.skip(0) =~= empty);
                if left.accepts(empty) && right.accepts(empty) {
                    assert(left.accepts(empty.take(0)) && right.accepts(empty.skip(0)));
                    assert(exists|k: int|
                        0 <= k <= empty.len() && left.accepts(#[trigger] empty.take(k))
                            && right.accepts(empty.skip(k)));
                    assert(self.accepts(empty));
                }
                if self.accepts(empty) {
                    assert(exists|k: int|
                        0 <= k <= empty.len() && left.accepts(#[trigger] empty.take(k))
                            && right.accepts(empty.skip(k)));
                }
            },
            Regex::Or(left, right) => {
                left.nullable_iff_accepts_empty();
                right.nullable_iff_accepts_empty();
            },
            Regex::And(left, right) => {
                left.nullable_iff_accepts_empty();
                right.nullable_iff_accepts_empty();
            },
            Regex::Complement(inner) => {
                inner.nullable_iff_accepts_empty();
            },
            _ => {},
        }
    }
}

/// Whether the terms that the builder gives have the languages of the
/// constructors that were called.
pub open spec fn keeps_languages<B: Builder>() -> bool {
    &&& forall|inner: Regex<B>, word: Seq<B::Symbol>| #[trigger]
        B::spec_closure(inner).accepts(word) == Regex::<B>::Closure(Box::new(inner)).accepts(word)
    &&& forall|inner: Regex<B>, word: Seq<B::Symbol>| #[trigger]
        B::spec_complement(inner).accepts(word) == !inner.accepts(word)
    &&& forall|left: Regex<B>, right: Regex<B>, word: Seq<B::Symbol>| #[trigger]
        B::spec_concat(left, right).accepts(word) == Regex::<B>::Concat(
            Box::new(left),
            Box::new(right),
        ).accepts(word)
    &&& forall|left: Regex<B>, right: Regex<B>, word: Seq<B::Symbol>| #[trigger]
        B::spec_or(left, right).accepts(word) == (left.accepts(word) || right.accepts(word))
    &&& forall|left: Regex<B>, right: Regex<B>, word: Seq<B::Symbol>| #[trigger]
        B::spec_and(left, right).accepts(word) == (left.accepts(word) && right.accepts(word))
}

impl<B: Builder> Regex<B> {
    /// Under a builder that keeps languages, a word is in the language of
    /// the derivative by a symbol exactly when the symbol followed by the
    /// word is in the language of the term.
    pub proof fn derivative_accepts_the_rest(&self, symbol: B::Symbol, word: Seq<B::Symbol>)
        requires
            keeps_languages::<B>(),
        ensures
            self.spec_derive(symbol).accepts(word) == self.accepts(seq![symbol] + word),
        decreases *self, word.len(),
    {
        let class = ClassModel::single(symbol.code());
        let whole = seq![symbol] + word;
        match self {
            Regex::Symbol(inner) => {
                if word.len() == 0 {
                    assert(whole.len() == 1);
                    assert(whole[0] == symbol);
                }
            },
            Regex::Concat(left, right) => {
                let dl = left.spec_derive_symbols(class);
                let dr = right.spec_derive_symbols(class);
                let first = Regex::<B>::Concat(Box::new(dl), Box::new(**right));
                let second = Regex::<B>::Concat(Box::new(left.spec_nullable()), Box::new(dr));
                left.nullable_iff_accepts_empty();
                right.derivative_accepts_the_rest(symbol, word);
                assert(whole.take(0) =~= Seq::<B::Symbol>::empty());
                assert(whole.skip(0) =~= whole);
                assert(word.take(0) =~= Seq::<B::Symbol>::empty());
                assert(word.skip(0) =~= word);
                assert forall|j: int| 0 <= j <= word.len() implies dl.accepts(word.take(j))
                    == left.accepts(#[trigger] whole.take(j + 1)) by {
                    left.derivative_accepts_the_rest(symbol, word.take(j));
                    assert(seq![symbol] + word.take(j) =~= whole.take(j + 1));
                }
                assert forall|j: int| 0 <= j <= word.len() implies #[trigger] whole.skip(j + 1)
                    == word.skip(j) by {
                    assert(whole.skip(j + 1) =~= word.skip(j));
                }
                if first.accepts(word) {
                    let j = choose|j: int|
                        0 <= j <= word.len() && dl.accepts(#[trigger] word.take(j))
                            && right.accepts(word.skip(j));
                    assert(whole.skip(j + 1) == word.skip(j));
                    assert(left.accepts(whole.take(j + 1)));
                    assert(self.accepts(whole));
                }
                if second.accepts(word) {
                    let j = choose|j: int|
                        0 <= j <= word.len() && left.spec_nullable().accepts(#[trigger] word.take(j)) && dr.accepts(word.skip(j));
                    assert(word.take(j).len() == 0);
                    assert(j == 0);
                    assert(left.accepts(whole.take(0)));
                    assert(right.accepts(whole.skip(0)));
                    assert(self.accepts(whole));
                }
                if self.accepts(whole) {
                    let k = choose|k: int|
                        0 <= k <= whole.len() && left.accepts(#[trigger] whole.take(k))
                            && right.accepts(whole.skip(k));
                    if k == 0 {
                        assert(left.spec_nullable().accepts(word.take(0)));
                        assert(dr.accepts(word.skip(0)));
                        assert(second.accepts(word));
                    } else {
                        assert(whole.skip((k - 1) + 1) == word.skip(k - 1));
                        assert(left.accepts(whole.take((k - 1) + 1)));
                        assert(dl.accepts(word.take(k - 1)));
                        assert(first.accepts(word));
                    }
                }
            },
            Regex::Closure(inner) => {
                let di = inner.spec_derive_symbols(class);
                let star = Regex::<B>::Closure(Box::new(**inner));
                let derived = Regex::<B>::Concat(Box::new(di), Box::new(B::spec_closure(**inner)));
                assert forall|j: int| 0 <= j <= word.len() implies di.accepts(word.take(j))
                    == inner.accepts(#[trigger] whole.take(j + 1)) by {
                    inner.derivative_accepts_the_rest(symbol, word.take(j));
                    assert(seq![symbol] + word.take(j) =~= whole.take(j + 1));
                }
                assert forall|j: int| 0 <= j <= word.len() implies #[trigger] whole.skip(j + 1)
                    == word.skip(j) by {
                    assert(whole.skip(j + 1) =~= word.skip(j));
                }
                if derived.accepts(word) {
                    let j = choose|j: int|
                        0 <= j <= word.len() && di.accepts(#[trigger] word.take(j))
                            && B::spec_closure(**inner).accepts(word.skip(j));
                    assert(whole.skip(j + 1) == word.skip(j));
                    assert(inner.accepts(whole.take(j + 1)));
                    assert(star.accepts(whole.skip(j + 1)));
                    assert(self.accepts(whole));
                }
                if self.accepts(whole) {
                    let k = choose|k: int|
                        1 <= k <= whole.len() && inner.accepts(#[trigger] whole.take(k))
                            && self.accepts(whole.skip(k));
                    assert(whole.skip((k - 1) + 1) == word.skip(k - 1));
                    assert(inner.accepts(whole.take((k - 1) + 1)));
                    assert(di.accepts(word.take(k - 1)));
                    assert(star == *self);
                    assert(B::spec_closure(**inner).accepts(word.skip(k - 1)) == star.accepts(
                        word.skip(k - 1),
                    ));
                    assert(derived.accepts(word));
                }
            },
            Regex::Or(left, right) => {
                left.derivative_accepts_the_rest(symbol, word);
                right.derivative_accepts_the_rest(symbol, word);
            },
            Regex::And(left, right) => {
                left.derivative_accepts_the_rest(symbol, word);
                right.derivative_accepts_the_rest(symbol, word);
            },
            Regex::Complement(inner) => {
                inner.derivative_accepts_the_rest(symbol, word);
            },
            _ => {},
        }
    }

    /// Under a builder that keeps languages, matching by derivation decides
    /// whether the word is in the language of the term.
    pub proof fn match_is_membership(&self, word: Seq<B::Symbol>)
        requires
            keeps_languages::<B>(),
        ensures
            self.spec_is_match(word) == self.accepts(word),
        decreases word.len(),
    {
        if word.len() == 0 {
            self.nullable_iff_accepts_empty();
            assert(word =~= Seq::<B::Symbol>::empty());
        } else {
            let symbol = word[0];
            let rest = word.drop_first();
            assert(word =~= seq![symbol] + rest);
            self.derivative_is_sound(symbol, rest);
            self.spec_derive(symbol).match_is_membership(rest);
            self.derivative_accepts_the_rest(symbol, rest);
        }
    }
}

/// The pure builder keeps languages.
pub proof fn pure_keeps_languages<S: Alphabet>()
    ensures
        keeps_languages::<Pure<S>>(),
{
}

/// Whether the word is in the language of one of the items.
pub open spec fn any_accepts<B: Vocabulary>(items: Seq<Regex<B>>, word: Seq<B::Symbol>) -> bool {
    exists|i: int| 0 <= i < items.len() && (#[trigger] items[i]).accepts(word)
}

/// Whether the word is in the languages of all items.
pub open spec fn all_accept<B: Vocabulary>(items: Seq<Regex<B>>, word: Seq<B::Symbol>) -> bool {
    forall|i: int| 0 <= i < items.len() ==> (#[trigger] items[i]).accepts(word)
}

/// Whether the word is made of words of the languages of the items, one
/// for each item, in their order.
pub open spec fn chain_accepts<B: Vocabulary>(items: Seq<Regex<B>>, word: Seq<B::Symbol>) -> bool
    decreases items.len(),
{
    if items.len() == 0 {
        word.len() == 0
    } else {
        exists|k: int|
            0 <= k <= word.len() && items[0].accepts(#[trigger] word.take(k)) && chain_accepts(
                items.drop_first(),
                word.skip(k),
            )
    }
}

/// What holds of one of two sequences with the same terms holds of the other.
proof fn lemma_accepts_by_terms<B: Vocabulary>(
    a: Seq<Regex<B>>,
    b: Seq<Regex<B>>,
    word: Seq<B::Symbol>,
)
    requires
        a.to_set() == b.to_set(),
    ensures
        any_accepts(a, word) == any_accepts(b, word),
        all_accept(a, word) == all_accept(b, word),
{
    lemma_accepts_within(a, b, word);
    lemma_accepts_within(b, a, word);
}

/// What holds of a sequence holds of one whose terms are among its terms.
proof fn lemma_accepts_within<B: Vocabulary>(
    a: Seq<Regex<B>>,
    b: Seq<Regex<B>>,
    word: Seq<B::Symbol>,
)
    requires
        a.to_set().subset_of(b.to_set()),
    ensures
        any_accepts(a, word) ==> any_accepts(b, word),
        all_accept(b, word) ==> all_accept(a, word),
{
    if any_accepts(a, word) {
        let i = choose|i: int| 0 <= i < a.len() && (#[trigger] a[i]).accepts(word);
        assert(a.contains(a[i]));
        assert(a.to_set().contains(a[i]));
        assert(b.to_set().contains(a[i]));
        assert(b.contains(a[i]));
        let j = choose|j: int| 0 <= j < b.len() && b[j] == a[i];
        assert(b[j].accepts(word));
    }
    if all_accept(b, word) {
        assert forall|i: int| 0 <= i < a.len() implies (#[trigger] a[i]).accepts(word) by {
            assert(a.contains(a[i]));
            assert(a.to_set().contains(a[i]));
            assert(b.to_set().contains(a[i]));
            assert(b.contains(a[i]));
            let j = choose|j: int| 0 <= j < b.len() && b[j] == a[i];
            assert(b[j].accepts(word));
        }
    }
}

/// A word is in the language of one of the terms of two sequences when it
/// is so for one of the two, and in all when it is so for both.
proof fn lemma_accepts_of_sum<B: Vocabulary>(
    a: Seq<Regex<B>>,
    b: Seq<Regex<B>>,
    word: Seq<B::Symbol>,
)
    ensures
        any_accepts(a + b, word) == (any_accepts(a, word) || any_accepts(b, word)),
        all_accept(a + b, word) == (all_accept(a, word) && all_accept(b, word)),
{
    let s = a + b;
    if any_accepts(s, word) {
        let i = choose|i: int| 0 <= i < s.len() && (#[trigger] s[i]).accepts(word);
        if i < a.len() {
            assert(a[i].accepts(word));
        } else {
            assert(b[i - a.len()].accepts(word));
        }
    }
    if any_accepts(a, word) {
        let i = choose|i: int| 0 <= i < a.len() && (#[trigger] a[i]).accepts(word);
        assert(s[i].accepts(word));
    }
    if any_accepts(b, word) {
        let i = choose|i: int| 0 <= i < b.len() && (#[trigger] b[i]).accepts(word);
        assert(s[a.len() + i].accepts(word));
    }
    if all_accept(s, word) {
        assert forall|i: int| 0 <= i < a.len() implies (#[trigger] a[i]).accepts(word) by {
            assert(s[i].accepts(word));
        }
        assert forall|i: int| 0 <= i < b.len() implies (#[trigger] b[i]).accepts(word) by {
            assert(s[a.len() + i].accepts(word));
        }
    }
    if all_accept(a, word) && all_accept(b, word) {
        assert forall|i: int| 0 <= i < s.len() implies (#[trigger] s[i]).accepts(word) by {
            if i < a.len() {
                assert(a[i].accepts(word));
            } else {
                assert(b[i - a.len()].accepts(word));
            }
        }
    }
}

/// The language of joined items is the union or the intersection of their
/// languages.
proof fn lemma_fold_accepts<B: Vocabulary>(
    kind: Junction,
    items: Seq<Regex<B>>,
    word: Seq<B::Symbol>,
)
    requires
        items.len() >= 1,
    ensures
        kind is Or ==> fold(kind, items).accepts(word) == any_accepts(items, word),
        kind is And ==> fold(kind, items).accepts(word) == all_accept(items, word),
    decreases items.len(),
{
    if items.len() == 1 {
        assert(items[0].accepts(word) == any_accepts(items, word));
    } else {
        let rest = items.drop_first();
        lemma_fold_accepts(kind, rest, word);
        assert(items =~= seq![items[0]] + rest);
        lemma_accepts_of_sum(seq![items[0]], rest, word);
        assert(any_accepts(seq![items[0]], word) == items[0].accepts(word)) by {
            assert(seq![items[0]][0] == items[0]);
        }
        assert(all_accept(seq![items[0]], word) == items[0].accepts(word)) by {
            assert(seq![items[0]][0] == items[0]);
        }
        assert(fold(kind, items) == join(kind, items[0], fold(kind, rest)));
    }
}

/// The language of a term is the union or the intersection of the
/// languages of its operands.
proof fn lemma_operands_accept<B: Vocabulary>(
    kind: Junction,
    term: Regex<B>,
    word: Seq<B::Symbol>,
)
    ensures
        kind is Or ==> term.accepts(word) == any_accepts(operands(kind, term), word),
        kind is And ==> term.accepts(word) == all_accept(operands(kind, term), word),
    decreases term,
{
    match (kind, term) {
        (Junction::Or, Regex::Or(left, right)) => {
            lemma_operands_accept(kind, *left, word);
            lemma_operands_accept(kind, *right, word);
            lemma_accepts_of_sum(operands(kind, *left), operands(kind, *right), word);
        },
        (Junction::And, Regex::And(left, right)) => {
            lemma_operands_accept(kind, *left, word);
            lemma_operands_accept(kind, *right, word);
            lemma_accepts_of_sum(operands(kind, *left), operands(kind, *right), word);
        },
        _ => {
            assert(seq![term][0] == term);
            assert(term.accepts(word) == any_accepts(seq![term], word));
            assert(term.accepts(word) == all_accept(seq![term], word));
        },
    }
}

/// The language of the merged operands of two terms is the union or the
/// intersection of the languages of the terms.
proof fn lemma_merged_accepts<B: Vocabulary>(
    kind: Junction,
    left: Regex<B>,
    right: Regex<B>,
    word: Seq<B::Symbol>,
)
    ensures
        kind is Or ==> merged(kind, left, right).accepts(word) == (left.accepts(word)
            || right.accepts(word)),
        kind is And ==> merged(kind, left, right).accepts(word) == (left.accepts(word)
            && right.accepts(word)),
{
    let m = merged_operands(kind, left, right);
    let l = operands(kind, left);
    let r = operands(kind, right);
    lemma_merged_operands(kind, left, right);
    lemma_to_set_of_sum(l, r);
    lemma_fold_accepts(kind, m, word);
    lemma_accepts_by_terms(m, l + r, word);
    lemma_accepts_of_sum(l, r, word);
    lemma_operands_accept(kind, left, word);
    lemma_operands_accept(kind, right, word);
}

/// A chain of one item has the language of the item.
proof fn lemma_chain_of_one<B: Vocabulary>(term: Regex<B>, word: Seq<B::Symbol>)
    ensures
        chain_accepts(seq![term], word) == term.accepts(word),
{
    let one = seq![term];
    let none = one.drop_first();
    assert(none.len() == 0);
    assert(one[0] == term);
    if term.accepts(word) {
        let n = word.len() as int;
        assert(word.take(n) =~= word);
        assert(word.skip(n).len() == 0);
        assert(chain_accepts(none, word.skip(n)));
        assert(one[0].accepts(word.take(n)));
    }
    if chain_accepts(one, word) {
        let k = choose|k: int|
            0 <= k <= word.len() && one[0].accepts(#[trigger] word.take(k)) && chain_accepts(
                none,
                word.skip(k),
            );
        assert(word.skip(k).len() == 0);
        assert(word.take(k) =~= word);
    }
}

/// Words of two chains, one after the other, make a word of the chain of
/// both.
proof fn lemma_chain_joins<B: Vocabulary>(
    a: Seq<Regex<B>>,
    b: Seq<Regex<B>>,
    u: Seq<B::Symbol>,
    v: Seq<B::Symbol>,
)
    requires
        chain_accepts(a, u),
        chain_accepts(b, v),
    ensures
        chain_accepts(a + b, u + v),
    decreases a.len(),
{
    if a.len() == 0 {
        assert(u + v =~= v);
        assert(a + b =~= b);
    } else {
        let k = choose|k: int|
            0 <= k <= u.len() && a[0].accepts(#[trigger] u.take(k)) && chain_accepts(
                a.drop_first(),
                u.skip(k),
            );
        lemma_chain_joins(a.drop_first(), b, u.skip(k), v);
        assert((a + b).drop_first() =~= a.drop_first() + b);
        assert((u + v).take(k) =~= u.take(k));
        assert((u + v).skip(k) =~= u.skip(k) + v);
        assert((a + b)[0].accepts((u + v).take(k)));
    }
}

/// A word of the chain of two sequences splits into a word of the one and
/// a word of the other.
proof fn lemma_chain_splits<B: Vocabulary>(
    a: Seq<Regex<B>>,
    b: Seq<Regex<B>>,
    word: Seq<B::Symbol>,
) -> (k: int)
    requires
        chain_accepts(a + b, word),
    ensures
        0 <= k <= word.len(),
        chain_accepts(a, word.take(k)),
        chain_accepts(b, word.skip(k)),
    decreases a.len(),
{
    if a.len() == 0 {
        assert(a + b =~= b);
        assert(word.skip(0) =~= word);
        assert(word.take(0).len() == 0);
        0
    } else {
        let whole = a + b;
        let k1 = choose|k: int|
            0 <= k <= word.len() && whole[0].accepts(#[trigger] word.take(k)) && chain_accepts(
                whole.drop_first(),
                word.skip(k),
            );
        assert(whole.drop_first() =~= a.drop_first() + b);
        let k2 = lemma_chain_splits(a.drop_first(), b, word.skip(k1));
        let k = k1 + k2;
        assert(word.take(k).take(k1) =~= word.take(k1));
        assert(word.take(k).skip(k1) =~= word.skip(k1).take(k2));
        assert(word.skip(k) =~= word.skip(k1).skip(k2));
        assert(a[0].accepts(word.take(k).take(k1)));
        assert(chain_accepts(a.drop_first(), word.take(k).skip(k1)));
        k
    }
}

/// The language of joined items is that of their chain.
proof fn lemma_fold_is_chain<B: Vocabulary>(items: Seq<Regex<B>>, word: Seq<B::Symbol>)
    requires
        items.len() >= 1,
    ensures
        fold(Junction::Concat, items).accepts(word) == chain_accepts(items, word),
    decreases items.len(),
{
    if items.len() == 1 {
        assert(items =~= seq![items[0]]);
        lemma_chain_of_one(items[0], word);
    } else {
        let rest = items.drop_first();
        let tail = fold(Junction::Concat, rest);
        let whole = fold(Junction::Concat, items);
        assert(whole == Regex::<B>::Concat(Box::new(items[0]), Box::new(tail)));
        if whole.accepts(word) {
            let k = choose|k: int|
                0 <= k <= word.len() && items[0].accepts(#[trigger] word.take(k)) && tail.accepts(
                    word.skip(k),
                );
            lemma_fold_is_chain(rest, word.skip(k));
            assert(chain_accepts(items, word));
        }
        if chain_accepts(items, word) {
            let k = choose|k: int|
                0 <= k <= word.len() && items[0].accepts(#[trigger] word.take(k))
                    && chain_accepts(rest, word.skip(k));
            lemma_fold_is_chain(rest, word.skip(k));
            assert(items[0].accepts(word.take(k)) && tail.accepts(word.skip(k)));
            assert(whole.accepts(word));
        }
    }
}

/// The language of a term is that of the chain of its operands.
proof fn lemma_operands_are_chain<B: Vocabulary>(term: Regex<B>, word: Seq<B::Symbol>)
    ensures
        term.accepts(word) == chain_accepts(operands(Junction::Concat, term), word),
    decreases term,
{
    match term {
        Regex::Concat(left, right) => {
            let l = operands(Junction::Concat, *left);
            let r = operands(Junction::Concat, *right);
            if term.accepts(word) {
                let k = choose|k: int|
                    0 <= k <= word.len() && left.accepts(#[trigger] word.take(k))
                        && right.accepts(word.skip(k));
                lemma_operands_are_chain(*left, word.take(k));
                lemma_operands_are_chain(*right, word.skip(k));
                lemma_chain_joins(l, r, word.take(k), word.skip(k));
                assert(word.take(k) + word.skip(k) =~= word);
            }
            if chain_accepts(l + r, word) {
                let k = lemma_chain_splits(l, r, word);
                lemma_operands_are_chain(*left, word.take(k));
                lemma_operands_are_chain(*right, word.skip(k));
                assert(left.accepts(word.take(k)) && right.accepts(word.skip(k)));
            }
        },
        _ => {
            assert(operands(Junction::Concat, term) =~= seq![term]);
            lemma_chain_of_one(term, word);
        },
    }
}

/// Two words of a closure, one after the other, make a word of the closure.
proof fn lemma_closure_joins<B: Vocabulary>(
    inner: Regex<B>,
    u: Seq<B::Symbol>,
    v: Seq<B::Symbol>,
)
    requires
        Regex::<B>::Closure(Box::new(inner)).accepts(u),
        Regex::<B>::Closure(Box::new(inner)).accepts(v),
    ensures
        Regex::<B>::Closure(Box::new(inner)).accepts(u + v),
    decreases u.len(),
{
    let star = Regex::<B>::Closure(Box::new(inner));
    if u.len() == 0 {
        assert(u + v =~= v);
    } else {
        let k = choose|k: int|
            1 <= k <= u.len() && inner.accepts(#[trigger] u.take(k)) && star.accepts(u.skip(k));
        lemma_closure_joins(inner, u.skip(k), v);
        assert((u + v).take(k) =~= u.take(k));
        assert((u + v).skip(k) =~= u.skip(k) + v);
        assert(inner.accepts((u + v).take(k)) && star.accepts((u + v).skip(k)));
    }
}

/// The closure of a closure has the language of the closure.
proof fn lemma_closure_of_closure<B: Vocabulary>(inner: Regex<B>, word: Seq<B::Symbol>)
    ensures
        Regex::<B>::Closure(Box::new(Regex::Closure(Box::new(inner)))).accepts(word)
            == Regex::<B>::Closure(Box::new(inner)).accepts(word),
    decreases word.len(),
{
    let star = Regex::<B>::Closure(Box::new(inner));
    let stars = Regex::<B>::Closure(Box::new(star));
    if word.len() > 0 {
        if stars.accepts(word) {
            let k = choose|k: int|
                1 <= k <= word.len() && star.accepts(#[trigger] word.take(k)) && stars.accepts(
                    word.skip(k),
                );
            lemma_closure_of_closure(inner, word.skip(k));
            lemma_closure_joins(inner, word.take(k), word.skip(k));
            assert(word.take(k) + word.skip(k) =~= word);
        }
        if star.accepts(word) {
            let n = word.len() as int;
            assert(word.take(n) =~= word);
            assert(word.skip(n).len() == 0);
            assert(stars.accepts(word.skip(n)));
            assert(star.accepts(word.take(n)));
        }
    }
}

/// The complement of the empty set has every word.
proof fn lemma_top_accepts<B: Vocabulary>(term: Regex<B>, word: Seq<B::Symbol>)
    requires
        is_top(term),
    ensures
        term.accepts(word),
{
    match term {
        Regex::Complement(inner) => {
            assert(!inner.accepts(word));
        },
        _ => {},
    }
}

/// The closure that the canonical builder gives has the language of the
/// closure.
proof fn lemma_closure_kept<S: Alphabet>(
    inner: Regex<ApproximatelySimilarCanonical<S>>,
    word: Seq<S>,
)
    ensures
        ApproximatelySimilarCanonical::<S>::spec_closure(inner).accepts(word) == Regex::<
            ApproximatelySimilarCanonical<S>,
        >::Closure(Box::new(inner)).accepts(word),
{
    let node = Regex::<ApproximatelySimilarCanonical<S>>::Closure(Box::new(inner));
    match inner {
        Regex::Closure(deep) => {
            lemma_closure_of_closure(*deep, word);
        },
        Regex::EmptySet => {
            if node.accepts(word) && word.len() > 0 {
                let k = choose|k: int|
                    1 <= k <= word.len() && inner.accepts(#[trigger] word.take(k)) && node.accepts(
                        word.skip(k),
                    );
                assert(!inner.accepts(word.take(k)));
            }
        },
        Regex::EmptyString => {
            if node.accepts(word) && word.len() > 0 {
                let k = choose|k: int|
                    1 <= k <= word.len() && inner.accepts(#[trigger] word.take(k)) && node.accepts(
                        word.skip(k),
                    );
                assert(word.take(k).len() == 0);
            }
        },
        _ => {},
    }
}

/// The concatenation that the canonical builder gives has the language of
/// the concatenation.
proof fn lemma_concat_kept<S: Alphabet>(
    left: Regex<ApproximatelySimilarCanonical<S>>,
    right: Regex<ApproximatelySimilarCanonical<S>>,
    word: Seq<S>,
)
    ensures
        ApproximatelySimilarCanonical::<S>::spec_concat(left, right).accepts(word) == Regex::<
            ApproximatelySimilarCanonical<S>,
        >::Concat(Box::new(left), Box::new(right)).accepts(word),
{
    let node = Regex::<ApproximatelySimilarCanonical<S>>::Concat(Box::new(left), Box::new(right));
    let n = word.len() as int;
    if left is EmptySet || right is EmptySet {
        if node.accepts(word) {
            let k = choose|k: int|
                0 <= k <= word.len() && left.accepts(#[trigger] word.take(k)) && right.accepts(
                    word.skip(k),
                );
            assert(!(left.accepts(word.take(k)) && right.accepts(word.skip(k))));
        }
    } else if left is EmptyString {
        if node.accepts(word) {
            let k = choose|k: int|
                0 <= k <= word.len() && left.accepts(#[trigger] word.take(k)) && right.accepts(
                    word.skip(k),
                );
            assert(word.take(k).len() == 0);
            assert(k == 0);
            assert(word.skip(k) =~= word);
        }
        if right.accepts(word) {
            assert(word.take(0).len() == 0);
            assert(word.skip(0) =~= word);
            assert(left.accepts(word.take(0)) && right.accepts(word.skip(0)));
        }
    } else if right is EmptyString {
        if node.accepts(word) {
            let k = choose|k: int|
                0 <= k <= word.len() && left.accepts(#[trigger] word.take(k)) && right.accepts(
                    word.skip(k),
                );
            assert(word.skip(k).len() == 0);
            assert(k == n);
            assert(word.take(k) =~= word);
        }
        if left.accepts(word) {
            assert(word.skip(n).len() == 0);
            assert(word.take(n) =~= word);
            assert(left.accepts(word.take(n)) && right.accepts(word.skip(n)));
        }
    } else {
        let items = operands(Junction::Concat, left) + operands(Junction::Concat, right);
        assert(operands(Junction::Concat, node) == items);
        lemma_operands_not_empty(Junction::Concat, left);
        lemma_fold_is_chain(items, word);
        lemma_operands_are_chain(node, word);
    }
}

/// The union and the intersection that the canonical builder gives have
/// the languages of the union and of the intersection.
proof fn lemma_junction_kept<S: Alphabet>(
    left: Regex<ApproximatelySimilarCanonical<S>>,
    right: Regex<ApproximatelySimilarCanonical<S>>,
    word: Seq<S>,
)
    ensures
        ApproximatelySimilarCanonical::<S>::spec_or(left, right).accepts(word) == (left.accepts(
            word,
        ) || right.accepts(word)),
        ApproximatelySimilarCanonical::<S>::spec_and(left, right).accepts(word) == (left.accepts(
            word,
        ) && right.accepts(word)),
{
    let all = Regex::<ApproximatelySimilarCanonical<S>>::Complement(Box::new(Regex::EmptySet));
    assert(is_top(all));
    lemma_top_accepts(all, word);
    if is_top(left) {
        lemma_top_accepts(left, word);
    }
    if is_top(right) {
        lemma_top_accepts(right, word);
    }
    lemma_merged_accepts(Junction::Or, left, right, word);
    lemma_merged_accepts(Junction::And, left, right, word);
}

/// The canonical builder keeps languages.
pub proof fn canonical_keeps_languages<S: Alphabet>()
    ensures
        keeps_languages::<ApproximatelySimilarCanonical<S>>(),
{
    assert forall|inner: Regex<ApproximatelySimilarCanonical<S>>, word: Seq<S>| #[trigger]
        ApproximatelySimilarCanonical::<S>::spec_closure(inner).accepts(word) == Regex::<
            ApproximatelySimilarCanonical<S>,
        >::Closure(Box::new(inner)).accepts(word) by {
        lemma_closure_kept(inner, word);
    }
    assert forall|inner: Regex<ApproximatelySimilarCanonical<S>>, word: Seq<S>| #[trigger]
        ApproximatelySimilarCanonical::<S>::spec_complement(inner).accepts(word) == !inner.accepts(
            word,
        ) by {}
    assert forall|
        left: Regex<ApproximatelySimilarCanonical<S>>,
        right: Regex<ApproximatelySimilarCanonical<S>>,
        word: Seq<S>,
    | #[trigger]
        ApproximatelySimilarCanonical::<S>::spec_concat(left, right).accepts(word) == Regex::<
            ApproximatelySimilarCanonical<S>,
        >::Concat(Box::new(left), Box::new(right)).accepts(word) by {
        lemma_concat_kept(left, right, word);
    }
    assert forall|
        left: Regex<ApproximatelySimilarCanonical<S>>,
        right: Regex<ApproximatelySimilarCanonical<S>>,
        word: Seq<S>,
    | #[trigger]
        ApproximatelySimilarCanonical::<S>::spec_or(left, right).accepts(word) == (left.accepts(
            word,
        ) || right.accepts(word)) by {
        lemma_junction_kept(left, right, word);
    }
    assert forall|
        left: Regex<ApproximatelySimilarCanonical<S>>,
        right: Regex<ApproximatelySimilarCanonical<S>>,
        word: Seq<S>,
    | #[trigger]
        ApproximatelySimilarCanonical::<S>::spec_and(left, right).accepts(word) == (left.accepts(
            word,
        ) && right.accepts(word)) by {
        lemma_junction_kept(left, right, word);
    }
}

impl<S: Alphabet> Regex<Pure<S>> {
    /// Matching a term of the pure builder by derivation decides whether
    /// the word is in the language of the term.
    pub proof fn pure_match_is_membership(&self, word: Seq<S>)
        ensures
            self.spec_is_match(word) == self.accepts(word),
    {
        pure_keeps_languages::<S>();
        self.match_is_membership(word);
    }
}

impl<S: Alphabet> Regex<ApproximatelySimilarCanonical<S>> {
    /// Matching a term of the canonical builder by derivation decides
    /// whether the word is in the language of the term.
    pub proof fn canonical_match_is_membership(&self, word: Seq<S>)
        ensures
            self.spec_is_match(word) == self.accepts(word),
    {
        canonical_keeps_languages::<S>();
        self.match_is_membership(word);
    }
}

/// The closures of two terms with the same language have the same
/// language.
proof fn lemma_closure_by_language<B: Vocabulary, X: Vocabulary<Symbol = B::Symbol>>(
    a: Regex<B>,
    b: Regex<X>,
    word: Seq<B::Symbol>,
)
    requires
        forall|u: Seq<B::Symbol>| a.accepts(u) == #[trigger] b.accepts(u),
    ensures
        Regex::<B>::Closure(Box::new(a)).accepts(word) == Regex::<X>::Closure(Box::new(b)).accepts(
            word,
        ),
    decreases word.len(),
{
    let sa = Regex::<B>::Closure(Box::new(a));
    let sb = Regex::<X>::Closure(Box::new(b));
    if word.len() > 0 {
        if sa.accepts(word) {
            let k = choose|k: int|
                1 <= k <= word.len() && a.accepts(#[trigger] word.take(k)) && sa.accepts(
                    word.skip(k),
                );
            lemma_closure_by_language(a, b, word.skip(k));
            assert(b.accepts(word.take(k)) && sb.accepts(word.skip(k)));
        }
        if sb.accepts(word) {
            let k = choose|k: int|
                1 <= k <= word.len() && b.accepts(#[trigger] word.take(k)) && sb.accepts(
                    word.skip(k),
                );
            lemma_closure_by_language(a, b, word.skip(k));
            assert(a.accepts(word.take(k)) && sa.accepts(word.skip(k)));
        }
    }
}

impl<B: Builder> Regex<B> {
    /// Rebuilding a term through a builder that keeps languages gives a
    /// term with the same language.
    pub proof fn rebuild_keeps_the_language<X: Builder<Symbol = B::Symbol>>(&self)
        requires
            keeps_languages::<X>(),
        ensures
            forall|word: Seq<B::Symbol>| #[trigger]
                self.spec_rebuild::<X>().accepts(word) == self.accepts(word),
        decreases *self,
    {
        match self {
            Regex::Concat(left, right) => {
                left.rebuild_keeps_the_language::<X>();
                right.rebuild_keeps_the_language::<X>();
                let l = left.spec_rebuild::<X>();
                let r = right.spec_rebuild::<X>();
                let node = Regex::<X>::Concat(Box::new(l), Box::new(r));
                assert forall|word: Seq<B::Symbol>| #[trigger]
                    self.spec_rebuild::<X>().accepts(word) == self.accepts(word) by {
                    assert(X::spec_concat(l, r).accepts(word) == node.accepts(word));
                    if node.accepts(word) {
                        let k = choose|k: int|
                            0 <= k <= word.len() && l.accepts(#[trigger] word.take(k))
                                && r.accepts(word.skip(k));
                        assert(left.accepts(word.take(k)) && right.accepts(word.skip(k)));
                    }
                    if self.accepts(word) {
                        let k = choose|k: int|
                            0 <= k <= word.len() && left.accepts(#[trigger] word.take(k))
                                && right.accepts(word.skip(k));
                        assert(l.accepts(word.take(k)) && r.accepts(word.skip(k)));
                    }
                }
            },
            Regex::Closure(inner) => {
                inner.rebuild_keeps_the_language::<X>();
                let i = inner.spec_rebuild::<X>();
                assert forall|word: Seq<B::Symbol>| #[trigger]
                    self.spec_rebuild::<X>().accepts(word) == self.accepts(word) by {
                    assert(X::spec_closure(i).accepts(word) == Regex::<X>::Closure(
                        Box::new(i),
                    ).accepts(word));
                    lemma_closure_by_language::<B, X>(**inner, i, word);
                }
            },
            Regex::Or(left, right) => {
                left.rebuild_keeps_the_language::<X>();
                right.rebuild_keeps_the_language::<X>();
            },
            Regex::And(left, right) => {
                left.rebuild_keeps_the_language::<X>();
                right.rebuild_keeps_the_language::<X>();
            },
            Regex::Complement(inner) => {
                inner.rebuild_keeps_the_language::<X>();
            },
            _ => {},
        }
    }
}

} // verus!
