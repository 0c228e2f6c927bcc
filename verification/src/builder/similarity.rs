//! A builder that produces regular expressions in approximately-similar
//! canonical form.

use vstd::prelude::*;
use std::cmp::Ordering;
use std::marker::PhantomData;
use crate::alphabet::Alphabet;
use crate::builder::order::cmp;
use crate::builder::order::lt_is_asymmetric;
use crate::builder::order::lt_is_irreflexive;
use crate::builder::order::lt_is_total;
use crate::builder::order::term_lt;
use crate::builder::Builder;
use crate::builder::Regex;
use crate::builder::Vocabulary;

verus! {

/// The builder of the canonical form: every constructor call returns the
/// rewritten term.
#[derive(Debug, Hash, PartialEq, Eq)]
pub struct ApproximatelySimilarCanonical<S: Alphabet> {
    _phantom: PhantomData<S>,
}

/// The binary constructors whose nested uses are flattened.
#[derive(Clone, Copy, Debug, PartialEq, Eq)]
pub enum Junction {
    Concat,
    Or,
    And,
}

/// The node of the given kind over two children.
pub open spec fn join<B: Vocabulary>(kind: Junction, left: Regex<B>, right: Regex<B>) -> Regex<B> {
    match kind {
        Junction::Concat => Regex::Concat(Box::new(left), Box::new(right)),
        Junction::Or => Regex::Or(Box::new(left), Box::new(right)),
        Junction::And => Regex::And(Box::new(left), Box::new(right)),
    }
}

/// Whether the term is a node of the given kind.
pub open spec fn is_join<B: Vocabulary>(kind: Junction, term: Regex<B>) -> bool {
    match (kind, term) {
        (Junction::Concat, Regex::Concat(_, _)) => true,
        (Junction::Or, Regex::Or(_, _)) => true,
        (Junction::And, Regex::And(_, _)) => true,
        _ => false,
    }
}

/// The operands of the nested nodes of the given kind at the top of the
/// term, from left to right.
pub open spec fn operands<B: Vocabulary>(kind: Junction, term: Regex<B>) -> Seq<Regex<B>>
    decreases term,
{
    match (kind, term) {
        (Junction::Concat, Regex::Concat(left, right)) => operands(kind, *left) + operands(
            kind,
            *right,
        ),
        (Junction::Or, Regex::Or(left, right)) => operands(kind, *left) + operands(kind, *right),
        (Junction::And, Regex::And(left, right)) => operands(kind, *left) + operands(kind, *right),
        _ => seq![term],
    }
}

/// The operands joined again, nested along the right children.
pub open spec fn fold<B: Vocabulary>(kind: Junction, items: Seq<Regex<B>>) -> Regex<B>
    decreases items.len(),
{
    if items.len() == 0 {
        Regex::EmptySet
    } else if items.len() == 1 {
        items[0]
    } else {
        join(kind, items[0], fold(kind, items.drop_first()))
    }
}

/// Whether every item comes strictly before the items behind it.
pub open spec fn ascending<B: Vocabulary>(items: Seq<Regex<B>>) -> bool {
    forall|i: int, j: int| 0 <= i < j < items.len() ==> term_lt(#[trigger] items[i], #[trigger] items[j])
}

/// Whether no item comes strictly before an item in front of it.
pub open spec fn non_descending<B: Vocabulary>(items: Seq<Regex<B>>) -> bool {
    forall|i: int, j: int|
        0 <= i < j < items.len() ==> !term_lt(#[trigger] items[j], #[trigger] items[i])
}

/// The terms of a finite set in ascending order, each once.
pub open spec fn ascending_of<B: Vocabulary>(terms: Set<Regex<B>>) -> Seq<Regex<B>> {
    choose|items: Seq<Regex<B>>| ascending(items) && items.to_set() == terms
}

/// The items without those that repeat the item in front of them.
pub open spec fn without_repeats<B: Vocabulary>(items: Seq<Regex<B>>) -> Seq<Regex<B>>
    decreases items.len(),
{
    if items.len() <= 1 {
        items
    } else if items[items.len() - 2] == items.last() {
        without_repeats(items.drop_last())
    } else {
        without_repeats(items.drop_last()).push(items.last())
    }
}

/// Whether the term is the complement of the empty set.
pub open spec fn is_top<B: Vocabulary>(term: Regex<B>) -> bool {
    match term {
        Regex::Complement(inner) => *inner is EmptySet,
        _ => false,
    }
}

/// The operands of both terms, sorted, each once, and joined again.
pub open spec fn merged<B: Vocabulary>(kind: Junction, left: Regex<B>, right: Regex<B>) -> Regex<B> {
    fold(kind, ascending_of(operands(kind, left).to_set().union(operands(kind, right).to_set())))
}

/// Removing repeats from a sorted sequence leaves its terms in strictly
/// ascending order.
pub(crate) proof fn lemma_without_repeats<B: Vocabulary>(items: Seq<Regex<B>>)
    requires
        non_descending(items),
    ensures
        ascending(without_repeats(items)),
        without_repeats(items).to_set() == items.to_set(),
        items.len() > 0 ==> without_repeats(items).len() > 0 && without_repeats(items).last()
            == items.last(),
    decreases items.len(),
{
    let out = without_repeats(items);
    if items.len() <= 1 {
    } else {
        let front = items.drop_last();
        let last = items.last();
        let n = items.len() as int;
        assert forall|i: int, j: int| 0 <= i < j < front.len() implies !term_lt(
            #[trigger] front[j],
            #[trigger] front[i],
        ) by {
            assert(front[i] == items[i] && front[j] == items[j]);
        }
        lemma_without_repeats(front);
        let inner = without_repeats(front);
        assert(front.last() == items[n - 2]);
        if items[n - 2] == last {
            assert forall|x: Regex<B>| items.contains(x) implies front.contains(x) by {
                let k = choose|k: int| 0 <= k < items.len() && items[k] == x;
                if k == n - 1 {
                    assert(front[n - 2] == x);
                } else {
                    assert(front[k] == x);
                }
            }
            assert forall|x: Regex<B>| front.contains(x) implies items.contains(x) by {
                let k = choose|k: int| 0 <= k < front.len() && front[k] == x;
                assert(items[k] == x);
            }
            assert(out.to_set() =~= items.to_set());
        } else {
            assert(out == inner.push(last));
            assert forall|x: Regex<B>| inner.contains(x) implies term_lt(x, last) by {
                assert(inner.to_set().contains(x));
                assert(front.contains(x));
                let k = choose|k: int| 0 <= k < front.len() && front[k] == x;
                assert(items[k] == x);
                assert(!term_lt(items[n - 1], items[k]));
                lt_is_total(x, last);
                if x == last {
                    if k < n - 2 {
                        assert(!term_lt(items[n - 2], items[k]));
                    }
                    assert(!term_lt(items[n - 1], items[n - 2]));
                    lt_is_total(items[n - 2], last);
                }
            }
            assert forall|i: int, j: int| 0 <= i < j < out.len() implies term_lt(
                #[trigger] out[i],
                #[trigger] out[j],
            ) by {
                if j < inner.len() {
                    assert(out[i] == inner[i] && out[j] == inner[j]);
                } else {
                    assert(out[i] == inner[i]);
                    assert(inner.contains(inner[i]));
                }
            }
            assert forall|x: Regex<B>| items.contains(x) implies out.contains(x) by {
                let k = choose|k: int| 0 <= k < items.len() && items[k] == x;
                if k == n - 1 {
                    assert(out[inner.len() as int] == x);
                } else {
                    assert(front[k] == x);
                    assert(front.to_set().contains(x));
                    assert(inner.to_set().contains(x));
                    let m = choose|m: int| 0 <= m < inner.len() && inner[m] == x;
                    assert(out[m] == x);
                }
            }
            assert forall|x: Regex<B>| out.contains(x) implies items.contains(x) by {
                let k = choose|k: int| 0 <= k < out.len() && out[k] == x;
                if k == inner.len() {
                    assert(items[n - 1] == x);
                } else {
                    assert(inner[k] == x);
                    assert(inner.to_set().contains(x));
                    assert(front.to_set().contains(x));
                    let m = choose|m: int| 0 <= m < front.len() && front[m] == x;
                    assert(items[m] == x);
                }
            }
            assert(out.to_set() =~= items.to_set());
        }
    }
}

/// Two strictly ascending sequences of the same terms are equal.
pub(crate) proof fn lemma_ascending_unique<B: Vocabulary>(a: Seq<Regex<B>>, b: Seq<Regex<B>>)
    requires
        ascending(a),
        ascending(b),
        a.to_set() == b.to_set(),
    ensures
        a == b,
    decreases a.len(),
{
    if a.len() == 0 {
        if b.len() > 0 {
            assert(b.contains(b[0]));
            assert(b.to_set().contains(b[0]));
            assert(a.contains(b[0]));
        }
        assert(a =~= b);
    } else {
        let x = a.last();
        assert(a.contains(x));
        assert(a.to_set().contains(x));
        assert(b.contains(x));
        let y = b.last();
        assert(b.contains(y));
        assert(b.to_set().contains(y));
        assert(a.contains(y));
        let i = choose|i: int| 0 <= i < a.len() && a[i] == y;
        let j = choose|j: int| 0 <= j < b.len() && b[j] == x;
        if x != y {
            assert(term_lt(a[i], a[a.len() - 1]));
            assert(term_lt(b[j], b[b.len() - 1]));
            lt_is_asymmetric(x, y);
        }
        let a0 = a.drop_last();
        let b0 = b.drop_last();
        assert forall|z: Regex<B>| a0.contains(z) implies b0.contains(z) by {
            let k = choose|k: int| 0 <= k < a0.len() && a0[k] == z;
            assert(a[k] == z);
            assert(term_lt(a[k], a[a.len() - 1]));
            lt_is_irreflexive(x);
            assert(a.contains(z));
            assert(a.to_set().contains(z));
            assert(b.contains(z));
            let m = choose|m: int| 0 <= m < b.len() && b[m] == z;
            assert(b0[m] == z);
        }
        assert forall|z: Regex<B>| b0.contains(z) implies a0.contains(z) by {
            let k = choose|k: int| 0 <= k < b0.len() && b0[k] == z;
            assert(b[k] == z);
            assert(term_lt(b[k], b[b.len() - 1]));
            lt_is_irreflexive(y);
            assert(b.contains(z));
            assert(b.to_set().contains(z));
            assert(a.contains(z));
            let m = choose|m: int| 0 <= m < a.len() && a[m] == z;
            assert(a0[m] == z);
        }
        assert(a0.to_set() =~= b0.to_set());
        assert forall|i: int, j: int| 0 <= i < j < a0.len() implies term_lt(
            #[trigger] a0[i],
            #[trigger] a0[j],
        ) by {
            assert(a0[i] == a[i] && a0[j] == a[j]);
        }
        assert forall|i: int, j: int| 0 <= i < j < b0.len() implies term_lt(
            #[trigger] b0[i],
            #[trigger] b0[j],
        ) by {
            assert(b0[i] == b[i] && b0[j] == b[j]);
        }
        lemma_ascending_unique(a0, b0);
        assert(a =~= a0.push(x));
        assert(b =~= b0.push(y));
    }
}

/// A strictly ascending sequence is the ascending order of its own terms.
pub(crate) proof fn lemma_ascending_of<B: Vocabulary>(items: Seq<Regex<B>>)
    requires
        ascending(items),
    ensures
        ascending_of(items.to_set()) == items,
{
    let chosen = ascending_of(items.to_set());
    assert(ascending(items) && items.to_set() == items.to_set());
    lemma_ascending_unique(chosen, items);
}

/// Sorts the items by the order on terms with `sorted_by` of itertools,
/// which sorts a copy of them with the stable sort of slices: the result
/// holds the same items, each as often as before, and none of them comes
/// before an item in front of it. The comparison is `cmp`, which is a total
/// order on terms, as the sort asks.
#[verifier::external_body]
fn sorted_by_cmp<B: Vocabulary>(items: Vec<Regex<B>>) -> (sorted: Vec<Regex<B>>)
    ensures
        sorted@.to_multiset() == items@.to_multiset(),
        non_descending(sorted@),
{
    itertools::Itertools::sorted_by(items.into_iter(), |l, r| cmp(l, r)).collect()
}

/// Whether the two terms are equal.
pub fn same<B: Vocabulary>(left: &Regex<B>, right: &Regex<B>) -> (b: bool)
    ensures
        b == (*left == *right),
{
    matches!(cmp(left, right), Ordering::Equal)
}

/// Removes the items that repeat the item in front of them with `dedup_by`
/// of itertools, which keeps the first item of every run of items that the
/// given test takes for equal. The test is `same`, which holds of equal
/// terms only.
#[verifier::external_body]
fn dedup<B: Vocabulary>(items: Vec<Regex<B>>) -> (unique: Vec<Regex<B>>)
    ensures
        unique@ == without_repeats(items@),
{
    itertools::Itertools::dedup_by(items.into_iter(), |l, r| same(l, r)).collect()
}

/// Appends the operands of `term` to `out`.
fn flatten<B: Vocabulary>(kind: Junction, term: &Regex<B>, out: &mut Vec<Regex<B>>)
    ensures
        final(out)@ == old(out)@ + operands(kind, *term),
    decreases *term,
{
    match (kind, term) {
        (Junction::Concat, Regex::Concat(left, right)) => {
            flatten(kind, left, out);
            flatten(kind, right, out);
        },
        (Junction::Or, Regex::Or(left, right)) => {
            flatten(kind, left, out);
            flatten(kind, right, out);
        },
        (Junction::And, Regex::And(left, right)) => {
            flatten(kind, left, out);
            flatten(kind, right, out);
        },
        _ => {
            out.push(term.duplicate());
        },
    }
    proof {
        assert(final(out)@ =~= old(out)@ + operands(kind, *term));
    }
}

/// The node of the given kind over two children.
fn joined<B: Vocabulary>(kind: Junction, left: Regex<B>, right: Regex<B>) -> (r: Regex<B>)
    ensures
        r == join(kind, left, right),
{
    match kind {
        Junction::Concat => Regex::Concat(Box::new(left), Box::new(right)),
        Junction::Or => Regex::Or(Box::new(left), Box::new(right)),
        Junction::And => Regex::And(Box::new(left), Box::new(right)),
    }
}

/// Joins the items, nested along the right children.
fn folded<B: Vocabulary>(kind: Junction, items: &Vec<Regex<B>>) -> (r: Regex<B>)
    requires
        items.len() >= 1,
    ensures
        r == fold(kind, items@),
{
    let n: usize = items.len();
    let mut i: usize = n - 1;
    let mut acc: Regex<B> = items[i].duplicate();
    proof {
        assert(items@.subrange(i as int, n as int).len() == 1);
    }
    while i > 0
        invariant
            i < n,
            n == items.len(),
            acc == fold(kind, items@.subrange(i as int, n as int)),
        decreases i,
    {
        i -= 1;
        proof {
            assert(items@.subrange(i as int, n as int).drop_first() == items@.subrange(
                i + 1,
                n as int,
            ));
        }
        acc = joined(kind, items[i].duplicate(), acc);
    }
    proof {
        assert(items@.subrange(0, n as int) == items@);
    }
    acc
}

/// The terms of both sequences are the terms of the one followed by the other.
pub(crate) proof fn lemma_to_set_of_sum<B: Vocabulary>(a: Seq<Regex<B>>, b: Seq<Regex<B>>)
    ensures
        (a + b).to_set() == a.to_set().union(b.to_set()),
{
    let s = a + b;
    assert forall|x: Regex<B>| s.contains(x) <==> (a.contains(x) || b.contains(x)) by {
        if s.contains(x) {
            let k = choose|k: int| 0 <= k < s.len() && s[k] == x;
            if k < a.len() {
                assert(a[k] == x);
            } else {
                assert(b[k - a.len()] == x);
            }
        }
        if a.contains(x) {
            let k = choose|k: int| 0 <= k < a.len() && a[k] == x;
            assert(s[k] == x);
        }
        if b.contains(x) {
            let k = choose|k: int| 0 <= k < b.len() && b[k] == x;
            assert(s[a.len() + k] == x);
        }
    }
    assert(s.to_set() =~= a.to_set().union(b.to_set()));
}

/// Flattens both terms, sorts the operands, drops the repeated ones and
/// joins the rest.
fn merge<B: Vocabulary>(kind: Junction, left: &Regex<B>, right: &Regex<B>) -> (r: Regex<B>)
    ensures
        r == merged(kind, *left, *right),
{
    let mut items: Vec<Regex<B>> = Vec::new();
    flatten(kind, left, &mut items);
    flatten(kind, right, &mut items);
    let ghost all = items@;
    let sorted = sorted_by_cmp(items);
    let unique = dedup(sorted);
    proof {
        assert(all =~= operands(kind, *left) + operands(kind, *right));
        lemma_to_set_of_sum(operands(kind, *left), operands(kind, *right));
        all.to_multiset_ensures();
        sorted@.to_multiset_ensures();
        assert forall|x: Regex<B>| sorted@.contains(x) <==> all.contains(x) by {
            assert(sorted@.contains(x) <==> sorted@.to_multiset().count(x) > 0);
            assert(all.contains(x) <==> all.to_multiset().count(x) > 0);
        }
        assert(sorted@.to_set() =~= all.to_set());
        lemma_without_repeats(sorted@);
        lemma_ascending_of(unique@);
        lemma_operands_not_empty(kind, *left);
        assert(all.len() > 0);
        assert(sorted@.len() > 0) by {
            assert(all.contains(all[0]));
            assert(sorted@.to_set().contains(all[0]));
        }
    }
    folded(kind, &unique)
}

/// Every term has at least one operand.
pub(crate) proof fn lemma_operands_not_empty<B: Vocabulary>(kind: Junction, term: Regex<B>)
    ensures
        operands(kind, term).len() >= 1,
    decreases term,
{
    match (kind, term) {
        (Junction::Concat, Regex::Concat(left, right)) => {
            lemma_operands_not_empty(kind, *left);
        },
        (Junction::Or, Regex::Or(left, right)) => {
            lemma_operands_not_empty(kind, *left);
        },
        (Junction::And, Regex::And(left, right)) => {
            lemma_operands_not_empty(kind, *left);
        },
        _ => {},
    }
}

/// Returns whether the term is the complement of the empty set.
fn is_empty_set_complement<B: Vocabulary>(term: &Regex<B>) -> (b: bool)
    ensures
        b == is_top(*term),
{
    if let Regex::Complement(inner) = term {
        matches!(**inner, Regex::EmptySet)
    } else {
        false
    }
}

impl<S: Alphabet> Vocabulary for ApproximatelySimilarCanonical<S> {
    type Symbol = S;
}

impl<S: Alphabet> Builder for ApproximatelySimilarCanonical<S> {
    open spec fn spec_closure(inner: Regex<Self>) -> Regex<Self> {
        match inner {
            Regex::EmptySet => Regex::EmptyString,
            Regex::EmptyString => Regex::EmptyString,
            Regex::Closure(_) => inner,
            _ => Regex::Closure(Box::new(inner)),
        }
    }

    open spec fn spec_concat(left: Regex<Self>, right: Regex<Self>) -> Regex<Self> {
        if left is EmptySet || right is EmptySet {
            Regex::EmptySet
        } else if left is EmptyString {
            right
        } else if right is EmptyString {
            left
        } else {
            fold(Junction::Concat, operands(Junction::Concat, left) + operands(Junction::Concat, right))
        }
    }

    open spec fn spec_or(left: Regex<Self>, right: Regex<Self>) -> Regex<Self> {
        if left is EmptySet {
            right
        } else if right is EmptySet {
            left
        } else if is_top(left) || is_top(right) {
            Regex::Complement(Box::new(Regex::EmptySet))
        } else {
            merged(Junction::Or, left, right)
        }
    }

    open spec fn spec_and(left: Regex<Self>, right: Regex<Self>) -> Regex<Self> {
        if left is EmptySet || right is EmptySet {
            Regex::EmptySet
        } else if is_top(left) {
            right
        } else if is_top(right) {
            left
        } else {
            merged(Junction::And, left, right)
        }
    }

    open spec fn spec_complement(inner: Regex<Self>) -> Regex<Self> {
        match inner {
            Regex::Complement(inner) => *inner,
            _ => Regex::Complement(Box::new(inner)),
        }
    }

    #[inline]
    fn empty_set() -> (r: Regex<Self>) {
        Regex::EmptySet
    }

    #[inline]
    fn empty_string() -> (r: Regex<Self>) {
        Regex::EmptyString
    }

    #[inline]
    fn symbol(value: Self::Symbol) -> (r: Regex<Self>) {
        Regex::Symbol(value)
    }

    fn closure(inner: Regex<Self>) -> (r: Regex<Self>) {
        match inner {
            Regex::EmptySet => Regex::EmptyString,
            Regex::EmptyString => Regex::EmptyString,
            Regex::Closure(inner) => Regex::Closure(inner),
            inner => Regex::Closure(Box::new(inner)),
        }
    }

    fn concat(left: Regex<Self>, right: Regex<Self>) -> (r: Regex<Self>) {
        if matches!(left, Regex::EmptySet) || matches!(right, Regex::EmptySet) {
            Regex::EmptySet
        } else if matches!(left, Regex::EmptyString) {
            right
        } else if matches!(right, Regex::EmptyString) {
            left
        } else {
            let mut items: Vec<Regex<Self>> = Vec::new();
            flatten(Junction::Concat, &left, &mut items);
            flatten(Junction::Concat, &right, &mut items);
            proof {
                lemma_operands_not_empty(Junction::Concat, left);
                assert(items@ =~= operands(Junction::Concat, left) + operands(
                    Junction::Concat,
                    right,
                ));
            }
            folded(Junction::Concat, &items)
        }
    }

    fn or(left: Regex<Self>, right: Regex<Self>) -> (r: Regex<Self>) {
        if matches!(left, Regex::EmptySet) {
            right
        } else if matches!(right, Regex::EmptySet) {
            left
        } else if is_empty_set_complement(&left) || is_empty_set_complement(&right) {
            Regex::Complement(Box::new(Regex::EmptySet))
        } else {
            merge(Junction::Or, &left, &right)
        }
    }

    fn and(left: Regex<Self>, right: Regex<Self>) -> (r: Regex<Self>) {
        if matches!(left, Regex::EmptySet) || matches!(right, Regex::EmptySet) {
            Regex::EmptySet
        } else if is_empty_set_complement(&left) {
            right
        } else if is_empty_set_complement(&right) {
            left
        } else {
            merge(Junction::And, &left, &right)
        }
    }

    fn complement(inner: Regex<Self>) -> (r: Regex<Self>) {
        match inner {
            Regex::Complement(inner) => *inner,
            inner => Regex::Complement(Box::new(inner)),
        }
    }
}

} // verus!
