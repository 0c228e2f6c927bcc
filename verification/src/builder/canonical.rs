//! What holds of the terms that the canonical builder gives.

use vstd::prelude::*;
use crate::alphabet::Alphabet;
use crate::builder::order::lt_is_irreflexive;
use crate::builder::order::lt_is_total;
use crate::builder::order::lt_is_transitive;
use crate::builder::order::term_lt;
use crate::builder::similarity::ascending;
use crate::builder::similarity::ascending_of;
use crate::builder::similarity::fold;
use crate::builder::similarity::is_join;
use crate::builder::similarity::is_top;
use crate::builder::similarity::join;
use crate::builder::similarity::lemma_ascending_of;
use crate::builder::similarity::lemma_operands_not_empty;
use crate::builder::similarity::lemma_to_set_of_sum;
use crate::builder::similarity::merged;
use crate::builder::similarity::operands;
use crate::builder::similarity::ApproximatelySimilarCanonical;
use crate::builder::similarity::Junction;
use crate::builder::Builder;
use crate::builder::Regex;
use crate::builder::Vocabulary;

verus! {

/// The ascending sequence with the term put at its place, unless it is there.
pub open spec fn inserted<B: Vocabulary>(items: Seq<Regex<B>>, term: Regex<B>) -> Seq<Regex<B>>
    decreases items.len(),
{
    if items.len() == 0 {
        seq![term]
    } else if term_lt(items.last(), term) {
        items.push(term)
    } else if items.last() == term {
        items
    } else {
        inserted(items.drop_last(), term).push(items.last())
    }
}

/// The terms of the sequence in ascending order, each once.
pub open spec fn arranged<B: Vocabulary>(items: Seq<Regex<B>>) -> Seq<Regex<B>>
    decreases items.len(),
{
    if items.len() == 0 {
        items
    } else {
        inserted(arranged(items.drop_last()), items.last())
    }
}

/// Putting a term into an ascending sequence keeps it ascending and adds
/// the term to its terms.
pub(crate) proof fn lemma_inserted<B: Vocabulary>(items: Seq<Regex<B>>, term: Regex<B>)
    requires
        ascending(items),
    ensures
        ascending(inserted(items, term)),
        inserted(items, term).to_set() == items.to_set().insert(term),
    decreases items.len(),
{
    let out = inserted(items, term);
    if items.len() == 0 {
        assert(items =~= Seq::<Regex<B>>::empty());
        Seq::<Regex<B>>::empty().lemma_push_to_set_commute(term);
        assert(out =~= Seq::<Regex<B>>::empty().push(term));
        assert(out.to_set() =~= items.to_set().insert(term));
    } else {
        let last = items.last();
        let front = items.drop_last();
        assert(items =~= front.push(last));
        front.lemma_push_to_set_commute(last);
        assert forall|i: int, j: int| 0 <= i < j < front.len() implies term_lt(
            #[trigger] front[i],
            #[trigger] front[j],
        ) by {
            assert(front[i] == items[i] && front[j] == items[j]);
        }
        if term_lt(last, term) {
            items.lemma_push_to_set_commute(term);
            assert forall|i: int, j: int| 0 <= i < j < out.len() implies term_lt(
                #[trigger] out[i],
                #[trigger] out[j],
            ) by {
                if j < items.len() {
                    assert(out[i] == items[i] && out[j] == items[j]);
                } else {
                    assert(out[i] == items[i]);
                    if i < items.len() - 1 {
                        assert(term_lt(items[i], items[items.len() - 1]));
                        lt_is_transitive(items[i], last, term);
                    }
                }
            }
        } else if last == term {
            assert(out.to_set() =~= items.to_set().insert(term));
        } else {
            lt_is_total(last, term);
            lemma_inserted(front, term);
            let inner = inserted(front, term);
            inner.lemma_push_to_set_commute(last);
            assert(out.to_set() =~= items.to_set().insert(term));
            assert forall|i: int, j: int| 0 <= i < j < out.len() implies term_lt(
                #[trigger] out[i],
                #[trigger] out[j],
            ) by {
                if j < inner.len() {
                    assert(out[i] == inner[i] && out[j] == inner[j]);
                } else {
                    assert(out[i] == inner[i]);
                    assert(inner.contains(inner[i]));
                    assert(inner.to_set().contains(inner[i]));
                    if inner[i] != term {
                        assert(front.to_set().contains(inner[i]));
                        assert(front.contains(inner[i]));
                        let k = choose|k: int| 0 <= k < front.len() && front[k] == inner[i];
                        assert(term_lt(items[k], items[items.len() - 1]));
                    }
                }
            }
        }
    }
}

/// The arranged sequence is ascending and holds the same terms.
pub(crate) proof fn lemma_arranged<B: Vocabulary>(items: Seq<Regex<B>>)
    ensures
        ascending(arranged(items)),
        arranged(items).to_set() == items.to_set(),
    decreases items.len(),
{
    if items.len() == 0 {
    } else {
        let front = items.drop_last();
        lemma_arranged(front);
        lemma_inserted(arranged(front), items.last());
        assert(items =~= front.push(items.last()));
        front.lemma_push_to_set_commute(items.last());
    }
}

/// The ascending order of the terms of a sequence is ascending and holds
/// the terms of the sequence.
pub(crate) proof fn lemma_ascending_of_terms<B: Vocabulary>(items: Seq<Regex<B>>)
    ensures
        ascending(ascending_of(items.to_set())),
        ascending_of(items.to_set()).to_set() == items.to_set(),
        ascending_of(items.to_set()) == arranged(items),
{
    lemma_arranged(items);
    lemma_ascending_of(arranged(items));
}

/// The ascending order of the operands of two terms.
pub open spec fn merged_operands<B: Vocabulary>(
    kind: Junction,
    left: Regex<B>,
    right: Regex<B>,
) -> Seq<Regex<B>> {
    ascending_of(operands(kind, left).to_set().union(operands(kind, right).to_set()))
}

/// The merged operands are ascending, are the operands of the two terms,
/// and there is at least one.
pub(crate) proof fn lemma_merged_operands<B: Vocabulary>(kind: Junction, left: Regex<B>, right: Regex<B>)
    ensures
        ascending(merged_operands(kind, left, right)),
        merged_operands(kind, left, right).to_set() == operands(kind, left).to_set().union(
            operands(kind, right).to_set(),
        ),
        merged_operands(kind, left, right).len() >= 1,
        merged(kind, left, right) == fold(kind, merged_operands(kind, left, right)),
{
    let all = operands(kind, left) + operands(kind, right);
    lemma_to_set_of_sum(operands(kind, left), operands(kind, right));
    lemma_ascending_of_terms(all);
    lemma_operands_not_empty(kind, left);
    let m = merged_operands(kind, left, right);
    assert(all.contains(all[0]));
    assert(m.to_set().contains(all[0]));
    assert(m.contains(all[0]));
}

/// Whether no item is a node of the given kind.
pub open spec fn plain<B: Vocabulary>(kind: Junction, items: Seq<Regex<B>>) -> bool {
    forall|i: int| 0 <= i < items.len() ==> !is_join(kind, #[trigger] items[i])
}

/// No operand of a term is a node of the kind.
pub(crate) proof fn lemma_operands_are_plain<B: Vocabulary>(kind: Junction, term: Regex<B>)
    ensures
        plain(kind, operands(kind, term)),
    decreases term,
{
    match (kind, term) {
        (Junction::Concat, Regex::Concat(left, right)) => {
            lemma_operands_are_plain(kind, *left);
            lemma_operands_are_plain(kind, *right);
        },
        (Junction::Or, Regex::Or(left, right)) => {
            lemma_operands_are_plain(kind, *left);
            lemma_operands_are_plain(kind, *right);
        },
        (Junction::And, Regex::And(left, right)) => {
            lemma_operands_are_plain(kind, *left);
            lemma_operands_are_plain(kind, *right);
        },
        _ => {},
    }
}

/// The operands of joined items that are no nodes of the kind are the items.
pub(crate) proof fn lemma_operands_of_fold<B: Vocabulary>(kind: Junction, items: Seq<Regex<B>>)
    requires
        items.len() >= 1,
        plain(kind, items),
    ensures
        operands(kind, fold(kind, items)) == items,
    decreases items.len(),
{
    assert(!is_join(kind, items[0]));
    if items.len() == 1 {
        assert(operands(kind, items[0]) =~= items);
    } else {
        let rest = items.drop_first();
        assert forall|i: int| 0 <= i < rest.len() implies !is_join(kind, #[trigger] rest[i]) by {
            assert(rest[i] == items[i + 1]);
        }
        lemma_operands_of_fold(kind, rest);
        let tail = fold(kind, rest);
        assert(fold(kind, items) == join(kind, items[0], tail));
        assert(operands(kind, items[0]) =~= seq![items[0]]);
        assert(operands(kind, join(kind, items[0], tail)) == operands(kind, items[0]) + operands(
            kind,
            tail,
        )) by {
            match kind {
                Junction::Concat => {},
                Junction::Or => {},
                Junction::And => {},
            }
        }
        assert(seq![items[0]] + rest =~= items);
    }
}

/// The codes of the symbols of joined items occur in one of the items.
pub(crate) proof fn lemma_symbols_of_fold<B: Vocabulary>(kind: Junction, items: Seq<Regex<B>>, code: u64)
    requires
        fold(kind, items).spec_symbols().contains(code),
    ensures
        exists|i: int| 0 <= i < items.len() && (#[trigger] items[i]).spec_symbols().contains(code),
    decreases items.len(),
{
    if items.len() == 0 {
    } else if items.len() == 1 {
        assert(items[0].spec_symbols().contains(code));
    } else {
        let rest = items.drop_first();
        if items[0].spec_symbols().contains(code) {
        } else {
            lemma_symbols_of_fold(kind, rest, code);
            let i = choose|i: int|
                0 <= i < rest.len() && (#[trigger] rest[i]).spec_symbols().contains(code);
            assert(items[i + 1].spec_symbols().contains(code));
        }
    }
}

/// The symbols of an operand occur in the term.
pub(crate) proof fn lemma_symbols_of_operands<B: Vocabulary>(kind: Junction, term: Regex<B>, i: int)
    requires
        0 <= i < operands(kind, term).len(),
    ensures
        operands(kind, term)[i].spec_symbols().subset_of(term.spec_symbols()),
    decreases term,
{
    match (kind, term) {
        (Junction::Concat, Regex::Concat(left, right)) => {
            if i < operands(kind, *left).len() {
                lemma_symbols_of_operands(kind, *left, i);
            } else {
                lemma_symbols_of_operands(kind, *right, i - operands(kind, *left).len());
            }
        },
        (Junction::Or, Regex::Or(left, right)) => {
            if i < operands(kind, *left).len() {
                lemma_symbols_of_operands(kind, *left, i);
            } else {
                lemma_symbols_of_operands(kind, *right, i - operands(kind, *left).len());
            }
        },
        (Junction::And, Regex::And(left, right)) => {
            if i < operands(kind, *left).len() {
                lemma_symbols_of_operands(kind, *left, i);
            } else {
                lemma_symbols_of_operands(kind, *right, i - operands(kind, *left).len());
            }
        },
        _ => {},
    }
}

/// Joining items that are operands of two terms brings in no new symbol.
pub(crate) proof fn lemma_symbols_of_rejoined<B: Vocabulary>(
    kind: Junction,
    left: Regex<B>,
    right: Regex<B>,
    items: Seq<Regex<B>>,
)
    requires
        items.to_set().subset_of(operands(kind, left).to_set().union(operands(kind, right).to_set())),
    ensures
        fold(kind, items).spec_symbols().subset_of(left.spec_symbols().union(right.spec_symbols())),
{
    assert forall|code: u64| fold(kind, items).spec_symbols().contains(code) implies left.spec_symbols().union(
        right.spec_symbols(),
    ).contains(code) by {
        lemma_symbols_of_fold(kind, items, code);
        let i = choose|i: int|
            0 <= i < items.len() && (#[trigger] items[i]).spec_symbols().contains(code);
        assert(items.contains(items[i]));
        assert(items.to_set().contains(items[i]));
        if operands(kind, left).to_set().contains(items[i]) {
            assert(operands(kind, left).contains(items[i]));
            let k = choose|k: int|
                0 <= k < operands(kind, left).len() && operands(kind, left)[k] == items[i];
            lemma_symbols_of_operands(kind, left, k);
        } else {
            assert(operands(kind, right).to_set().contains(items[i]));
            assert(operands(kind, right).contains(items[i]));
            let k = choose|k: int|
                0 <= k < operands(kind, right).len() && operands(kind, right)[k] == items[i];
            lemma_symbols_of_operands(kind, right, k);
        }
    }
}

/// No constructor of the canonical builder brings a symbol into a term that
/// its arguments do not hold.
pub(crate) proof fn lemma_symbols_of_built<S: Alphabet>(
    left: Regex<ApproximatelySimilarCanonical<S>>,
    right: Regex<ApproximatelySimilarCanonical<S>>,
)
    ensures
        ApproximatelySimilarCanonical::<S>::spec_closure(left).spec_symbols().subset_of(
            left.spec_symbols(),
        ),
        ApproximatelySimilarCanonical::<S>::spec_complement(left).spec_symbols().subset_of(
            left.spec_symbols(),
        ),
        ApproximatelySimilarCanonical::<S>::spec_concat(left, right).spec_symbols().subset_of(
            left.spec_symbols().union(right.spec_symbols()),
        ),
        ApproximatelySimilarCanonical::<S>::spec_or(left, right).spec_symbols().subset_of(
            left.spec_symbols().union(right.spec_symbols()),
        ),
        ApproximatelySimilarCanonical::<S>::spec_and(left, right).spec_symbols().subset_of(
            left.spec_symbols().union(right.spec_symbols()),
        ),
{
    lemma_merged_operands(Junction::Or, left, right);
    lemma_symbols_of_rejoined(Junction::Or, left, right, merged_operands(Junction::Or, left, right));
    lemma_merged_operands(Junction::And, left, right);
    lemma_symbols_of_rejoined(
        Junction::And,
        left,
        right,
        merged_operands(Junction::And, left, right),
    );
    lemma_to_set_of_sum(operands(Junction::Concat, left), operands(Junction::Concat, right));
    lemma_symbols_of_rejoined(
        Junction::Concat,
        left,
        right,
        operands(Junction::Concat, left) + operands(Junction::Concat, right),
    );
}

/// The derivative of a term of the canonical builder holds no symbol that
/// the term does not hold.
pub(crate) proof fn lemma_symbols_of_derivative<S: Alphabet>(
    term: Regex<ApproximatelySimilarCanonical<S>>,
    class: crate::derivation::ClassModel,
)
    ensures
        term.spec_derive_symbols(class).spec_symbols().subset_of(term.spec_symbols()),
    decreases term,
{
    match term {
        Regex::Concat(left, right) => {
            lemma_symbols_of_derivative(*left, class);
            lemma_symbols_of_derivative(*right, class);
            let a = ApproximatelySimilarCanonical::<S>::spec_concat(
                left.spec_derive_symbols(class),
                *right,
            );
            let b = ApproximatelySimilarCanonical::<S>::spec_concat(
                left.spec_nullable(),
                right.spec_derive_symbols(class),
            );
            lemma_symbols_of_built(left.spec_derive_symbols(class), *right);
            lemma_symbols_of_built(left.spec_nullable(), right.spec_derive_symbols(class));
            lemma_symbols_of_built(a, b);
        },
        Regex::Closure(inner) => {
            lemma_symbols_of_derivative(*inner, class);
            lemma_symbols_of_built(*inner, *inner);
            lemma_symbols_of_built(
                inner.spec_derive_symbols(class),
                ApproximatelySimilarCanonical::<S>::spec_closure(*inner),
            );
        },
        Regex::Or(left, right) => {
            lemma_symbols_of_derivative(*left, class);
            lemma_symbols_of_derivative(*right, class);
            lemma_symbols_of_built(
                left.spec_derive_symbols(class),
                right.spec_derive_symbols(class),
            );
        },
        Regex::And(left, right) => {
            lemma_symbols_of_derivative(*left, class);
            lemma_symbols_of_derivative(*right, class);
            lemma_symbols_of_built(
                left.spec_derive_symbols(class),
                right.spec_derive_symbols(class),
            );
        },
        Regex::Complement(inner) => {
            lemma_symbols_of_derivative(*inner, class);
            lemma_symbols_of_built(inner.spec_derive_symbols(class), *inner);
        },
        _ => {},
    }
}

/// Whether the term may be an operand of a union or an intersection in
/// canonical form: neither the empty set nor its complement.
pub open spec fn is_proper<B: Vocabulary>(term: Regex<B>) -> bool {
    !(term is EmptySet) && !is_top(term)
}

/// Whether the term may be an operand of a node of the given kind in
/// canonical form.
pub open spec fn fits<B: Vocabulary>(kind: Junction, term: Regex<B>) -> bool {
    match kind {
        Junction::Concat => !(term is EmptySet) && !(term is EmptyString),
        _ => is_proper(term),
    }
}

/// Whether the term is in canonical form, as the canonical builder gives it:
/// no constructor stands where one of the builder's rules would have
/// rewritten it, nested concatenations, unions and intersections are nested
/// along the right children, and the operands of nested unions and
/// intersections are in strictly ascending order.
pub open spec fn is_canonical<B: Vocabulary>(term: Regex<B>) -> bool
    decreases term,
{
    match term {
        Regex::EmptySet => true,
        Regex::EmptyString => true,
        Regex::Symbol(_) => true,
        Regex::Concat(left, right) => {
            &&& is_canonical(*left)
            &&& is_canonical(*right)
            &&& fits(Junction::Concat, *left) && fits(Junction::Concat, *right)
            &&& !(*left is Concat)
        },
        Regex::Closure(inner) => {
            &&& is_canonical(*inner)
            &&& !(*inner is EmptySet) && !(*inner is EmptyString) && !(*inner is Closure)
        },
        Regex::Or(left, right) => {
            &&& is_canonical(*left)
            &&& is_canonical(*right)
            &&& is_proper(*left) && is_proper(*right)
            &&& !(*left is Or)
            &&& term_lt(*left, operands(Junction::Or, *right)[0])
        },
        Regex::And(left, right) => {
            &&& is_canonical(*left)
            &&& is_canonical(*right)
            &&& is_proper(*left) && is_proper(*right)
            &&& !(*left is And)
            &&& term_lt(*left, operands(Junction::And, *right)[0])
        },
        Regex::Complement(inner) => is_canonical(*inner) && !(*inner is Complement),
    }
}

/// The complement of the empty set.
pub open spec fn top<B: Vocabulary>() -> Regex<B> {
    Regex::Complement(Box::new(Regex::EmptySet))
}

/// Joining the operands of a term in canonical form gives the term, and
/// the operands of a union or an intersection in canonical form are in
/// strictly ascending order.
pub(crate) proof fn lemma_canonical_operands<B: Vocabulary>(kind: Junction, term: Regex<B>)
    requires
        is_canonical(term),
    ensures
        fold(kind, operands(kind, term)) == term,
        !(kind is Concat) ==> ascending(operands(kind, term)),
    decreases term,
{
    if is_join(kind, term) {
        let (left, right) = match term {
            Regex::Concat(left, right) => (*left, *right),
            Regex::Or(left, right) => (*left, *right),
            Regex::And(left, right) => (*left, *right),
            _ => (term, term),
        };
        assert(term == join(kind, left, right));
        lemma_canonical_operands(kind, right);
        lemma_operands_not_empty(kind, right);
        let rest = operands(kind, right);
        let ops = operands(kind, term);
        assert(!is_join(kind, left));
        assert(operands(kind, left) =~= seq![left]);
        assert(ops =~= seq![left] + rest);
        assert(ops.drop_first() =~= rest);
        if !(kind is Concat) {
            assert(term_lt(left, rest[0]));
            assert forall|i: int, j: int| 0 <= i < j < ops.len() implies term_lt(
                #[trigger] ops[i],
                #[trigger] ops[j],
            ) by {
                assert(ops[j] == rest[j - 1]);
                if i == 0 {
                    if j > 1 {
                        assert(term_lt(rest[0], rest[j - 1]));
                        lt_is_transitive(left, rest[0], rest[j - 1]);
                    }
                } else {
                    assert(ops[i] == rest[i - 1]);
                }
            }
        }
    }
}

/// Merging two proper terms in canonical form gives a proper term whose
/// operands are the operands of both, in ascending order.
pub(crate) proof fn lemma_operands_of_merged<B: Vocabulary>(
    kind: Junction,
    left: Regex<B>,
    right: Regex<B>,
)
    requires
        !(kind is Concat),
        is_canonical(left),
        is_canonical(right),
        is_proper(left),
        is_proper(right),
    ensures
        operands(kind, merged(kind, left, right)) == merged_operands(kind, left, right),
        is_proper(merged(kind, left, right)),
{
    let m = merged_operands(kind, left, right);
    let l = operands(kind, left);
    let r = operands(kind, right);
    lemma_merged_operands(kind, left, right);
    lemma_canonical_operands(kind, left);
    lemma_operands_are_plain(kind, left);
    lemma_operands_are_plain(kind, right);
    lemma_operands_not_empty(kind, left);
    assert forall|i: int| 0 <= i < m.len() implies !is_join(kind, #[trigger] m[i]) by {
        assert(m.contains(m[i]));
        assert(m.to_set().contains(m[i]));
        if l.to_set().contains(m[i]) {
            assert(l.contains(m[i]));
        } else {
            assert(r.to_set().contains(m[i]));
            assert(r.contains(m[i]));
        }
    }
    lemma_operands_of_fold(kind, m);
    if m.len() == 1 {
        assert(l.contains(l[0]));
        assert(m.to_set().contains(l[0]));
        assert(m.contains(l[0]));
        assert(l[0] == m[0]);
        if l.len() >= 2 {
            assert(l.contains(l[1]));
            assert(m.to_set().contains(l[1]));
            assert(m.contains(l[1]));
            assert(l[1] == m[0]);
            assert(term_lt(l[0], l[1]));
            lt_is_irreflexive(l[0]);
        }
        assert(fold(kind, l) == left);
    } else {
        assert(fold(kind, m) == join(kind, m[0], fold(kind, m.drop_first())));
    }
}

/// The union of a term in canonical form with itself is the term.
pub proof fn or_is_idempotent<S: Alphabet>(term: Regex<ApproximatelySimilarCanonical<S>>)
    requires
        is_canonical(term),
    ensures
        ApproximatelySimilarCanonical::<S>::spec_or(term, term) == term,
{
    if term is EmptySet {
    } else if is_top(term) {
    } else {
        let ops = operands(Junction::Or, term);
        lemma_canonical_operands(Junction::Or, term);
        assert(ops.to_set().union(ops.to_set()) =~= ops.to_set());
        lemma_ascending_of(ops);
    }
}

/// The complement of the empty set is the identity of intersection and
/// absorbs in a union; the empty set absorbs in an intersection; a closure
/// of a closure is the closure.
pub proof fn identities_of_the_constants<S: Alphabet>(
    term: Regex<ApproximatelySimilarCanonical<S>>,
)
    ensures
        ApproximatelySimilarCanonical::<S>::spec_and(term, top()) == term,
        ApproximatelySimilarCanonical::<S>::spec_or(term, top()) == top::<
            ApproximatelySimilarCanonical<S>,
        >(),
        ApproximatelySimilarCanonical::<S>::spec_and(term, Regex::EmptySet) == Regex::<
            ApproximatelySimilarCanonical<S>,
        >::EmptySet,
        ApproximatelySimilarCanonical::<S>::spec_closure(
            ApproximatelySimilarCanonical::<S>::spec_closure(term),
        ) == ApproximatelySimilarCanonical::<S>::spec_closure(term),
{
}

/// The complement of the complement of a term in canonical form is the term.
pub proof fn complement_is_an_involution<S: Alphabet>(
    term: Regex<ApproximatelySimilarCanonical<S>>,
)
    requires
        is_canonical(term),
    ensures
        ApproximatelySimilarCanonical::<S>::spec_complement(
            ApproximatelySimilarCanonical::<S>::spec_complement(term),
        ) == term,
{
}

/// The union of two terms does not depend on their order.
pub proof fn or_is_commutative<S: Alphabet>(
    a: Regex<ApproximatelySimilarCanonical<S>>,
    b: Regex<ApproximatelySimilarCanonical<S>>,
)
    ensures
        ApproximatelySimilarCanonical::<S>::spec_or(a, b) == ApproximatelySimilarCanonical::<
            S,
        >::spec_or(b, a),
{
    let l = operands(Junction::Or, a).to_set();
    let r = operands(Junction::Or, b).to_set();
    assert(l.union(r) =~= r.union(l));
}

/// The intersection of two terms does not depend on their order.
pub proof fn and_is_commutative<S: Alphabet>(
    a: Regex<ApproximatelySimilarCanonical<S>>,
    b: Regex<ApproximatelySimilarCanonical<S>>,
)
    ensures
        ApproximatelySimilarCanonical::<S>::spec_and(a, b) == ApproximatelySimilarCanonical::<
            S,
        >::spec_and(b, a),
{
    let l = operands(Junction::And, a).to_set();
    let r = operands(Junction::And, b).to_set();
    assert(l.union(r) =~= r.union(l));
}

/// The union of three terms in canonical form does not depend on how they
/// are grouped.
pub proof fn or_is_associative<S: Alphabet>(
    a: Regex<ApproximatelySimilarCanonical<S>>,
    b: Regex<ApproximatelySimilarCanonical<S>>,
    c: Regex<ApproximatelySimilarCanonical<S>>,
)
    requires
        is_canonical(a),
        is_canonical(b),
        is_canonical(c),
    ensures
        ApproximatelySimilarCanonical::<S>::spec_or(
            a,
            ApproximatelySimilarCanonical::<S>::spec_or(b, c),
        ) == ApproximatelySimilarCanonical::<S>::spec_or(
            ApproximatelySimilarCanonical::<S>::spec_or(a, b),
            c,
        ),
{
    if a is EmptySet || b is EmptySet || c is EmptySet {
    } else if is_top(a) || is_top(b) || is_top(c) {
    } else {
        let kind = Junction::Or;
        lemma_operands_of_merged(kind, b, c);
        lemma_operands_of_merged(kind, a, b);
        lemma_merged_operands(kind, b, c);
        lemma_merged_operands(kind, a, b);
        let sa = operands(kind, a).to_set();
        let sb = operands(kind, b).to_set();
        let sc = operands(kind, c).to_set();
        assert(sa.union(sb.union(sc)) =~= sa.union(sb).union(sc));
    }
}

/// The intersection of three terms in canonical form does not depend on
/// how they are grouped.
pub proof fn and_is_associative<S: Alphabet>(
    a: Regex<ApproximatelySimilarCanonical<S>>,
    b: Regex<ApproximatelySimilarCanonical<S>>,
    c: Regex<ApproximatelySimilarCanonical<S>>,
)
    requires
        is_canonical(a),
        is_canonical(b),
        is_canonical(c),
    ensures
        ApproximatelySimilarCanonical::<S>::spec_and(
            a,
            ApproximatelySimilarCanonical::<S>::spec_and(b, c),
        ) == ApproximatelySimilarCanonical::<S>::spec_and(
            ApproximatelySimilarCanonical::<S>::spec_and(a, b),
            c,
        ),
{
    if a is EmptySet || b is EmptySet || c is EmptySet {
    } else if is_top(a) || is_top(b) || is_top(c) {
    } else {
        let kind = Junction::And;
        lemma_operands_of_merged(kind, b, c);
        lemma_operands_of_merged(kind, a, b);
        lemma_merged_operands(kind, b, c);
        lemma_merged_operands(kind, a, b);
        let sa = operands(kind, a).to_set();
        let sb = operands(kind, b).to_set();
        let sc = operands(kind, c).to_set();
        assert(sa.union(sb.union(sc)) =~= sa.union(sb).union(sc));
    }
}

/// The operands of a term in canonical form are in canonical form, and
/// they may be operands where the term may be one.
pub(crate) proof fn lemma_operands_are_canonical<B: Vocabulary>(kind: Junction, term: Regex<B>, i: int)
    requires
        is_canonical(term),
        fits(kind, term),
        0 <= i < operands(kind, term).len(),
    ensures
        is_canonical(operands(kind, term)[i]),
        fits(kind, operands(kind, term)[i]),
    decreases term,
{
    match (kind, term) {
        (Junction::Concat, Regex::Concat(left, right)) => {
            if i < operands(kind, *left).len() {
                lemma_operands_are_canonical(kind, *left, i);
            } else {
                lemma_operands_are_canonical(kind, *right, i - operands(kind, *left).len());
            }
        },
        (Junction::Or, Regex::Or(left, right)) => {
            if i < operands(kind, *left).len() {
                lemma_operands_are_canonical(kind, *left, i);
            } else {
                lemma_operands_are_canonical(kind, *right, i - operands(kind, *left).len());
            }
        },
        (Junction::And, Regex::And(left, right)) => {
            if i < operands(kind, *left).len() {
                lemma_operands_are_canonical(kind, *left, i);
            } else {
                lemma_operands_are_canonical(kind, *right, i - operands(kind, *left).len());
            }
        },
        _ => {},
    }
}

/// Whether the items can be the operands of a term in canonical form.
pub open spec fn joinable<B: Vocabulary>(kind: Junction, items: Seq<Regex<B>>) -> bool {
    &&& items.len() >= 1
    &&& plain(kind, items)
    &&& forall|i: int|
        0 <= i < items.len() ==> is_canonical(#[trigger] items[i]) && fits(kind, items[i])
    &&& !(kind is Concat) ==> ascending(items)
}

/// Joining such items gives a term in canonical form.
pub(crate) proof fn lemma_fold_is_canonical<B: Vocabulary>(kind: Junction, items: Seq<Regex<B>>)
    requires
        joinable(kind, items),
    ensures
        is_canonical(fold(kind, items)),
        fits(kind, fold(kind, items)),
        operands(kind, fold(kind, items)) == items,
    decreases items.len(),
{
    lemma_operands_of_fold(kind, items);
    assert(is_canonical(items[0]) && fits(kind, items[0]));
    assert(!is_join(kind, items[0]));
    if items.len() > 1 {
        let rest = items.drop_first();
        assert forall|i: int| 0 <= i < rest.len() implies !is_join(kind, #[trigger] rest[i]) by {
            assert(rest[i] == items[i + 1]);
        }
        assert forall|i: int| 0 <= i < rest.len() implies is_canonical(#[trigger] rest[i])
            && fits(kind, rest[i]) by {
            assert(rest[i] == items[i + 1]);
        }
        if !(kind is Concat) {
            assert forall|i: int, j: int| 0 <= i < j < rest.len() implies term_lt(
                #[trigger] rest[i],
                #[trigger] rest[j],
            ) by {
                assert(rest[i] == items[i + 1] && rest[j] == items[j + 1]);
            }
            assert(term_lt(items[0], items[1]));
            assert(rest[0] == items[1]);
        }
        lemma_fold_is_canonical(kind, rest);
        assert(fold(kind, items) == join(kind, items[0], fold(kind, rest)));
    }
}

/// The constructors of the canonical builder give terms in canonical form
/// when their arguments are in canonical form.
pub proof fn built_is_canonical<S: Alphabet>(
    left: Regex<ApproximatelySimilarCanonical<S>>,
    right: Regex<ApproximatelySimilarCanonical<S>>,
)
    requires
        is_canonical(left),
        is_canonical(right),
    ensures
        is_canonical(ApproximatelySimilarCanonical::<S>::spec_closure(left)),
        is_canonical(ApproximatelySimilarCanonical::<S>::spec_complement(left)),
        is_canonical(ApproximatelySimilarCanonical::<S>::spec_concat(left, right)),
        is_canonical(ApproximatelySimilarCanonical::<S>::spec_or(left, right)),
        is_canonical(ApproximatelySimilarCanonical::<S>::spec_and(left, right)),
{
    if fits(Junction::Concat, left) && fits(Junction::Concat, right) {
        lemma_joined_is_canonical(Junction::Concat, left, right);
    }
    if is_proper(left) && is_proper(right) {
        lemma_joined_is_canonical(Junction::Or, left, right);
        lemma_joined_is_canonical(Junction::And, left, right);
    }
}

/// Joining the operands of two terms in canonical form, in their order for
/// a concatenation and merged otherwise, gives a term in canonical form.
pub(crate) proof fn lemma_joined_is_canonical<B: Vocabulary>(
    kind: Junction,
    left: Regex<B>,
    right: Regex<B>,
)
    requires
        is_canonical(left),
        is_canonical(right),
        fits(kind, left),
        fits(kind, right),
    ensures
        kind is Concat ==> is_canonical(
            fold(kind, operands(kind, left) + operands(kind, right)),
        ),
        !(kind is Concat) ==> is_canonical(merged(kind, left, right)),
{
    let l = operands(kind, left);
    let r = operands(kind, right);
    lemma_operands_are_plain(kind, left);
    lemma_operands_are_plain(kind, right);
    lemma_operands_not_empty(kind, left);
    lemma_merged_operands(kind, left, right);
    let items = if kind is Concat {
        l + r
    } else {
        merged_operands(kind, left, right)
    };
    lemma_to_set_of_sum(l, r);
    assert forall|i: int| 0 <= i < items.len() implies is_canonical(#[trigger] items[i]) && fits(
        kind,
        items[i],
    ) && !is_join(kind, items[i]) by {
        assert(items.contains(items[i]));
        assert(items.to_set().contains(items[i]));
        if l.to_set().contains(items[i]) {
            assert(l.contains(items[i]));
            let k = choose|k: int| 0 <= k < l.len() && l[k] == items[i];
            lemma_operands_are_canonical(kind, left, k);
        } else {
            assert(r.to_set().contains(items[i]));
            assert(r.contains(items[i]));
            let k = choose|k: int| 0 <= k < r.len() && r[k] == items[i];
            lemma_operands_are_canonical(kind, right, k);
        }
    }
    lemma_fold_is_canonical(kind, items);
}

/// The derivative of a term in canonical form, built by the canonical
/// builder, is in canonical form.
pub proof fn derivative_is_canonical<S: Alphabet>(
    term: Regex<ApproximatelySimilarCanonical<S>>,
    class: crate::derivation::ClassModel,
)
    requires
        is_canonical(term),
    ensures
        is_canonical(term.spec_derive_symbols(class)),
    decreases term,
{
    match term {
        Regex::Concat(left, right) => {
            derivative_is_canonical(*left, class);
            derivative_is_canonical(*right, class);
            let a = ApproximatelySimilarCanonical::<S>::spec_concat(
                left.spec_derive_symbols(class),
                *right,
            );
            let b = ApproximatelySimilarCanonical::<S>::spec_concat(
                left.spec_nullable(),
                right.spec_derive_symbols(class),
            );
            built_is_canonical(left.spec_derive_symbols(class), *right);
            built_is_canonical(left.spec_nullable(), right.spec_derive_symbols(class));
            built_is_canonical(a, b);
        },
        Regex::Closure(inner) => {
            derivative_is_canonical(*inner, class);
            built_is_canonical(*inner, *inner);
            built_is_canonical(
                inner.spec_derive_symbols(class),
                ApproximatelySimilarCanonical::<S>::spec_closure(*inner),
            );
        },
        Regex::Or(left, right) => {
            derivative_is_canonical(*left, class);
            derivative_is_canonical(*right, class);
            built_is_canonical(left.spec_derive_symbols(class), right.spec_derive_symbols(class));
        },
        Regex::And(left, right) => {
            derivative_is_canonical(*left, class);
            derivative_is_canonical(*right, class);
            built_is_canonical(left.spec_derive_symbols(class), right.spec_derive_symbols(class));
        },
        Regex::Complement(inner) => {
            derivative_is_canonical(*inner, class);
            built_is_canonical(inner.spec_derive_symbols(class), *inner);
        },
        _ => {},
    }
}

/// Whatever term is rebuilt through the canonical builder, the result is
/// in canonical form.
pub proof fn rebuilt_is_canonical<X: Builder, S: Alphabet>(term: Regex<X>)
    where X: Builder<Symbol = S>
    ensures
        is_canonical(term.spec_rebuild::<ApproximatelySimilarCanonical<S>>()),
    decreases term,
{
    match term {
        Regex::Concat(left, right) => {
            rebuilt_is_canonical::<X, S>(*left);
            rebuilt_is_canonical::<X, S>(*right);
            built_is_canonical(
                left.spec_rebuild::<ApproximatelySimilarCanonical<S>>(),
                right.spec_rebuild::<ApproximatelySimilarCanonical<S>>(),
            );
        },
        Regex::Or(left, right) => {
            rebuilt_is_canonical::<X, S>(*left);
            rebuilt_is_canonical::<X, S>(*right);
            built_is_canonical(
                left.spec_rebuild::<ApproximatelySimilarCanonical<S>>(),
                right.spec_rebuild::<ApproximatelySimilarCanonical<S>>(),
            );
        },
        Regex::And(left, right) => {
            rebuilt_is_canonical::<X, S>(*left);
            rebuilt_is_canonical::<X, S>(*right);
            built_is_canonical(
                left.spec_rebuild::<ApproximatelySimilarCanonical<S>>(),
                right.spec_rebuild::<ApproximatelySimilarCanonical<S>>(),
            );
        },
        Regex::Closure(inner) => {
            rebuilt_is_canonical::<X, S>(*inner);
            built_is_canonical(
                inner.spec_rebuild::<ApproximatelySimilarCanonical<S>>(),
                inner.spec_rebuild::<ApproximatelySimilarCanonical<S>>(),
            );
        },
        Regex::Complement(inner) => {
            rebuilt_is_canonical::<X, S>(*inner);
            built_is_canonical(
                inner.spec_rebuild::<ApproximatelySimilarCanonical<S>>(),
                inner.spec_rebuild::<ApproximatelySimilarCanonical<S>>(),
            );
        },
        _ => {},
    }
}

} // verus!
