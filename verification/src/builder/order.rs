//! The total order on terms by which operands are sorted.

use vstd::prelude::*;
use std::cmp::Ordering;
use crate::alphabet::Alphabet;
use crate::builder::Vocabulary;
use crate::builder::Regex;

verus! {

/// The rank of the outermost constructor of a term.
pub open spec fn spec_rank<B: Vocabulary>(re: Regex<B>) -> usize {
    match re {
        Regex::EmptySet => 1,
        Regex::EmptyString => 2,
        Regex::Symbol(_) => 3,
        Regex::Concat(_, _) => 4,
        Regex::Closure(_) => 5,
        Regex::Or(_, _) => 6,
        Regex::And(_, _) => 7,
        Regex::Complement(_) => 8,
    }
}

/// Whether `left` comes strictly before `right`: terms with the same
/// outermost constructor are ordered by their children, left child first,
/// symbols by their codes, and all others by the rank of their constructor.
pub open spec fn term_lt<B: Vocabulary>(left: Regex<B>, right: Regex<B>) -> bool
    decreases left,
{
    match (left, right) {
        (Regex::Symbol(a), Regex::Symbol(b)) => a.code() < b.code(),
        (Regex::Concat(a, b), Regex::Concat(c, d)) => term_lt(*a, *c) || (*a == *c && term_lt(
            *b,
            *d,
        )),
        (Regex::Closure(a), Regex::Closure(c)) => term_lt(*a, *c),
        (Regex::Or(a, b), Regex::Or(c, d)) => term_lt(*a, *c) || (*a == *c && term_lt(*b, *d)),
        (Regex::And(a, b), Regex::And(c, d)) => term_lt(*a, *c) || (*a == *c && term_lt(*b, *d)),
        (Regex::Complement(a), Regex::Complement(c)) => term_lt(*a, *c),
        _ => spec_rank(left) < spec_rank(right),
    }
}

/// No term comes before itself.
pub proof fn lt_is_irreflexive<B: Vocabulary>(a: Regex<B>)
    ensures
        !term_lt(a, a),
    decreases a,
{
    match a {
        Regex::Concat(l, r) => {
            lt_is_irreflexive(*l);
            lt_is_irreflexive(*r);
        },
        Regex::Or(l, r) => {
            lt_is_irreflexive(*l);
            lt_is_irreflexive(*r);
        },
        Regex::And(l, r) => {
            lt_is_irreflexive(*l);
            lt_is_irreflexive(*r);
        },
        Regex::Closure(i) => {
            lt_is_irreflexive(*i);
        },
        Regex::Complement(i) => {
            lt_is_irreflexive(*i);
        },
        _ => {},
    }
}

/// The order is transitive.
pub proof fn lt_is_transitive<B: Vocabulary>(a: Regex<B>, b: Regex<B>, c: Regex<B>)
    requires
        term_lt(a, b),
        term_lt(b, c),
    ensures
        term_lt(a, c),
    decreases a,
{
    match (a, b, c) {
        (Regex::Concat(a1, a2), Regex::Concat(b1, b2), Regex::Concat(c1, c2)) => {
            if term_lt(*a1, *b1) && term_lt(*b1, *c1) {
                lt_is_transitive(*a1, *b1, *c1);
            }
            if term_lt(*a2, *b2) && term_lt(*b2, *c2) {
                lt_is_transitive(*a2, *b2, *c2);
            }
        },
        (Regex::Or(a1, a2), Regex::Or(b1, b2), Regex::Or(c1, c2)) => {
            if term_lt(*a1, *b1) && term_lt(*b1, *c1) {
                lt_is_transitive(*a1, *b1, *c1);
            }
            if term_lt(*a2, *b2) && term_lt(*b2, *c2) {
                lt_is_transitive(*a2, *b2, *c2);
            }
        },
        (Regex::And(a1, a2), Regex::And(b1, b2), Regex::And(c1, c2)) => {
            if term_lt(*a1, *b1) && term_lt(*b1, *c1) {
                lt_is_transitive(*a1, *b1, *c1);
            }
            if term_lt(*a2, *b2) && term_lt(*b2, *c2) {
                lt_is_transitive(*a2, *b2, *c2);
            }
        },
        (Regex::Closure(a1), Regex::Closure(b1), Regex::Closure(c1)) => {
            lt_is_transitive(*a1, *b1, *c1);
        },
        (Regex::Complement(a1), Regex::Complement(b1), Regex::Complement(c1)) => {
            lt_is_transitive(*a1, *b1, *c1);
        },
        _ => {},
    }
}

/// Of two terms at most one comes before the other.
pub proof fn lt_is_asymmetric<B: Vocabulary>(a: Regex<B>, b: Regex<B>)
    ensures
        !(term_lt(a, b) && term_lt(b, a)),
{
    if term_lt(a, b) && term_lt(b, a) {
        lt_is_transitive(a, b, a);
        lt_is_irreflexive(a);
    }
}

/// Two different terms are ordered one way or the other.
pub proof fn lt_is_total<B: Vocabulary>(a: Regex<B>, b: Regex<B>)
    ensures
        term_lt(a, b) || a == b || term_lt(b, a),
    decreases a,
{
    match (a, b) {
        (Regex::Symbol(x), Regex::Symbol(y)) => {
            if x.code() == y.code() {
                B::Symbol::code_is_injective(&x, &y);
            }
        },
        (Regex::Concat(a1, a2), Regex::Concat(b1, b2)) => {
            lt_is_total(*a1, *b1);
            lt_is_total(*a2, *b2);
        },
        (Regex::Or(a1, a2), Regex::Or(b1, b2)) => {
            lt_is_total(*a1, *b1);
            lt_is_total(*a2, *b2);
        },
        (Regex::And(a1, a2), Regex::And(b1, b2)) => {
            lt_is_total(*a1, *b1);
            lt_is_total(*a2, *b2);
        },
        (Regex::Closure(a1), Regex::Closure(b1)) => {
            lt_is_total(*a1, *b1);
        },
        (Regex::Complement(a1), Regex::Complement(b1)) => {
            lt_is_total(*a1, *b1);
        },
        _ => {},
    }
}

/// Returns the rank of the outermost constructor.
pub fn rank<B: Vocabulary>(re: &Regex<B>) -> (n: usize)
    ensures
        n == spec_rank(*re),
{
    match re {
        Regex::EmptySet => 1,
        Regex::EmptyString => 2,
        Regex::Symbol(_) => 3,
        Regex::Concat(_, _) => 4,
        Regex::Closure(_) => 5,
        Regex::Or(_, _) => 6,
        Regex::And(_, _) => 7,
        Regex::Complement(_) => 8,
    }
}

/// The order of two machine integers.
fn order_of(left: u64, right: u64) -> (o: Ordering)
    ensures
        matches!(o, Ordering::Less) == (left < right),
        matches!(o, Ordering::Equal) == (left == right),
        matches!(o, Ordering::Greater) == (left > right),
{
    if left < right {
        Ordering::Less
    } else if left == right {
        Ordering::Equal
    } else {
        Ordering::Greater
    }
}

/// The order of two ranks.
fn order_of_ranks(left: usize, right: usize) -> (o: Ordering)
    ensures
        matches!(o, Ordering::Less) == (left < right),
        matches!(o, Ordering::Equal) == (left == right),
        matches!(o, Ordering::Greater) == (left > right),
{
    if left < right {
        Ordering::Less
    } else if left == right {
        Ordering::Equal
    } else {
        Ordering::Greater
    }
}

/// Compares two terms by the total order on terms.
pub fn cmp<B: Vocabulary>(left: &Regex<B>, right: &Regex<B>) -> (o: Ordering)
    ensures
        matches!(o, Ordering::Less) == term_lt(*left, *right),
        matches!(o, Ordering::Equal) == (*left == *right),
        matches!(o, Ordering::Greater) == term_lt(*right, *left),
    decreases *left,
{
    let o = match (left, right) {
        (Regex::Symbol(left_value), Regex::Symbol(right_value)) => {
            proof {
                if left_value.code() == right_value.code() {
                    B::Symbol::code_is_injective(left_value, right_value);
                }
            }
            order_of(left_value.key(), right_value.key())
        },
        (Regex::Concat(left_left, left_right), Regex::Concat(right_left, right_right)) => {
            match cmp(left_left, right_left) {
                Ordering::Equal => cmp(left_right, right_right),
                Ordering::Less => Ordering::Less,
                Ordering::Greater => Ordering::Greater,
            }
        },
        (Regex::Closure(left_inner), Regex::Closure(right_inner)) => cmp(left_inner, right_inner),
        (Regex::Or(left_left, left_right), Regex::Or(right_left, right_right)) => {
            match cmp(left_left, right_left) {
                Ordering::Equal => cmp(left_right, right_right),
                Ordering::Less => Ordering::Less,
                Ordering::Greater => Ordering::Greater,
            }
        },
        (Regex::And(left_left, left_right), Regex::And(right_left, right_right)) => {
            match cmp(left_left, right_left) {
                Ordering::Equal => cmp(left_right, right_right),
                Ordering::Less => Ordering::Less,
                Ordering::Greater => Ordering::Greater,
            }
        },
        (Regex::Complement(left_inner), Regex::Complement(right_inner)) => cmp(
            left_inner,
            right_inner,
        ),
        (left, right) => order_of_ranks(rank(left), rank(right)),
    };
    proof {
        lt_is_irreflexive(*left);
        lt_is_asymmetric(*left, *right);
    }
    o
}

} // verus!
