use brzozowski_regex::builder::order::cmp;
use brzozowski_regex::builder::order::rank;
use brzozowski_regex::builder::ApproximatelySimilarCanonical;
use brzozowski_regex::builder::Pure;
use brzozowski_regex::builder::Regex;
use brzozowski_regex::ops::IntoClosure;
use brzozowski_regex::ops::IntoRegex;
use brzozowski_regex::ops::IntoSymbol;
use std::cmp::Ordering;

type Asc = Regex<ApproximatelySimilarCanonical<usize>>;
type Plain = Regex<Pure<usize>>;

#[test]
fn test_canonical_forms() {
    let tests: Vec<(
        Regex<ApproximatelySimilarCanonical<usize>>,
        Regex<Pure<usize>>,
    )> = vec![
        (().r(), ().r()),
        (().r().c(), [].r()),
        ([].r().c(), [].r()),
        (11.s() & [42.s(), ().r()].r(), ().r()),
        (42.s() & 11.s() & 17.s(), 11.s() & (17.s() & 42.s())),
        (42.s() & !11.s() & 17.s(), 17.s() & (42.s() & !11.s())),
        (42.s() | 11.s() | 17.s(), 11.s() | (17.s() | 42.s())),
        (42.s() | !11.s() | 17.s(), 17.s() | (42.s() | !11.s())),
        (!42.s() & !11.s(), !11.s() & !42.s()),
    ];
    for test in tests {
        assert_eq!(test.1, test.0.rebuild());
    }
}

#[test]
fn test_equivalent_forms() {
    let tests: Vec<(
        Regex<ApproximatelySimilarCanonical<usize>>,
        Regex<ApproximatelySimilarCanonical<usize>>,
    )> = vec![
        (11.s() & 42.s() & 7.s(), 7.s() & 42.s() & 11.s()),
        (11.s() & 7.s() & 42.s(), 42.s() & 7.s() & 11.s()),
        (11.s() | 42.s() | 7.s(), 7.s() | 42.s() | 11.s()),
        (11.s() | 7.s() | 42.s(), 42.s() | 7.s() | 11.s()),
        (42.s().c().c(), 42.s().c()),
        (11.s() | 11.s(), 11.s()),
        (11.s() & !().r(), 11.s()),
        (11.s() | !().r(), !().r()),
        (11.s() & (42.s() & 7.s()), 7.s() & 11.s() & 42.s()),
        (11.s() | (42.s() | 7.s()), 7.s() | 11.s() | 42.s()),
    ];
    for test in tests {
        assert_eq!(test.1, test.0.rebuild());
    }
}

#[test]
fn nested_intersections_are_flattened_and_sorted() {
    let left = Asc::and(Asc::symbol(42), Asc::and(Asc::symbol(11), Asc::symbol(17)));
    let right = Asc::and(Asc::and(Asc::symbol(11), Asc::symbol(17)), Asc::symbol(42));
    assert_eq!(left, right);
    assert_eq!(
        Asc::And(
            Box::new(Asc::Symbol(11)),
            Box::new(Asc::And(Box::new(Asc::Symbol(17)), Box::new(Asc::Symbol(42))))
        ),
        left
    );
}

#[test]
fn union_sorts_its_operands() {
    let built = Asc::or(Asc::symbol(9), Asc::or(Asc::symbol(5), Asc::symbol(1)));
    assert_eq!(
        Asc::Or(
            Box::new(Asc::Symbol(1)),
            Box::new(Asc::Or(Box::new(Asc::Symbol(5)), Box::new(Asc::Symbol(9))))
        ),
        built
    );
}

#[test]
fn union_drops_repeated_operands() {
    let built = Asc::or(
        Asc::or(Asc::symbol(5), Asc::symbol(1)),
        Asc::or(Asc::symbol(1), Asc::symbol(5)),
    );
    assert_eq!(
        Asc::Or(Box::new(Asc::Symbol(1)), Box::new(Asc::Symbol(5))),
        built
    );
    assert_eq!(Asc::Symbol(3), Asc::or(Asc::symbol(3), Asc::symbol(3)));
    assert_eq!(Asc::Symbol(3), Asc::and(Asc::symbol(3), Asc::symbol(3)));
}

#[test]
fn terms_built_by_hand_are_flattened_on_both_sides() {
    let left = Asc::Or(Box::new(Asc::Symbol(4)), Box::new(Asc::Symbol(2)));
    let right = Asc::Or(Box::new(Asc::Symbol(3)), Box::new(Asc::Symbol(1)));
    let built = Asc::or(left, right);
    assert_eq!(
        Asc::Or(
            Box::new(Asc::Symbol(1)),
            Box::new(Asc::Or(
                Box::new(Asc::Symbol(2)),
                Box::new(Asc::Or(Box::new(Asc::Symbol(3)), Box::new(Asc::Symbol(4))))
            ))
        ),
        built
    );
}

#[test]
fn closure_rules() {
    assert_eq!(Asc::EmptyString, Asc::closure(Asc::empty_set()));
    assert_eq!(Asc::EmptyString, Asc::closure(Asc::empty_string()));
    let star = Asc::closure(Asc::symbol(1));
    assert_eq!(Asc::Closure(Box::new(Asc::Symbol(1))), star);
    assert_eq!(Asc::Closure(Box::new(Asc::Symbol(1))), Asc::closure(star));
}

#[test]
fn concat_rules() {
    assert_eq!(Asc::EmptySet, Asc::concat(Asc::empty_set(), Asc::symbol(1)));
    assert_eq!(Asc::EmptySet, Asc::concat(Asc::symbol(1), Asc::empty_set()));
    assert_eq!(Asc::Symbol(1), Asc::concat(Asc::empty_string(), Asc::symbol(1)));
    assert_eq!(Asc::Symbol(1), Asc::concat(Asc::symbol(1), Asc::empty_string()));
    let nested = Asc::concat(Asc::concat(Asc::symbol(3), Asc::symbol(2)), Asc::symbol(1));
    assert_eq!(
        Asc::Concat(
            Box::new(Asc::Symbol(3)),
            Box::new(Asc::Concat(Box::new(Asc::Symbol(2)), Box::new(Asc::Symbol(1))))
        ),
        nested
    );
    assert_eq!(
        nested,
        Asc::concat(Asc::symbol(3), Asc::concat(Asc::symbol(2), Asc::symbol(1)))
    );
}

#[test]
fn union_and_intersection_rules() {
    let top = Asc::complement(Asc::empty_set());
    assert_eq!(Asc::Symbol(1), Asc::or(Asc::empty_set(), Asc::symbol(1)));
    assert_eq!(Asc::Symbol(1), Asc::or(Asc::symbol(1), Asc::empty_set()));
    assert_eq!(top, Asc::or(Asc::complement(Asc::empty_set()), Asc::symbol(1)));
    assert_eq!(top, Asc::or(Asc::symbol(1), Asc::complement(Asc::empty_set())));
    assert_eq!(Asc::EmptySet, Asc::and(Asc::empty_set(), Asc::symbol(1)));
    assert_eq!(Asc::EmptySet, Asc::and(Asc::symbol(1), Asc::empty_set()));
    assert_eq!(Asc::Symbol(1), Asc::and(Asc::complement(Asc::empty_set()), Asc::symbol(1)));
    assert_eq!(Asc::Symbol(1), Asc::and(Asc::symbol(1), Asc::complement(Asc::empty_set())));
}

#[test]
fn complement_rules() {
    assert_eq!(Asc::Symbol(1), Asc::complement(Asc::complement(Asc::symbol(1))));
    assert_eq!(
        Asc::Complement(Box::new(Asc::Symbol(1))),
        Asc::complement(Asc::symbol(1))
    );
}

#[test]
fn canonical_form_is_stable() {
    let r = || Asc::concat(Asc::symbol(4), Asc::closure(Asc::symbol(2)));
    let a = || Asc::symbol(7);
    let b = || Asc::closure(Asc::symbol(3));
    let c = || Asc::complement(Asc::symbol(5));
    let top = || Asc::complement(Asc::empty_set());
    assert_eq!(r(), Asc::or(r(), r()));
    assert_eq!(r(), Asc::and(r(), top()));
    assert_eq!(top(), Asc::or(r(), top()));
    assert_eq!(Asc::EmptySet, Asc::and(r(), Asc::empty_set()));
    assert_eq!(Asc::closure(r()), Asc::closure(Asc::closure(r())));
    assert_eq!(r(), Asc::complement(Asc::complement(r())));
    assert_eq!(Asc::or(a(), Asc::or(b(), c())), Asc::or(Asc::or(a(), b()), c()));
    assert_eq!(Asc::and(a(), Asc::and(b(), c())), Asc::and(Asc::and(a(), b()), c()));
    assert_eq!(Asc::or(a(), b()), Asc::or(b(), a()));
    assert_eq!(Asc::and(a(), b()), Asc::and(b(), a()));
}

#[test]
fn rebuilding_a_pure_term_keeps_it() {
    let term: Plain = Plain::or(
        Plain::symbol(9),
        Plain::and(Plain::closure(Plain::closure(Plain::symbol(1))), Plain::empty_set()),
    );
    let again: Plain = term.rebuild();
    assert_eq!(term, again);
    assert_eq!(term, term.clone());
}

#[test]
fn order_ranks_the_constructors() {
    let terms: Vec<Plain> = vec![
        Plain::empty_set(),
        Plain::empty_string(),
        Plain::symbol(1),
        Plain::concat(Plain::symbol(1), Plain::symbol(2)),
        Plain::closure(Plain::symbol(1)),
        Plain::or(Plain::symbol(1), Plain::symbol(2)),
        Plain::and(Plain::symbol(1), Plain::symbol(2)),
        Plain::complement(Plain::symbol(1)),
    ];
    for i in 0..terms.len() {
        assert_eq!(i + 1, rank(&terms[i]));
        for j in 0..terms.len() {
            assert_eq!(i.cmp(&j), cmp(&terms[i], &terms[j]));
        }
    }
}

#[test]
fn order_compares_children_from_the_left() {
    let small = Plain::concat(Plain::symbol(1), Plain::symbol(9));
    let large = Plain::concat(Plain::symbol(2), Plain::symbol(0));
    assert_eq!(Ordering::Less, cmp(&small, &large));
    assert_eq!(Ordering::Greater, cmp(&large, &small));
    let a = Plain::or(Plain::symbol(1), Plain::symbol(3));
    let b = Plain::or(Plain::symbol(1), Plain::symbol(4));
    assert_eq!(Ordering::Less, cmp(&a, &b));
    assert_eq!(Ordering::Equal, cmp(&a, &a));
    assert_eq!(Ordering::Less, cmp(&Plain::symbol(3), &Plain::symbol(4)));
    assert_eq!(
        Ordering::Greater,
        cmp(
            &Plain::complement(Plain::symbol(4)),
            &Plain::complement(Plain::symbol(3))
        )
    );
}
