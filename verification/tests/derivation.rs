use brzozowski_regex::builder::ApproximatelySimilarCanonical;
use brzozowski_regex::builder::Builder;
use brzozowski_regex::builder::Pure;
use brzozowski_regex::builder::Regex;
use brzozowski_regex::derivation::Symbols;
use brzozowski_regex::ops::IntoClosure;
use brzozowski_regex::ops::IntoRegex;
use brzozowski_regex::ops::IntoSymbol;

#[test]
fn test_derive_symbols() {
    let tests: Vec<(Regex<Pure<usize>>, Symbols, Regex<Pure<usize>>)> = vec![
        (().r(), Symbols::only(&[42usize]), ().r()),
        (().r(), Symbols::except(&[42usize]), ().r()),
        ([].r(), Symbols::only(&[42usize]), ().r()),
        ([].r(), Symbols::except(&[42usize]), ().r()),
        ([42.s()].r(), Symbols::only(&[42usize]), [].r()),
        ([42.s()].r(), Symbols::except(&[42usize]), ().r()),
        (!().r(), Symbols::only(&[42usize]), !().r()),
        (!().r(), Symbols::except(&[42usize]), !().r()),
        (!42.s(), Symbols::only(&[42usize]), ![].r()),
        (!42.s(), Symbols::except(&[42usize]), !().r()),
    ];
    for (r, symbols, expected) in tests {
        let actual = r.derive_symbols(&symbols);
        assert_eq!(
            expected, actual,
            "derive {:?} for {:?}, expected {:?}, got {:?}",
            r, symbols, expected, actual
        );
    }
}

fn check_is_match<B: Builder<Symbol = usize>>() {
    let tests: Vec<(Regex<B>, Vec<usize>, bool)> = vec![
        ((().r()), vec![], false),
        (([].r()), vec![], true),
        (42.s(), vec![42], true),
        (42.s(), vec![42, 42], false),
        (42.s(), vec![11], false),
        ((![42.s()].r()), vec![], true),
        (([42.s()].r()), vec![42], true),
        (([42.s(), (11.s() | 7.s())].r()), vec![42], false),
        (([42.s(), (11.s() | 7.s())].r()), vec![42, 11], true),
        (([42.s(), (11.s() | 7.s())].r()), vec![42, 7], true),
        ((42.s().c()), vec![], true),
        ((42.s().c()), vec![42], true),
        ((42.s().c()), vec![42, 42, 42], true),
        ((42.s().c()), vec![42, 11], false),
        ((42.s() & [].r()), vec![42], false),
        ((42.s() & 42.s().c()), vec![42], true),
        ((42.s() & 42.s().c()), vec![42, 42], false),
        ((42.s() | 11.s()), vec![42], true),
        ((42.s() | 11.s()), vec![11], true),
        ((42.s() | 11.s()), vec![11, 42], false),
        ((42.s() | 11.s().c()), vec![42], true),
        ((42.s() | 11.s().c()), vec![11], true),
        ((42.s() | 11.s().c()), vec![11, 11], true),
        ((42.s() | 11.s().c()), vec![42, 11], false),
        ((!().r()), vec![11], true),
        ((!11.s()), vec![42], true),
        ((!11.s()), vec![11], false),
    ];
    for test in tests {
        assert_eq!(test.2, test.0.is_match(&test.1));
    }
}

#[test]
fn test_is_match_pure() {
    check_is_match::<Pure<usize>>();
}

#[test]
fn test_is_match_asc() {
    check_is_match::<ApproximatelySimilarCanonical<usize>>();
}

#[test]
fn can_build() {
    let x = brzozowski_regex::Regex::symbol(42usize);
    let y = brzozowski_regex::Regex::empty_set();
    let z = x | y;

    assert!(z.is_match(&[42]));
}

#[test]
fn can_use_ops() {
    type R = brzozowski_regex::Regex<usize>;

    let x: R = 42.s().c();
    let y: R = ().r();
    let z = x | y;

    assert!(z.is_match(&[42, 42]));
}

#[test]
fn can_test_nullability() {
    type R = brzozowski_regex::Regex<usize>;

    let x: R = 42.s().c();
    let y: R = ().r();
    let z = x | y;

    assert!(z.is_nullable());
}

#[test]
fn can_derive() {
    type R = brzozowski_regex::Regex<usize>;

    let x: R = 42.s().c();
    let y: R = ().r();
    let z = x | y;

    assert!(z.is_nullable());
}

#[test]
fn derivative_of_a_concatenation() {
    type R = Regex<Pure<usize>>;
    let term = R::concat(R::closure(R::symbol(1)), R::symbol(2));
    let expected = R::or(
        R::concat(
            R::concat(R::empty_string(), R::closure(R::symbol(1))),
            R::symbol(2),
        ),
        R::concat(R::empty_string(), R::empty_set()),
    );
    assert_eq!(expected, term.derive(&1));
}

#[test]
fn derivative_by_a_word_is_a_fold() {
    type R = brzozowski_regex::Regex<usize>;
    let term: R = R::concat(R::symbol(1), R::closure(R::or(R::symbol(2), R::symbol(3))));
    let by_word = term.derive_iter(&[1, 2, 3]);
    let by_steps = term.derive(&1).derive(&2).derive(&3);
    assert_eq!(by_steps, by_word);
    assert_eq!(term, term.derive_iter(&[]));
}

#[test]
fn matching_a_word_is_matching_its_rest_against_the_derivative() {
    type R = brzozowski_regex::Regex<usize>;
    let term: R = R::concat(R::symbol(1), R::closure(R::or(R::symbol(2), R::symbol(3))));
    let words: Vec<Vec<usize>> = vec![vec![1], vec![1, 2], vec![2, 1], vec![1, 3, 2], vec![3]];
    for word in words {
        assert_eq!(
            term.is_match(&word),
            term.derive(&word[0]).is_match(&word[1..])
        );
    }
}

#[test]
fn complement_matches_what_the_term_does_not() {
    type R = brzozowski_regex::Regex<usize>;
    let term: R = R::complement(R::symbol(11));
    assert!(term.is_match(&[42]));
    assert!(!term.is_match(&[11]));
    assert!(term.is_match(&[]));
}

#[test]
fn classes_match_by_membership() {
    let only = Symbols::only(&[1u8, 2u8]);
    assert!(only.matches(&1u8));
    assert!(only.matches(&2u8));
    assert!(!only.matches(&3u8));
    let except = Symbols::except(&[1u8, 2u8]);
    assert!(!except.matches(&1u8));
    assert!(except.matches(&3u8));
    assert!(!Symbols::only::<u8>(&[]).matches(&1u8));
    assert!(Symbols::except::<u8>(&[]).matches(&1u8));
}

fn members(class: &Symbols) -> Vec<bool> {
    (0u8..6).map(|s| class.matches(&s)).collect()
}

#[test]
fn class_algebra() {
    let a = || Symbols::only(&[1u8, 2u8, 3u8]);
    let b = || Symbols::only(&[3u8, 4u8]);
    let na = || Symbols::except(&[1u8, 2u8, 3u8]);
    let nb = || Symbols::except(&[3u8, 4u8]);
    assert_eq!(vec![false, true, true, true, true, false], members(&a().bitor(b())));
    assert_eq!(vec![true, true, true, false, true, true], members(&na().bitor(nb())));
    assert_eq!(vec![true, true, true, true, false, true], members(&a().bitor(nb())));
    assert_eq!(vec![true, true, true, true, false, true], members(&nb().bitor(a())));
    assert_eq!(vec![false, false, false, true, false, false], members(&a().bitand(b())));
    assert_eq!(vec![true, false, false, false, false, true], members(&na().bitand(nb())));
    assert_eq!(vec![false, true, true, false, false, false], members(&a().bitand(nb())));
    assert_eq!(vec![false, true, true, false, false, false], members(&nb().bitand(a())));
    assert_eq!(vec![true, false, false, false, true, true], members(&a().not()));
    assert_eq!(vec![false, true, true, true, false, false], members(&na().not()));
}
