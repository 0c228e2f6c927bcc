use brzozowski_regex::builder::ApproximatelySimilarCanonical;
use brzozowski_regex::builder::Builder;
use brzozowski_regex::builder::Pure;
use brzozowski_regex::builder::Regex;
use brzozowski_regex::ops::IntoClosure;
use brzozowski_regex::ops::IntoRegex;
use brzozowski_regex::ops::IntoSymbol;

fn check_is_nullable<B: Builder<Symbol = usize>>() {
    let tests: Vec<(Regex<B>, bool)> = vec![
        (!().r(), true),
        ([].r(), true),
        (42.s(), false),
        (().r().c(), true),
        (42.s().c(), true),
        ([42.s(), [].r()].r(), false),
        ([[].r(), 42.s()].r(), false),
        ([[].r(), 42.s().c()].r(), true),
        ((42.s() | [].r()), true),
        (([].r() | 42.s()), true),
        (([].r() | 42.s().c()), true),
        ((42.s() & ().r()), false),
        ((().r() & 42.s()), false),
        (([].r() & 42.s().c()), true),
        (([].r() & 42.s()), false),
        (!().r(), true),
        ((!42.s()), true),
    ];
    for test in tests {
        assert_eq!(test.1, test.0.is_nullable());
    }
}

#[test]
fn test_is_nullable_pure() {
    check_is_nullable::<Pure<usize>>();
}

#[test]
fn test_is_nullable_asc() {
    check_is_nullable::<ApproximatelySimilarCanonical<usize>>();
}

#[test]
fn nullable_gives_the_empty_word_or_the_empty_set() {
    let star: Regex<Pure<usize>> = Regex::closure(Regex::symbol(42));
    assert_eq!(Regex::<Pure<usize>>::EmptyString, star.nullable());
    let symbol: Regex<Pure<usize>> = Regex::symbol(42);
    assert_eq!(Regex::<Pure<usize>>::EmptySet, symbol.nullable());
}

#[test]
fn nullability_follows_the_table() {
    type R = Regex<Pure<u8>>;
    assert!(!R::empty_set().is_nullable());
    assert!(R::empty_string().is_nullable());
    assert!(!R::symbol(1).is_nullable());
    assert!(!R::concat(R::empty_string(), R::symbol(1)).is_nullable());
    assert!(R::concat(R::empty_string(), R::empty_string()).is_nullable());
    assert!(R::closure(R::symbol(1)).is_nullable());
    assert!(R::or(R::symbol(1), R::empty_string()).is_nullable());
    assert!(!R::or(R::symbol(1), R::symbol(2)).is_nullable());
    assert!(!R::and(R::symbol(1), R::empty_string()).is_nullable());
    assert!(R::and(R::empty_string(), R::empty_string()).is_nullable());
    assert!(R::complement(R::symbol(1)).is_nullable());
    assert!(!R::complement(R::empty_string()).is_nullable());
}
