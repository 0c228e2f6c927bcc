use brzozowski_regex::builder::ApproximatelySimilarCanonical;
use brzozowski_regex::builder::Builder;
use brzozowski_regex::builder::Pure;
use brzozowski_regex::builder::Regex;
use brzozowski_regex::ops::sym;
use brzozowski_regex::ops::IntoClosure;
use brzozowski_regex::ops::IntoRegex;
use brzozowski_regex::ops::IntoSymbol;

fn check_ops<B: Builder<Symbol = usize>>() {
    let _: Vec<Regex<B>> = vec![
        42.s(),
        ().r() & 42.s(),
        [1.s(), 2.s()].r(),
        [1.s(), 3.s()].r() & 7.s(),
        ().r() | 7.s(),
        !().r(),
        [].r(),
    ];
}

#[test]
fn test_ops_pure() {
    check_ops::<Pure<usize>>()
}

#[test]
fn test_ops_asc() {
    check_ops::<ApproximatelySimilarCanonical<usize>>()
}

#[test]
fn ops_mirror_the_constructors() {
    type R = Regex<Pure<usize>>;
    assert_eq!(R::Symbol(42), 42.s());
    assert_eq!(R::Symbol(42), sym(42));
    assert_eq!(R::EmptySet, ().r());
    let none: [R; 0] = [];
    assert_eq!(R::EmptyString, none.r());
    assert_eq!(R::Symbol(1), [sym::<Pure<usize>>(1)].r());
    assert_eq!(
        R::Concat(
            Box::new(R::Concat(Box::new(R::Symbol(1)), Box::new(R::Symbol(2)))),
            Box::new(R::Symbol(3))
        ),
        [sym::<Pure<usize>>(1), sym(2), sym(3)].r()
    );
    assert_eq!(
        R::Concat(Box::new(R::Symbol(1)), Box::new(R::Symbol(2))),
        sym::<Pure<usize>>(1) + sym(2)
    );
    assert_eq!(
        R::Or(Box::new(R::Symbol(1)), Box::new(R::Symbol(2))),
        sym::<Pure<usize>>(1) | sym(2)
    );
    assert_eq!(
        R::And(Box::new(R::Symbol(1)), Box::new(R::Symbol(2))),
        sym::<Pure<usize>>(1) & sym(2)
    );
    assert_eq!(R::Complement(Box::new(R::Symbol(1))), !sym::<Pure<usize>>(1));
    assert_eq!(R::Closure(Box::new(R::Symbol(1))), sym::<Pure<usize>>(1).c());
}
