use brzozowski_regex::builder::Pure;
use brzozowski_regex::builder::Regex;
use brzozowski_regex::ops::IntoClosure;
use brzozowski_regex::ops::IntoRegex;
use brzozowski_regex::ops::IntoSymbol;

#[test]
fn test_display() {
    let tests: Vec<(&str, Regex<Pure<usize>>)> = vec![
        ("∅", ().r()),
        ("¬∅", !().r()),
        ("¬(11*)", !11.s().c()),
        ("ε | 11*", [].r() | 11.s().c()),
        ("¬∅ & (11 7)", !().r() & [11.s(), 7.s()].r()),
        ("1 & 2 & 4", 1.s() & 2.s() & 4.s()),
        ("1 & (2 & 4)", 1.s() & (2.s() & 4.s())),
        ("(1 & 2) | 4", (1.s() & 2.s()) | 4.s()),
        ("¬(1 2)", !(1.s() + 2.s())),
    ];
    for (expected, r) in tests {
        assert_eq!(expected, r.to_text());
    }
}

#[test]
fn can_display() {
    type R = brzozowski_regex::Regex<usize>;

    let x: R = 42.s().c();

    assert_eq!("42*", x.to_text());
}

#[test]
fn symbols_are_written_as_decimal_codes() {
    type R = Regex<Pure<u64>>;
    assert_eq!("0", R::symbol(0).to_text());
    assert_eq!("9", R::symbol(9).to_text());
    assert_eq!("10", R::symbol(10).to_text());
    assert_eq!("1234567890", R::symbol(1234567890).to_text());
    assert_eq!("18446744073709551615", R::symbol(u64::MAX).to_text());
}

#[test]
fn chains_inside_other_terms_are_enclosed_once() {
    type R = Regex<Pure<usize>>;
    let chain: R = 1.s() & 2.s() & 4.s();
    assert_eq!("¬(1 & 2 & 4)", (!chain).to_text());
    let chain: R = 1.s() | 2.s() | 4.s();
    assert_eq!("(1 | 2 | 4)*", chain.c().to_text());
    let chain: R = [1.s(), 2.s(), 3.s()].r();
    assert_eq!("1 2 3", chain.to_text());
    let right: R = 1.s() + (2.s() + 3.s());
    assert_eq!("1 (2 3)", right.to_text());
    let mixed: R = [1.s() | 2.s(), 3.s()].r();
    assert_eq!("(1 | 2) 3", mixed.to_text());
    let stars: R = 1.s().c().c();
    assert_eq!("(1*)*", stars.to_text());
    assert_eq!("ε", R::empty_string().to_text());
}

#[test]
fn canonical_terms_are_written_as_they_are_nested() {
    type R = brzozowski_regex::Regex<usize>;
    let union: R = 4.s() | 2.s() | 1.s();
    assert_eq!("1 | (2 | 4)", union.to_text());
    let word: R = [1.s(), 2.s(), 3.s()].r();
    assert_eq!("1 (2 3)", word.to_text());
}
