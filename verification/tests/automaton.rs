use brzozowski_regex::automaton::StateExplosion;
use brzozowski_regex::builder::ApproximatelySimilarCanonical;
use brzozowski_regex::builder::Regex;
use brzozowski_regex::ops::IntoClosure;
use brzozowski_regex::ops::IntoRegex;
use brzozowski_regex::ops::IntoSymbol;

#[test]
fn test_matcher() {
    let tests: Vec<(Regex<ApproximatelySimilarCanonical<usize>>, Vec<usize>, bool)> = vec![
        ((().r()), vec![], false),
        (([].r()), vec![], true),
        (42.s(), vec![42], true),
        (42.s(), vec![42, 42], false),
        (42.s(), vec![11], false),
        ((![42.s()].r()), vec![], true),
        (([42.s()].r()), vec![42], true),
        (([42.s(), (11.s() | 7.s())].r()), vec![42], false),
        (([42.s(), (11.s() | 7.s())].r()), vec![42, 11], true),
        (([42.s(), (11.s() | 7.s())].r()), vec![42, 7], true),
        ((42.s().c()), vec![], true),
        ((42.s().c()), vec![42], true),
        ((42.s().c()), vec![42, 42, 42], true),
        ((42.s().c()), vec![42, 11], false),
        ((42.s() & [].r()), vec![42], false),
        ((42.s() & 42.s().c()), vec![42], true),
        ((42.s() & 42.s().c()), vec![42, 42], false),
        ((42.s() | 11.s()), vec![42], true),
        ((42.s() | 11.s()), vec![11], true),
        ((42.s() | 11.s()), vec![11, 42], false),
        ((42.s() | 11.s().c()), vec![42], true),
        ((42.s() | 11.s().c()), vec![11], true),
        ((42.s() | 11.s().c()), vec![11, 11], true),
        ((42.s() | 11.s().c()), vec![42, 11], false),
        ((!().r()), vec![11], true),
        ((!11.s()), vec![42], true),
        ((!11.s()), vec![11], false),
    ];
    for test in tests {
        assert_eq!(
            test.2,
            test.0.to_automaton().unwrap().to_matcher().next_iter(&test.1),
            "expected {} matching {:?} with {:?}",
            test.2,
            test.0,
            test.1
        );
    }
}

#[test]
fn test_automaton() {
    type R = brzozowski_regex::Regex<usize>;

    let x: R = 42.s().c();

    let mut m = x.to_automaton().unwrap().into_matcher();
    assert!(m.next_iter(&[42, 42]));
    assert_eq!(&x, m.regex());
}

fn sample() -> brzozowski_regex::Regex<usize> {
    type R = brzozowski_regex::Regex<usize>;
    R::concat(
        R::symbol(1),
        R::and(
            R::closure(R::or(R::symbol(2), R::symbol(3))),
            R::complement(R::concat(R::symbol(2), R::symbol(2))),
        ),
    )
}

fn words() -> Vec<Vec<usize>> {
    let mut all: Vec<Vec<usize>> = vec![vec![]];
    let mut last: Vec<Vec<usize>> = vec![vec![]];
    for _ in 0..4 {
        let mut next: Vec<Vec<usize>> = Vec::new();
        for word in &last {
            for s in [1usize, 2, 3, 9] {
                let mut longer = word.clone();
                longer.push(s);
                next.push(longer);
            }
        }
        all.extend(next.iter().cloned());
        last = next;
    }
    all
}

#[test]
fn automaton_accepts_what_the_term_matches() {
    let term = sample();
    let fa = term.to_automaton().unwrap();
    for word in words() {
        let mut m = fa.to_matcher();
        assert_eq!(term.is_match(&word), m.next_iter(&word), "{:?}", word);
        assert_eq!(&term.derive_iter(&word), m.regex());
    }
}

#[test]
fn every_state_has_a_transition_for_each_symbol_of_the_term() {
    let fa = sample().to_automaton().unwrap();
    assert!(fa.states.len() >= 1);
    for state in &fa.states {
        let mut keys: Vec<u64> = state.transitions.keys().cloned().collect();
        keys.sort();
        assert_eq!(vec![1u64, 2, 3], keys);
        assert!(state.default_transition < fa.states.len());
        assert_eq!(state.accepting, state.regex.is_nullable());
    }
}

#[test]
fn building_twice_gives_the_same_automaton() {
    let a = sample().to_automaton().unwrap();
    let b = sample().to_automaton().unwrap();
    assert_eq!(a.states.len(), b.states.len());
    for i in 0..a.states.len() {
        assert_eq!(a.states[i].regex, b.states[i].regex);
        assert_eq!(a.states[i].accepting, b.states[i].accepting);
        assert_eq!(a.states[i].transitions, b.states[i].transitions);
        assert_eq!(a.states[i].default_transition, b.states[i].default_transition);
    }
}

#[test]
fn term_without_symbols_has_only_default_transitions() {
    type R = brzozowski_regex::Regex<usize>;
    let empty: R = R::empty_set();
    let fa = empty.to_automaton().unwrap();
    assert_eq!(1, fa.states.len());
    assert!(fa.states[0].transitions.is_empty());
    assert_eq!(0, fa.states[0].default_transition);
    let word: R = R::empty_string();
    let fa = word.to_automaton().unwrap();
    assert_eq!(2, fa.states.len());
    assert!(fa.states[0].accepting);
    assert!(!fa.states[1].accepting);
    assert!(fa.states[0].transitions.is_empty());
    assert_eq!(1, fa.states[0].default_transition);
}

#[test]
fn matcher_advances_one_symbol_at_a_time() {
    type R = brzozowski_regex::Regex<usize>;
    let term: R = R::concat(R::symbol(1), R::symbol(2));
    let fa = term.to_automaton().unwrap();
    let mut m = fa.to_matcher();
    assert_eq!(&term, m.regex());
    assert!(!m.next(&1));
    assert_eq!(&R::symbol(2), m.regex());
    assert!(m.next(&2));
    assert_eq!(&R::empty_string(), m.regex());
    assert!(!m.next(&7));
    assert_eq!(&R::empty_set(), m.regex());
    let mut other = fa.to_matcher();
    assert!(!other.next(&5));
    assert_eq!(&R::empty_set(), other.regex());
}

#[test]
fn too_many_states_are_an_error() {
    let term = sample();
    let needed = term.to_automaton().unwrap().states.len();
    assert!(needed > 1);
    assert_eq!(Some(StateExplosion {}), term.to_automaton_bounded(0).err());
    assert_eq!(
        Some(StateExplosion {}),
        term.to_automaton_bounded(needed - 1).err()
    );
    let fa = term.to_automaton_bounded(needed).ok().unwrap();
    assert_eq!(needed, fa.states.len());
}
