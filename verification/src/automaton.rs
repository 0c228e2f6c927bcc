//! Finite automata built from regular expressions, and their matchers.

use vstd::prelude::*;
use std::collections::HashMap;
use crate::alphabet::Alphabet;
use crate::builder::canonical::derivative_is_canonical;
use crate::builder::canonical::is_canonical;
use crate::builder::canonical::lemma_symbols_of_derivative;
use crate::builder::similarity::same;
use crate::builder::ApproximatelySimilarCanonical;
use crate::builder::Regex;
use crate::builder::Vocabulary;
use crate::derivation::holds;
use crate::derivation::ClassModel;
use crate::derivation::Symbols;

verus! {

/// One state of an automaton.
pub struct State<S: Alphabet> {
    /// The term that the state stands for.
    pub regex: Regex<ApproximatelySimilarCanonical<S>>,
    /// Whether a word that ends here is accepted.
    pub accepting: bool,
    /// The next state for each symbol of the alphabet, by the symbol's code.
    pub transitions: HashMap<u64, usize>,
    /// The next state for every other symbol.
    pub default_transition: usize,
}

/// A deterministic finite automaton. Its first state is the initial one.
pub struct FiniteAutomaton<S: Alphabet> {
    pub states: Vec<State<S>>,
}

/// The automaton would have had more states than it was allowed.
#[derive(Clone, Copy, Debug, PartialEq, Eq)]
pub struct StateExplosion {
}

/// The class of all symbols but the listed ones.
pub open spec fn unlisted(listed: Set<u64>) -> ClassModel {
    ClassModel { excluding: true, codes: listed }
}

/// Whether no term occurs twice.
pub open spec fn distinct<S: Alphabet>(
    terms: Seq<Regex<ApproximatelySimilarCanonical<S>>>,
) -> bool {
    forall|i: int, j: int| 0 <= i < j < terms.len() ==> terms[i] != terms[j]
}

impl<S: Alphabet> State<S> {
    /// Whether the state says of its term what holds of it, where `terms`
    /// are the terms of the states and `listed` the codes of the alphabet:
    /// it accepts when its term is nullable, it has one transition for each
    /// listed code, to the state of the derivative by that symbol, and its
    /// default transition leads to the state of the derivative by the class
    /// of all other symbols.
    pub open spec fn describes(
        &self,
        terms: Seq<Regex<ApproximatelySimilarCanonical<S>>>,
        listed: Set<u64>,
    ) -> bool {
        &&& self.accepting == self.regex.spec_is_nullable()
        &&& self.regex.spec_symbols().subset_of(listed)
        &&& self.transitions@.dom() == listed
        &&& self.default_transition < terms.len()
        &&& terms[self.default_transition as int] == self.regex.spec_derive_symbols(
            unlisted(listed),
        )
        &&& forall|code: u64| #[trigger]
            listed.contains(code) ==> self.transitions@[code] < terms.len()
                && terms[self.transitions@[code] as int] == self.regex.spec_derive_symbols(
                ClassModel::single(code),
            )
    }
}

impl<S: Alphabet> FiniteAutomaton<S> {
    /// The terms of the states, in their order.
    pub open spec fn terms(&self) -> Seq<Regex<ApproximatelySimilarCanonical<S>>> {
        Seq::new(self.states.len() as nat, |i: int| self.states[i].regex)
    }

    /// Whether every transition leads to a state of the automaton.
    pub open spec fn wf(&self) -> bool {
        &&& self.states.len() >= 1
        &&& forall|i: int|
            0 <= i < self.states.len() ==> (#[trigger] self.states[i]).default_transition
                < self.states.len()
        &&& forall|i: int, code: u64|
            0 <= i < self.states.len() && #[trigger] self.states[i].transitions@.contains_key(code)
                ==> self.states[i].transitions@[code] < self.states.len()
    }

    /// Whether this is the automaton of the term: the initial state stands
    /// for the term, every state describes its own term over the symbols of
    /// `regex`, no two states stand for the same term, and the term of
    /// every state is reached from `regex` by derivations.
    pub open spec fn recognizes(&self, regex: Regex<ApproximatelySimilarCanonical<S>>) -> bool {
        &&& self.states.len() >= 1
        &&& self.states[0].regex == regex
        &&& forall|i: int|
            0 <= i < self.states.len() ==> (#[trigger] self.states[i]).describes(
                self.terms(),
                regex.spec_symbols(),
            )
        &&& distinct(self.terms())
        &&& forall|i: int|
            0 <= i < self.states.len() ==> reachable(regex, #[trigger] self.terms()[i])
    }

    /// The state that follows `current` on the symbol with the given code.
    pub open spec fn spec_next(&self, current: int, code: u64) -> int {
        if self.states[current].transitions@.contains_key(code) {
            self.states[current].transitions@[code] as int
        } else {
            self.states[current].default_transition as int
        }
    }

    /// The state that is reached from `start` by the word.
    pub open spec fn spec_run(&self, start: int, word: Seq<S>) -> int
        decreases word.len(),
    {
        if word.len() == 0 {
            start
        } else {
            self.spec_next(self.spec_run(start, word.drop_last()), word.last().code())
        }
    }

    /// The automaton of a term is well formed.
    pub proof fn recognizing_is_wf(&self, regex: Regex<ApproximatelySimilarCanonical<S>>)
        requires
            self.recognizes(regex),
        ensures
            self.wf(),
    {
        assert forall|i: int, code: u64|
            0 <= i < self.states.len() && #[trigger] self.states[i].transitions@.contains_key(
                code,
            ) implies self.states[i].transitions@[code] < self.states.len() by {
            assert(self.states[i].describes(self.terms(), regex.spec_symbols()));
            assert(regex.spec_symbols().contains(code));
        }
        assert forall|i: int| 0 <= i < self.states.len() implies (
        #[trigger] self.states[i]).default_transition < self.states.len() by {
            assert(self.states[i].describes(self.terms(), regex.spec_symbols()));
        }
    }

    /// A run stays inside a well-formed automaton.
    pub proof fn run_stays_inside(&self, start: int, word: Seq<S>)
        requires
            self.wf(),
            0 <= start < self.states.len(),
        ensures
            0 <= self.spec_run(start, word) < self.states.len(),
        decreases word.len(),
    {
        if word.len() > 0 {
            self.run_stays_inside(start, word.drop_last());
            let at = self.spec_run(start, word.drop_last());
            assert(self.states[at].default_transition < self.states.len());
        }
    }

    /// The automaton of a term accepts exactly the words that match the
    /// term: after any word, it is in the state of the derivative of the
    /// term by that word.
    pub proof fn run_follows_derivatives(
        &self,
        regex: Regex<ApproximatelySimilarCanonical<S>>,
        word: Seq<S>,
    )
        requires
            self.recognizes(regex),
        ensures
            0 <= self.spec_run(0, word) < self.states.len(),
            self.states[self.spec_run(0, word)].regex == regex.spec_derive_iter(word),
            self.states[self.spec_run(0, word)].accepting == regex.spec_is_match(word),
        decreases word.len(),
    {
        assert(self.states[0].describes(self.terms(), regex.spec_symbols()));
        if word.len() > 0 {
            self.run_follows_derivatives(regex, word.drop_last());
            let at = self.spec_run(0, word.drop_last());
            let code = word.last().code();
            let state = self.states[at];
            assert(state.describes(self.terms(), regex.spec_symbols()));
            if regex.spec_symbols().contains(code) {
            } else {
                state.regex.derivative_by_unlisted(regex.spec_symbols(), code);
            }
            let to = self.spec_next(at, code);
            assert(self.terms()[to] == self.states[to].regex);
            assert(self.states[to].describes(self.terms(), regex.spec_symbols()));
        }
    }

    /// Every state of the automaton of a term has a transition for each
    /// symbol that occurs in the term, and for no other.
    pub proof fn transitions_cover_the_symbols(
        &self,
        regex: Regex<ApproximatelySimilarCanonical<S>>,
        i: int,
    )
        requires
            self.recognizes(regex),
            0 <= i < self.states.len(),
        ensures
            self.states[i].transitions@.dom() == regex.spec_symbols(),
    {
        assert(self.states[i].describes(self.terms(), regex.spec_symbols()));
    }

    /// The automaton of a term accepts exactly the words of the language of
    /// the term.
    pub proof fn run_decides_the_language(
        &self,
        regex: Regex<ApproximatelySimilarCanonical<S>>,
        word: Seq<S>,
    )
        requires
            self.recognizes(regex),
        ensures
            self.states[self.spec_run(0, word)].accepting == regex.accepts(word),
    {
        self.run_follows_derivatives(regex, word);
        regex.canonical_match_is_membership(word);
    }

    /// Two automata of the same term are, after the same word, in states
    /// that stand for the same term and accept alike.
    pub proof fn automata_of_a_term_agree(
        &self,
        other: &FiniteAutomaton<S>,
        regex: Regex<ApproximatelySimilarCanonical<S>>,
        word: Seq<S>,
    )
        requires
            self.recognizes(regex),
            other.recognizes(regex),
        ensures
            self.states[self.spec_run(0, word)].regex == other.states[other.spec_run(
                0,
                word,
            )].regex,
            self.states[self.spec_run(0, word)].accepting == other.states[other.spec_run(
                0,
                word,
            )].accepting,
    {
        self.run_follows_derivatives(regex, word);
        other.run_follows_derivatives(regex, word);
    }

    /// The automaton of a term has a state for every term that derivations
    /// reach from it.
    pub proof fn holds_every_residue(
        &self,
        regex: Regex<ApproximatelySimilarCanonical<S>>,
        path: Seq<Option<u64>>,
    )
        requires
            self.recognizes(regex),
        ensures
            self.terms().contains(residue(regex, path)),
        decreases path.len(),
    {
        let listed = regex.spec_symbols();
        if path.len() == 0 {
            assert(self.terms()[0] == regex);
        } else {
            self.holds_every_residue(regex, path.drop_last());
            let before = residue(regex, path.drop_last());
            let at = choose|i: int| 0 <= i < self.terms().len() && self.terms()[i] == before;
            let state = self.states[at];
            assert(state.describes(self.terms(), listed));
            let to = match path.last() {
                Some(code) => if listed.contains(code) {
                    state.transitions@[code] as int
                } else {
                    state.regex.derivative_by_unlisted(listed, code);
                    state.default_transition as int
                },
                None => state.default_transition as int,
            };
            assert(self.terms()[to] == residue(regex, path));
        }
    }

    /// The automaton of a term has at least as many states as there are
    /// different terms that derivations reach from the term: where the
    /// construction fails for want of states, no automaton of the term is
    /// that small.
    pub proof fn holds_all_reachable_terms(
        &self,
        regex: Regex<ApproximatelySimilarCanonical<S>>,
        terms: Seq<Regex<ApproximatelySimilarCanonical<S>>>,
    )
        requires
            self.recognizes(regex),
            distinct(terms),
            forall|i: int| 0 <= i < terms.len() ==> reachable(regex, #[trigger] terms[i]),
        ensures
            terms.len() <= self.states.len(),
    {
        let mine = self.terms();
        assert forall|t: Regex<ApproximatelySimilarCanonical<S>>|
            terms.to_set().contains(t) implies mine.to_set().contains(t) by {
            let i = choose|i: int| 0 <= i < terms.len() && terms[i] == t;
            assert(reachable(regex, terms[i]));
            let path = choose|path: Seq<Option<u64>>| residue(regex, path) == t;
            self.holds_every_residue(regex, path);
        }
        vstd::seq_lib::seq_to_set_is_finite(mine);
        vstd::set_lib::lemma_len_subset(terms.to_set(), mine.to_set());
        terms.unique_seq_to_set();
        mine.unique_seq_to_set();
    }

    /// Two automata of the same term have the same number of states.
    pub proof fn automata_of_a_term_are_of_one_size(
        &self,
        other: &FiniteAutomaton<S>,
        regex: Regex<ApproximatelySimilarCanonical<S>>,
    )
        requires
            self.recognizes(regex),
            other.recognizes(regex),
        ensures
            self.states.len() == other.states.len(),
    {
        let a = self.terms();
        let b = other.terms();
        assert forall|t: Regex<ApproximatelySimilarCanonical<S>>| a.contains(t) <==> b.contains(
            t,
        ) by {
            if a.contains(t) {
                let i = choose|i: int| 0 <= i < a.len() && a[i] == t;
                assert(reachable(regex, a[i]));
                let path = choose|path: Seq<Option<u64>>| residue(regex, path) == t;
                other.holds_every_residue(regex, path);
            }
            if b.contains(t) {
                let i = choose|i: int| 0 <= i < b.len() && b[i] == t;
                assert(reachable(regex, b[i]));
                let path = choose|path: Seq<Option<u64>>| residue(regex, path) == t;
                self.holds_every_residue(regex, path);
            }
        }
        assert(a.to_set() =~= b.to_set());
        a.unique_seq_to_set();
        b.unique_seq_to_set();
    }

    /// The states of the automaton of a term in canonical form stand for
    /// terms in canonical form.
    pub proof fn states_are_canonical(
        &self,
        regex: Regex<ApproximatelySimilarCanonical<S>>,
        i: int,
    )
        requires
            self.recognizes(regex),
            is_canonical(regex),
            0 <= i < self.states.len(),
        ensures
            is_canonical(self.states[i].regex),
    {
        assert(reachable(regex, self.terms()[i]));
        let path = choose|path: Seq<Option<u64>>| residue(regex, path) == self.terms()[i];
        lemma_residue_is_canonical(regex, path);
    }

    /// A matcher that borrows the automaton, at the initial state.
    pub fn to_matcher<'a>(&'a self) -> (m: Matcher<'a, S>)
        requires
            self.wf(),
        ensures
            m.wf(),
            *m.automaton() == *self,
            m.state == 0,
    {
        Matcher { fa: Held::Borrowed(self), state: 0 }
    }

    /// A matcher that owns the automaton, at the initial state.
    pub fn into_matcher(self) -> (m: Matcher<'static, S>)
        requires
            self.wf(),
        ensures
            m.wf(),
            *m.automaton() == self,
            m.state == 0,
    {
        Matcher { fa: Held::Owned(self), state: 0 }
    }

    /// The state that follows `current` on the symbol.
    pub fn next(&self, current: usize, symbol: &S) -> (to: usize)
        requires
            self.wf(),
            current < self.states.len(),
        ensures
            to == self.spec_next(current as int, symbol.code()),
            to < self.states.len(),
    {
        broadcast use vstd::std_specs::hash::group_hash_axioms;

        let key: u64 = symbol.key();
        match self.states[current].transitions.get(&key) {
            Some(to) => *to,
            None => self.states[current].default_transition,
        }
    }

    /// Whether the state accepts.
    pub fn is_accepting(&self, current: usize) -> (b: bool)
        requires
            current < self.states.len(),
        ensures
            b == self.states[current as int].accepting,
    {
        self.states[current].accepting
    }
}

/// How a matcher holds its automaton.
pub enum Held<'a, S: Alphabet> {
    Borrowed(&'a FiniteAutomaton<S>),
    Owned(FiniteAutomaton<S>),
}

/// A cursor over an automaton.
pub struct Matcher<'a, S: Alphabet> {
    pub fa: Held<'a, S>,
    pub state: usize,
}

impl<'a, S: Alphabet> Matcher<'a, S> {
    /// The automaton that the matcher runs on.
    pub open spec fn automaton(&self) -> &FiniteAutomaton<S> {
        match &self.fa {
            Held::Borrowed(fa) => fa,
            Held::Owned(fa) => fa,
        }
    }

    /// Whether the matcher is at a state of a well-formed automaton.
    pub open spec fn wf(&self) -> bool {
        self.automaton().wf() && self.state < self.automaton().states.len()
    }

    /// The automaton that the matcher runs on.
    fn held(&self) -> (fa: &FiniteAutomaton<S>)
        ensures
            fa == self.automaton(),
    {
        match &self.fa {
            Held::Borrowed(fa) => fa,
            Held::Owned(fa) => fa,
        }
    }

    /// Moves to the next state on the symbol and returns whether that state
    /// accepts.
    pub fn next(&mut self, symbol: &S) -> (b: bool)
        requires
            old(self).wf(),
        ensures
            final(self).wf(),
            final(self).automaton() == old(self).automaton(),
            final(self).state == old(self).automaton().spec_next(
                old(self).state as int,
                symbol.code(),
            ),
            b == final(self).automaton().states[final(self).state as int].accepting,
    {
        let to: usize = self.held().next(self.state, symbol);
        self.state = to;
        self.held().is_accepting(self.state)
    }

    /// Moves along the symbols and returns whether the state that is reached
    /// accepts.
    pub fn next_iter(&mut self, symbols: &[S]) -> (b: bool)
        requires
            old(self).wf(),
        ensures
            final(self).wf(),
            final(self).automaton() == old(self).automaton(),
            final(self).state == old(self).automaton().spec_run(old(self).state as int, symbols@),
            b == final(self).automaton().states[final(self).state as int].accepting,
    {
        let mut i: usize = 0;
        while i < symbols.len()
            invariant
                i <= symbols.len(),
                self.wf(),
                self.automaton() == old(self).automaton(),
                self.state == old(self).automaton().spec_run(
                    old(self).state as int,
                    symbols@.take(i as int),
                ),
            decreases symbols.len() - i,
        {
            proof {
                assert(symbols@.take(i + 1).drop_last() == symbols@.take(i as int));
            }
            self.next(&symbols[i]);
            i += 1;
        }
        proof {
            assert(symbols@.take(i as int) == symbols@);
        }
        self.held().is_accepting(self.state)
    }

    /// The term of the current state.
    pub fn regex(&self) -> (r: &Regex<ApproximatelySimilarCanonical<S>>)
        requires
            self.wf(),
        ensures
            *r == self.automaton().states[self.state as int].regex,
    {
        &self.held().states[self.state].regex
    }
}

/// One step of a derivation: by the symbol with the given code, or by the
/// class of the symbols that the term does not hold.
pub open spec fn class_of(step: Option<u64>, listed: Set<u64>) -> ClassModel {
    match step {
        Some(code) => ClassModel::single(code),
        None => unlisted(listed),
    }
}

/// The term that is left of `regex` after the steps of the path.
pub open spec fn residue<S: Alphabet>(
    regex: Regex<ApproximatelySimilarCanonical<S>>,
    path: Seq<Option<u64>>,
) -> Regex<ApproximatelySimilarCanonical<S>>
    decreases path.len(),
{
    if path.len() == 0 {
        regex
    } else {
        residue(regex, path.drop_last()).spec_derive_symbols(
            class_of(path.last(), regex.spec_symbols()),
        )
    }
}

/// Derivations lead from a term in canonical form to terms in canonical
/// form.
pub(crate) proof fn lemma_residue_is_canonical<S: Alphabet>(
    regex: Regex<ApproximatelySimilarCanonical<S>>,
    path: Seq<Option<u64>>,
)
    requires
        is_canonical(regex),
    ensures
        is_canonical(residue(regex, path)),
    decreases path.len(),
{
    if path.len() > 0 {
        lemma_residue_is_canonical(regex, path.drop_last());
        derivative_is_canonical(
            residue(regex, path.drop_last()),
            class_of(path.last(), regex.spec_symbols()),
        );
    }
}

/// Whether some path of derivations leads from `regex` to `term`.
pub open spec fn reachable<S: Alphabet>(
    regex: Regex<ApproximatelySimilarCanonical<S>>,
    term: Regex<ApproximatelySimilarCanonical<S>>,
) -> bool {
    exists|path: Seq<Option<u64>>| residue(regex, path) == term
}

/// Whether the table holds `regex` first, no term twice, and only terms
/// over the symbols of `regex` to which the paths lead.
pub open spec fn explored<S: Alphabet>(
    regex: Regex<ApproximatelySimilarCanonical<S>>,
    table: Seq<Regex<ApproximatelySimilarCanonical<S>>>,
    paths: Seq<Seq<Option<u64>>>,
) -> bool {
    &&& table.len() >= 1
    &&& table[0] == regex
    &&& distinct(table)
    &&& paths.len() == table.len()
    &&& forall|i: int| 0 <= i < table.len() ==> residue(regex, #[trigger] paths[i]) == table[i]
    &&& forall|i: int|
        0 <= i < table.len() ==> (#[trigger] table[i]).spec_symbols().subset_of(
            regex.spec_symbols(),
        )
}

/// A table stays explored when the derivative of one of its terms joins it.
proof fn lemma_explored_more<S: Alphabet>(
    regex: Regex<ApproximatelySimilarCanonical<S>>,
    table: Seq<Regex<ApproximatelySimilarCanonical<S>>>,
    paths: Seq<Seq<Option<u64>>>,
    at: int,
    step: Option<u64>,
)
    requires
        explored(regex, table, paths),
        0 <= at < table.len(),
        !table.contains(
            table[at].spec_derive_symbols(class_of(step, regex.spec_symbols())),
        ),
    ensures
        explored(
            regex,
            table.push(table[at].spec_derive_symbols(class_of(step, regex.spec_symbols()))),
            paths.push(paths[at].push(step)),
        ),
{
    let next = table[at].spec_derive_symbols(class_of(step, regex.spec_symbols()));
    let more = table.push(next);
    let path = paths[at].push(step);
    let longer = paths.push(path);
    assert(path.drop_last() =~= paths[at]);
    assert(residue(regex, path) == next);
    lemma_symbols_of_derivative(table[at], class_of(step, regex.spec_symbols()));
    assert forall|i: int, j: int| 0 <= i < j < more.len() implies more[i] != more[j] by {
        if j == table.len() {
            assert(table[i] == more[i]);
            assert(table.contains(table[i]));
        }
    }
    assert forall|i: int| 0 <= i < more.len() implies residue(regex, #[trigger] longer[i])
        == more[i] by {
        if i < table.len() {
            assert(longer[i] == paths[i]);
        }
    }
    assert forall|i: int| 0 <= i < more.len() implies (#[trigger] more[i]).spec_symbols().subset_of(
        regex.spec_symbols(),
    ) by {
        if i < table.len() {
            assert(more[i] == table[i]);
        }
    }
}

/// Every term of an explored table is reachable.
proof fn lemma_explored_reachable<S: Alphabet>(
    regex: Regex<ApproximatelySimilarCanonical<S>>,
    table: Seq<Regex<ApproximatelySimilarCanonical<S>>>,
    paths: Seq<Seq<Option<u64>>>,
)
    requires
        explored(regex, table, paths),
    ensures
        forall|i: int| 0 <= i < table.len() ==> reachable(regex, #[trigger] table[i]),
{
    assert forall|i: int| 0 <= i < table.len() implies reachable(regex, #[trigger] table[i]) by {
        assert(residue(regex, paths[i]) == table[i]);
    }
}

/// A state keeps describing its term when the table grows.
proof fn lemma_describes_more<S: Alphabet>(
    state: State<S>,
    table: Seq<Regex<ApproximatelySimilarCanonical<S>>>,
    term: Regex<ApproximatelySimilarCanonical<S>>,
    listed: Set<u64>,
)
    requires
        state.describes(table, listed),
    ensures
        state.describes(table.push(term), listed),
{
    let more = table.push(term);
    assert(more[state.default_transition as int] == table[state.default_transition as int]);
    assert forall|code: u64| #[trigger] listed.contains(code) implies state.transitions@[code]
        < more.len() && more[state.transitions@[code] as int]
        == state.regex.spec_derive_symbols(ClassModel::single(code)) by {
        assert(more[state.transitions@[code] as int] == table[state.transitions@[code] as int]);
    }
}

/// The place of the term in the table, if it is there.
fn find<S: Alphabet>(
    table: &Vec<Regex<ApproximatelySimilarCanonical<S>>>,
    regex: &Regex<ApproximatelySimilarCanonical<S>>,
) -> (found: Option<usize>)
    ensures
        match found {
            Some(i) => i < table.len() && table@[i as int] == *regex,
            None => !table@.contains(*regex),
        },
{
    let mut i: usize = 0;
    while i < table.len()
        invariant
            i <= table.len(),
            forall|j: int| 0 <= j < i ==> table@[j] != *regex,
        decreases table.len() - i,
    {
        if same(&table[i], regex) {
            return Some(i);
        }
        i += 1;
    }
    None
}

/// The place of the term in the table, where it is put last if it was not
/// there.
fn get_or_insert<S: Alphabet>(
    regex: Regex<ApproximatelySimilarCanonical<S>>,
    table: &mut Vec<Regex<ApproximatelySimilarCanonical<S>>>,
) -> (idx: usize)
    ensures
        idx < final(table).len(),
        final(table)@[idx as int] == regex,
        old(table)@.contains(regex) ==> final(table)@ == old(table)@,
        !old(table)@.contains(regex) ==> final(table)@ == old(table)@.push(regex),
{
    match find(table, &regex) {
        Some(i) => i,
        None => {
            table.push(regex);
            table.len() - 1
        },
    }
}

impl<B: Vocabulary> Regex<B> {
    /// Adds the codes of the symbols of the term to the list.
    pub fn collect_symbols(&self, symbols: &mut Vec<u64>)
        ensures
            final(symbols)@.to_set() == old(symbols)@.to_set().union(self.spec_symbols()),
            old(symbols)@.no_duplicates() ==> final(symbols)@.no_duplicates(),
        decreases *self,
    {
        let ghost before = symbols@;
        match self {
            Regex::EmptySet => {},
            Regex::EmptyString => {},
            Regex::Symbol(symbol) => {
                let key: u64 = symbol.key();
                if !holds(symbols, key) {
                    symbols.push(key);
                    proof {
                        before.lemma_push_to_set_commute(key);
                    }
                }
            },
            Regex::Concat(left, right) => {
                left.collect_symbols(symbols);
                right.collect_symbols(symbols);
            },
            Regex::Closure(inner) => inner.collect_symbols(symbols),
            Regex::Or(left, right) => {
                left.collect_symbols(symbols);
                right.collect_symbols(symbols);
            },
            Regex::And(left, right) => {
                left.collect_symbols(symbols);
                right.collect_symbols(symbols);
            },
            Regex::Complement(inner) => inner.collect_symbols(symbols),
        }
        proof {
            assert(final(symbols)@.to_set() =~= before.to_set().union(self.spec_symbols()));
        }
    }
}

impl<S: Alphabet> Regex<ApproximatelySimilarCanonical<S>> {
    /// Builds the automaton of this term, with as many states as it takes.
    /// It fails only where even the largest number of states that a list
    /// can hold is not enough.
    pub fn to_automaton(&self) -> (built: Result<FiniteAutomaton<S>, StateExplosion>)
        ensures
            match built {
                Ok(fa) => fa.recognizes(*self) && fa.wf(),
                Err(_) => exists|terms: Seq<Regex<ApproximatelySimilarCanonical<S>>>|
                    terms.len() > usize::MAX && distinct(terms) && forall|i: int|
                        0 <= i < terms.len() ==> reachable(*self, #[trigger] terms[i]),
            },
    {
        self.to_automaton_bounded(usize::MAX)
    }

    /// Builds the automaton of this term by exploring its derivatives: the
    /// term is the initial state, and the derivatives of every state by each
    /// symbol of the term and by the class of all other symbols become
    /// states, each term once. It fails when that takes more than
    /// `max_states` states: then more than `max_states` different terms are
    /// reached from the term by derivations.
    pub fn to_automaton_bounded(&self, max_states: usize) -> (built: Result<
        FiniteAutomaton<S>,
        StateExplosion,
    >)
        ensures
            match built {
                Ok(fa) => fa.recognizes(*self) && fa.wf() && fa.states.len() <= max_states,
                Err(_) => exists|terms: Seq<Regex<ApproximatelySimilarCanonical<S>>>|
                    terms.len() > max_states && distinct(terms) && forall|i: int|
                        0 <= i < terms.len() ==> reachable(*self, #[trigger] terms[i]),
            },
    {
        broadcast use vstd::std_specs::hash::group_hash_axioms;

        let ghost listed = self.spec_symbols();
        let mut codes: Vec<u64> = Vec::new();
        self.collect_symbols(&mut codes);
        let mut excluded: Vec<u64> = Vec::new();
        self.collect_symbols(&mut excluded);
        let default_symbols = Symbols::Exclude(excluded);
        proof {
            assert(codes@.to_set() =~= listed);
            assert(excluded@.to_set() =~= listed);
        }
        let mut table: Vec<Regex<ApproximatelySimilarCanonical<S>>> = Vec::new();
        table.push(self.clone());
        let ghost mut paths: Seq<Seq<Option<u64>>> = seq![Seq::<Option<u64>>::empty()];
        proof {
            assert(explored(*self, table@, paths));
        }
        if table.len() > max_states {
            proof {
                lemma_explored_reachable(*self, table@, paths);
            }
            return Err(StateExplosion {  });
        }
        let mut states: Vec<State<S>> = Vec::new();
        while states.len() < table.len()
            invariant
                listed == self.spec_symbols(),
                codes@.to_set() == listed,
                default_symbols@ == unlisted(listed),
                explored(*self, table@, paths),
                table.len() <= max_states,
                states.len() <= table.len(),
                forall|i: int|
                    0 <= i < states.len() ==> (#[trigger] states@[i]).regex == table@[i]
                        && states@[i].describes(table@, listed),
            decreases max_states - states.len(),
        {
            let at: usize = states.len();
            let regex = table[at].duplicate();
            let accepting = regex.is_nullable();
            let mut transitions: HashMap<u64, usize> = HashMap::new();
            let mut k: usize = 0;
            while k < codes.len()
                invariant
                    listed == self.spec_symbols(),
                    codes@.to_set() == listed,
                    default_symbols@ == unlisted(listed),
                    explored(*self, table@, paths),
                    table.len() <= max_states,
                    states.len() == at,
                    at < table.len(),
                    regex == table@[at as int],
                    k <= codes.len(),
                    forall|i: int|
                        0 <= i < states.len() ==> (#[trigger] states@[i]).regex == table@[i]
                            && states@[i].describes(table@, listed),
                    transitions@.dom() == codes@.take(k as int).to_set(),
                    forall|code: u64| #[trigger]
                        transitions@.contains_key(code) ==> transitions@[code] < table.len()
                            && table@[transitions@[code] as int] == regex.spec_derive_symbols(
                            ClassModel::single(code),
                        ),
                decreases codes.len() - k,
            {
                let code: u64 = codes[k];
                let class = Symbols::only_code(code);
                let next = regex.derive_symbols(&class);
                let ghost before = table@;
                let idx: usize = get_or_insert(next, &mut table);
                proof {
                    assert(class_of(Some(code), listed) == class@);
                    if !before.contains(next) {
                        lemma_explored_more(*self, before, paths, at as int, Some(code));
                        paths = paths.push(paths[at as int].push(Some(code)));
                        assert forall|i: int| 0 <= i < states.len() implies (
                        #[trigger] states@[i]).regex == table@[i] && states@[i].describes(
                            table@,
                            listed,
                        ) by {
                            lemma_describes_more(states@[i], before, next, listed);
                        }
                    }
                }
                if table.len() > max_states {
                    proof {
                        lemma_explored_reachable(*self, table@, paths);
                    }
                    return Err(StateExplosion {  });
                }
                transitions.insert(code, idx);
                proof {
                    assert(codes@.take(k + 1) =~= codes@.take(k as int).push(code));
                    codes@.take(k as int).lemma_push_to_set_commute(code);
                    assert(transitions@.dom() =~= codes@.take(k + 1).to_set());
                }
                k += 1;
            }
            proof {
                assert(codes@.take(k as int) == codes@);
            }
            let next = regex.derive_symbols(&default_symbols);
            let ghost before = table@;
            let default_transition: usize = get_or_insert(next, &mut table);
            proof {
                assert(class_of(None, listed) == default_symbols@);
                if !before.contains(next) {
                    lemma_explored_more(*self, before, paths, at as int, None);
                    paths = paths.push(paths[at as int].push(None));
                    assert forall|i: int| 0 <= i < states.len() implies (#[trigger] states@[i]).regex
                        == table@[i] && states@[i].describes(table@, listed) by {
                        lemma_describes_more(states@[i], before, next, listed);
                    }
                }
            }
            if table.len() > max_states {
                proof {
                    lemma_explored_reachable(*self, table@, paths);
                }
                return Err(StateExplosion {  });
            }
            let state = State { regex, accepting, transitions, default_transition };
            proof {
                assert(state.describes(table@, listed));
            }
            states.push(state);
        }
        let fa = FiniteAutomaton { states };
        proof {
            assert(fa.terms() =~= table@);
            lemma_explored_reachable(*self, table@, paths);
            fa.recognizing_is_wf(*self);
        }
        Ok(fa)
    }
}

} // verus!
