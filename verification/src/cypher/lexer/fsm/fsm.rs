use vstd::prelude::*;
use vstd::std_specs::iter::IteratorSpec;

verus! {

broadcast use vstd::string::group_string_axioms;

/// The transition function and the accepting states of a finite state
/// machine over characters.
pub trait FsmRules<S> {
    /// The state reached from `s` on `c`, or `None` when the machine stops.
    spec fn spec_next(&self, s: S, c: char) -> Option<S>;

    /// Whether the machine accepts the input it has read when in state `s`.
    spec fn spec_accepting(&self, s: S) -> bool;

    fn next_state(&self, s: S, c: char) -> (r: Option<S>)
        ensures
            r == self.spec_next(s, c),
    ;

    fn accepting(&self, s: S) -> (r: bool)
        ensures
            r == self.spec_accepting(s),
    ;
}

/// Runs the machine on `input` from position `i` in state `s`: it steps
/// while the transition function gives a state. When it stops on the
/// character at position `i`, it answers `(i, s)` if `s` accepts; when it
/// reads the whole input, it answers the number of characters read (one
/// for an empty input) and the last state, if that state accepts.
pub open spec fn walk<S, R: FsmRules<S>>(rules: R, input: Seq<char>, s: S, i: int) -> Option<(usize, S)>
    decreases input.len() - i,
{
    if i >= input.len() {
        if rules.spec_accepting(s) {
            Some((if input.len() == 0 { 1usize } else { input.len() as usize }, s))
        } else {
            None
        }
    } else {
        match rules.spec_next(s, input[i]) {
            Some(n) => walk(rules, input, n, i + 1),
            None => if rules.spec_accepting(s) {
                Some((i as usize, s))
            } else {
                None
            },
        }
    }
}

/// A machine that reads a prefix of an input and tells how far it got.
pub trait RunnableFSM<S>: Sized {
    spec fn spec_run(&self, input: Seq<char>) -> Option<(usize, S)>;

    fn run(&mut self, input: &str) -> (r: Option<(usize, S)>)
        ensures
            *final(self) == *old(self),
            r == old(self).spec_run(input@),
    ;
}

/// A finite state machine: an initial state and its rules.
pub struct FSM<S, R> {
    initial_state: S,
    rules: R,
}

impl<S: Copy, R: FsmRules<S>> FSM<S, R> {
    pub closed spec fn spec_initial(&self) -> S {
        self.initial_state
    }

    pub closed spec fn spec_rules(&self) -> R {
        self.rules
    }

    pub fn new(initial_state: S, rules: R) -> (r: FSM<S, R>)
        ensures
            r.spec_initial() == initial_state,
            r.spec_rules() == rules,
    {
        FSM { initial_state: initial_state, rules: rules }
    }
}

/// A string has at least as many bytes as characters.
pub proof fn lemma_bytes_cover_chars(chars: Seq<char>)
    ensures
        vstd::utf8::encode_utf8(chars).len() >= chars.len(),
    decreases chars.len(),
{
    if chars.len() > 0 {
        lemma_bytes_cover_chars(chars.drop_first());
    }
}

impl<S: Copy, R: FsmRules<S>> RunnableFSM<S> for FSM<S, R> {
    open spec fn spec_run(&self, input: Seq<char>) -> Option<(usize, S)> {
        walk(self.spec_rules(), input, self.spec_initial(), 0)
    }

    fn run(&mut self, input: &str) -> (r: Option<(usize, S)>) {
        let mut current_state = self.initial_state;
        let mut position: usize = 0;
        let mut i: usize = 0;
        let byte_len = input.as_bytes().len();
        proof {
            lemma_bytes_cover_chars(input@);
        }
        let ghost chars = input@;
        for c in it: input.chars()
            invariant
                it.seq() == chars,
                chars == input@,
                byte_len >= chars.len(),
                i == it.index(),
                i <= chars.len(),
                position == if i == 0 { 0 } else { i - 1 },
                walk(self.rules, chars, self.initial_state, 0) == walk(self.rules, chars, current_state, i as int),
        {
            position = i;
            match self.rules.next_state(current_state, c) {
                Some(next_state) => {
                    current_state = next_state;
                },
                None => {
                    if self.rules.accepting(current_state) {
                        return Some((position, current_state));
                    } else {
                        return None;
                    }
                },
            };
            i = i + 1;
        }
        if self.rules.accepting(current_state) {
            return Some((position + 1, current_state));
        }
        return None;
    }
}

} // verus!
