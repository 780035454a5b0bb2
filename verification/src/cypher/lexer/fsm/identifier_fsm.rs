use vstd::prelude::*;
use super::fsm::{FSM, FsmRules, RunnableFSM, walk};
use super::char_class::{char_is_alphabetic, char_is_alphanumeric, is_alphabetic, is_alphanumeric};

verus! {

/// State of the machine that reads an identifier: nothing read yet, or an
/// identifier whose characters after the first number `i`.
#[derive(PartialEq, Eq, Copy, Clone, Debug, Structural)]
pub enum IdentifierState {
    Initial,
    MatchIdentifier(usize),
}

/// Whether `c` may start an identifier: an alphabetic character or `_`.
pub open spec fn spec_valid_id_start(c: char) -> bool {
    char_is_alphabetic(c) || c == '_'
}

/// Whether `c` may continue an identifier: an alphanumeric character or `_`.
pub open spec fn spec_valid_id_char(c: char) -> bool {
    char_is_alphanumeric(c) || c == '_'
}

fn is_valid_id_start(c: char) -> (r: bool)
    ensures
        r == spec_valid_id_start(c),
{
    is_alphabetic(c) || c == '_'
}

fn is_valid_id_char(c: char) -> (r: bool)
    ensures
        r == spec_valid_id_char(c),
{
    is_alphanumeric(c) || c == '_'
}

/// The state after `s` on a character, given whether that character may
/// start and whether it may continue an identifier. (A count that cannot
/// grow any more stops the machine; no input is that long.)
pub open spec fn identifier_next(s: IdentifierState, valid_start: bool, valid_char: bool) -> Option<IdentifierState> {
    match s {
        IdentifierState::Initial => if valid_start {
            Some(IdentifierState::MatchIdentifier(0))
        } else {
            None
        },
        IdentifierState::MatchIdentifier(i) => if valid_char && i < usize::MAX {
            Some(IdentifierState::MatchIdentifier((i + 1) as usize))
        } else {
            None
        },
    }
}

/// The identifier automaton's move on a character, given whether the
/// character may start an identifier and whether it may continue one.
pub fn identifier_transition(s: IdentifierState, valid_start: bool, valid_char: bool) -> (r: Option<IdentifierState>)
    ensures
        r == identifier_next(s, valid_start, valid_char),
{
    let mut res = None;
    match s {
        IdentifierState::Initial => {
            if valid_start {
                res = Some(IdentifierState::MatchIdentifier(0));
            }
        },
        IdentifierState::MatchIdentifier(i) => {
            if valid_char && i < usize::MAX {
                res = Some(IdentifierState::MatchIdentifier(i + 1));
            }
        },
    };
    res
}

/// The rules of the identifier machine.
pub struct IdentifierRules;

impl FsmRules<IdentifierState> for IdentifierRules {
    open spec fn spec_next(&self, s: IdentifierState, c: char) -> Option<IdentifierState> {
        identifier_next(s, spec_valid_id_start(c), spec_valid_id_char(c))
    }

    open spec fn spec_accepting(&self, s: IdentifierState) -> bool {
        s is MatchIdentifier
    }

    fn next_state(&self, s: IdentifierState, c: char) -> (r: Option<IdentifierState>) {
        identifier_transition(s, is_valid_id_start(c), is_valid_id_char(c))
    }

    fn accepting(&self, s: IdentifierState) -> (r: bool) {
        match s {
            IdentifierState::MatchIdentifier(_i) => true,
            _ => false,
        }
    }
}

/// The machine that reads an identifier at the start of its input.
pub fn make_identifier_fsm() -> (r: FSM<IdentifierState, IdentifierRules>)
    ensures
        r.spec_initial() == IdentifierState::Initial,
{
    FSM::new(IdentifierState::Initial, IdentifierRules)
}


/// The identifier machine's state after reading `i` identifier characters.
pub open spec fn identifier_state_after(i: int) -> IdentifierState {
    if i == 0 {
        IdentifierState::Initial
    } else {
        IdentifierState::MatchIdentifier((i - 1) as usize)
    }
}

proof fn lemma_identifier_walk(input: Seq<char>, i: int)
    requires
        0 <= i <= input.len(),
        input.len() <= usize::MAX,
    ensures
        walk(IdentifierRules, input, identifier_state_after(i), i) matches Some((p, s)) ==> p >= 1 && s
            == IdentifierState::MatchIdentifier((p - 1) as usize),
    decreases input.len() - i,
{
    if i < input.len() {
        lemma_identifier_walk(input, i + 1);
    }
}

/// The identifier machine answers the length of the identifier it read and
/// the state counting the identifier's characters after the first: the
/// position is always one more than that count.
pub proof fn lemma_identifier_position(fsm: FSM<IdentifierState, IdentifierRules>, input: Seq<char>)
    requires
        fsm.spec_initial() == IdentifierState::Initial,
        input.len() <= usize::MAX,
    ensures
        fsm.spec_run(input) matches Some((p, s)) ==> p >= 1 && s == IdentifierState::MatchIdentifier((p - 1) as usize),
{
    lemma_identifier_walk(input, 0);
}

proof fn lemma_identifier_run_from(input: Seq<char>, n: int, i: int)
    requires
        input.len() <= usize::MAX,
        1 <= n <= input.len(),
        0 <= i <= n,
        char_is_alphabetic(input[0]) || input[0] == '_',
        forall|j: int| 1 <= j < n ==> char_is_alphanumeric(#[trigger] input[j]) || input[j] == '_',
        n < input.len() ==> !(char_is_alphanumeric(input[n]) || input[n] == '_'),
    ensures
        walk(IdentifierRules, input, identifier_state_after(i), i) == Some((n as usize, IdentifierState::MatchIdentifier((n - 1) as usize))),
    decreases n - i,
{
    if i < n {
        lemma_identifier_run_from(input, n, i + 1);
        if i > 0 {
            assert(char_is_alphanumeric(input[i]) || input[i] == '_');
        }
    }
}

/// The identifier machine reads the longest prefix of its input that is an
/// identifier: a first character that is alphabetic or `_`, then characters
/// that are alphanumeric or `_`. When that prefix has `n` characters it
/// answers `n` and the state counting the `n - 1` characters after the
/// first.
pub proof fn lemma_identifier_reads_longest_prefix(fsm: FSM<IdentifierState, IdentifierRules>, input: Seq<char>, n: int)
    requires
        fsm.spec_initial() == IdentifierState::Initial,
        input.len() <= usize::MAX,
        1 <= n <= input.len(),
        char_is_alphabetic(input[0]) || input[0] == '_',
        forall|j: int| 1 <= j < n ==> char_is_alphanumeric(#[trigger] input[j]) || input[j] == '_',
        n < input.len() ==> !(char_is_alphanumeric(input[n]) || input[n] == '_'),
    ensures
        fsm.spec_run(input) == Some((n as usize, IdentifierState::MatchIdentifier((n - 1) as usize))),
{
    lemma_identifier_run_from(input, n, 0);
    assert(fsm.spec_rules() == IdentifierRules);
}

/// An underscore continues an identifier: from any state inside an
/// identifier, the machine reads `_` and counts one more character.
pub proof fn lemma_identifier_takes_underscore(i: usize)
    requires
        i < usize::MAX,
    ensures
        IdentifierRules.spec_next(IdentifierState::MatchIdentifier(i), '_') == Some(IdentifierState::MatchIdentifier((i + 1) as usize)),
{
}

} // verus!
