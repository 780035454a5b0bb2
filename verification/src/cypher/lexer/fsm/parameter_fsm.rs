use vstd::prelude::*;
use super::fsm::{FSM, FsmRules, RunnableFSM, walk};
use super::char_class::{char_is_alphabetic, is_alphabetic};

verus! {

/// State of the machine that reads a query parameter: nothing read yet, or
/// the `$` prefix followed by `i` name characters.
#[derive(PartialEq, Eq, Copy, Clone, Debug, Structural)]
pub enum ParameterState {
    Initial,
    MatchParameter(usize),
}

/// Whether `c` may stand in a parameter name: an alphabetic character or `_`.
pub open spec fn spec_valid_param_char(c: char) -> bool {
    char_is_alphabetic(c) || c == '_'
}

fn is_valid_id_char(c: char) -> (r: bool)
    ensures
        r == spec_valid_param_char(c),
{
    is_alphabetic(c) || c == '_'
}

fn is_valid_parameter_prefix(c: char) -> (r: bool)
    ensures
        r == (c == '$'),
{
    c == '$'
}

/// The state after `s` on character `c`, given whether `c` may stand in a
/// parameter name. (A count that cannot grow any more stops the machine; no
/// input is that long.)
pub open spec fn parameter_next(s: ParameterState, c: char, valid_char: bool) -> Option<ParameterState> {
    match s {
        ParameterState::Initial => if c == '$' {
            Some(ParameterState::MatchParameter(0))
        } else {
            None
        },
        ParameterState::MatchParameter(i) => if valid_char && i < usize::MAX {
            Some(ParameterState::MatchParameter((i + 1) as usize))
        } else {
            None
        },
    }
}

/// The parameter automaton's move on the character `c`, given whether it
/// may continue a parameter name.
pub fn parameter_transition(s: ParameterState, c: char, valid_char: bool) -> (r: Option<ParameterState>)
    ensures
        r == parameter_next(s, c, valid_char),
{
    let mut res = None;
    match s {
        ParameterState::Initial => {
            if is_valid_parameter_prefix(c) {
                res = Some(ParameterState::MatchParameter(0));
            }
        },
        ParameterState::MatchParameter(i) => {
            if valid_char && i < usize::MAX {
                res = Some(ParameterState::MatchParameter(i + 1));
            }
        },
    };
    res
}

/// The rules of the parameter machine.
pub struct ParameterRules;

impl FsmRules<ParameterState> for ParameterRules {
    open spec fn spec_next(&self, s: ParameterState, c: char) -> Option<ParameterState> {
        parameter_next(s, c, spec_valid_param_char(c))
    }

    open spec fn spec_accepting(&self, s: ParameterState) -> bool {
        s is MatchParameter
    }

    fn next_state(&self, s: ParameterState, c: char) -> (r: Option<ParameterState>) {
        parameter_transition(s, c, is_valid_id_char(c))
    }

    fn accepting(&self, s: ParameterState) -> (r: bool) {
        let res = match s {
            ParameterState::MatchParameter(_i) => true,
            _ => false,
        };
        res
    }
}

/// The machine that reads a `$`-prefixed parameter at the start of its input.
pub fn make_parameter_fsm() -> (r: FSM<ParameterState, ParameterRules>)
    ensures
        r.spec_initial() == ParameterState::Initial,
{
    FSM::new(ParameterState::Initial, ParameterRules)
}


/// The parameter machine's state after reading `i` characters of a
/// parameter.
pub open spec fn parameter_state_after(i: int) -> ParameterState {
    if i == 0 {
        ParameterState::Initial
    } else {
        ParameterState::MatchParameter((i - 1) as usize)
    }
}

proof fn lemma_parameter_walk(input: Seq<char>, i: int)
    requires
        0 <= i <= input.len(),
        input.len() <= usize::MAX,
    ensures
        walk(ParameterRules, input, parameter_state_after(i), i) matches Some((p, s)) ==> p >= 1 && s
            == ParameterState::MatchParameter((p - 1) as usize),
    decreases input.len() - i,
{
    if i < input.len() {
        lemma_parameter_walk(input, i + 1);
    }
}

/// The parameter machine answers the length of the parameter it read, `$`
/// included, and the state counting the name's characters: the position is
/// always one more than that count.
pub proof fn lemma_parameter_position(fsm: FSM<ParameterState, ParameterRules>, input: Seq<char>)
    requires
        fsm.spec_initial() == ParameterState::Initial,
        input.len() <= usize::MAX,
    ensures
        fsm.spec_run(input) matches Some((p, s)) ==> p >= 1 && s == ParameterState::MatchParameter((p - 1) as usize),
{
    lemma_parameter_walk(input, 0);
}

proof fn lemma_parameter_run_from(input: Seq<char>, n: int, i: int)
    requires
        input.len() <= usize::MAX,
        1 <= n <= input.len(),
        0 <= i <= n,
        input[0] == '$',
        forall|j: int| 1 <= j < n ==> char_is_alphabetic(#[trigger] input[j]) || input[j] == '_',
        n < input.len() ==> !(char_is_alphabetic(input[n]) || input[n] == '_'),
    ensures
        walk(ParameterRules, input, parameter_state_after(i), i) == Some((n as usize, ParameterState::MatchParameter((n - 1) as usize))),
    decreases n - i,
{
    if i < n {
        lemma_parameter_run_from(input, n, i + 1);
        if i > 0 {
            assert(char_is_alphabetic(input[i]) || input[i] == '_');
        }
    }
}

/// The parameter machine reads `$` followed by the longest run of
/// characters that are alphabetic or `_`. When `$` and that run have `n`
/// characters, it answers `n` and the state counting the `n - 1` name
/// characters.
pub proof fn lemma_parameter_reads_longest_prefix(fsm: FSM<ParameterState, ParameterRules>, input: Seq<char>, n: int)
    requires
        fsm.spec_initial() == ParameterState::Initial,
        input.len() <= usize::MAX,
        1 <= n <= input.len(),
        input[0] == '$',
        forall|j: int| 1 <= j < n ==> char_is_alphabetic(#[trigger] input[j]) || input[j] == '_',
        n < input.len() ==> !(char_is_alphabetic(input[n]) || input[n] == '_'),
    ensures
        fsm.spec_run(input) == Some((n as usize, ParameterState::MatchParameter((n - 1) as usize))),
{
    lemma_parameter_run_from(input, n, 0);
    assert(fsm.spec_rules() == ParameterRules);
}

/// An underscore continues a parameter name: from any state inside a
/// parameter, the machine reads `_` and counts one more character.
pub proof fn lemma_parameter_takes_underscore(i: usize)
    requires
        i < usize::MAX,
    ensures
        ParameterRules.spec_next(ParameterState::MatchParameter(i), '_') == Some(ParameterState::MatchParameter((i + 1) as usize)),
{
}

} // verus!
