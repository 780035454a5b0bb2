use vstd::prelude::*;
use super::fsm::{FSM, FsmRules, RunnableFSM, walk};
use super::char_class::{char_is_numeric, char_lowercase, is_numeric, to_lowercase};

verus! {

/// State of the machine that reads a number: an integer part, then an
/// optional fractional part, then an optional exponent.
#[derive(PartialEq, Eq, Copy, Clone, Debug, Structural)]
pub enum NumberState {
    Initial,
    Integer,
    BeginNumberWithFractionalPart,
    NumberWithFractionalPart,
    BeginNumberWithExponent,
    BeginNumberWithSignedExponent,
    NumberWithExponent,
    NoNextState,
}

/// The state after `s` on character `c`, given whether `c` is numeric and
/// whether its lowercase form is the single character `e`.
pub open spec fn number_next(s: NumberState, c: char, numeric: bool, lower_e: bool) -> Option<NumberState> {
    match s {
        NumberState::Initial => if numeric {
            Some(NumberState::Integer)
        } else {
            None
        },
        NumberState::Integer => if numeric {
            Some(NumberState::Integer)
        } else if c == '.' {
            Some(NumberState::BeginNumberWithFractionalPart)
        } else if lower_e {
            Some(NumberState::BeginNumberWithExponent)
        } else {
            None
        },
        NumberState::BeginNumberWithFractionalPart => if numeric {
            Some(NumberState::NumberWithFractionalPart)
        } else {
            None
        },
        NumberState::NumberWithFractionalPart => if numeric {
            Some(NumberState::NumberWithFractionalPart)
        } else if lower_e {
            Some(NumberState::BeginNumberWithExponent)
        } else {
            None
        },
        NumberState::BeginNumberWithExponent => if c == '+' || c == '-' {
            Some(NumberState::BeginNumberWithSignedExponent)
        } else if numeric {
            Some(NumberState::NumberWithExponent)
        } else {
            None
        },
        NumberState::BeginNumberWithSignedExponent => if numeric {
            Some(NumberState::NumberWithExponent)
        } else {
            None
        },
        NumberState::NumberWithExponent => if numeric {
            Some(NumberState::NumberWithExponent)
        } else {
            None
        },
        NumberState::NoNextState => None,
    }
}

/// The number automaton's move on the character `c`, given whether it is
/// numeric and whether its lower case is `e`.
pub fn number_transition(s: NumberState, c: char, numeric: bool, lower_e: bool) -> (r: Option<NumberState>)
    ensures
        r == number_next(s, c, numeric, lower_e),
{
    let mut res = None;
    match s {
        NumberState::Initial => {
            if numeric {
                res = Some(NumberState::Integer);
            }
        },
        NumberState::Integer => {
            if numeric {
                res = Some(NumberState::Integer);
            } else if c == '.' {
                res = Some(NumberState::BeginNumberWithFractionalPart);
            } else if lower_e {
                res = Some(NumberState::BeginNumberWithExponent);
            }
        },
        NumberState::BeginNumberWithFractionalPart => {
            if numeric {
                res = Some(NumberState::NumberWithFractionalPart);
            }
        },
        NumberState::NumberWithFractionalPart => {
            if numeric {
                res = Some(NumberState::NumberWithFractionalPart);
            } else if lower_e {
                res = Some(NumberState::BeginNumberWithExponent);
            }
        },
        NumberState::BeginNumberWithExponent => {
            if c == '+' || c == '-' {
                res = Some(NumberState::BeginNumberWithSignedExponent);
            } else if numeric {
                res = Some(NumberState::NumberWithExponent);
            }
        },
        NumberState::BeginNumberWithSignedExponent => {
            if numeric {
                res = Some(NumberState::NumberWithExponent);
            }
        },
        NumberState::NumberWithExponent => {
            if numeric {
                res = Some(NumberState::NumberWithExponent);
            }
        },
        _ => {},
    }
    res
}

/// Whether the lowercase form of `c` is the single character `e`.
pub open spec fn spec_lower_is_e(c: char) -> bool {
    char_lowercase(c) == seq!['e']
}

/// Whether the characters `lower` are exactly the single character `e`.
pub fn is_single_e(lower: &Vec<char>) -> (r: bool)
    ensures
        r == (lower@ == seq!['e']),
{
    let r = lower.len() == 1 && lower[0] == 'e';
    assert(r ==> lower@ =~= seq!['e']);
    r
}

/// The rules of the number machine.
pub struct NumberRules;

impl FsmRules<NumberState> for NumberRules {
    open spec fn spec_next(&self, s: NumberState, c: char) -> Option<NumberState> {
        number_next(s, c, char_is_numeric(c), spec_lower_is_e(c))
    }

    open spec fn spec_accepting(&self, s: NumberState) -> bool {
        s is Integer || s is NumberWithFractionalPart || s is NumberWithExponent
    }

    fn next_state(&self, s: NumberState, c: char) -> (r: Option<NumberState>) {
        let lower = to_lowercase(c);
        number_transition(s, c, is_numeric(c), is_single_e(&lower))
    }

    fn accepting(&self, s: NumberState) -> (r: bool) {
        match s {
            NumberState::Integer => true,
            NumberState::NumberWithFractionalPart => true,
            NumberState::NumberWithExponent => true,
            _ => false,
        }
    }
}

/// The machine that reads a number at the start of its input.
pub fn make_number_fsm() -> (r: FSM<NumberState, NumberRules>)
    ensures
        r.spec_initial() == NumberState::Initial,
{
    FSM::new(NumberState::Initial, NumberRules)
}

/// A run of digits keeps the machine in a state that loops on digits.
proof fn lemma_walk_digits(input: Seq<char>, s: NumberState, i: int, k: int)
    requires
        s is Integer || s is NumberWithFractionalPart || s is NumberWithExponent,
        0 <= i <= k <= input.len(),
        forall|j: int| i <= j < k ==> char_is_numeric(#[trigger] input[j]),
    ensures
        walk(NumberRules, input, s, i) == walk(NumberRules, input, s, k),
    decreases k - i,
{
    if i < k {
        assert(char_is_numeric(input[i]));
        lemma_walk_digits(input, s, i + 1, k);
    }
}

/// The number machine reads a whole number with an exponent: `a` digits,
/// then, when `f > 0`, a `.` and `f` digits, then an exponent marker (a
/// character whose lower case is `e`), an optional `+` or `-`, and `b`
/// digits (the first of which is no sign); it stops before the next
/// character that is not a digit and answers how many characters it read,
/// in the state of a number with an exponent. The exponent, signed or not, is read the same way after an
/// integer part as after a fractional part.
pub proof fn lemma_number_reads_exponent(
    fsm: FSM<NumberState, NumberRules>,
    input: Seq<char>,
    a: int,
    f: int,
    signed: bool,
    b: int,
)
    requires
        fsm.spec_initial() == NumberState::Initial,
        a >= 1,
        f >= 0,
        b >= 1,
        ({
            let m = if f == 0 { a } else { a + 1 + f };
            let d0 = if signed { m + 2 } else { m + 1 };
            &&& d0 + b <= input.len()
            &&& input.len() <= usize::MAX
            &&& forall|j: int| 0 <= j < a ==> char_is_numeric(#[trigger] input[j])
            &&& f > 0 ==> input[a] == '.' && !char_is_numeric(input[a])
            &&& forall|j: int| a + 1 <= j < a + 1 + f ==> char_is_numeric(#[trigger] input[j])
            &&& char_lowercase(input[m]) == seq!['e'] && !char_is_numeric(input[m]) && input[m] != '.'
            &&& signed ==> (input[m + 1] == '+' || input[m + 1] == '-')
            &&& input[d0] != '+' && input[d0] != '-'
            &&& forall|j: int| d0 <= j < d0 + b ==> char_is_numeric(#[trigger] input[j])
            &&& d0 + b < input.len() ==> !char_is_numeric(input[d0 + b])
        }),
    ensures
        fsm.spec_run(input) == Some(
            ((if signed { (if f == 0 { a } else { a + 1 + f }) + 2 } else { (if f == 0 { a } else { a + 1 + f }) + 1 }
                + b) as usize, NumberState::NumberWithExponent),
        ),
{
    let m = if f == 0 { a } else { a + 1 + f };
    let d0 = if signed { m + 2 } else { m + 1 };
    let end = d0 + b;
    let r = NumberRules;
    assert(fsm.spec_rules() == r);
    // The exponent digits, then the stop.
    lemma_walk_digits(input, NumberState::NumberWithExponent, d0 + 1, end);
    assert(walk(r, input, NumberState::NumberWithExponent, end) == Some((end as usize, NumberState::NumberWithExponent)));
    assert(char_is_numeric(input[d0]));
    let after_marker = if signed { NumberState::BeginNumberWithSignedExponent } else { NumberState::BeginNumberWithExponent };
    assert(walk(r, input, after_marker, d0) == walk(r, input, NumberState::NumberWithExponent, d0 + 1));
    assert(walk(r, input, NumberState::BeginNumberWithExponent, m + 1) == walk(r, input, after_marker, d0));
    // The marker.
    let before_marker = if f == 0 { NumberState::Integer } else { NumberState::NumberWithFractionalPart };
    assert(walk(r, input, before_marker, m) == walk(r, input, NumberState::BeginNumberWithExponent, m + 1));
    // The integer part and the fractional part.
    assert(char_is_numeric(input[0]));
    lemma_walk_digits(input, NumberState::Integer, 1, a);
    if f > 0 {
        assert(char_is_numeric(input[a + 1]));
        lemma_walk_digits(input, NumberState::NumberWithFractionalPart, a + 2, a + 1 + f);
        assert(walk(r, input, NumberState::BeginNumberWithFractionalPart, a + 1) == walk(
            r,
            input,
            NumberState::NumberWithFractionalPart,
            a + 2,
        ));
        assert(walk(r, input, NumberState::Integer, a) == walk(r, input, NumberState::BeginNumberWithFractionalPart, a + 1));
    }
    assert(walk(r, input, NumberState::Initial, 0) == walk(r, input, NumberState::Integer, 1));
}

} // verus!
