use vstd::prelude::*;
use vstd::std_specs::iter::IteratorSpec;
use vstd::string::StringSliceAdditionalSpecFns;
use super::fsm::{FSM, FsmRules, RunnableFSM, walk};
use super::char_class::{char_lowercase, to_lowercase};

verus! {

broadcast use vstd::string::group_string_axioms;

/// State of the machine that reads a keyword: nothing read yet, the
/// characters up to position `i` of the keyword read, or the whole keyword
/// read.
#[derive(PartialEq, Eq, Copy, Clone, Debug, Structural)]
pub enum KeywordState {
    Initial,
    MatchChar(usize),
    MatchKeyword,
}

/// Whether `c` matches the character at position `i` of `keyword`, itself
/// or by one of the characters `lower` of its lowercase form.
pub open spec fn spec_equals_ignorecase(c: char, keyword: Seq<char>, i: int, lower: Seq<char>) -> bool {
    0 <= i < keyword.len() && (keyword[i] == c || lower.contains(keyword[i]))
}

/// Whether `c` is the `i`-th character of the keyword, or the lower case
/// `lower` of `c` is that character.
pub fn equals_ignorecase(c: char, keyword: &Vec<char>, i: usize, lower: &Vec<char>) -> (r: bool)
    ensures
        r == spec_equals_ignorecase(c, keyword@, i as int, lower@),
{
    if i >= keyword.len() {
        return false;
    }
    let k = keyword[i];
    if k == c {
        return true;
    }
    let mut j: usize = 0;
    while j < lower.len()
        invariant
            j <= lower@.len(),
            i < keyword@.len(),
            k == keyword@[i as int],
            forall|x: int| 0 <= x < j ==> lower@[x] != k,
        decreases lower@.len() - j,
    {
        if lower[j] == k {
            return true;
        }
        j = j + 1;
    }
    false
}

fn check_equals_ignorecase(c: char, keyword: &Vec<char>, i: usize) -> (r: bool)
    ensures
        r == spec_equals_ignorecase(c, keyword@, i as int, char_lowercase(c)),
{
    let lower = to_lowercase(c);
    equals_ignorecase(c, keyword, i, &lower)
}

/// The state after `s` for a keyword of `byte_len` bytes, given whether the
/// character read matches the keyword's character that `s` expects next.
pub open spec fn keyword_next(s: KeywordState, byte_len: usize, matched: bool) -> Option<KeywordState> {
    match s {
        KeywordState::Initial => if matched {
            if byte_len == 1 {
                Some(KeywordState::MatchKeyword)
            } else {
                Some(KeywordState::MatchChar(0))
            }
        } else {
            None
        },
        KeywordState::MatchChar(i) => if matched && i < usize::MAX {
            if i + 2 == byte_len {
                Some(KeywordState::MatchKeyword)
            } else {
                Some(KeywordState::MatchChar((i + 1) as usize))
            }
        } else {
            None
        },
        KeywordState::MatchKeyword => None,
    }
}

/// The keyword automaton's move on a character of `byte_len` bytes, given
/// whether it matches the next character of the keyword.
pub fn keyword_transition(s: KeywordState, byte_len: usize, matched: bool) -> (r: Option<KeywordState>)
    ensures
        r == keyword_next(s, byte_len, matched),
{
    let mut res = None;
    match s {
        KeywordState::Initial => {
            if matched {
                if byte_len == 1 {
                    res = Some(KeywordState::MatchKeyword)
                } else {
                    res = Some(KeywordState::MatchChar(0));
                }
            }
        },
        KeywordState::MatchChar(i) => {
            if matched && i < usize::MAX {
                if byte_len >= 2 && i == byte_len - 2 {
                    res = Some(KeywordState::MatchKeyword);
                } else {
                    res = Some(KeywordState::MatchChar(i + 1));
                }
            }
        },
        KeywordState::MatchKeyword => {},
    };
    res
}

/// The rules of the machine that reads one keyword, ignoring case: the
/// keyword's characters and its length in bytes.
pub struct KeywordRules {
    keyword: Vec<char>,
    byte_len: usize,
}

impl KeywordRules {
    pub closed spec fn spec_keyword(&self) -> Seq<char> {
        self.keyword@
    }

    pub closed spec fn spec_byte_len(&self) -> usize {
        self.byte_len
    }
}

/// The position of the keyword character that state `s` expects next.
pub open spec fn expected_position(s: KeywordState) -> int {
    match s {
        KeywordState::Initial => 0,
        KeywordState::MatchChar(i) => i + 1,
        KeywordState::MatchKeyword => -1,
    }
}

impl FsmRules<KeywordState> for KeywordRules {
    open spec fn spec_next(&self, s: KeywordState, c: char) -> Option<KeywordState> {
        keyword_next(
            s,
            self.spec_byte_len(),
            spec_equals_ignorecase(c, self.spec_keyword(), expected_position(s), char_lowercase(c)),
        )
    }

    open spec fn spec_accepting(&self, s: KeywordState) -> bool {
        s is MatchKeyword
    }

    fn next_state(&self, s: KeywordState, c: char) -> (r: Option<KeywordState>) {
        let matched = match s {
            KeywordState::Initial => check_equals_ignorecase(c, &self.keyword, 0),
            KeywordState::MatchChar(i) => i < self.keyword.len() && check_equals_ignorecase(
                c,
                &self.keyword,
                i + 1,
            ),
            KeywordState::MatchKeyword => false,
        };
        keyword_transition(s, self.byte_len, matched)
    }

    fn accepting(&self, s: KeywordState) -> (r: bool) {
        let mut res = false;
        match s {
            KeywordState::MatchKeyword => {
                res = true;
            },
            _ => {},
        }
        res
    }
}

/// The machine that reads `keyword` at the start of its input, ignoring case.
pub fn make_keyword_ignorecase_fsm(keyword: &'static str) -> (r: FSM<KeywordState, KeywordRules>)
    ensures
        r.spec_initial() == KeywordState::Initial,
        r.spec_rules().spec_keyword() == keyword@,
        r.spec_rules().spec_byte_len() == keyword.spec_bytes().len(),
{
    let mut chars: Vec<char> = Vec::new();
    for c in it: keyword.chars()
        invariant
            it.seq() == keyword@,
            chars@ == keyword@.take(it.index() as int),
    {
        chars.push(c);
        assert(chars@ =~= keyword@.take(it.index() + 1));
    }
    assert(keyword@.take(keyword@.len() as int) =~= keyword@);
    let byte_len = keyword.as_bytes().len();
    FSM::new(KeywordState::Initial, KeywordRules { keyword: chars, byte_len })
}


/// The keyword machine's state after reading `i` matching characters of a
/// keyword of `n` characters.
pub open spec fn keyword_state_after(i: int, n: int) -> KeywordState {
    if i == 0 {
        KeywordState::Initial
    } else if i == n {
        KeywordState::MatchKeyword
    } else {
        KeywordState::MatchChar((i - 1) as usize)
    }
}

/// The first characters of `input`, from position `from` up to position
/// `n` of the keyword, match the keyword ignoring case.
pub open spec fn matches_from(input: Seq<char>, keyword: Seq<char>, from: int, n: int) -> bool {
    forall|j: int|
        from <= j < n ==> spec_equals_ignorecase(#[trigger] input[j], keyword, j, char_lowercase(input[j]))
}

proof fn lemma_keyword_walk(rules: KeywordRules, input: Seq<char>, i: int)
    requires
        rules.spec_keyword().len() >= 1,
        rules.spec_byte_len() == rules.spec_keyword().len(),
        0 <= i <= rules.spec_keyword().len(),
        i <= input.len(),
    ensures
        walk(rules, input, keyword_state_after(i, rules.spec_keyword().len() as int), i) == if rules.spec_keyword().len()
            <= input.len() && matches_from(input, rules.spec_keyword(), i, rules.spec_keyword().len() as int) {
            Some((rules.spec_keyword().len() as usize, KeywordState::MatchKeyword))
        } else {
            None
        },
    decreases rules.spec_keyword().len() - i,
{
    let n = rules.spec_keyword().len() as int;
    if i < n && i < input.len() {
        lemma_keyword_walk(rules, input, i + 1);
        if i < input.len() && !spec_equals_ignorecase(input[i], rules.spec_keyword(), i, char_lowercase(input[i])) {
            assert(!matches_from(input, rules.spec_keyword(), i, n));
        }
        if i < input.len() && spec_equals_ignorecase(input[i], rules.spec_keyword(), i, char_lowercase(input[i])) {
            assert(matches_from(input, rules.spec_keyword(), i, n) == matches_from(input, rules.spec_keyword(), i + 1, n));
        }
    }
}

/// The keyword machine of a keyword whose characters are one byte each
/// accepts exactly the inputs that start with the keyword, each character
/// being the keyword's or having it in its lowercase form; it then answers
/// the keyword's length.
pub proof fn lemma_keyword_accepts(fsm: FSM<KeywordState, KeywordRules>, input: Seq<char>)
    requires
        fsm.spec_initial() == KeywordState::Initial,
        fsm.spec_rules().spec_keyword().len() >= 1,
        fsm.spec_rules().spec_byte_len() == fsm.spec_rules().spec_keyword().len(),
    ensures
        fsm.spec_run(input) == if fsm.spec_rules().spec_keyword().len() <= input.len() && matches_from(
            input,
            fsm.spec_rules().spec_keyword(),
            0,
            fsm.spec_rules().spec_keyword().len() as int,
        ) {
            Some((fsm.spec_rules().spec_keyword().len() as usize, KeywordState::MatchKeyword))
        } else {
            None
        },
{
    lemma_keyword_walk(fsm.spec_rules(), input, 0);
}

} // verus!
