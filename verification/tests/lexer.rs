use zawgl::cypher::lexer::fsm::fsm::RunnableFSM;
use zawgl::cypher::lexer::fsm::identifier_fsm::{make_identifier_fsm, IdentifierState};
use zawgl::cypher::lexer::fsm::keyword_fsm::{make_keyword_ignorecase_fsm, KeywordState};
use zawgl::cypher::lexer::fsm::number_fsm::{make_number_fsm, NumberState};
use zawgl::cypher::lexer::fsm::parameter_fsm::{make_parameter_fsm, ParameterState};

#[test]
fn identifier_fsm_test_identifier() {
    let mut fsm = make_identifier_fsm();
    assert_eq!(fsm.run("blabla:"), Some((6, IdentifierState::MatchIdentifier(5))));
}

#[test]
fn parameter_fsm_test_identifier() {
    let mut fsm = make_parameter_fsm();
    assert_eq!(fsm.run("$blabla:"), Some((7, ParameterState::MatchParameter(6))));
}

#[test]
fn test_keywords() {
    let mut fsm = make_keyword_ignorecase_fsm("true");
    assert_eq!(fsm.run("true"), Some((4, KeywordState::MatchKeyword)));
    assert_eq!(fsm.run("true or false"), Some((4, KeywordState::MatchKeyword)));
    assert_eq!(fsm.run("true or anything"), Some((4, KeywordState::MatchKeyword)));
    assert_eq!(fsm.run("false"), None);
}

#[test]
fn test_par() {
    assert_eq!(make_keyword_ignorecase_fsm("(").run("("), Some((1, KeywordState::MatchKeyword)));
}

#[test]
fn test_error_1() {
    let mut fsm = make_keyword_ignorecase_fsm("false");
    assert_eq!(fsm.run("or false"), None);
}

#[test]
fn test_errors() {
    let mut fsm = make_keyword_ignorecase_fsm("trues");
    assert_eq!(fsm.run("true"), None);
    assert_eq!(fsm.run("false"), None);
}

#[test]
fn test_ignore_case() {
    let mut fsm = make_keyword_ignorecase_fsm("true");
    assert_eq!(fsm.run("TRUE"), Some((4, KeywordState::MatchKeyword)));
    assert_eq!(fsm.run("TruA"), None);
}

#[test]
fn test_numbers() {
    let mut fsm = make_number_fsm();
    assert_eq!(fsm.run("12.03"), Some((5, NumberState::NumberWithFractionalPart)));
    assert_eq!(fsm.run("12.4e-03:"), Some((8, NumberState::NumberWithExponent)));
    assert_eq!(fsm.run("121111.02223"), Some((12, NumberState::NumberWithFractionalPart)));
    assert_eq!(fsm.run("12.4333E03"), Some((10, NumberState::NumberWithExponent)));
    assert_eq!(fsm.run("12.4333E03XXXX"), Some((10, NumberState::NumberWithExponent)));
}

#[test]
fn test_identifier_rejects_leading_digit() {
    let mut fsm = make_identifier_fsm();
    assert_eq!(fsm.run("9abc"), None);
    assert_eq!(fsm.run("_a1 b"), Some((3, IdentifierState::MatchIdentifier(2))));
    assert_eq!(fsm.run("été"), Some((3, IdentifierState::MatchIdentifier(2))));
}

#[test]
fn test_empty_input_is_not_accepted() {
    assert_eq!(make_identifier_fsm().run(""), None);
    assert_eq!(make_number_fsm().run(""), None);
    assert_eq!(make_parameter_fsm().run("$"), Some((1, ParameterState::MatchParameter(0))));
    assert_eq!(make_parameter_fsm().run("x"), None);
}

#[test]
fn test_number_without_digits_after_exponent() {
    let mut fsm = make_number_fsm();
    assert_eq!(fsm.run("12e"), None);
    assert_eq!(fsm.run("12e+"), None);
    assert_eq!(fsm.run("7"), Some((1, NumberState::Integer)));
    assert_eq!(fsm.run("7."), None);
    assert_eq!(fsm.run("7.5e+2x"), Some((6, NumberState::NumberWithExponent)));
}

#[test]
fn test_keyword_prefix_of_longer_word() {
    let mut fsm = make_keyword_ignorecase_fsm("match");
    assert_eq!(fsm.run("MATCHES"), Some((5, KeywordState::MatchKeyword)));
    assert_eq!(fsm.run("mat"), None);
    assert_eq!(fsm.run("MaTcH (n)"), Some((5, KeywordState::MatchKeyword)));
}
