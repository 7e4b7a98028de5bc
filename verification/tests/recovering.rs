use rift_tokenizer::text::{push_decimal, spell};
use rift_tokenizer::{
    advise, BattleTestedParser, ClassifiedChar, MinimalParser, Parser, ParserError, RecoveryAction,
};

#[test]
fn syntax_error_advises_to_synchronize() {
    let issue = ParserError::SyntaxError { line: 3, column: 5, message: "x".to_string() };
    assert!(matches!(advise(&issue), Some(RecoveryAction::Synchronize(3))));
    let issue = ParserError::SyntaxError { line: 0, column: 9, message: String::new() };
    assert!(matches!(advise(&issue), Some(RecoveryAction::Synchronize(0))));
    let issue =
        ParserError::SyntaxError { line: usize::MAX, column: 0, message: "far".to_string() };
    assert!(matches!(advise(&issue), Some(RecoveryAction::Synchronize(usize::MAX))));
}

#[test]
fn unexpected_token_advises_to_skip() {
    let issue = ParserError::UnexpectedToken("}".to_string());
    assert!(matches!(advise(&issue), Some(RecoveryAction::Skip)));
    let issue = ParserError::UnexpectedToken(String::new());
    assert!(matches!(advise(&issue), Some(RecoveryAction::Skip)));
}

#[test]
fn parsers_advise_alike() {
    let syntax = ParserError::SyntaxError { line: 7, column: 1, message: "m".to_string() };
    let unexpected = ParserError::UnexpectedToken("?".to_string());
    let minimal = MinimalParser::new();
    let stored = BattleTestedParser::new(String::new());
    assert!(matches!(minimal.recover_from_error(&syntax), Some(RecoveryAction::Synchronize(7))));
    assert!(matches!(minimal.recover_from_error(&unexpected), Some(RecoveryAction::Skip)));
    assert!(matches!(stored.recover_from_error(&syntax), Some(RecoveryAction::Synchronize(7))));
    assert!(matches!(stored.recover_from_error(&unexpected), Some(RecoveryAction::Skip)));
}

#[test]
fn issues_describe_themselves() {
    let issue = ParserError::SyntaxError { line: 3, column: 5, message: "x".to_string() };
    assert_eq!(issue.describe(), "Syntax Error at line 3, column 5: x");
    let issue = ParserError::SyntaxError { line: 120, column: 0, message: String::new() };
    assert_eq!(issue.describe(), "Syntax Error at line 120, column 0: ");
    let issue = ParserError::UnexpectedToken("}".to_string());
    assert_eq!(issue.describe(), "Unexpected token: }");
}

#[test]
fn description_matches_std_formatting_of_numbers() {
    for n in [0usize, 1, 9, 10, 11, 99, 100, 101, 1000, 65535, 4294967295, usize::MAX] {
        let issue = ParserError::SyntaxError { line: n, column: n / 7, message: "m".to_string() };
        assert_eq!(
            issue.describe(),
            format!("Syntax Error at line {}, column {}: {}", n, n / 7, "m")
        );
    }
}

#[test]
fn decimal_is_appended() {
    let mut s = String::from("n=");
    push_decimal(&mut s, 0);
    assert_eq!(s, "n=0");
    push_decimal(&mut s, 507);
    assert_eq!(s, "n=0507");
}

#[test]
fn spelling_keeps_the_characters_in_order() {
    let c = |ch| ClassifiedChar { ch, whitespace: false, alphabetic: false, numeric: false };
    assert_eq!(spell(&[c('a'), c(' '), c('\u{e9}'), c('!')]), "a \u{e9}!");
    assert_eq!(spell(&[]), "");
}
