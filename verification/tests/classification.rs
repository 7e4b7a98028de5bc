use rift_tokenizer::split::Run;
use rift_tokenizer::{classify, classify_chars, classify_text, ClassifiedChar, TokenType};

fn plain(ch: char, alphabetic: bool, numeric: bool) -> ClassifiedChar {
    ClassifiedChar { ch, whitespace: false, alphabetic, numeric }
}

#[test]
fn operators_are_recognised() {
    assert_eq!(classify("+"), TokenType::Operator);
    assert_eq!(classify("-"), TokenType::Operator);
    assert_eq!(classify("*"), TokenType::Operator);
    assert_eq!(classify("/"), TokenType::Operator);
}

#[test]
fn keywords_are_recognised() {
    assert_eq!(classify("if"), TokenType::Keyword);
    assert_eq!(classify("else"), TokenType::Keyword);
    assert_eq!(classify("while"), TokenType::Keyword);
}

#[test]
fn letters_make_an_identifier() {
    assert_eq!(classify("variable"), TokenType::Identifier);
    assert_eq!(classify("If"), TokenType::Identifier);
    assert_eq!(classify("ifx"), TokenType::Identifier);
    assert_eq!(classify("elsewhile"), TokenType::Identifier);
    assert_eq!(classify("h\u{e9}llo"), TokenType::Identifier);
    assert_eq!(classify("\u{4eac}"), TokenType::Identifier);
}

#[test]
fn digits_make_a_literal() {
    assert_eq!(classify("42"), TokenType::Literal);
    assert_eq!(classify("0"), TokenType::Literal);
    assert_eq!(classify("\u{663}\u{664}"), TokenType::Literal);
    assert_eq!(classify("\u{bd}"), TokenType::Literal);
}

#[test]
fn mixed_words_are_punctuation() {
    assert_eq!(classify("foo!"), TokenType::Punctuation);
    assert_eq!(classify("x1"), TokenType::Punctuation);
    assert_eq!(classify("4x"), TokenType::Punctuation);
    assert_eq!(classify("++"), TokenType::Punctuation);
    assert_eq!(classify("{"), TokenType::Punctuation);
    assert_eq!(classify(">"), TokenType::Punctuation);
    assert_eq!(classify("3.14"), TokenType::Punctuation);
    assert_eq!(classify("-1"), TokenType::Punctuation);
}

#[test]
fn letter_rule_comes_before_digit_rule() {
    // The Roman numeral eight is both a letter and a number.
    assert!('\u{2167}'.is_alphabetic() && '\u{2167}'.is_numeric());
    assert_eq!(classify("\u{2167}"), TokenType::Identifier);
}

#[test]
fn empty_word_is_an_identifier() {
    assert_eq!(classify(""), TokenType::Identifier);
    assert_eq!(classify_chars(&[]), TokenType::Identifier);
}

#[test]
fn classes_are_looked_up_per_character() {
    let text = classify_text("a1 \u{a0}\n");
    assert_eq!(
        text,
        vec![
            ClassifiedChar { ch: 'a', whitespace: false, alphabetic: true, numeric: false },
            ClassifiedChar { ch: '1', whitespace: false, alphabetic: false, numeric: true },
            ClassifiedChar { ch: ' ', whitespace: true, alphabetic: false, numeric: false },
            ClassifiedChar { ch: '\u{a0}', whitespace: true, alphabetic: false, numeric: false },
            ClassifiedChar { ch: '\n', whitespace: true, alphabetic: false, numeric: false },
        ]
    );
    assert_eq!(classify_text(""), vec![]);
    assert_eq!(
        ClassifiedChar::of('\u{2167}'),
        ClassifiedChar { ch: '\u{2167}', whitespace: false, alphabetic: true, numeric: true }
    );
}

#[test]
fn given_classes_decide_not_the_characters() {
    // An operator or a keyword is recognised by its characters alone.
    assert_eq!(classify_chars(&[plain('+', true, true)]), TokenType::Operator);
    assert_eq!(
        classify_chars(&[plain('i', false, false), plain('f', false, false)]),
        TokenType::Keyword
    );
    // Everything else goes by the classes that come with the characters.
    assert_eq!(
        classify_chars(&[plain('a', false, true), plain('b', false, true)]),
        TokenType::Literal
    );
    assert_eq!(
        classify_chars(&[plain('1', true, false), plain('2', true, true)]),
        TokenType::Identifier
    );
    assert_eq!(
        classify_chars(&[plain('a', true, false), plain('1', false, true)]),
        TokenType::Punctuation
    );
}

#[test]
fn stretches_admit_their_characters() {
    let newline = ClassifiedChar::of('\n');
    let blank = ClassifiedChar::of(' ');
    let letter = ClassifiedChar::of('a');
    assert!(!Run::Line.test(newline));
    assert!(Run::Line.test(blank));
    assert!(Run::Line.test(letter));
    assert!(Run::Gap.test(newline));
    assert!(Run::Gap.test(blank));
    assert!(!Run::Gap.test(letter));
    assert!(!Run::Word.test(newline));
    assert!(!Run::Word.test(blank));
    assert!(Run::Word.test(letter));
}
