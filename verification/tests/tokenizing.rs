use rift_tokenizer::{
    tokenize, tokenize_chars, BattleTestedParser, ClassifiedChar, MinimalParser, Parser, Token,
    TokenType,
};

fn fields(tokens: &[Token]) -> Vec<(TokenType, String, usize, usize)> {
    let mut all = Vec::new();
    for t in tokens {
        all.push((t.kind, t.value.clone(), t.line, t.column));
    }
    all
}

fn entry(kind: TokenType, value: &str, line: usize, column: usize) -> (TokenType, String, usize, usize) {
    (kind, value.to_string(), line, column)
}

#[test]
fn two_words_on_one_line() {
    let tokens = tokenize("hello world").unwrap();
    assert_eq!(
        fields(&tokens),
        vec![
            entry(TokenType::Identifier, "hello", 1, 0),
            entry(TokenType::Identifier, "world", 1, 1),
        ]
    );
}

#[test]
fn empty_input_has_no_tokens() {
    let result = tokenize("");
    assert!(result.is_ok());
    assert!(result.unwrap().is_empty());
}

#[test]
fn whitespace_alone_has_no_tokens() {
    assert!(tokenize(" ").unwrap().is_empty());
    assert!(tokenize("\n").unwrap().is_empty());
    assert!(tokenize(" \t \n\n  \r\n\u{a0}\u{3000} ").unwrap().is_empty());
}

#[test]
fn lines_are_numbered_from_one_and_columns_from_zero() {
    let tokens = tokenize("if x + 5\n\n  else 42 foo!\nwhile").unwrap();
    assert_eq!(
        fields(&tokens),
        vec![
            entry(TokenType::Keyword, "if", 1, 0),
            entry(TokenType::Identifier, "x", 1, 1),
            entry(TokenType::Operator, "+", 1, 2),
            entry(TokenType::Literal, "5", 1, 3),
            entry(TokenType::Keyword, "else", 3, 0),
            entry(TokenType::Literal, "42", 3, 1),
            entry(TokenType::Punctuation, "foo!", 3, 2),
            entry(TokenType::Keyword, "while", 4, 0),
        ]
    );
}

#[test]
fn runs_of_whitespace_collapse() {
    let tokens = tokenize("  a \t\t b\u{a0}\u{2003}c   ").unwrap();
    assert_eq!(
        fields(&tokens),
        vec![
            entry(TokenType::Identifier, "a", 1, 0),
            entry(TokenType::Identifier, "b", 1, 1),
            entry(TokenType::Identifier, "c", 1, 2),
        ]
    );
}

#[test]
fn carriage_return_belongs_to_no_word() {
    let tokens = tokenize("a b\r\nc\r\n").unwrap();
    assert_eq!(
        fields(&tokens),
        vec![
            entry(TokenType::Identifier, "a", 1, 0),
            entry(TokenType::Identifier, "b", 1, 1),
            entry(TokenType::Identifier, "c", 2, 0),
        ]
    );
}

#[test]
fn trailing_newline_adds_no_token() {
    let with = tokenize("a\nb\n").unwrap();
    let without = tokenize("a\nb").unwrap();
    assert_eq!(fields(&with), fields(&without));
    assert_eq!(with.len(), 2);
    assert_eq!(with[1].line, 2);
}

#[test]
fn leading_newlines_count_as_lines() {
    let tokens = tokenize("\n\n\n7").unwrap();
    assert_eq!(fields(&tokens), vec![entry(TokenType::Literal, "7", 4, 0)]);
}

#[test]
fn token_count_is_word_count() {
    let input = "one two  three\nfour\n\n five six \n";
    let mut words = 0;
    for line in input.split('\n') {
        words += line.split_whitespace().count();
    }
    assert_eq!(words, 6);
    assert_eq!(tokenize(input).unwrap().len(), words);
}

#[test]
fn tokens_follow_the_text() {
    let tokens = tokenize("b a\nd c\n\nf e").unwrap();
    let mut values = Vec::new();
    for t in &tokens {
        values.push(t.value.clone());
    }
    assert_eq!(values, vec!["b", "a", "d", "c", "f", "e"]);
    for pair in tokens.windows(2) {
        let (a, b) = (&pair[0], &pair[1]);
        assert!(a.line < b.line || (a.line == b.line && a.column < b.column));
    }
}

#[test]
fn same_input_gives_same_tokens() {
    let input = "if a + 1\nelse  b * 22 ;\n";
    let first = tokenize(input).unwrap();
    let second = tokenize(input).unwrap();
    assert_eq!(fields(&first), fields(&second));
    assert_eq!(first.len(), 9);
}

#[test]
fn values_keep_their_characters() {
    let tokens = tokenize("\u{e9}t\u{e9} \u{1f49d} \u{663}").unwrap();
    assert_eq!(
        fields(&tokens),
        vec![
            entry(TokenType::Identifier, "\u{e9}t\u{e9}", 1, 0),
            entry(TokenType::Punctuation, "\u{1f49d}", 1, 1),
            entry(TokenType::Literal, "\u{663}", 1, 2),
        ]
    );
}

#[test]
fn given_classes_decide_where_words_end() {
    let letter = |ch| ClassifiedChar { ch, whitespace: false, alphabetic: true, numeric: false };
    let gap = |ch| ClassifiedChar { ch, whitespace: true, alphabetic: false, numeric: false };
    // Here `_` is marked as whitespace and the blank is not.
    let text = [letter('a'), gap('_'), letter('b'), letter(' '), letter('c'), letter('\n'), letter('d')];
    let tokens = tokenize_chars(&text);
    assert_eq!(
        fields(&tokens),
        vec![
            entry(TokenType::Identifier, "a", 1, 0),
            entry(TokenType::Identifier, "b c", 1, 1),
            entry(TokenType::Identifier, "d", 2, 0),
        ]
    );
    assert!(tokenize_chars(&[]).is_empty());
}

#[test]
fn minimal_parser_tokenizes_its_argument() {
    let parser = MinimalParser::new();
    let tokens = parser.parse("x\n- 1").unwrap();
    assert_eq!(
        fields(&tokens),
        vec![
            entry(TokenType::Identifier, "x", 1, 0),
            entry(TokenType::Operator, "-", 2, 0),
            entry(TokenType::Literal, "1", 2, 1),
        ]
    );
}

#[test]
fn battle_tested_parser_tokenizes_its_stored_text() {
    let parser = BattleTestedParser::new("stored text".to_string());
    let tokens = parser.parse("something else entirely").unwrap();
    assert_eq!(
        fields(&tokens),
        vec![
            entry(TokenType::Identifier, "stored", 1, 0),
            entry(TokenType::Identifier, "text", 1, 1),
        ]
    );
    assert_eq!(parser.classify_token("while"), TokenType::Keyword);
    assert_eq!(parser.classify_token("9"), TokenType::Literal);
}

#[test]
fn clone_keeps_every_field() {
    let tokens = tokenize("\nab 1").unwrap();
    let copy = tokens[1].clone();
    assert_eq!(copy.kind, TokenType::Literal);
    assert_eq!(copy.value, "1");
    assert_eq!(copy.line, 2);
    assert_eq!(copy.column, 1);
}

fn split_by_std(input: &str) -> Vec<(String, usize, usize)> {
    let mut all = Vec::new();
    for (line_index, line) in input.lines().enumerate() {
        for (column, word) in line.split_whitespace().enumerate() {
            all.push((word.to_string(), line_index + 1, column));
        }
    }
    all
}

#[test]
fn agrees_with_line_and_whitespace_splitting_of_std() {
    let inputs = [
        "",
        "a",
        " a ",
        "hello world",
        "a\nb",
        "a\n",
        "\na",
        "a\r\nb\r\n",
        "a\rb",
        "a b\r",
        "\r\n\r\n x \r\n",
        "a\u{b}b\u{c}c",
        "a\u{85}b\u{a0}c",
        "a\u{1680}b\u{2000}c\u{200a}d",
        "a\u{2028}b\u{2029}c",
        "a\u{202f}b\u{205f}c\u{3000}d",
        "a\u{200b}b\u{feff}c",
        "if x + 5 > 10 { do something }",
        "one\n\n\ntwo  three\n   \nfour\tfive\n",
        "\u{e9}t\u{e9} \u{1f49d}\n\u{663}\u{2167} 12ab",
    ];
    for input in inputs {
        let tokens = tokenize(input).unwrap();
        let mut found = Vec::new();
        for t in &tokens {
            found.push((t.value.clone(), t.line, t.column));
        }
        assert_eq!(found, split_by_std(input), "input {:?}", input);
    }
}

#[test]
fn line_number_counts_the_newlines_before() {
    let input = "a b\n\nc\n d e\n\n\nf";
    let tokens = tokenize(input).unwrap();
    let mut from = 0;
    for t in &tokens {
        let at = from + input[from..].find(t.value.as_str()).unwrap();
        let newlines = input[..at].matches('\n').count();
        assert_eq!(t.line, newlines + 1);
        from = at + t.value.len();
    }
    assert_eq!(tokens.len(), 6);
}

#[test]
fn nothing_but_whitespace_lies_between_tokens() {
    let input = " \tif  x\u{a0}+ 5\r\n\n  else\u{3000}42 foo!  \n\nwhile\n ";
    let tokens = tokenize(input).unwrap();
    assert_eq!(tokens.len(), 8);
    let mut from = 0;
    for t in &tokens {
        let at = from + input[from..].find(t.value.as_str()).unwrap();
        assert!(input[from..at].chars().all(char::is_whitespace));
        assert!(!t.value.is_empty());
        assert!(!t.value.chars().any(char::is_whitespace));
        from = at + t.value.len();
    }
    assert!(input[from..].chars().all(char::is_whitespace));
}
