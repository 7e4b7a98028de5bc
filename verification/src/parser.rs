//! The parsing capability and the parsers that have it.

use vstd::prelude::*;
use crate::chars::classified_text;
use crate::classify::{classify, kind_of};
use crate::positions::word_count;
use crate::recovery::{advice_for, advise, ParserError, RecoveryAction};
use crate::split::lines;
use crate::token::{token_views, Token, TokenType};
use crate::tokenizer::{tokenize, tokens_of};

verus! {

/// What a parser can do: turn text into tokens, and advise on an issue.
/// Implementations differ in their rules, so the trait promises nothing
/// about the results; each implementation states its own.
pub trait Parser {
    /// Turns text into tokens, or reports the issue that stopped it.
    fn parse(&self, input: &str) -> Result<Vec<Token>, ParserError>;

    /// Proposes how to go on after `error`, if the parser knows a way.
    fn recover_from_error(&self, error: &ParserError) -> Option<RecoveryAction>;
}

/// The parser that tokenizes the text it is handed.
#[derive(Debug)]
pub struct MinimalParser {}

impl MinimalParser {
    /// The parser. It holds nothing.
    pub fn new() -> (parser: Self)
        ensures
            parser == (MinimalParser {}),
    {
        MinimalParser {}
    }

    /// The category of the word `token`.
    pub fn classify_token(&self, token: &str) -> (kind: TokenType)
        ensures
            kind == kind_of(classified_text(token@)),
    {
        classify(token)
    }
}

impl Parser for MinimalParser {
    /// Tokenizes `input`, as [`tokenize`] does.
    fn parse(&self, input: &str) -> (result: Result<Vec<Token>, ParserError>)
        ensures
            result is Ok,
            token_views(result->Ok_0@) == tokens_of(classified_text(input@)),
            result->Ok_0@.len() == word_count(lines(classified_text(input@))),
    {
        tokenize(input)
    }

    /// Advises on `error`, as [`advise`] does.
    fn recover_from_error(&self, error: &ParserError) -> (action: Option<RecoveryAction>)
        ensures
            action == advice_for(*error),
            action is Some,
    {
        advise(error)
    }
}

/// The parser that holds its text and tokenizes that, whatever it is handed.
pub struct BattleTestedParser {
    input: String,
}

impl View for BattleTestedParser {
    type V = Seq<char>;

    /// The text that the parser holds.
    closed spec fn view(&self) -> Seq<char> {
        self.input@
    }
}

impl BattleTestedParser {
    /// A parser that holds `input`.
    pub fn new(input: String) -> (parser: Self)
        ensures
            parser@ == input@,
    {
        BattleTestedParser { input }
    }

    /// The category of the word `word`.
    pub fn classify_token(&self, word: &str) -> (kind: TokenType)
        ensures
            kind == kind_of(classified_text(word@)),
    {
        classify(word)
    }
}

impl Parser for BattleTestedParser {
    /// Tokenizes the text that the parser holds, as [`tokenize`] does;
    /// `_input` is not read.
    fn parse(&self, _input: &str) -> (result: Result<Vec<Token>, ParserError>)
        ensures
            result is Ok,
            token_views(result->Ok_0@) == tokens_of(classified_text(self@)),
            result->Ok_0@.len() == word_count(lines(classified_text(self@))),
    {
        tokenize(self.input.as_str())
    }

    /// Advises on `error`, as [`advise`] does.
    fn recover_from_error(&self, error: &ParserError) -> (action: Option<RecoveryAction>)
        ensures
            action == advice_for(*error),
            action is Some,
    {
        advise(error)
    }
}

} // verus!
