//! Tokens and their categories.

use vstd::prelude::*;

verus! {

/// The closed set of categories a token can belong to.
#[derive(Debug, Clone, Copy, PartialEq, Eq, Structural)]
pub enum TokenType {
    Identifier,
    Literal,
    Operator,
    Keyword,
    Punctuation,
}

/// A classified unit of text with its position.
#[derive(Debug)]
pub struct Token {
    pub kind: TokenType,
    pub value: String,
    /// One-based number of the input line the token stands on.
    pub line: usize,
    /// Zero-based index of the word within its line.
    pub column: usize,
}

/// What a [`Token`] says, as a mathematical value.
pub struct TokenView {
    pub kind: TokenType,
    pub value: Seq<char>,
    pub line: nat,
    pub column: nat,
}

impl View for Token {
    type V = TokenView;

    open spec fn view(&self) -> TokenView {
        TokenView {
            kind: self.kind,
            value: self.value@,
            line: self.line as nat,
            column: self.column as nat,
        }
    }
}

impl Clone for Token {
    fn clone(&self) -> (copy: Self)
        ensures
            copy == *self,
    {
        Token { kind: self.kind, value: self.value.clone(), line: self.line, column: self.column }
    }
}

/// The views of a sequence of tokens, in order.
pub open spec fn token_views(tokens: Seq<Token>) -> Seq<TokenView> {
    Seq::new(tokens.len(), |i: int| tokens[i]@)
}

} // verus!
