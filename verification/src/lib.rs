//! A minimal tokenizer with an advisory error-recovery interface.
//!
//! [`tokenize`] turns text into tokens: one for each whitespace-delimited
//! word, with its category and its place in the text. [`classify`] tells the
//! category of a single word. [`advise`] proposes, for a reported syntax
//! issue, how a caller might go on; it never acts on the advice itself.
//!
//! The modules `split`, `spans` and `positions` say what the lines, words and
//! tokens of a text are and prove what follows from that: how many tokens
//! there are, in which order they come, and where in the text each is from.

pub mod chars;
pub mod classify;
pub mod parser;
pub mod positions;
pub mod recovery;
pub mod spans;
pub mod split;
pub mod text;
pub mod token;
pub mod tokenizer;

pub use crate::chars::{classify_text, ClassifiedChar};
pub use crate::classify::{classify, classify_chars};
pub use crate::parser::{BattleTestedParser, MinimalParser, Parser};
pub use crate::recovery::{advise, ParserError, RecoveryAction};
pub use crate::token::{Token, TokenType};
pub use crate::tokenizer::{tokenize, tokenize_chars};
