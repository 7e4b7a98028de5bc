//! Syntax issues and the recovery actions advised for them.

use vstd::prelude::*;
use vstd::string::StringExecFns;
use crate::text::{decimal, push_decimal};
use crate::token::Token;

verus! {

/// A structured description of a detected problem.
#[derive(Debug)]
pub enum ParserError {
    SyntaxError { line: usize, column: usize, message: String },
    UnexpectedToken(String),
}

impl ParserError {
    /// The text that describes the issue to a reader.
    pub open spec fn description(self) -> Seq<char> {
        match self {
            ParserError::SyntaxError { line, column, message } => {
                "Syntax Error at line "@ + decimal(line as nat) + ", column "@ + decimal(
                    column as nat,
                ) + ": "@ + message@
            },
            ParserError::UnexpectedToken(token) => "Unexpected token: "@ + token@,
        }
    }

    /// Describes the issue to a reader.
    pub fn describe(&self) -> (text: String)
        ensures
            text@ == self.description(),
    {
        match self {
            ParserError::SyntaxError { line, column, message } => {
                let mut text = String::from_str("Syntax Error at line ");
                push_decimal(&mut text, *line);
                text.append(", column ");
                push_decimal(&mut text, *column);
                text.append(": ");
                text.append(message.as_str());
                text
            },
            ParserError::UnexpectedToken(token) => {
                let mut text = String::from_str("Unexpected token: ");
                text.append(token.as_str());
                text
            },
        }
    }
}

/// An instruction for how a caller might resynchronize after a problem. It
/// is advice only: nothing in this library carries it out.
#[derive(Debug)]
pub enum RecoveryAction {
    /// Discard the offending token and continue.
    Skip,
    /// Put the given token in the place of the offending one.
    Replace(Token),
    /// Resume scanning at the given line.
    Synchronize(usize),
}

/// The action advised for `issue`.
pub open spec fn advice_for(issue: ParserError) -> Option<RecoveryAction> {
    match issue {
        ParserError::SyntaxError { line, .. } => Some(RecoveryAction::Synchronize(line)),
        ParserError::UnexpectedToken(_) => Some(RecoveryAction::Skip),
    }
}

/// Proposes a recovery action for `issue`. With the present rules there is
/// one for every issue.
pub fn advise(issue: &ParserError) -> (action: Option<RecoveryAction>)
    ensures
        action == advice_for(*issue),
        action is Some,
{
    match issue {
        ParserError::SyntaxError { line, .. } => Some(RecoveryAction::Synchronize(*line)),
        ParserError::UnexpectedToken(_) => Some(RecoveryAction::Skip),
    }
}

} // verus!
