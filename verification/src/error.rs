//! The failures of the parser and of the interpreter.

use vstd::prelude::*;
use std::rc::Rc;
use crate::token::{Token, TokenType};

verus! {

/// Why evaluating, or parsing, came to nothing.
#[derive(Debug)]
pub enum LuxError {
    /// The parser failed.
    Parser(ParseError),
    /// An operator met an operand of the wrong type: the operator's kind
    /// and what it asks for.
    Interpreter(TokenType, &'static str),
    /// The expression asks for something that has no value.
    Runtime,
}

/// A violation of the grammar: the token it was found at, and a message.
#[derive(Debug)]
pub enum ParseError {
    Generic(Rc<Token>, String),
}

impl ParseError {
    /// The token the error is about.
    pub fn token(&self) -> (token: &Token)
        ensures
            *token == self.spec_token(),
    {
        match self {
            ParseError::Generic(token, _) => token,
        }
    }

    pub open spec fn spec_token(&self) -> Token {
        match self {
            ParseError::Generic(token, _) => **token,
        }
    }

    /// The message as a sequence of characters.
    pub open spec fn message(&self) -> Seq<char> {
        match self {
            ParseError::Generic(_, msg) => msg@,
        }
    }

    /// The error's message.
    pub fn to_string(&self) -> (text: String)
        ensures
            text@ == self.message(),
    {
        match self {
            ParseError::Generic(_, msg) => msg.clone(),
        }
    }
}

} // verus!
