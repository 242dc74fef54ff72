use vstd::prelude::*;

verus! {

/// What went wrong in a run: a caller-defined runtime error, or one of the
/// library's own errors.
#[derive(Debug)]
pub enum ScriptError<E> {
    Runtime(E),
    Grammar(GrammarError),
    Lexer(LexerError),
    Parse(ParseError),
    Syntax(SyntaxError),
}

/// A fault in the grammar's definition.
#[derive(PartialEq, Eq, Debug)]
pub enum GrammarError {
    Error(&'static str),
    InvalidGrammarText(&'static str),
    InvalidSymbol(&'static str),
}

/// A fault in the input text.
#[derive(PartialEq, Eq, Debug)]
pub enum LexerError {
    Error(&'static str),
    UnexpectedToken(char),
}

/// A fault found while parsing the tokens.
#[derive(PartialEq, Eq, Debug)]
pub enum ParseError {
    Error(&'static str),
    IncorrectParseResult,
    /// The name of a terminal that the state's row has no action for, and the state.
    UnexpectedSymbol(String, usize),
    GrammarDoesNotExist(usize),
    StateDoesNotExist(usize),
}

/// The input ended before it was accepted.
#[derive(PartialEq, Eq, Debug)]
pub enum SyntaxError {
    SyntaxError,
}

/// The errors that reducers raise while evaluating.
pub trait RuntimeError {

}

} // verus!
