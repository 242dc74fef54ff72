use vstd::prelude::*;

use crate::token::ParserToken;

verus! {

/// The token kinds of a small arithmetic language.
#[derive(Debug, Clone, Copy, Hash, PartialEq, Eq, Structural)]
pub enum TokenType {
    Identifier,
    Integer,
    Float,
    String,
    True,
    False,
    Plus,
    Minus,
    Multiply,
    LeftParenthese,
    RightParenthese,
    EOF,
}

impl ParserToken for TokenType {

}

} // verus!
