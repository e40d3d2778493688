//! Diagnostics.

use vstd::prelude::*;

use crate::loc::Loc;
use crate::token::Token;

verus! {

/// What went wrong.
#[derive(Debug, Clone, Copy, PartialEq, Eq)]
pub enum ErrorId {
    /// A register literal names a register above 15.
    InvalidReg,
    /// A character that starts no token.
    InvalidChar,
    /// A line starts with neither a tab, a label nor a line break.
    ExpectedProgram,
    /// Something other than a line break follows a statement or a label.
    ExpectedLine,
    /// An operand was expected.
    ExpectedAtom,
    /// A closing parenthesis was expected.
    ExpectedParen,
    /// A closing square bracket was expected.
    ExpectedSquare,
    /// A statement of a shape that generates nothing.
    InvalidNode,
    /// A statement for which no instruction exists.
    InvalidInstruction,
}

/// A diagnostic: what went wrong, and where in the source text.
#[derive(Debug, Clone, Copy, PartialEq, Eq)]
pub struct Error {
    pub id: ErrorId,
    pub loc: Loc,
}

/// The diagnostic `error_id`, located at `token`.
pub fn gen_error<T>(error_id: ErrorId, token: Token) -> (r: Result<T, Error>)
    ensures
        r == Err::<T, Error>(Error { id: error_id, loc: token.loc }),
{
    Err(Error { id: error_id, loc: token.loc })
}

} // verus!
