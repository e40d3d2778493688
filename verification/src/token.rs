//! Tokens, and tokens as mathematical values.

use vstd::prelude::*;

use crate::loc::Loc;

verus! {

/// The kinds of token, with what an identifier, a number and a register carry.
#[derive(Debug, PartialEq)]
pub enum TokenId {
    Iden(String),
    Num(isize),
    Reg(u8),
    Empty,
    Mem8,
    Mem16,
    Mem32,
    Not,
    Or,
    And,
    Xor,
    Add,
    Sub,
    Sl,
    Sr,
    Mul,
    Div,
    Eql,
    Lt,
    Gt,
    Comma,
    To,
    If,
    ParenL,
    ParenR,
    SquareL,
    SquareR,
    Tab,
    Line,
    Eof,
}

/// A token kind as a mathematical value: an identifier is its characters.
pub enum Lexeme {
    Iden(Seq<char>),
    Num(isize),
    Reg(u8),
    Empty,
    Mem8,
    Mem16,
    Mem32,
    Not,
    Or,
    And,
    Xor,
    Add,
    Sub,
    Sl,
    Sr,
    Mul,
    Div,
    Eql,
    Lt,
    Gt,
    Comma,
    To,
    If,
    ParenL,
    ParenR,
    SquareL,
    SquareR,
    Tab,
    Line,
    Eof,
}

impl View for TokenId {
    type V = Lexeme;

    open spec fn view(&self) -> Lexeme {
        match self {
            TokenId::Iden(s) => Lexeme::Iden(s@),
            TokenId::Num(n) => Lexeme::Num(*n),
            TokenId::Reg(r) => Lexeme::Reg(*r),
            TokenId::Empty => Lexeme::Empty,
            TokenId::Mem8 => Lexeme::Mem8,
            TokenId::Mem16 => Lexeme::Mem16,
            TokenId::Mem32 => Lexeme::Mem32,
            TokenId::Not => Lexeme::Not,
            TokenId::Or => Lexeme::Or,
            TokenId::And => Lexeme::And,
            TokenId::Xor => Lexeme::Xor,
            TokenId::Add => Lexeme::Add,
            TokenId::Sub => Lexeme::Sub,
            TokenId::Sl => Lexeme::Sl,
            TokenId::Sr => Lexeme::Sr,
            TokenId::Mul => Lexeme::Mul,
            TokenId::Div => Lexeme::Div,
            TokenId::Eql => Lexeme::Eql,
            TokenId::Lt => Lexeme::Lt,
            TokenId::Gt => Lexeme::Gt,
            TokenId::Comma => Lexeme::Comma,
            TokenId::To => Lexeme::To,
            TokenId::If => Lexeme::If,
            TokenId::ParenL => Lexeme::ParenL,
            TokenId::ParenR => Lexeme::ParenR,
            TokenId::SquareL => Lexeme::SquareL,
            TokenId::SquareR => Lexeme::SquareR,
            TokenId::Tab => Lexeme::Tab,
            TokenId::Line => Lexeme::Line,
            TokenId::Eof => Lexeme::Eof,
        }
    }
}

impl Clone for TokenId {
    fn clone(&self) -> (copy: TokenId)
        ensures
            copy@ == self@,
    {
        match self {
            TokenId::Iden(s) => TokenId::Iden(s.clone()),
            TokenId::Num(n) => TokenId::Num(*n),
            TokenId::Reg(r) => TokenId::Reg(*r),
            TokenId::Empty => TokenId::Empty,
            TokenId::Mem8 => TokenId::Mem8,
            TokenId::Mem16 => TokenId::Mem16,
            TokenId::Mem32 => TokenId::Mem32,
            TokenId::Not => TokenId::Not,
            TokenId::Or => TokenId::Or,
            TokenId::And => TokenId::And,
            TokenId::Xor => TokenId::Xor,
            TokenId::Add => TokenId::Add,
            TokenId::Sub => TokenId::Sub,
            TokenId::Sl => TokenId::Sl,
            TokenId::Sr => TokenId::Sr,
            TokenId::Mul => TokenId::Mul,
            TokenId::Div => TokenId::Div,
            TokenId::Eql => TokenId::Eql,
            TokenId::Lt => TokenId::Lt,
            TokenId::Gt => TokenId::Gt,
            TokenId::Comma => TokenId::Comma,
            TokenId::To => TokenId::To,
            TokenId::If => TokenId::If,
            TokenId::ParenL => TokenId::ParenL,
            TokenId::ParenR => TokenId::ParenR,
            TokenId::SquareL => TokenId::SquareL,
            TokenId::SquareR => TokenId::SquareR,
            TokenId::Tab => TokenId::Tab,
            TokenId::Line => TokenId::Line,
            TokenId::Eof => TokenId::Eof,
        }
    }
}

/// A token: its kind, and the place in the text just behind its last
/// character.
#[derive(Debug)]
pub struct Token {
    pub id: TokenId,
    pub loc: Loc,
}

/// A token as a mathematical value.
pub struct Lexed {
    pub id: Lexeme,
    pub loc: Loc,
}

impl View for Token {
    type V = Lexed;

    open spec fn view(&self) -> Lexed {
        Lexed { id: self.id@, loc: self.loc }
    }
}

impl Clone for Token {
    fn clone(&self) -> (copy: Token)
        ensures
            copy@ == self@,
            copy.loc == self.loc,
    {
        Token { id: self.id.clone(), loc: self.loc }
    }
}

} // verus!
