//! The lexer: reads a text token by token.

use vstd::prelude::*;

use crate::error::{Error, ErrorId};
use crate::loc::{col_at, lemma_loc_bounds, line_at, loc_at, Loc};
use crate::scan::{
    decimal, digit_value, digits_end, found, is_digit, item_view, lemma_wrap_digit,
    lemma_wrap_fits, line_end, punct, scan, skip_blank, word_end, wrap,
};
use crate::token::{Token, TokenId};

verus! {

/// Under the bound on the text's length, the location of an offset holds its
/// line and column exactly.
proof fn lemma_loc_exact(src: Seq<char>, pos: int)
    requires
        0 <= pos <= src.len() < usize::MAX,
    ensures
        loc_at(src, pos).pos == pos,
        loc_at(src, pos).col == col_at(src, pos),
        loc_at(src, pos).line == line_at(src, pos),
{
    lemma_loc_bounds(src, pos);
}

/// Reads a text token by token.
///
/// The lexer stands at an offset of its text; [`Lexer::token`] yields what
/// [`scan`] finds there and moves the lexer to where `scan` ends.
#[derive(Debug)]
pub struct Lexer {
    source: String,
    len: usize,
    loc: Loc,
    chr_maybe: Option<char>,
}

impl Lexer {
    /// The text that is read.
    pub closed spec fn source(&self) -> Seq<char> {
        self.source@
    }

    /// The offset at which the lexer stands.
    pub closed spec fn pos(&self) -> int {
        self.loc.pos as int
    }

    /// The lexer stands in its text, and knows the line, the column and the
    /// character there.
    pub closed spec fn wf(&self) -> bool {
        &&& self.len == self.source@.len()
        &&& self.len < usize::MAX
        &&& self.loc.pos <= self.len
        &&& self.loc == loc_at(self.source@, self.loc.pos as int)
        &&& self.chr_maybe == if self.loc.pos < self.len {
            Some(self.source@[self.loc.pos as int])
        } else {
            None
        }
    }

    /// The lexer stands in its text.
    pub proof fn lemma_in_text(&self)
        requires
            self.wf(),
        ensures
            0 <= self.pos() <= self.source().len(),
    {
    }

    /// A lexer at the start of `source`.
    pub fn new(source: String) -> (lexer: Lexer)
        requires
            source@.len() < usize::MAX,
        ensures
            lexer.wf(),
            lexer.source() == source@,
            lexer.pos() == 0,
    {
        let len: usize = source.as_str().unicode_len();
        let chr_maybe = if 0 < len {
            Some(source.as_str().get_char(0))
        } else {
            None
        };
        Lexer { chr_maybe, source, len, loc: Loc { pos: 0, col: 1, line: 1 } }
    }

    /// Passes the character at which the lexer stands.
    fn advance(&mut self)
        requires
            old(self).wf(),
            old(self).pos() < old(self).source().len(),
        ensures
            final(self).wf(),
            final(self).source() == old(self).source(),
            final(self).pos() == old(self).pos() + 1,
    {
        proof {
            lemma_loc_exact(self.source@, self.loc.pos as int);
            lemma_loc_exact(self.source@, self.loc.pos + 1);
        }
        match self.chr_maybe {
            Some('\n') => {
                self.loc.line += 1;
                self.loc.col = 1;
            },
            _ => {
                self.loc.col += 1;
            },
        }
        self.loc.pos += 1;
        self.chr_maybe = if self.loc.pos < self.len {
            Some(self.source.as_str().get_char(self.loc.pos))
        } else {
            None
        };
    }

    /// Reads the rest of a number whose first digit `chr` was just passed.
    fn get_num(&mut self, chr: char) -> (num: isize)
        requires
            old(self).wf(),
            old(self).pos() >= 1,
            old(self).source()[old(self).pos() - 1] == chr,
            is_digit(chr),
        ensures
            final(self).wf(),
            final(self).source() == old(self).source(),
            final(self).pos() == digits_end(old(self).source(), old(self).pos() - 1),
            num == wrap(
                decimal(old(self).source(), old(self).pos() - 1, final(self).pos()) as int,
            ),
    {
        let ghost src = self.source@;
        let ghost start = self.loc.pos - 1;
        let mut num: isize = digit(chr) as isize;
        proof {
            assert(decimal(src, start, start) == 0);
            lemma_wrap_fits(num as int);
        }
        loop
            invariant
                self.wf(),
                self.source@ == src,
                0 <= start < self.loc.pos,
                digits_end(src, self.loc.pos as int) == digits_end(src, start),
                num == wrap(decimal(src, start, self.loc.pos as int) as int),
            ensures
                self.loc.pos == digits_end(src, start),
            decreases self.len - self.loc.pos,
        {
            match self.chr_maybe {
                Some(chr) => {
                    if '0' <= chr && chr <= '9' {
                        proof {
                            lemma_wrap_digit(
                                decimal(src, start, self.loc.pos as int) as int,
                                digit_value(chr) as int,
                            );
                        }
                        num = num.wrapping_mul(10).wrapping_add(digit(chr) as isize);
                        self.advance();
                    } else {
                        break ;
                    }
                },
                None => {
                    break ;
                },
            }
        }
        num
    }

    /// Reads the rest of a register index whose first digit `chr` was just
    /// passed. `None` where the index is above 15.
    fn get_reg(&mut self, chr: char) -> (reg: Option<u8>)
        requires
            old(self).wf(),
            old(self).pos() >= 1,
            old(self).source()[old(self).pos() - 1] == chr,
            is_digit(chr),
        ensures
            final(self).wf(),
            final(self).source() == old(self).source(),
            final(self).pos() == digits_end(old(self).source(), old(self).pos() - 1),
            reg == if decimal(old(self).source(), old(self).pos() - 1, final(self).pos()) <= 15 {
                Some(decimal(old(self).source(), old(self).pos() - 1, final(self).pos()) as u8)
            } else {
                None
            },
    {
        let ghost src = self.source@;
        let ghost start = self.loc.pos - 1;
        // The index, or 16 once it is above 15.
        let mut index: u8 = digit(chr);
        proof {
            assert(decimal(src, start, start) == 0);
        }
        loop
            invariant
                self.wf(),
                self.source@ == src,
                0 <= start < self.loc.pos,
                digits_end(src, self.loc.pos as int) == digits_end(src, start),
                index <= 16,
                index <= 15 ==> index == decimal(src, start, self.loc.pos as int),
                index == 16 ==> decimal(src, start, self.loc.pos as int) > 15,
            ensures
                self.loc.pos == digits_end(src, start),
            decreases self.len - self.loc.pos,
        {
            match self.chr_maybe {
                Some(chr) => {
                    if '0' <= chr && chr <= '9' {
                        index = if index <= 15 {
                            let more: u8 = index * 10 + digit(chr);
                            if more <= 15 {
                                more
                            } else {
                                16
                            }
                        } else {
                            16
                        };
                        self.advance();
                    } else {
                        break ;
                    }
                },
                None => {
                    break ;
                },
            }
        }
        if index <= 15 {
            Some(index)
        } else {
            None
        }
    }

    /// Reads the rest of an identifier that starts at offset `start`, of
    /// which the lexer has passed at least the first character.
    fn get_iden(&mut self, start: usize) -> (iden: String)
        requires
            old(self).wf(),
            start < old(self).pos(),
        ensures
            final(self).wf(),
            final(self).source() == old(self).source(),
            final(self).pos() == word_end(old(self).source(), old(self).pos()),
            iden@ == old(self).source().subrange(start as int, final(self).pos()),
    {
        let ghost src = self.source@;
        let ghost from = self.loc.pos as int;
        loop
            invariant
                self.wf(),
                self.source@ == src,
                start < self.loc.pos,
                word_end(src, self.loc.pos as int) == word_end(src, from),
            ensures
                self.loc.pos == word_end(src, from),
            decreases self.len - self.loc.pos,
        {
            match self.chr_maybe {
                Some(chr) => {
                    if ('a' <= chr && chr <= 'z') || ('A' <= chr && chr <= 'Z') || ('0' <= chr
                        && chr <= '9') || chr == '_' {
                        self.advance();
                    } else {
                        break ;
                    }
                },
                None => {
                    break ;
                },
            }
        }
        self.source.as_str().substring_char(start, self.loc.pos).to_owned()
    }

    /// The token `token_id`, which ends where the lexer stands.
    fn gen_token(&self, token_id: TokenId) -> (result: Result<Token, Error>)
        requires
            self.wf(),
        ensures
            item_view(result) == found(self.source(), token_id@, self.pos()).item,
    {
        Ok(Token { id: token_id, loc: self.loc })
    }

    /// The diagnostic `error_id`, `offset` columns before the lexer.
    fn gen_error(&self, error_id: ErrorId, offset: usize) -> (result: Result<Token, Error>)
        requires
            self.wf(),
            offset <= self.loc.col,
        ensures
            result == Err::<Token, Error>(
                Error {
                    id: error_id,
                    loc: Loc {
                        pos: self.loc.pos,
                        col: (self.loc.col - offset) as usize,
                        line: self.loc.line,
                    },
                },
            ),
    {
        Err(
            Error {
                id: error_id,
                loc: Loc { pos: self.loc.pos, col: self.loc.col - offset, line: self.loc.line },
            },
        )
    }

    /// Passes the spaces and comments at which the lexer stands.
    fn skip_blank(&mut self)
        requires
            old(self).wf(),
        ensures
            final(self).wf(),
            final(self).source() == old(self).source(),
            final(self).pos() == skip_blank(old(self).source(), old(self).pos()),
    {
        let ghost src = self.source@;
        let ghost from = self.loc.pos as int;
        loop
            invariant
                self.wf(),
                self.source@ == src,
                skip_blank(src, self.loc.pos as int) == skip_blank(src, from),
            ensures
                self.loc.pos == skip_blank(src, from),
            decreases self.len - self.loc.pos,
        {
            match self.chr_maybe {
                Some(' ') => {
                    self.advance();
                },
                Some('#') => {
                    let ghost hash = self.loc.pos as int;
                    self.advance();
                    loop
                        invariant
                            self.wf(),
                            self.source@ == src,
                            hash < self.loc.pos,
                            line_end(src, self.loc.pos as int) == line_end(src, hash + 1),
                        ensures
                            self.loc.pos == line_end(src, hash + 1),
                        decreases self.len - self.loc.pos,
                    {
                        match self.chr_maybe {
                            Some(chr) => {
                                if chr == '\n' {
                                    break ;
                                }
                                self.advance();
                            },
                            None => {
                                break ;
                            },
                        }
                    }
                    if self.loc.pos < self.len {
                        self.advance();
                    } else {
                        break ;
                    }
                },
                _ => {
                    break ;
                },
            }
        }
    }

    /// Yields the next token, or a diagnostic, and moves behind it.
    ///
    /// At the end of the text the token is `Eof`, however often it is asked
    /// for. A token's location is that of the offset behind it.
    pub fn token(&mut self) -> (result: Result<Token, Error>)
        requires
            old(self).wf(),
        ensures
            final(self).wf(),
            final(self).source() == old(self).source(),
            final(self).pos() == scan(old(self).source(), old(self).pos()).end,
            item_view(result) == scan(old(self).source(), old(self).pos()).item,
    {
        self.skip_blank();
        let start: usize = self.loc.pos;
        proof {
            lemma_loc_exact(self.source@, self.loc.pos as int);
        }
        match self.chr_maybe {
            None => self.gen_token(TokenId::Eof),
            Some(chr) => match chr {
                '0'..='9' => {
                    self.advance();
                    let num = self.get_num(chr);
                    self.gen_token(TokenId::Num(num))
                },
                'a'..='z' | 'A'..='Z' | '_' => {
                    self.advance();
                    let digit_next = match self.chr_maybe {
                        Some(next) => '0' <= next && next <= '9',
                        None => false,
                    };
                    if chr == 'r' && digit_next {
                        let next = self.source.as_str().get_char(self.loc.pos);
                        self.advance();
                        match self.get_reg(next) {
                            Some(reg) => self.gen_token(TokenId::Reg(reg)),
                            None => {
                                proof {
                                    lemma_loc_exact(self.source@, self.loc.pos as int);
                                }
                                self.gen_error(ErrorId::InvalidReg, 1)
                            },
                        }
                    } else {
                        let iden = self.get_iden(start);
                        self.gen_token(TokenId::Iden(iden))
                    }
                },
                '-' => {
                    self.advance();
                    let arrow = match self.chr_maybe {
                        Some(next) => next == '>',
                        None => false,
                    };
                    if arrow {
                        self.advance();
                        self.gen_token(TokenId::To)
                    } else {
                        self.gen_token(TokenId::Sub)
                    }
                },
                _ => match punct_token(chr) {
                    Some(token_id) => {
                        self.advance();
                        self.gen_token(token_id)
                    },
                    None => self.gen_error(ErrorId::InvalidChar, 0),
                },
            },
        }
    }
}

/// The token that the single character `chr` is, if it is one.
fn punct_token(chr: char) -> (id: Option<TokenId>)
    ensures
        match id {
            Some(token_id) => punct(chr) == Some(token_id@),
            None => punct(chr) is None,
        },
{
    match chr {
        '!' => Some(TokenId::Not),
        '|' => Some(TokenId::Or),
        '&' => Some(TokenId::And),
        '^' => Some(TokenId::Xor),
        '+' => Some(TokenId::Add),
        '-' => Some(TokenId::Sub),
        '*' => Some(TokenId::Mul),
        '/' => Some(TokenId::Div),
        ',' => Some(TokenId::Comma),
        '=' => Some(TokenId::Eql),
        '<' => Some(TokenId::Lt),
        '>' => Some(TokenId::Gt),
        '?' => Some(TokenId::If),
        '(' => Some(TokenId::ParenL),
        ')' => Some(TokenId::ParenR),
        '[' => Some(TokenId::SquareL),
        ']' => Some(TokenId::SquareR),
        '\t' => Some(TokenId::Tab),
        '\n' => Some(TokenId::Line),
        _ => None,
    }
}

/// The number that the digit `chr` stands for.
fn digit(chr: char) -> (d: u8)
    requires
        is_digit(chr),
    ensures
        d == digit_value(chr),
        d <= 9,
{
    (chr as u32 - '0' as u32) as u8
}

} // verus!
