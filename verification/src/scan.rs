//! What the tokens of a text are: the lexer as a function of the text and
//! an offset.

use vstd::prelude::*;

use crate::error::{Error, ErrorId};
use crate::loc::{loc_at, Loc};
use crate::token::{Lexed, Lexeme, Token};

verus! {

/// Whether `c` is a decimal digit.
pub open spec fn is_digit(c: char) -> bool {
    '0' <= c <= '9'
}

/// Whether `c` is a letter of the Latin alphabet.
pub open spec fn is_letter(c: char) -> bool {
    'a' <= c <= 'z' || 'A' <= c <= 'Z'
}

/// Whether `c` can stand in an identifier behind its first character.
pub open spec fn in_word(c: char) -> bool {
    is_letter(c) || is_digit(c) || c == '_'
}

/// The number that the digit `c` stands for.
pub open spec fn digit_value(c: char) -> nat {
    (c as nat - '0' as nat) as nat
}

/// The end of the run of digits that starts at `from`.
pub open spec fn digits_end(src: Seq<char>, from: int) -> int
    decreases src.len() - from,
{
    if 0 <= from < src.len() && is_digit(src[from]) {
        digits_end(src, from + 1)
    } else {
        from
    }
}

/// The end of the run of identifier characters that starts at `from`.
pub open spec fn word_end(src: Seq<char>, from: int) -> int
    decreases src.len() - from,
{
    if 0 <= from < src.len() && in_word(src[from]) {
        word_end(src, from + 1)
    } else {
        from
    }
}

/// The offset of the first line break at or behind `from`, or the length of
/// the text where there is none.
pub open spec fn line_end(src: Seq<char>, from: int) -> int
    decreases src.len() - from,
{
    if 0 <= from < src.len() && src[from] != '\n' {
        line_end(src, from + 1)
    } else {
        from
    }
}

/// The number that the decimal digits `src[from..to]` write.
pub open spec fn decimal(src: Seq<char>, from: int, to: int) -> nat
    decreases to - from,
{
    if to <= from {
        0
    } else {
        decimal(src, from, to - 1) * 10 + digit_value(src[to - 1])
    }
}

/// `v` as a machine integer: reduced modulo the number of values of `isize`
/// into its range. A number that `isize` holds stays as it is.
pub open spec fn wrap(v: int) -> isize {
    let m = v % (usize::MAX + 1);
    if m > isize::MAX {
        (m - (usize::MAX + 1)) as isize
    } else {
        m as isize
    }
}

/// Where the next token starts: `from`, moved behind the spaces and the
/// comments that stand there. A comment runs from `#` through the line break
/// that ends its line.
pub open spec fn skip_blank(src: Seq<char>, from: int) -> int
    decreases src.len() - from,
{
    if from < 0 || from >= src.len() {
        from
    } else if src[from] == ' ' {
        skip_blank(src, from + 1)
    } else if src[from] == '#' {
        let end = line_end(src, from + 1);
        if from < end < src.len() {
            skip_blank(src, end + 1)
        } else {
            src.len() as int
        }
    } else {
        from
    }
}

/// The token that the single character `c` is, if it is one.
pub open spec fn punct(c: char) -> Option<Lexeme> {
    if c == '!' {
        Some(Lexeme::Not)
    } else if c == '|' {
        Some(Lexeme::Or)
    } else if c == '&' {
        Some(Lexeme::And)
    } else if c == '^' {
        Some(Lexeme::Xor)
    } else if c == '+' {
        Some(Lexeme::Add)
    } else if c == '-' {
        Some(Lexeme::Sub)
    } else if c == '*' {
        Some(Lexeme::Mul)
    } else if c == '/' {
        Some(Lexeme::Div)
    } else if c == ',' {
        Some(Lexeme::Comma)
    } else if c == '=' {
        Some(Lexeme::Eql)
    } else if c == '<' {
        Some(Lexeme::Lt)
    } else if c == '>' {
        Some(Lexeme::Gt)
    } else if c == '?' {
        Some(Lexeme::If)
    } else if c == '(' {
        Some(Lexeme::ParenL)
    } else if c == ')' {
        Some(Lexeme::ParenR)
    } else if c == '[' {
        Some(Lexeme::SquareL)
    } else if c == ']' {
        Some(Lexeme::SquareR)
    } else if c == '\t' {
        Some(Lexeme::Tab)
    } else if c == '\n' {
        Some(Lexeme::Line)
    } else {
        None
    }
}

/// What one call of the lexer yields: a token or a diagnostic, and the offset
/// at which the lexer stands afterwards.
pub struct Scan {
    pub item: Result<Lexed, Error>,
    pub end: int,
}

/// The token `id` that ends at `end`. Its location is that of `end`.
pub open spec fn found(src: Seq<char>, id: Lexeme, end: int) -> Scan {
    Scan { item: Ok(Lexed { id, loc: loc_at(src, end) }), end }
}

/// What the lexer yields when it stands at offset `from` of `src`.
///
/// Behind spaces and comments: the end of the text is `Eof`, and the lexer
/// stays there. A run of digits is a number. `r` with a digit behind it is a
/// register, whose index is the run of digits, and a diagnostic one column
/// before the end of the run where the index is above 15. A letter or an
/// underscore starts an identifier. `->` is one token. Any other character is
/// the token that `punct` gives, or a diagnostic at the character, which the
/// lexer does not pass.
pub open spec fn scan(src: Seq<char>, from: int) -> Scan {
    let at = skip_blank(src, from);
    if at < 0 || at >= src.len() {
        found(src, Lexeme::Eof, at)
    } else {
        let c = src[at];
        if is_digit(c) {
            let end = digits_end(src, at);
            found(src, Lexeme::Num(wrap(decimal(src, at, end) as int)), end)
        } else if c == 'r' && at + 1 < src.len() && is_digit(src[at + 1]) {
            let end = digits_end(src, at + 1);
            let index = decimal(src, at + 1, end);
            if index <= 15 {
                found(src, Lexeme::Reg(index as u8), end)
            } else {
                let here = loc_at(src, end);
                Scan {
                    item: Err(
                        Error {
                            id: ErrorId::InvalidReg,
                            loc: Loc {
                                pos: here.pos,
                                col: (here.col - 1) as usize,
                                line: here.line,
                            },
                        },
                    ),
                    end,
                }
            }
        } else if is_letter(c) || c == '_' {
            let end = word_end(src, at + 1);
            found(src, Lexeme::Iden(src.subrange(at, end)), end)
        } else if c == '-' && at + 1 < src.len() && src[at + 1] == '>' {
            found(src, Lexeme::To, at + 2)
        } else {
            match punct(c) {
                Some(id) => found(src, id, at + 1),
                None => Scan {
                    item: Err(Error { id: ErrorId::InvalidChar, loc: loc_at(src, at) }),
                    end: at,
                },
            }
        }
    }
}

/// Whether `item` ends the token stream: the end of the text, or a
/// diagnostic.
pub open spec fn is_last(item: Result<Lexed, Error>) -> bool {
    match item {
        Ok(token) => token.id is Eof,
        Err(_) => true,
    }
}

/// The tokens of `src` from offset `from` on: what the lexer yields call
/// after call, up to and including the first `Eof` or diagnostic.
pub open spec fn tokens_from(src: Seq<char>, from: int) -> Seq<Result<Lexed, Error>>
    decreases src.len() - from,
{
    let next = scan(src, from);
    if !is_last(next.item) && from < next.end <= src.len() {
        seq![next.item] + tokens_from(src, next.end)
    } else {
        seq![next.item]
    }
}

/// The tokens of the text `src`.
pub open spec fn tokens(src: Seq<char>) -> Seq<Result<Lexed, Error>> {
    tokens_from(src, 0)
}

/// A token or diagnostic as a mathematical value.
pub open spec fn item_view(result: Result<Token, Error>) -> Result<Lexed, Error> {
    match result {
        Ok(token) => Ok(token@),
        Err(error) => Err(error),
    }
}

/// A run of digits lies in the text, holds digits only and ends before a
/// character that is no digit.
pub proof fn lemma_digits_end(src: Seq<char>, from: int)
    requires
        0 <= from <= src.len(),
    ensures
        from <= digits_end(src, from) <= src.len(),
        forall|i: int| from <= i < digits_end(src, from) ==> is_digit(#[trigger] src[i]),
        digits_end(src, from) < src.len() ==> !is_digit(src[digits_end(src, from)]),
    decreases src.len() - from,
{
    if from < src.len() && is_digit(src[from]) {
        lemma_digits_end(src, from + 1);
    }
}

/// A run of identifier characters lies in the text.
pub proof fn lemma_word_end(src: Seq<char>, from: int)
    requires
        0 <= from <= src.len(),
    ensures
        from <= word_end(src, from) <= src.len(),
    decreases src.len() - from,
{
    if from < src.len() && in_word(src[from]) {
        lemma_word_end(src, from + 1);
    }
}

/// The end of a line lies in the text.
pub proof fn lemma_line_end(src: Seq<char>, from: int)
    requires
        0 <= from <= src.len(),
    ensures
        from <= line_end(src, from) <= src.len(),
    decreases src.len() - from,
{
    if from < src.len() && src[from] != '\n' {
        lemma_line_end(src, from + 1);
    }
}

/// Skipping spaces and comments never moves back and never leaves the text.
pub proof fn lemma_skip_blank(src: Seq<char>, from: int)
    requires
        0 <= from <= src.len(),
    ensures
        from <= skip_blank(src, from) <= src.len(),
    decreases src.len() - from,
{
    if from < src.len() {
        if src[from] == ' ' {
            lemma_skip_blank(src, from + 1);
        } else if src[from] == '#' {
            let end = line_end(src, from + 1);
            lemma_line_end(src, from + 1);
            if end < src.len() {
                lemma_skip_blank(src, end + 1);
            }
        }
    }
}

/// The lexer never moves back and never leaves the text, and every token
/// but `Eof` takes at least one character.
pub proof fn lemma_scan_moves(src: Seq<char>, from: int)
    requires
        0 <= from <= src.len(),
    ensures
        from <= scan(src, from).end <= src.len(),
        !is_last(scan(src, from).item) ==> from < scan(src, from).end,
{
    lemma_skip_blank(src, from);
    let at = skip_blank(src, from);
    if at < src.len() {
        lemma_digits_end(src, at);
        lemma_digits_end(src, at + 1);
        lemma_word_end(src, at + 1);
    }
}

/// A number in the range of `isize` is its own machine integer.
pub proof fn lemma_wrap_fits(a: int)
    requires
        isize::MIN <= a <= isize::MAX,
    ensures
        wrap(a) == a,
{
    let r = usize::MAX + 1;
    assert(isize::MAX * 2 + 2 == r && isize::MIN == -(isize::MAX + 1));
    if a >= 0 {
        vstd::arithmetic::div_mod::lemma_fundamental_div_mod_converse(a, r, 0, a);
    } else {
        vstd::arithmetic::div_mod::lemma_fundamental_div_mod_converse(a, r, -1, a + r);
    }
}

/// A machine integer differs from its number by a multiple of the modulus.
proof fn lemma_wrap_mod(v: int)
    ensures
        (wrap(v) as int) % (usize::MAX + 1) == v % (usize::MAX + 1),
{
    let r = usize::MAX + 1;
    let m = v % r;
    assert(isize::MAX * 2 + 2 == r);
    vstd::arithmetic::div_mod::lemma_mod_bound(v, r);
    if m > isize::MAX {
        vstd::arithmetic::div_mod::lemma_fundamental_div_mod_converse(m - r, r, -1, m);
    } else {
        vstd::arithmetic::div_mod::lemma_fundamental_div_mod_converse(m, r, 0, m);
    }
}

/// `v` as a 32-bit integer in two's complement.
pub open spec fn signed32(v: int) -> i32 {
    let m = v % 0x1_0000_0000;
    if m >= 0x8000_0000 {
        (m - 0x1_0000_0000) as i32
    } else {
        m as i32
    }
}

/// Cutting a machine integer down to 32 bits keeps it modulo 2^32.
proof fn lemma_cut(a: isize)
    ensures
        a as i32 == signed32(a as int),
{
    let c = a as i32;
    assert((c as int - a as int) % 0x1_0000_0000 == 0) by (bit_vector)
        requires
            c == a as i32,
    ;
    let m = (a as int) % 0x1_0000_0000;
    vstd::arithmetic::div_mod::lemma_mod_bound(a as int, 0x1_0000_0000);
    vstd::arithmetic::div_mod::lemma_fundamental_div_mod(a as int, 0x1_0000_0000);
    vstd::arithmetic::div_mod::lemma_fundamental_div_mod(c as int - a as int, 0x1_0000_0000);
    let q = (a as int) / 0x1_0000_0000;
    let k = (c as int - a as int) / 0x1_0000_0000;
    assert(c as int == m + 0x1_0000_0000 * (q + k));
    assert(q + k == 0 || q + k == -1) by (nonlinear_arith)
        requires
            c as int == m + 0x1_0000_0000 * (q + k),
            0 <= m < 0x1_0000_0000,
            -0x8000_0000 <= (c as int) < 0x8000_0000,
    ;
}

/// Whatever the width of a machine integer, a number token cut down to 32
/// bits is the number that was written, modulo 2^32; and as a word it is the
/// remainder itself.
pub proof fn lemma_number_is_modular(v: int)
    ensures
        wrap(v) as i32 == signed32(v),
        signed32(v) as u32 == v % 0x1_0000_0000,
{
    let r = usize::MAX + 1;
    lemma_cut(wrap(v));
    let m = v % r;
    vstd::arithmetic::div_mod::lemma_mod_bound(v, r);
    assert(r == 0x1_0000_0000 * (r / 0x1_0000_0000) && r / 0x1_0000_0000 > 0);
    vstd::arithmetic::div_mod::lemma_mod_mod(v, 0x1_0000_0000, r / 0x1_0000_0000);
    assert(m % 0x1_0000_0000 == v % 0x1_0000_0000);
    if m > isize::MAX {
        vstd::arithmetic::div_mod::lemma_mod_multiples_vanish(
            -(r / 0x1_0000_0000),
            m,
            0x1_0000_0000,
        );
        assert(0x1_0000_0000 * (-(r / 0x1_0000_0000)) + m == m - r);
    }
    let s = signed32(v);
    let low = (v % 0x1_0000_0000) as u32;
    vstd::arithmetic::div_mod::lemma_mod_bound(v, 0x1_0000_0000);
    assert(s as u32 == low) by (bit_vector)
        requires
            s >= 0 ==> low == s,
            s < 0 ==> low == s + 0x1_0000_0000,
    ;
}

/// One more digit: the wrapping operations on the machine integer of `v`
/// give the machine integer of `v * 10 + d`.
pub proof fn lemma_wrap_digit(v: int, d: int)
    requires
        0 <= d <= 9,
    ensures
        vstd::wrapping::isize_specs::wrapping_add(
            vstd::wrapping::isize_specs::wrapping_mul(wrap(v), 10),
            d as isize,
        ) == wrap(v * 10 + d),
{
    let r = usize::MAX + 1;
    assert(isize::MAX * 2 + 2 == r && isize::MIN == -(isize::MAX + 1));
    let a = wrap(v) as int;
    let b = vstd::wrapping::isize_specs::wrapping_mul(wrap(v), 10);
    assert(b == wrap(a * 10));
    lemma_wrap_mod(v);
    vstd::arithmetic::div_mod::lemma_mul_mod_noop_left(a, 10, r);
    vstd::arithmetic::div_mod::lemma_mul_mod_noop_left(v, 10, r);
    assert((a * 10) % r == (v * 10) % r);
    assert(b == wrap(v * 10));
    lemma_wrap_mod(v * 10);
    vstd::arithmetic::div_mod::lemma_add_mod_noop(b as int, d, r);
    vstd::arithmetic::div_mod::lemma_add_mod_noop(v * 10, d, r);
    assert((b + d) % r == (v * 10 + d) % r);
    if b + d > isize::MAX {
        vstd::arithmetic::div_mod::lemma_mod_multiples_vanish(-1, b + d, r);
        lemma_wrap_fits(b + d - r);
    } else {
        lemma_wrap_fits(b + d);
    }
}

/// What kind of item a token or diagnostic is, without its place.
pub open spec fn kind(item: Result<Lexed, Error>) -> Result<Lexeme, ErrorId> {
    match item {
        Ok(token) => Ok(token.id),
        Err(error) => Err(error.id),
    }
}

/// A run of digits ends where the text ends or a character is no digit.
pub proof fn lemma_digits_run(src: Seq<char>, from: int, to: int)
    requires
        0 <= from <= to <= src.len(),
        forall|i: int| from <= i < to ==> is_digit(#[trigger] src[i]),
        to < src.len() ==> !is_digit(src[to]),
    ensures
        digits_end(src, from) == to,
    decreases to - from,
{
    if from < to {
        lemma_digits_run(src, from + 1, to);
    }
}

/// The text `r` and the digits `digits` is one register token where the
/// digits write a number up to 15, and the register diagnostic where they
/// write a greater one.
pub proof fn lemma_register_literal(digits: Seq<char>)
    requires
        digits.len() > 0,
        forall|i: int| 0 <= i < digits.len() ==> is_digit(#[trigger] digits[i]),
    ensures
        ({
            let src = seq!['r'] + digits;
            let index = decimal(src, 1, src.len() as int);
            &&& scan(src, 0).end == src.len()
            &&& index <= 15 ==> kind(scan(src, 0).item) == Ok::<Lexeme, ErrorId>(
                Lexeme::Reg(index as u8),
            )
            &&& index > 15 ==> kind(scan(src, 0).item) == Err::<Lexeme, ErrorId>(
                ErrorId::InvalidReg,
            )
        }),
{
    let src = seq!['r'] + digits;
    assert forall|i: int| 1 <= i < src.len() implies is_digit(#[trigger] src[i]) by {
        assert(src[i] == digits[i - 1]);
    }
    lemma_digits_run(src, 1, src.len() as int);
}

/// A text of digits is one number token, whose number is the one that the
/// digits write where a machine integer holds it.
pub proof fn lemma_number_literal(digits: Seq<char>)
    requires
        digits.len() > 0,
        forall|i: int| 0 <= i < digits.len() ==> is_digit(#[trigger] digits[i]),
    ensures
        scan(digits, 0).end == digits.len(),
        kind(scan(digits, 0).item) == Ok::<Lexeme, ErrorId>(
            Lexeme::Num(wrap(decimal(digits, 0, digits.len() as int) as int)),
        ),
        decimal(digits, 0, digits.len() as int) <= isize::MAX ==> wrap(
            decimal(digits, 0, digits.len() as int) as int,
        ) == decimal(digits, 0, digits.len() as int),
{
    lemma_digits_run(digits, 0, digits.len() as int);
    if decimal(digits, 0, digits.len() as int) <= isize::MAX {
        lemma_wrap_fits(decimal(digits, 0, digits.len() as int) as int);
    }
}

/// Every register token names one of the registers 0 to 15.
pub proof fn lemma_register_in_range(src: Seq<char>, from: int)
    ensures
        scan(src, from).item matches Ok(token) ==> (token.id matches Lexeme::Reg(index)
            ==> index <= 15),
{
}

/// Text in front moves the end of a run of digits and changes nothing else.
proof fn lemma_digits_end_shift(pre: Seq<char>, rest: Seq<char>, at: int)
    requires
        0 <= at <= rest.len(),
    ensures
        digits_end(pre + rest, pre.len() + at) == pre.len() + digits_end(rest, at),
    decreases rest.len() - at,
{
    if at < rest.len() {
        assert((pre + rest)[pre.len() + at] == rest[at]);
        if is_digit(rest[at]) {
            lemma_digits_end_shift(pre, rest, at + 1);
        }
    }
}

/// Text in front moves the end of a run of identifier characters and changes
/// nothing else.
proof fn lemma_word_end_shift(pre: Seq<char>, rest: Seq<char>, at: int)
    requires
        0 <= at <= rest.len(),
    ensures
        word_end(pre + rest, pre.len() + at) == pre.len() + word_end(rest, at),
    decreases rest.len() - at,
{
    if at < rest.len() {
        assert((pre + rest)[pre.len() + at] == rest[at]);
        if in_word(rest[at]) {
            lemma_word_end_shift(pre, rest, at + 1);
        }
    }
}

/// Text in front moves the end of a line and changes nothing else.
proof fn lemma_line_end_shift(pre: Seq<char>, rest: Seq<char>, at: int)
    requires
        0 <= at <= rest.len(),
    ensures
        line_end(pre + rest, pre.len() + at) == pre.len() + line_end(rest, at),
    decreases rest.len() - at,
{
    if at < rest.len() {
        assert((pre + rest)[pre.len() + at] == rest[at]);
        if rest[at] != '\n' {
            lemma_line_end_shift(pre, rest, at + 1);
        }
    }
}

/// Text in front moves the start of the next token and changes nothing else.
proof fn lemma_skip_blank_shift(pre: Seq<char>, rest: Seq<char>, at: int)
    requires
        0 <= at <= rest.len(),
    ensures
        skip_blank(pre + rest, pre.len() + at) == pre.len() + skip_blank(rest, at),
    decreases rest.len() - at,
{
    if at < rest.len() {
        assert((pre + rest)[pre.len() + at] == rest[at]);
        if rest[at] == ' ' {
            lemma_skip_blank_shift(pre, rest, at + 1);
        } else if rest[at] == '#' {
            lemma_line_end_shift(pre, rest, at + 1);
            lemma_line_end(rest, at + 1);
            let end = line_end(rest, at + 1);
            if end < rest.len() {
                lemma_skip_blank_shift(pre, rest, end + 1);
            }
        }
    }
}

/// Text in front does not change the number that a run of digits writes.
proof fn lemma_decimal_shift(pre: Seq<char>, rest: Seq<char>, from: int, to: int)
    requires
        0 <= from <= to <= rest.len(),
    ensures
        decimal(pre + rest, pre.len() + from, pre.len() + to) == decimal(rest, from, to),
    decreases to - from,
{
    if from < to {
        assert((pre + rest)[pre.len() + to - 1] == rest[to - 1]);
        lemma_decimal_shift(pre, rest, from, to - 1);
    }
}

/// What the lexer yields depends on the text from its offset on only: with
/// `pre` in front of the text, it yields an item of the same kind and ends as
/// far behind its start.
pub proof fn lemma_scan_shift(pre: Seq<char>, rest: Seq<char>, from: int)
    requires
        0 <= from <= rest.len(),
    ensures
        scan(pre + rest, pre.len() + from).end == pre.len() + scan(rest, from).end,
        kind(scan(pre + rest, pre.len() + from).item) == kind(scan(rest, from).item),
{
    let src = pre + rest;
    let n = pre.len() as int;
    lemma_skip_blank_shift(pre, rest, from);
    lemma_skip_blank(rest, from);
    let at = skip_blank(rest, from);
    if at < rest.len() {
        assert(src[n + at] == rest[at]);
        lemma_digits_end_shift(pre, rest, at);
        lemma_digits_end(rest, at);
        lemma_decimal_shift(pre, rest, at, digits_end(rest, at));
        lemma_word_end_shift(pre, rest, at + 1);
        lemma_word_end(rest, at + 1);
        assert(src.subrange(n + at, n + word_end(rest, at + 1)) =~= rest.subrange(
            at,
            word_end(rest, at + 1),
        ));
        if at + 1 < rest.len() {
            assert(src[n + at + 1] == rest[at + 1]);
            lemma_digits_end_shift(pre, rest, at + 1);
            lemma_digits_end(rest, at + 1);
            lemma_decimal_shift(pre, rest, at + 1, digits_end(rest, at + 1));
        }
    }
}

/// At the end of the text the lexer yields `Eof` and stays where it is, so
/// it yields `Eof` however often it is asked.
pub proof fn lemma_eof_repeats(src: Seq<char>)
    ensures
        scan(src, src.len() as int) == found(src, Lexeme::Eof, src.len() as int),
{
}

/// A token stream holds at least one item, and its last item, and no other,
/// is `Eof` or a diagnostic.
pub proof fn lemma_tokens_end(src: Seq<char>, from: int)
    requires
        0 <= from <= src.len(),
    ensures
        tokens_from(src, from).len() >= 1,
        is_last(tokens_from(src, from).last()),
        forall|i: int|
            0 <= i < tokens_from(src, from).len() - 1 ==> !is_last(
                #[trigger] tokens_from(src, from)[i],
            ),
    decreases src.len() - from,
{
    let next = scan(src, from);
    lemma_scan_moves(src, from);
    if !is_last(next.item) {
        lemma_tokens_end(src, next.end);
    }
}

/// The kinds of the items of a token stream.
pub open spec fn kinds(ts: Seq<Result<Lexed, Error>>) -> Seq<Result<Lexeme, ErrorId>> {
    Seq::new(ts.len(), |i: int| kind(ts[i]))
}

/// The token stream depends on the text from the offset on only: with `pre`
/// in front of the text, the items are of the same kinds.
pub proof fn lemma_tokens_shift(pre: Seq<char>, rest: Seq<char>, from: int)
    requires
        0 <= from <= rest.len(),
    ensures
        kinds(tokens_from(pre + rest, pre.len() + from)) == kinds(tokens_from(rest, from)),
    decreases rest.len() - from,
{
    let shifted = scan(pre + rest, pre.len() + from);
    let plain = scan(rest, from);
    lemma_scan_shift(pre, rest, from);
    lemma_scan_moves(rest, from);
    if !is_last(plain.item) {
        lemma_tokens_shift(pre, rest, plain.end);
        let a = tokens_from(pre + rest, shifted.end);
        let b = tokens_from(rest, plain.end);
        assert(kinds(a) == kinds(b));
        assert(kinds(seq![shifted.item] + a) =~= seq![kind(shifted.item)] + kinds(a));
        assert(kinds(seq![plain.item] + b) =~= seq![kind(plain.item)] + kinds(b));
    } else {
        assert(kinds(seq![shifted.item]) =~= kinds(seq![plain.item]));
    }
}

/// A line that holds a comment and nothing else is not seen: the text behind
/// it gives the same kinds of tokens with it and without it.
pub proof fn lemma_comment_elided(comment: Seq<char>, rest: Seq<char>)
    requires
        forall|i: int| 0 <= i < comment.len() ==> #[trigger] comment[i] != '\n',
    ensures
        kinds(tokens(seq!['#'] + comment + seq!['\n'] + rest)) == kinds(tokens(rest)),
{
    let pre = seq!['#'] + comment + seq!['\n'];
    let src = pre + rest;
    let n = pre.len() as int;
    assert(src =~= seq!['#'] + comment + seq!['\n'] + rest);
    assert(src[0] == '#');
    assert(src[n - 1] == '\n');
    assert forall|i: int| 1 <= i < n - 1 implies #[trigger] src[i] != '\n' by {
        assert(src[i] == comment[i - 1]);
    }
    lemma_line_run(src, 1, n - 1);
    assert(skip_blank(src, 0) == skip_blank(src, n));
    assert(scan(src, 0) == scan(src, n));
    lemma_scan_moves(src, n);
    assert(tokens_from(src, 0) == tokens_from(src, n));
    lemma_tokens_shift(pre, rest, 0);
}

/// A line ends at the first line break.
proof fn lemma_line_run(src: Seq<char>, from: int, to: int)
    requires
        0 <= from <= to < src.len(),
        forall|i: int| from <= i < to ==> #[trigger] src[i] != '\n',
        src[to] == '\n',
    ensures
        line_end(src, from) == to,
    decreases to - from,
{
    if from < to {
        lemma_line_run(src, from + 1, to);
    }
}

} // verus!
