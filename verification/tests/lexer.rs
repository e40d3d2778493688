use jcpu_asm::error::{gen_error, Error, ErrorId};
use jcpu_asm::lexer::Lexer;
use jcpu_asm::loc::Loc;
use jcpu_asm::token::{Token, TokenId};

fn kinds(source: &str) -> Vec<Result<TokenId, ErrorId>> {
    let mut lexer = Lexer::new(source.to_string());
    let mut out = Vec::new();
    loop {
        match lexer.token() {
            Ok(token) => {
                let last = token.id == TokenId::Eof;
                out.push(Ok(token.id));
                if last {
                    return out;
                }
            }
            Err(error) => {
                out.push(Err(error.id));
                return out;
            }
        }
    }
}

#[test]
fn every_register_lexes_to_its_index() {
    for index in 0..16u8 {
        let text = format!("r{}", index);
        assert_eq!(kinds(&text), vec![Ok(TokenId::Reg(index)), Ok(TokenId::Eof)]);
    }
}

#[test]
fn registers_above_fifteen_are_refused() {
    for index in [16u64, 17, 99, 100, 255, 256, 4294967296, 18446744073709551615] {
        let text = format!("r{}", index);
        assert_eq!(kinds(&text), vec![Err(ErrorId::InvalidReg)]);
    }
    assert_eq!(kinds("r18446744073709551616"), vec![Err(ErrorId::InvalidReg)]);
    assert_eq!(kinds("r340282366920938463463374607431768211456"), vec![Err(ErrorId::InvalidReg)]);
}

#[test]
fn register_index_may_have_leading_zeros() {
    assert_eq!(kinds("r007"), vec![Ok(TokenId::Reg(7)), Ok(TokenId::Eof)]);
    assert_eq!(kinds("r015"), vec![Ok(TokenId::Reg(15)), Ok(TokenId::Eof)]);
    assert_eq!(kinds("r016"), vec![Err(ErrorId::InvalidReg)]);
}

#[test]
fn register_error_points_at_the_last_digit() {
    let mut lexer = Lexer::new("\n  r16".to_string());
    assert_eq!(lexer.token().ok().unwrap().id, TokenId::Line);
    assert_eq!(
        lexer.token().err(),
        Some(Error { id: ErrorId::InvalidReg, loc: Loc { pos: 6, col: 5, line: 2 } })
    );
}

#[test]
fn comment_is_elided() {
    assert_eq!(kinds("# comment\n\tr0 -> r1"), kinds("\tr0 -> r1"));
    assert_eq!(kinds("# comment\n5"), kinds("5"));
    assert_eq!(kinds("#\n"), kinds(""));
    assert_eq!(kinds("# no line break"), vec![Ok(TokenId::Eof)]);
}

#[test]
fn eof_repeats() {
    let mut lexer = Lexer::new("x".to_string());
    assert_eq!(lexer.token().ok().unwrap().id, TokenId::Iden("x".to_string()));
    for _ in 0..3 {
        let token = lexer.token().ok().unwrap();
        assert_eq!(token.id, TokenId::Eof);
        assert_eq!(token.loc, Loc { pos: 1, col: 2, line: 1 });
    }
}

#[test]
fn punctuation_maps_one_to_one() {
    assert_eq!(
        kinds("!|&^+-*/,=<>?()[]\t\n"),
        vec![
            Ok(TokenId::Not),
            Ok(TokenId::Or),
            Ok(TokenId::And),
            Ok(TokenId::Xor),
            Ok(TokenId::Add),
            Ok(TokenId::Sub),
            Ok(TokenId::Mul),
            Ok(TokenId::Div),
            Ok(TokenId::Comma),
            Ok(TokenId::Eql),
            Ok(TokenId::Lt),
            Ok(TokenId::Gt),
            Ok(TokenId::If),
            Ok(TokenId::ParenL),
            Ok(TokenId::ParenR),
            Ok(TokenId::SquareL),
            Ok(TokenId::SquareR),
            Ok(TokenId::Tab),
            Ok(TokenId::Line),
            Ok(TokenId::Eof),
        ]
    );
}

#[test]
fn arrow_is_one_token() {
    assert_eq!(kinds("->"), vec![Ok(TokenId::To), Ok(TokenId::Eof)]);
    assert_eq!(kinds("- >"), vec![Ok(TokenId::Sub), Ok(TokenId::Gt), Ok(TokenId::Eof)]);
    assert_eq!(kinds("-"), vec![Ok(TokenId::Sub), Ok(TokenId::Eof)]);
    assert_eq!(kinds("-->"), vec![Ok(TokenId::Sub), Ok(TokenId::To), Ok(TokenId::Eof)]);
}

#[test]
fn identifiers_and_registers_are_told_apart() {
    assert_eq!(kinds("r"), vec![Ok(TokenId::Iden("r".to_string())), Ok(TokenId::Eof)]);
    assert_eq!(kinds("rx1"), vec![Ok(TokenId::Iden("rx1".to_string())), Ok(TokenId::Eof)]);
    assert_eq!(kinds("r_1"), vec![Ok(TokenId::Iden("r_1".to_string())), Ok(TokenId::Eof)]);
    assert_eq!(kinds("R1"), vec![Ok(TokenId::Iden("R1".to_string())), Ok(TokenId::Eof)]);
    assert_eq!(kinds("_r1"), vec![Ok(TokenId::Iden("_r1".to_string())), Ok(TokenId::Eof)]);
    assert_eq!(kinds("ar1"), vec![Ok(TokenId::Iden("ar1".to_string())), Ok(TokenId::Eof)]);
    assert_eq!(
        kinds("r1x"),
        vec![Ok(TokenId::Reg(1)), Ok(TokenId::Iden("x".to_string())), Ok(TokenId::Eof)]
    );
    assert_eq!(kinds("Loop_2"), vec![Ok(TokenId::Iden("Loop_2".to_string())), Ok(TokenId::Eof)]);
}

#[test]
fn numbers_are_decimal() {
    assert_eq!(kinds("0"), vec![Ok(TokenId::Num(0)), Ok(TokenId::Eof)]);
    assert_eq!(kinds("007"), vec![Ok(TokenId::Num(7)), Ok(TokenId::Eof)]);
    assert_eq!(kinds("12345"), vec![Ok(TokenId::Num(12345)), Ok(TokenId::Eof)]);
    assert_eq!(kinds("2147483647"), vec![Ok(TokenId::Num(2147483647)), Ok(TokenId::Eof)]);
    assert_eq!(
        kinds("12ab"),
        vec![Ok(TokenId::Num(12)), Ok(TokenId::Iden("ab".to_string())), Ok(TokenId::Eof)]
    );
}

#[test]
fn numbers_wrap_at_the_machine_word() {
    let huge = "340282366920938463463374607431768211456";
    assert_eq!(kinds(huge), vec![Ok(TokenId::Num(0)), Ok(TokenId::Eof)]);
    let more = "340282366920938463463374607431768211461";
    assert_eq!(kinds(more), vec![Ok(TokenId::Num(5)), Ok(TokenId::Eof)]);
}

#[test]
fn spaces_are_skipped() {
    assert_eq!(
        kinds("  r1   +  2 "),
        vec![Ok(TokenId::Reg(1)), Ok(TokenId::Add), Ok(TokenId::Num(2)), Ok(TokenId::Eof)]
    );
}

#[test]
fn invalid_character_is_located_and_not_passed() {
    let mut lexer = Lexer::new("a\n @".to_string());
    assert_eq!(lexer.token().ok().unwrap().id, TokenId::Iden("a".to_string()));
    assert_eq!(lexer.token().ok().unwrap().id, TokenId::Line);
    let error = Error { id: ErrorId::InvalidChar, loc: Loc { pos: 3, col: 2, line: 2 } };
    assert_eq!(lexer.token().err(), Some(error));
    assert_eq!(lexer.token().err(), Some(error));
}

#[test]
fn non_ascii_characters_are_invalid() {
    assert_eq!(kinds("é"), vec![Err(ErrorId::InvalidChar)]);
    assert_eq!(kinds("# é\nx"), vec![Ok(TokenId::Iden("x".to_string())), Ok(TokenId::Eof)]);
}

#[test]
fn token_location_is_behind_the_token() {
    let mut lexer = Lexer::new("ab\n\tr2".to_string());
    let token = lexer.token().ok().unwrap();
    assert_eq!(token.loc, Loc { pos: 2, col: 3, line: 1 });
    let token = lexer.token().ok().unwrap();
    assert_eq!(token.id, TokenId::Line);
    assert_eq!(token.loc, Loc { pos: 3, col: 1, line: 2 });
    let token = lexer.token().ok().unwrap();
    assert_eq!(token.id, TokenId::Tab);
    assert_eq!(token.loc, Loc { pos: 4, col: 2, line: 2 });
    let token = lexer.token().ok().unwrap();
    assert_eq!(token.id, TokenId::Reg(2));
    assert_eq!(token.loc, Loc { pos: 6, col: 4, line: 2 });
}

#[test]
fn gen_error_takes_the_token_location() {
    let loc = Loc { pos: 9, col: 4, line: 2 };
    let token = Token { id: TokenId::Comma, loc };
    let result: Result<u8, Error> = gen_error(ErrorId::ExpectedAtom, token);
    assert_eq!(result, Err(Error { id: ErrorId::ExpectedAtom, loc }));
}

#[test]
fn token_clone_keeps_kind_and_place() {
    let loc = Loc { pos: 3, col: 4, line: 1 };
    let token = Token { id: TokenId::Iden("abc".to_string()), loc };
    let copy = token.clone();
    assert_eq!(copy.id, token.id);
    assert_eq!(copy.loc, token.loc);
}
