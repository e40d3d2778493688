//! The language as a function from token streams to statements.

use vstd::prelude::*;

use crate::error::{Error, ErrorId};
use crate::loc::Loc;
use crate::node::Ast;
use crate::scan::{kind, kinds, lemma_comment_elided, tokens};
use crate::token::{Lexed, Lexeme};

verus! {

/// The first item of a token stream. Behind its end a stream holds `Eof`.
pub open spec fn head(ts: Seq<Result<Lexed, Error>>) -> Result<Lexed, Error> {
    if ts.len() > 0 {
        ts[0]
    } else {
        Ok(Lexed { id: Lexeme::Eof, loc: Loc { pos: 0, col: 1, line: 1 } })
    }
}

/// What parsing a part of a token stream gives: the node, or the first
/// diagnostic, and the stream behind the part.
pub struct Parsed {
    pub result: Result<Ast, Error>,
    pub rest: Seq<Result<Lexed, Error>>,
}

/// `node` was parsed, and `rest` is left.
pub open spec fn done(node: Ast, rest: Seq<Result<Lexed, Error>>) -> Parsed {
    Parsed { result: Ok(node), rest }
}

/// Parsing stopped with `error`.
pub open spec fn fail(error: Error, rest: Seq<Result<Lexed, Error>>) -> Parsed {
    Parsed { result: Err(error), rest }
}

/// Parsing stopped at `token`, where something else was expected.
pub open spec fn unexpected(id: ErrorId, token: Lexed, rest: Seq<Result<Lexed, Error>>) -> Parsed {
    fail(Error { id, loc: token.loc }, rest)
}

/// `parsed` with its node wrapped by `wrap`.
pub open spec fn wrapped(parsed: Parsed, wrap: spec_fn(Ast) -> Ast) -> Parsed {
    match parsed.result {
        Ok(node) => done(wrap(node), parsed.rest),
        Err(_) => parsed,
    }
}

/// Whether `id` is an operator that joins two atoms.
pub open spec fn is_infix(id: Lexeme) -> bool {
    id is Or || id is And || id is Xor || id is Add || id is Sub || id is Sl || id is Sr
        || id is Mul || id is Div || id is Eql || id is Gt || id is Lt
}

/// The node of `left id right`, where `id` is an operator. `a > b` is
/// `b < a`.
pub open spec fn join(id: Lexeme, left: Ast, right: Ast) -> Ast {
    match id {
        Lexeme::Or => Ast::Or(Box::new(left), Box::new(right)),
        Lexeme::And => Ast::And(Box::new(left), Box::new(right)),
        Lexeme::Xor => Ast::Xor(Box::new(left), Box::new(right)),
        Lexeme::Add => Ast::Add(Box::new(left), Box::new(right)),
        Lexeme::Sub => Ast::Sub(Box::new(left), Box::new(right)),
        Lexeme::Sl => Ast::Sl(Box::new(left), Box::new(right)),
        Lexeme::Sr => Ast::Sr(Box::new(left), Box::new(right)),
        Lexeme::Mul => Ast::Mul(Box::new(left), Box::new(right)),
        Lexeme::Div => Ast::Div(Box::new(left), Box::new(right)),
        Lexeme::Eql => Ast::Eql(Box::new(left), Box::new(right)),
        Lexeme::Gt => Ast::Lt(Box::new(right), Box::new(left)),
        Lexeme::Lt => Ast::Lt(Box::new(left), Box::new(right)),
        _ => left,
    }
}

/// A parenthesized operand list: `(`, operands, `)`.
///
/// In this and the following functions a recursive call on what an earlier
/// call left is made only where that is no longer than the stream at hand.
/// This makes the definitions well-founded, and it always holds: see
/// [`lemma_opers_shrinks`] and the lemmas beside it.
pub open spec fn paren(ts: Seq<Result<Lexed, Error>>) -> Parsed
    decreases ts.len(), 0int,
{
    match head(ts) {
        Err(error) => fail(error, ts),
        Ok(token) => if token.id is ParenL {
            let inner = opers(ts.drop_first());
            match inner.result {
                Err(_) => inner,
                Ok(node) => match head(inner.rest) {
                    Err(error) => fail(error, inner.rest),
                    Ok(close) => if close.id is ParenR {
                        done(node, inner.rest.drop_first())
                    } else {
                        unexpected(ErrorId::ExpectedParen, close, inner.rest)
                    },
                },
            }
        } else {
            unexpected(ErrorId::ExpectedAtom, token, ts)
        },
    }
}

/// An atom: a number, an identifier, a register, a placeholder, an atom
/// behind `!`, `-` or `/`, a sized memory access, or a parenthesized operand
/// list.
pub open spec fn atom(ts: Seq<Result<Lexed, Error>>) -> Parsed
    decreases ts.len(), 1int,
{
    match head(ts) {
        Err(error) => fail(error, ts),
        Ok(token) => match token.id {
            Lexeme::Num(n) => done(Ast::Num(n as i32), ts.drop_first()),
            Lexeme::Iden(s) => done(Ast::Iden(s), ts.drop_first()),
            Lexeme::Reg(r) => done(Ast::Reg(r), ts.drop_first()),
            Lexeme::Empty => done(Ast::Empty, ts.drop_first()),
            Lexeme::Not => wrapped(atom(ts.drop_first()), |n: Ast| Ast::Not(Box::new(n))),
            Lexeme::Sub => wrapped(atom(ts.drop_first()), |n: Ast| Ast::Neg(Box::new(n))),
            Lexeme::Div => wrapped(atom(ts.drop_first()), |n: Ast| Ast::Rep(Box::new(n))),
            Lexeme::Mem8 => wrapped(paren(ts.drop_first()), |n: Ast| Ast::Mem8(Box::new(n))),
            Lexeme::Mem16 => wrapped(paren(ts.drop_first()), |n: Ast| Ast::Mem16(Box::new(n))),
            Lexeme::Mem32 => wrapped(paren(ts.drop_first()), |n: Ast| Ast::Mem32(Box::new(n))),
            _ => paren(ts),
        },
    }
}

/// The rest of an operator chain whose part so far is `left`: as long as an
/// operator follows, it takes the next atom and folds it into the node.
/// There is no precedence: `a + b * c` is `(a + b) * c`.
pub open spec fn chain(left: Ast, ts: Seq<Result<Lexed, Error>>) -> Parsed
    decreases ts.len(), 2int,
{
    match head(ts) {
        Err(error) => fail(error, ts),
        Ok(token) => if is_infix(token.id) {
            let right = atom(ts.drop_first());
            match right.result {
                Err(_) => right,
                Ok(node) => if right.rest.len() < ts.len() {
                    chain(join(token.id, left, node), right.rest)
                } else {
                    right
                },
            }
        } else {
            done(left, ts)
        },
    }
}

/// An operator chain: atoms joined by operators.
pub open spec fn oper(ts: Seq<Result<Lexed, Error>>) -> Parsed
    decreases ts.len(), 3int,
{
    let first = atom(ts);
    match first.result {
        Err(_) => first,
        Ok(node) => if first.rest.len() <= ts.len() {
            chain(node, first.rest)
        } else {
            first
        },
    }
}

/// The node of an operand list that holds `items`: one item is itself, two
/// or more are an `Opers` node.
pub open spec fn operands(items: Seq<Ast>) -> Ast {
    if items.len() == 1 {
        items[0]
    } else {
        Ast::Opers(items)
    }
}

/// The rest of an operand list that holds `items` so far: as long as a comma
/// follows, the next operator chain joins the list.
pub open spec fn list(items: Seq<Ast>, ts: Seq<Result<Lexed, Error>>) -> Parsed
    decreases ts.len(), 4int,
{
    match head(ts) {
        Err(error) => fail(error, ts),
        Ok(token) => if token.id is Comma {
            let next = oper(ts.drop_first());
            match next.result {
                Err(_) => next,
                Ok(node) => if next.rest.len() < ts.len() {
                    list(items.push(node), next.rest)
                } else {
                    next
                },
            }
        } else {
            done(operands(items), ts)
        },
    }
}

/// An operand list: operator chains separated by commas.
pub open spec fn opers(ts: Seq<Result<Lexed, Error>>) -> Parsed
    decreases ts.len(), 5int,
{
    let first = oper(ts);
    match first.result {
        Err(_) => first,
        Ok(node) => if first.rest.len() <= ts.len() {
            list(seq![node], first.rest)
        } else {
            first
        },
    }
}

/// A statement: an operand list; or two of them around `->`, an assignment;
/// or an assignment, `?` and an operator chain, a guarded assignment.
#[verifier::opaque]
pub open spec fn statement(ts: Seq<Result<Lexed, Error>>) -> Parsed {
    let left = opers(ts);
    match left.result {
        Err(_) => left,
        Ok(source) => match head(left.rest) {
            Err(error) => fail(error, left.rest),
            Ok(token) => if token.id is To {
                let right = opers(left.rest.drop_first());
                match right.result {
                    Err(_) => right,
                    Ok(target) => {
                        let to = Ast::To(Box::new(source), Box::new(target));
                        match head(right.rest) {
                            Err(error) => fail(error, right.rest),
                            Ok(mark) => if mark.id is If {
                                wrapped(
                                    oper(right.rest.drop_first()),
                                    |guard: Ast| Ast::Cond(Box::new(to), Box::new(guard)),
                                )
                            } else {
                                done(to, right.rest)
                            },
                        }
                    },
                }
            } else {
                done(source, left.rest)
            },
        },
    }
}

/// What must stand behind a statement or a label: a line break, behind which
/// the program goes on, or the end of the text.
pub open spec fn line_break(nodes: Seq<Ast>, ts: Seq<Result<Lexed, Error>>) -> Result<
    Seq<Ast>,
    Error,
>
    decreases ts.len(), 0int,
{
    match head(ts) {
        Err(error) => Err(error),
        Ok(token) => match token.id {
            Lexeme::Line => program(nodes, ts.drop_first()),
            Lexeme::Eof => Ok(nodes),
            _ => Err(Error { id: ErrorId::ExpectedLine, loc: token.loc }),
        },
    }
}

/// The statements of a program that holds `nodes` so far and goes on with
/// `ts`, line by line: a tab and a statement, or a label on a line of its
/// own, or nothing. The first diagnostic ends it.
pub open spec fn program(nodes: Seq<Ast>, ts: Seq<Result<Lexed, Error>>) -> Result<
    Seq<Ast>,
    Error,
>
    decreases ts.len(), 1int,
{
    match head(ts) {
        Err(error) => Err(error),
        Ok(token) => match token.id {
            Lexeme::Tab => {
                let line = statement(ts.drop_first());
                match line.result {
                    Err(error) => Err(error),
                    Ok(node) => if line.rest.len() <= ts.len() {
                        line_break(nodes.push(node), line.rest)
                    } else {
                        Ok(nodes.push(node))
                    },
                }
            },
            Lexeme::Iden(name) => line_break(nodes.push(Ast::Label(name)), ts.drop_first()),
            Lexeme::Line => program(nodes, ts.drop_first()),
            Lexeme::Eof => Ok(nodes),
            _ => Err(Error { id: ErrorId::ExpectedProgram, loc: token.loc }),
        },
    }
}

/// Operators have no precedence and fold to the left: three registers
/// joined by two operators are the first two joined, joined with the third.
pub proof fn lemma_chain_folds_left(
    a: Lexed,
    op1: Lexed,
    b: Lexed,
    op2: Lexed,
    c: Lexed,
    end: Lexed,
)
    requires
        a.id is Reg,
        b.id is Reg,
        c.id is Reg,
        is_infix(op1.id),
        is_infix(op2.id),
        !is_infix(end.id),
    ensures
        ({
            let ts = seq![
                Ok::<Lexed, Error>(a),
                Ok::<Lexed, Error>(op1),
                Ok::<Lexed, Error>(b),
                Ok::<Lexed, Error>(op2),
                Ok::<Lexed, Error>(c),
                Ok::<Lexed, Error>(end),
            ];
            oper(ts) == done(
                join(
                    op2.id,
                    join(op1.id, Ast::Reg(a.id->Reg_0), Ast::Reg(b.id->Reg_0)),
                    Ast::Reg(c.id->Reg_0),
                ),
                seq![Ok::<Lexed, Error>(end)],
            )
        }),
{
    let ts = seq![
        Ok::<Lexed, Error>(a),
        Ok::<Lexed, Error>(op1),
        Ok::<Lexed, Error>(b),
        Ok::<Lexed, Error>(op2),
        Ok::<Lexed, Error>(c),
        Ok::<Lexed, Error>(end),
    ];
    let ts1 = ts.drop_first();
    let ts2 = ts1.drop_first();
    let ts3 = ts2.drop_first();
    let ts4 = ts3.drop_first();
    let ts5 = ts4.drop_first();
    assert(ts5 =~= seq![Ok::<Lexed, Error>(end)]);
    let ab = join(op1.id, Ast::Reg(a.id->Reg_0), Ast::Reg(b.id->Reg_0));
    let abc = join(op2.id, ab, Ast::Reg(c.id->Reg_0));
    assert(atom(ts) == done(Ast::Reg(a.id->Reg_0), ts1));
    assert(atom(ts2) == done(Ast::Reg(b.id->Reg_0), ts3));
    assert(atom(ts4) == done(Ast::Reg(c.id->Reg_0), ts5));
    assert(chain(abc, ts5) == done(abc, ts5));
    assert(chain(ab, ts3) == chain(abc, ts5));
    assert(chain(Ast::Reg(a.id->Reg_0), ts1) == chain(ab, ts3));
}

/// `a > b` is the same node as `b < a`.
pub proof fn lemma_greater_is_less_mirrored(a: Ast, b: Ast)
    ensures
        join(Lexeme::Gt, a, b) == join(Lexeme::Lt, b, a),
{
}

/// Parsing a parenthesized operand list leaves no more than it was given.
pub proof fn lemma_paren_shrinks(ts: Seq<Result<Lexed, Error>>)
    ensures
        paren(ts).rest.len() <= ts.len(),
    decreases ts.len(), 0int,
{
    match head(ts) {
        Ok(token) => if token.id is ParenL {
            lemma_opers_shrinks(ts.drop_first());
        },
        Err(_) => {},
    }
}

/// Parsing an atom leaves no more than it was given.
pub proof fn lemma_atom_shrinks(ts: Seq<Result<Lexed, Error>>)
    ensures
        atom(ts).rest.len() <= ts.len(),
    decreases ts.len(), 1int,
{
    match head(ts) {
        Err(_) => {},
        Ok(token) => match token.id {
            Lexeme::Num(_) | Lexeme::Iden(_) | Lexeme::Reg(_) | Lexeme::Empty => {},
            Lexeme::Not | Lexeme::Sub | Lexeme::Div => {
                lemma_atom_shrinks(ts.drop_first());
            },
            Lexeme::Mem8 | Lexeme::Mem16 | Lexeme::Mem32 => {
                lemma_paren_shrinks(ts.drop_first());
            },
            _ => {
                lemma_paren_shrinks(ts);
            },
        },
    }
}

/// Going on with an operator chain leaves no more than it was given.
pub proof fn lemma_chain_shrinks(left: Ast, ts: Seq<Result<Lexed, Error>>)
    ensures
        chain(left, ts).rest.len() <= ts.len(),
    decreases ts.len(), 2int,
{
    match head(ts) {
        Ok(token) => if is_infix(token.id) {
            let right = atom(ts.drop_first());
            lemma_atom_shrinks(ts.drop_first());
            match right.result {
                Ok(node) => lemma_chain_shrinks(join(token.id, left, node), right.rest),
                Err(_) => {},
            }
        },
        Err(_) => {},
    }
}

/// Parsing an operator chain leaves no more than it was given.
pub proof fn lemma_oper_shrinks(ts: Seq<Result<Lexed, Error>>)
    ensures
        oper(ts).rest.len() <= ts.len(),
    decreases ts.len(), 3int,
{
    lemma_atom_shrinks(ts);
    match atom(ts).result {
        Ok(node) => lemma_chain_shrinks(node, atom(ts).rest),
        Err(_) => {},
    }
}

/// Going on with an operand list leaves no more than it was given.
pub proof fn lemma_list_shrinks(items: Seq<Ast>, ts: Seq<Result<Lexed, Error>>)
    ensures
        list(items, ts).rest.len() <= ts.len(),
    decreases ts.len(), 4int,
{
    match head(ts) {
        Ok(token) => if token.id is Comma {
            let next = oper(ts.drop_first());
            lemma_oper_shrinks(ts.drop_first());
            match next.result {
                Ok(node) => lemma_list_shrinks(items.push(node), next.rest),
                Err(_) => {},
            }
        },
        Err(_) => {},
    }
}

/// Parsing an operand list leaves no more than it was given.
pub proof fn lemma_opers_shrinks(ts: Seq<Result<Lexed, Error>>)
    ensures
        opers(ts).rest.len() <= ts.len(),
    decreases ts.len(), 5int,
{
    lemma_oper_shrinks(ts);
    match oper(ts).result {
        Ok(node) => lemma_list_shrinks(seq![node], oper(ts).rest),
        Err(_) => {},
    }
}

/// Parsing a statement leaves no more than it was given.
pub proof fn lemma_statement_shrinks(ts: Seq<Result<Lexed, Error>>)
    ensures
        statement(ts).rest.len() <= ts.len(),
{
    reveal(statement);
    let left = opers(ts);
    lemma_opers_shrinks(ts);
    if left.result is Ok && head(left.rest) is Ok && head(left.rest)->Ok_0.id is To {
        let right = opers(left.rest.drop_first());
        lemma_opers_shrinks(left.rest.drop_first());
        if right.result is Ok && head(right.rest) is Ok && head(right.rest)->Ok_0.id is If {
            lemma_oper_shrinks(right.rest.drop_first());
        }
    }
}

/// Whether two results of parsing are the same but for the places in them:
/// the same node in front of streams of the same kinds, or diagnostics of the
/// same kind.
pub open spec fn agree(p: Parsed, q: Parsed) -> bool {
    match (p.result, q.result) {
        (Ok(m), Ok(n)) => m == n && kinds(p.rest) == kinds(q.rest),
        (Err(e), Err(f)) => e.id == f.id,
        _ => false,
    }
}

/// Whether two programs are the same but for the places in them: the same
/// statements, or diagnostics of the same kind.
pub open spec fn agree_on_program(
    p: Result<Seq<Ast>, Error>,
    q: Result<Seq<Ast>, Error>,
) -> bool {
    match (p, q) {
        (Ok(m), Ok(n)) => m == n,
        (Err(e), Err(f)) => e.id == f.id,
        _ => false,
    }
}

/// Streams of the same kinds are as long as each other, start with items of
/// the same kind, and go on with streams of the same kinds.
proof fn lemma_kinds_step(a: Seq<Result<Lexed, Error>>, b: Seq<Result<Lexed, Error>>)
    requires
        kinds(a) == kinds(b),
    ensures
        a.len() == b.len(),
        kind(head(a)) == kind(head(b)),
        a.len() > 0 ==> kinds(a.drop_first()) == kinds(b.drop_first()),
{
    assert(kinds(a).len() == a.len() && kinds(b).len() == b.len());
    if a.len() > 0 {
        assert(kinds(a)[0] == kind(a[0]) && kinds(b)[0] == kind(b[0]));
        assert forall|i: int| 0 <= i < a.len() - 1 implies kind(a.drop_first()[i]) == kind(
            b.drop_first()[i],
        ) by {
            assert(kinds(a)[i + 1] == kind(a[i + 1]) && kinds(b)[i + 1] == kind(b[i + 1]));
        }
        assert(kinds(a.drop_first()) =~= kinds(b.drop_first()));
    }
}

/// A parenthesized operand list depends on the kinds of its tokens only.
proof fn lemma_paren_kinds(a: Seq<Result<Lexed, Error>>, b: Seq<Result<Lexed, Error>>)
    requires
        kinds(a) == kinds(b),
    ensures
        agree(paren(a), paren(b)),
    decreases a.len(), 0int,
{
    lemma_kinds_step(a, b);
    match head(a) {
        Ok(token) => if token.id is ParenL {
            lemma_opers_kinds(a.drop_first(), b.drop_first());
            let inner = opers(a.drop_first());
            if inner.result is Ok {
                lemma_kinds_step(inner.rest, opers(b.drop_first()).rest);
            }
        },
        Err(_) => {},
    }
}

/// An atom depends on the kinds of its tokens only.
proof fn lemma_atom_kinds(a: Seq<Result<Lexed, Error>>, b: Seq<Result<Lexed, Error>>)
    requires
        kinds(a) == kinds(b),
    ensures
        agree(atom(a), atom(b)),
    decreases a.len(), 1int,
{
    lemma_kinds_step(a, b);
    match head(a) {
        Err(_) => {},
        Ok(token) => match token.id {
            Lexeme::Num(_) | Lexeme::Iden(_) | Lexeme::Reg(_) | Lexeme::Empty => {},
            Lexeme::Not | Lexeme::Sub | Lexeme::Div => {
                lemma_atom_kinds(a.drop_first(), b.drop_first());
            },
            Lexeme::Mem8 | Lexeme::Mem16 | Lexeme::Mem32 => {
                lemma_paren_kinds(a.drop_first(), b.drop_first());
            },
            _ => {
                lemma_paren_kinds(a, b);
            },
        },
    }
}

/// The rest of an operator chain depends on the kinds of its tokens only.
proof fn lemma_chain_kinds(left: Ast, a: Seq<Result<Lexed, Error>>, b: Seq<Result<Lexed, Error>>)
    requires
        kinds(a) == kinds(b),
    ensures
        agree(chain(left, a), chain(left, b)),
    decreases a.len(), 2int,
{
    lemma_kinds_step(a, b);
    match head(a) {
        Ok(token) => if is_infix(token.id) {
            lemma_atom_kinds(a.drop_first(), b.drop_first());
            lemma_atom_shrinks(a.drop_first());
            let right = atom(a.drop_first());
            match right.result {
                Ok(node) => {
                    lemma_kinds_step(right.rest, atom(b.drop_first()).rest);
                    lemma_chain_kinds(
                        join(token.id, left, node),
                        right.rest,
                        atom(b.drop_first()).rest,
                    );
                },
                Err(_) => {},
            }
        },
        Err(_) => {},
    }
}

/// An operator chain depends on the kinds of its tokens only.
proof fn lemma_oper_kinds(a: Seq<Result<Lexed, Error>>, b: Seq<Result<Lexed, Error>>)
    requires
        kinds(a) == kinds(b),
    ensures
        agree(oper(a), oper(b)),
    decreases a.len(), 3int,
{
    lemma_kinds_step(a, b);
    lemma_atom_kinds(a, b);
    lemma_atom_shrinks(a);
    match atom(a).result {
        Ok(node) => {
            lemma_kinds_step(atom(a).rest, atom(b).rest);
            lemma_chain_kinds(node, atom(a).rest, atom(b).rest);
        },
        Err(_) => {},
    }
}

/// The rest of an operand list depends on the kinds of its tokens only.
proof fn lemma_list_kinds(
    items: Seq<Ast>,
    a: Seq<Result<Lexed, Error>>,
    b: Seq<Result<Lexed, Error>>,
)
    requires
        kinds(a) == kinds(b),
    ensures
        agree(list(items, a), list(items, b)),
    decreases a.len(), 4int,
{
    lemma_kinds_step(a, b);
    match head(a) {
        Ok(token) => if token.id is Comma {
            lemma_oper_kinds(a.drop_first(), b.drop_first());
            lemma_oper_shrinks(a.drop_first());
            let next = oper(a.drop_first());
            match next.result {
                Ok(node) => {
                    lemma_kinds_step(next.rest, oper(b.drop_first()).rest);
                    lemma_list_kinds(items.push(node), next.rest, oper(b.drop_first()).rest);
                },
                Err(_) => {},
            }
        },
        Err(_) => {},
    }
}

/// An operand list depends on the kinds of its tokens only.
proof fn lemma_opers_kinds(a: Seq<Result<Lexed, Error>>, b: Seq<Result<Lexed, Error>>)
    requires
        kinds(a) == kinds(b),
    ensures
        agree(opers(a), opers(b)),
    decreases a.len(), 5int,
{
    lemma_kinds_step(a, b);
    lemma_oper_kinds(a, b);
    lemma_oper_shrinks(a);
    match oper(a).result {
        Ok(node) => {
            lemma_kinds_step(oper(a).rest, oper(b).rest);
            lemma_list_kinds(seq![node], oper(a).rest, oper(b).rest);
        },
        Err(_) => {},
    }
}

/// A statement depends on the kinds of its tokens only.
proof fn lemma_statement_kinds(a: Seq<Result<Lexed, Error>>, b: Seq<Result<Lexed, Error>>)
    requires
        kinds(a) == kinds(b),
    ensures
        agree(statement(a), statement(b)),
{
    reveal(statement);
    lemma_opers_kinds(a, b);
    let left = opers(a);
    let other = opers(b);
    if left.result is Ok {
        lemma_kinds_step(left.rest, other.rest);
        if head(left.rest) is Ok && head(left.rest)->Ok_0.id is To {
            lemma_opers_kinds(left.rest.drop_first(), other.rest.drop_first());
            let right = opers(left.rest.drop_first());
            let mirror = opers(other.rest.drop_first());
            if right.result is Ok {
                lemma_kinds_step(right.rest, mirror.rest);
                if head(right.rest) is Ok && head(right.rest)->Ok_0.id is If {
                    lemma_oper_kinds(right.rest.drop_first(), mirror.rest.drop_first());
                }
            }
        }
    }
}

/// What follows a line depends on the kinds of its tokens only.
proof fn lemma_line_break_kinds(
    nodes: Seq<Ast>,
    a: Seq<Result<Lexed, Error>>,
    b: Seq<Result<Lexed, Error>>,
)
    requires
        kinds(a) == kinds(b),
    ensures
        agree_on_program(line_break(nodes, a), line_break(nodes, b)),
    decreases a.len(), 0int,
{
    lemma_kinds_step(a, b);
    match head(a) {
        Ok(token) => if token.id is Line {
            lemma_program_kinds(nodes, a.drop_first(), b.drop_first());
        },
        Err(_) => {},
    }
}

/// The statements of a program do not depend on where its tokens stand:
/// streams of the same kinds give the same statements, or diagnostics of the
/// same kind.
pub proof fn lemma_program_kinds(
    nodes: Seq<Ast>,
    a: Seq<Result<Lexed, Error>>,
    b: Seq<Result<Lexed, Error>>,
)
    requires
        kinds(a) == kinds(b),
    ensures
        agree_on_program(program(nodes, a), program(nodes, b)),
    decreases a.len(), 1int,
{
    lemma_kinds_step(a, b);
    match head(a) {
        Err(_) => {},
        Ok(token) => match token.id {
            Lexeme::Tab => {
                lemma_statement_kinds(a.drop_first(), b.drop_first());
                lemma_statement_shrinks(a.drop_first());
                let line = statement(a.drop_first());
                match line.result {
                    Ok(node) => {
                        lemma_kinds_step(line.rest, statement(b.drop_first()).rest);
                        lemma_line_break_kinds(
                            nodes.push(node),
                            line.rest,
                            statement(b.drop_first()).rest,
                        );
                    },
                    Err(_) => {},
                }
            },
            Lexeme::Iden(name) => {
                lemma_line_break_kinds(
                    nodes.push(Ast::Label(name)),
                    a.drop_first(),
                    b.drop_first(),
                );
            },
            Lexeme::Line => {
                lemma_program_kinds(nodes, a.drop_first(), b.drop_first());
            },
            _ => {},
        },
    }
}

/// A line that holds a comment and nothing else changes nothing: the text
/// behind it has the same statements with it and without it, or a diagnostic
/// of the same kind.
pub proof fn lemma_comment_line_ignored(comment: Seq<char>, rest: Seq<char>)
    requires
        forall|i: int| 0 <= i < comment.len() ==> #[trigger] comment[i] != '\n',
    ensures
        agree_on_program(parse_text(seq!['#'] + comment + seq!['\n'] + rest), parse_text(rest)),
{
    lemma_comment_elided(comment, rest);
    lemma_program_kinds(
        Seq::empty(),
        tokens(seq!['#'] + comment + seq!['\n'] + rest),
        tokens(rest),
    );
}

/// The statements of the text `src`, or its first diagnostic.
pub open spec fn parse_text(src: Seq<char>) -> Result<Seq<Ast>, Error> {
    program(Seq::empty(), tokens(src))
}

} // verus!
