//! The parser: reads the tokens of a text into the statements of a program.

use vstd::prelude::*;

use crate::codegen::GenState;
use crate::error::{gen_error, Error, ErrorId};
use crate::grammar::{
    atom, chain, head, is_infix, join, line_break, list, oper, operands, opers, paren, parse_text,
    program, statement,
};
use crate::lexer::Lexer;
use crate::node::{views, Ast, Node, Program};
use crate::scan::{is_last, item_view, lemma_scan_moves, scan, tokens_from};
use crate::token::{Lexed, Token, TokenId};

verus! {

/// The result of parsing a node as a mathematical value.
pub open spec fn node_result(result: Result<Node, Error>) -> Result<Ast, Error> {
    match result {
        Ok(node) => Ok(node@),
        Err(error) => Err(error),
    }
}

/// The lexer, and the token that it yielded last: the one that the parser
/// looks at.
struct Parser {
    lexer: Lexer,
    token_result: Result<Token, Error>,
}

impl Parser {
    /// The text that is parsed.
    spec fn source(&self) -> Seq<char> {
        self.lexer.source()
    }

    /// The token stream that is left: the token at hand, and behind it what
    /// the lexer will yield.
    spec fn rest(&self) -> Seq<Result<Lexed, Error>> {
        let item = item_view(self.token_result);
        if is_last(item) {
            seq![item]
        } else {
            seq![item] + tokens_from(self.lexer.source(), self.lexer.pos())
        }
    }

    /// The lexer is in order.
    spec fn wf(&self) -> bool {
        self.lexer.wf()
    }

    /// Takes the next token from the lexer.
    fn advance(&mut self)
        requires
            old(self).wf(),
            !is_last(item_view(old(self).token_result)),
        ensures
            final(self).wf(),
            final(self).source() == old(self).source(),
            final(self).rest() == old(self).rest().drop_first(),
    {
        proof {
            self.lexer.lemma_in_text();
            lemma_scan_moves(self.lexer.source(), self.lexer.pos());
        }
        self.token_result = self.lexer.token();
        assert(self.rest() =~= old(self).rest().drop_first());
    }

    /// Parses `(`, an operand list and `)`.
    fn parse_paren(&mut self) -> (result: Result<Node, Error>)
        requires
            old(self).wf(),
        ensures
            final(self).wf(),
            final(self).source() == old(self).source(),
            final(self).rest().len() <= old(self).rest().len(),
            node_result(result) == paren(old(self).rest()).result,
            result is Ok ==> final(self).rest() == paren(old(self).rest()).rest,
        decreases old(self).rest().len(), 0int,
    {
        match &self.token_result {
            Err(err) => Err(*err),
            Ok(token) => match token.id {
                TokenId::ParenL => {
                    self.advance();
                    let node_result = self.parse_opers();
                    match node_result {
                        Err(_) => node_result,
                        Ok(_) => match &self.token_result {
                            Err(err) => Err(*err),
                            Ok(token) => match token.id {
                                TokenId::ParenR => {
                                    self.advance();
                                    node_result
                                },
                                _ => gen_error(ErrorId::ExpectedParen, token.clone()),
                            },
                        },
                    }
                },
                _ => gen_error(ErrorId::ExpectedAtom, token.clone()),
            },
        }
    }

    /// Parses an atom.
    fn parse_atom(&mut self) -> (result: Result<Node, Error>)
        requires
            old(self).wf(),
        ensures
            final(self).wf(),
            final(self).source() == old(self).source(),
            final(self).rest().len() <= old(self).rest().len(),
            node_result(result) == atom(old(self).rest()).result,
            result is Ok ==> final(self).rest() == atom(old(self).rest()).rest,
        decreases old(self).rest().len(), 1int,
    {
        match &self.token_result {
            Err(err) => Err(*err),
            Ok(token) => match &token.id {
                TokenId::Num(num) => {
                    let node = Node::Num(
                        #[verifier::truncate]
                        (*num as i32),
                    );
                    self.advance();
                    Ok(node)
                },
                TokenId::Iden(iden) => {
                    let node = Node::Iden(iden.clone());
                    self.advance();
                    Ok(node)
                },
                TokenId::Reg(reg) => {
                    let node = Node::Reg(*reg);
                    self.advance();
                    Ok(node)
                },
                TokenId::Empty => {
                    self.advance();
                    Ok(Node::Empty)
                },
                TokenId::Not => {
                    self.advance();
                    match self.parse_atom() {
                        Err(err) => Err(err),
                        Ok(node) => Ok(Node::Not(Box::new(node))),
                    }
                },
                TokenId::Sub => {
                    self.advance();
                    match self.parse_atom() {
                        Err(err) => Err(err),
                        Ok(node) => Ok(Node::Neg(Box::new(node))),
                    }
                },
                TokenId::Div => {
                    self.advance();
                    match self.parse_atom() {
                        Err(err) => Err(err),
                        Ok(node) => Ok(Node::Rep(Box::new(node))),
                    }
                },
                TokenId::Mem8 => {
                    self.advance();
                    match self.parse_paren() {
                        Err(err) => Err(err),
                        Ok(node) => Ok(Node::Mem8(Box::new(node))),
                    }
                },
                TokenId::Mem16 => {
                    self.advance();
                    match self.parse_paren() {
                        Err(err) => Err(err),
                        Ok(node) => Ok(Node::Mem16(Box::new(node))),
                    }
                },
                TokenId::Mem32 => {
                    self.advance();
                    match self.parse_paren() {
                        Err(err) => Err(err),
                        Ok(node) => Ok(Node::Mem32(Box::new(node))),
                    }
                },
                _ => self.parse_paren(),
            },
        }
    }

    /// Parses an operator chain.
    fn parse_oper(&mut self) -> (result: Result<Node, Error>)
        requires
            old(self).wf(),
        ensures
            final(self).wf(),
            final(self).source() == old(self).source(),
            final(self).rest().len() <= old(self).rest().len(),
            node_result(result) == oper(old(self).rest()).result,
            result is Ok ==> final(self).rest() == oper(old(self).rest()).rest,
        decreases old(self).rest().len(), 3int,
    {
        let mut node = match self.parse_atom() {
            Err(err) => {
                return Err(err);
            },
            Ok(node) => node,
        };
        loop
            invariant
                self.wf(),
                self.source() == old(self).source(),
                self.rest().len() <= old(self).rest().len(),
                chain(node@, self.rest()) == oper(old(self).rest()),
            decreases self.rest().len(),
        {
            let id = match &self.token_result {
                Err(err) => {
                    return Err(*err);
                },
                Ok(token) => {
                    if !infix_token(&token.id) {
                        return Ok(node);
                    }
                    token.id.clone()
                },
            };
            self.advance();
            match self.parse_atom() {
                Err(err) => {
                    return Err(err);
                },
                Ok(right) => {
                    node = join_nodes(&id, node, right);
                },
            }
        }
    }

    /// Parses an operand list.
    fn parse_opers(&mut self) -> (result: Result<Node, Error>)
        requires
            old(self).wf(),
        ensures
            final(self).wf(),
            final(self).source() == old(self).source(),
            final(self).rest().len() <= old(self).rest().len(),
            node_result(result) == opers(old(self).rest()).result,
            result is Ok ==> final(self).rest() == opers(old(self).rest()).rest,
        decreases old(self).rest().len(), 5int,
    {
        let node = match self.parse_oper() {
            Err(err) => {
                return Err(err);
            },
            Ok(node) => node,
        };
        let mut nodes: Vec<Node> = Vec::new();
        proof {
            assert(views(nodes@.push(node)) =~= seq![node@]);
        }
        nodes.push(node);
        loop
            invariant
                self.wf(),
                self.source() == old(self).source(),
                self.rest().len() <= old(self).rest().len(),
                nodes.len() >= 1,
                list(views(nodes@), self.rest()) == opers(old(self).rest()),
            decreases self.rest().len(),
        {
            match &self.token_result {
                Err(err) => {
                    return Err(*err);
                },
                Ok(token) => match token.id {
                    TokenId::Comma => {},
                    _ => {
                        return Ok(list_node(nodes));
                    },
                },
            }
            self.advance();
            match self.parse_oper() {
                Err(err) => {
                    return Err(err);
                },
                Ok(node) => {
                    proof {
                        assert(views(nodes@.push(node)) =~= views(nodes@).push(node@));
                    }
                    nodes.push(node);
                },
            }
        }
    }

    /// Parses a statement.
    fn parse_to(&mut self) -> (result: Result<Node, Error>)
        requires
            old(self).wf(),
        ensures
            final(self).wf(),
            final(self).source() == old(self).source(),
            final(self).rest().len() <= old(self).rest().len(),
            node_result(result) == statement(old(self).rest()).result,
            result is Ok ==> final(self).rest() == statement(old(self).rest()).rest,
    {
        reveal(statement);
        let left = match self.parse_opers() {
            Err(err) => {
                return Err(err);
            },
            Ok(node) => node,
        };
        match &self.token_result {
            Err(err) => {
                return Err(*err);
            },
            Ok(token) => match token.id {
                TokenId::To => {},
                _ => {
                    return Ok(left);
                },
            },
        }
        self.advance();
        let right = match self.parse_opers() {
            Err(err) => {
                return Err(err);
            },
            Ok(node) => node,
        };
        let to = Node::To(Box::new(left), Box::new(right));
        match &self.token_result {
            Err(err) => {
                return Err(*err);
            },
            Ok(token) => match token.id {
                TokenId::If => {},
                _ => {
                    return Ok(to);
                },
            },
        }
        self.advance();
        match self.parse_oper() {
            Err(err) => Err(err),
            Ok(cond) => Ok(Node::Cond(Box::new(to), Box::new(cond))),
        }
    }

    /// Reads what ends a line. True where a line break was read and the
    /// program goes on, false at the end of the text.
    fn parse_line_end(&mut self) -> (result: Result<bool, Error>)
        requires
            old(self).wf(),
        ensures
            final(self).wf(),
            final(self).rest().len() <= old(self).rest().len(),
            match result {
                Ok(more) => head(old(self).rest()) matches Ok(token) && if more {
                    token.id is Line && final(self).rest() == old(self).rest().drop_first()
                } else {
                    token.id is Eof
                },
                Err(err) => match head(old(self).rest()) {
                    Ok(token) => !(token.id is Line) && !(token.id is Eof) && err == (Error {
                        id: ErrorId::ExpectedLine,
                        loc: token.loc,
                    }),
                    Err(error) => err == error,
                },
            },
    {
        match &self.token_result {
            Err(err) => Err(*err),
            Ok(token) => match token.id {
                TokenId::Line => {
                    self.advance();
                    Ok(true)
                },
                TokenId::Eof => Ok(false),
                _ => gen_error(ErrorId::ExpectedLine, token.clone()),
            },
        }
    }

    /// Reads one line into `nodes`. True where the program goes on behind
    /// it, false at the end of the text.
    fn parse_line(&mut self, nodes: &mut Vec<Node>) -> (result: Result<bool, Error>)
        requires
            old(self).wf(),
        ensures
            final(self).wf(),
            final(self).rest().len() <= old(self).rest().len(),
            match result {
                Ok(more) => if more {
                    final(self).rest().len() < old(self).rest().len() && program(
                        views(final(nodes)@),
                        final(self).rest(),
                    ) == program(views(old(nodes)@), old(self).rest())
                } else {
                    program(views(old(nodes)@), old(self).rest()) == Ok::<Seq<Ast>, Error>(
                        views(final(nodes)@),
                    )
                },
                Err(err) => program(views(old(nodes)@), old(self).rest()) == Err::<
                    Seq<Ast>,
                    Error,
                >(err),
            },
    {
        let ghost before = views(nodes@);
        let ghost ts = self.rest();
        match &self.token_result {
            Err(err) => Err(*err),
            Ok(token) => match &token.id {
                TokenId::Tab => {
                    self.advance();
                    match self.parse_to() {
                        Err(err) => Err(err),
                        Ok(node) => {
                            proof {
                                assert(views(nodes@.push(node)) =~= before.push(node@));
                            }
                            nodes.push(node);
                            let ghost line = self.rest();
                            let r = self.parse_line_end();
                            assert(program(before, ts) == line_break(before.push(node@), line));
                            r
                        },
                    }
                },
                TokenId::Iden(iden) => {
                    let node = Node::Label(iden.clone());
                    proof {
                        assert(views(nodes@.push(node)) =~= before.push(node@));
                    }
                    nodes.push(node);
                    self.advance();
                    let r = self.parse_line_end();
                    assert(program(before, ts) == line_break(before.push(node@), ts.drop_first()));
                    r
                },
                TokenId::Line => {
                    self.advance();
                    Ok(true)
                },
                TokenId::Eof => Ok(false),
                _ => gen_error(ErrorId::ExpectedProgram, token.clone()),
            },
        }
    }

    /// Parses a program.
    fn parse(&mut self) -> (result: Result<Program, Error>)
        requires
            old(self).wf(),
        ensures
            match result {
                Ok(parsed) => program(Seq::empty(), old(self).rest()) == Ok::<Seq<Ast>, Error>(
                    views(parsed.nodes@),
                ) && parsed.wf() && parsed.state() == GenState::fresh(),
                Err(err) => program(Seq::empty(), old(self).rest()) == Err::<Seq<Ast>, Error>(err),
            },
    {
        let mut nodes: Vec<Node> = Vec::new();
        assert(views(nodes@) =~= Seq::empty());
        loop
            invariant_except_break
                self.wf(),
                program(views(nodes@), self.rest()) == program(Seq::empty(), old(self).rest()),
            ensures
                program(Seq::empty(), old(self).rest()) == Ok::<Seq<Ast>, Error>(views(nodes@)),
            decreases self.rest().len(),
        {
            match self.parse_line(&mut nodes) {
                Err(err) => {
                    return Err(err);
                },
                Ok(more) => {
                    if !more {
                        break ;
                    }
                },
            }
        }
        Ok(Program::new(nodes))
    }
}

/// The node of an operand list that holds `nodes`.
fn list_node(nodes: Vec<Node>) -> (node: Node)
    requires
        nodes.len() >= 1,
    ensures
        node@ == operands(views(nodes@)),
{
    let mut nodes = nodes;
    if nodes.len() == 1 {
        match nodes.pop() {
            Some(node) => node,
            None => Node::Empty,
        }
    } else {
        let node = Node::Opers(nodes);
        assert(node@->Opers_0 =~= views(nodes@));
        node
    }
}

/// Whether `id` is an operator that joins two atoms.
fn infix_token(id: &TokenId) -> (b: bool)
    ensures
        b == is_infix(id@),
{
    match id {
        TokenId::Or
        | TokenId::And
        | TokenId::Xor
        | TokenId::Add
        | TokenId::Sub
        | TokenId::Sl
        | TokenId::Sr
        | TokenId::Mul
        | TokenId::Div
        | TokenId::Eql
        | TokenId::Gt
        | TokenId::Lt => true,
        _ => false,
    }
}

/// The node of `left id right`.
fn join_nodes(id: &TokenId, left: Node, right: Node) -> (node: Node)
    ensures
        node@ == join(id@, left@, right@),
{
    match id {
        TokenId::Or => Node::Or(Box::new(left), Box::new(right)),
        TokenId::And => Node::And(Box::new(left), Box::new(right)),
        TokenId::Xor => Node::Xor(Box::new(left), Box::new(right)),
        TokenId::Add => Node::Add(Box::new(left), Box::new(right)),
        TokenId::Sub => Node::Sub(Box::new(left), Box::new(right)),
        TokenId::Sl => Node::Sl(Box::new(left), Box::new(right)),
        TokenId::Sr => Node::Sr(Box::new(left), Box::new(right)),
        TokenId::Mul => Node::Mul(Box::new(left), Box::new(right)),
        TokenId::Div => Node::Div(Box::new(left), Box::new(right)),
        TokenId::Eql => Node::Eql(Box::new(left), Box::new(right)),
        TokenId::Gt => Node::Lt(Box::new(right), Box::new(left)),
        TokenId::Lt => Node::Lt(Box::new(left), Box::new(right)),
        _ => left,
    }
}

/// Parses the text `source` into a program ready to be generated: its
/// statements in order, or the first diagnostic.
pub fn parse(source: String) -> (result: Result<Program, Error>)
    requires
        source@.len() < usize::MAX,
    ensures
        match result {
            Ok(parsed) => parse_text(source@) == Ok::<Seq<Ast>, Error>(views(parsed.nodes@))
                && parsed.wf() && parsed.state() == GenState::fresh(),
            Err(err) => parse_text(source@) == Err::<Seq<Ast>, Error>(err),
        },
{
    let mut lexer = Lexer::new(source);
    proof {
        lexer.lemma_in_text();
        lemma_scan_moves(lexer.source(), lexer.pos());
    }
    let token_result = lexer.token();
    let mut parser = Parser { lexer, token_result };
    assert(parser.rest() =~= tokens_from(source@, 0));
    parser.parse()
}

} // verus!
