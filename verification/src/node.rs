//! The statements of a program, and the generator that turns them into
//! words.

use vstd::hash_map::StringHashMap;
use vstd::prelude::*;

use crate::codegen::{
    assemble, assemble_all, compute, enqueue, guard_reg, is_operand, lemma_patch_push, patch, refer,
    refer_all, resolve, select, shape, with_src0, with_src1, Choice, GenState,
};
use crate::cpu::{Inst, Opcode};

verus! {

/// A statement of a program, or a part of one.
///
/// `To(source, destination)` is the assignment written `source -> destination`.
/// `Cond(statement, guard)` is the statement written `statement ? guard`.
/// `Lt(a, b)` stands for both `a < b` and `b > a`. `Label` is the definition
/// of a label, `Iden` the use of one.
#[derive(Debug)]
pub enum Node {
    Num(i32),
    Iden(String),
    Reg(u8),
    Label(String),
    Empty,
    Not(Box<Node>),
    Neg(Box<Node>),
    Rep(Box<Node>),
    Mem(Box<Node>),
    Or(Box<Node>, Box<Node>),
    And(Box<Node>, Box<Node>),
    Xor(Box<Node>, Box<Node>),
    Add(Box<Node>, Box<Node>),
    Sub(Box<Node>, Box<Node>),
    Sl(Box<Node>, Box<Node>),
    Sr(Box<Node>, Box<Node>),
    Mul(Box<Node>, Box<Node>),
    Div(Box<Node>, Box<Node>),
    Eql(Box<Node>, Box<Node>),
    Lt(Box<Node>, Box<Node>),
    Mem8(Box<Node>),
    Mem16(Box<Node>),
    Mem32(Box<Node>),
    Opers(Vec<Node>),
    To(Box<Node>, Box<Node>),
    Cond(Box<Node>, Box<Node>),
}

/// A [`Node`] as a mathematical value: names are character sequences and an
/// operand list is a sequence.
pub enum Ast {
    Num(i32),
    Iden(Seq<char>),
    Reg(u8),
    Label(Seq<char>),
    Empty,
    Not(Box<Ast>),
    Neg(Box<Ast>),
    Rep(Box<Ast>),
    Mem(Box<Ast>),
    Or(Box<Ast>, Box<Ast>),
    And(Box<Ast>, Box<Ast>),
    Xor(Box<Ast>, Box<Ast>),
    Add(Box<Ast>, Box<Ast>),
    Sub(Box<Ast>, Box<Ast>),
    Sl(Box<Ast>, Box<Ast>),
    Sr(Box<Ast>, Box<Ast>),
    Mul(Box<Ast>, Box<Ast>),
    Div(Box<Ast>, Box<Ast>),
    Eql(Box<Ast>, Box<Ast>),
    Lt(Box<Ast>, Box<Ast>),
    Mem8(Box<Ast>),
    Mem16(Box<Ast>),
    Mem32(Box<Ast>),
    Opers(Seq<Ast>),
    To(Box<Ast>, Box<Ast>),
    Cond(Box<Ast>, Box<Ast>),
}

impl Node {
    /// The node as a mathematical value.
    pub open spec fn view(&self) -> Ast
        decreases self,
    {
        match self {
            Node::Num(n) => Ast::Num(*n),
            Node::Iden(s) => Ast::Iden(s@),
            Node::Reg(r) => Ast::Reg(*r),
            Node::Label(s) => Ast::Label(s@),
            Node::Empty => Ast::Empty,
            Node::Not(a) => Ast::Not(Box::new(a.view())),
            Node::Neg(a) => Ast::Neg(Box::new(a.view())),
            Node::Rep(a) => Ast::Rep(Box::new(a.view())),
            Node::Mem(a) => Ast::Mem(Box::new(a.view())),
            Node::Or(a, b) => Ast::Or(Box::new(a.view()), Box::new(b.view())),
            Node::And(a, b) => Ast::And(Box::new(a.view()), Box::new(b.view())),
            Node::Xor(a, b) => Ast::Xor(Box::new(a.view()), Box::new(b.view())),
            Node::Add(a, b) => Ast::Add(Box::new(a.view()), Box::new(b.view())),
            Node::Sub(a, b) => Ast::Sub(Box::new(a.view()), Box::new(b.view())),
            Node::Sl(a, b) => Ast::Sl(Box::new(a.view()), Box::new(b.view())),
            Node::Sr(a, b) => Ast::Sr(Box::new(a.view()), Box::new(b.view())),
            Node::Mul(a, b) => Ast::Mul(Box::new(a.view()), Box::new(b.view())),
            Node::Div(a, b) => Ast::Div(Box::new(a.view()), Box::new(b.view())),
            Node::Eql(a, b) => Ast::Eql(Box::new(a.view()), Box::new(b.view())),
            Node::Lt(a, b) => Ast::Lt(Box::new(a.view()), Box::new(b.view())),
            Node::Mem8(a) => Ast::Mem8(Box::new(a.view())),
            Node::Mem16(a) => Ast::Mem16(Box::new(a.view())),
            Node::Mem32(a) => Ast::Mem32(Box::new(a.view())),
            Node::Opers(v) => Ast::Opers(
                Seq::new(
                    v.len() as nat,
                    |i: int|
                        if 0 <= i < v.len() {
                            v[i].view()
                        } else {
                            Ast::Empty
                        },
                ),
            ),
            Node::To(a, b) => Ast::To(Box::new(a.view()), Box::new(b.view())),
            Node::Cond(a, b) => Ast::Cond(Box::new(a.view()), Box::new(b.view())),
        }
    }
}

impl Clone for Node {
    #[verifier::loop_isolation(false)]
    fn clone(&self) -> (copy: Node)
        ensures
            copy@ == self@,
        decreases self,
    {
        match self {
            Node::Num(n) => Node::Num(*n),
            Node::Iden(s) => Node::Iden(s.clone()),
            Node::Reg(r) => Node::Reg(*r),
            Node::Label(s) => Node::Label(s.clone()),
            Node::Empty => Node::Empty,
            Node::Not(a) => Node::Not(Box::new((&**a).clone())),
            Node::Neg(a) => Node::Neg(Box::new((&**a).clone())),
            Node::Rep(a) => Node::Rep(Box::new((&**a).clone())),
            Node::Mem(a) => Node::Mem(Box::new((&**a).clone())),
            Node::Or(a, b) => Node::Or(Box::new((&**a).clone()), Box::new((&**b).clone())),
            Node::And(a, b) => Node::And(Box::new((&**a).clone()), Box::new((&**b).clone())),
            Node::Xor(a, b) => Node::Xor(Box::new((&**a).clone()), Box::new((&**b).clone())),
            Node::Add(a, b) => Node::Add(Box::new((&**a).clone()), Box::new((&**b).clone())),
            Node::Sub(a, b) => Node::Sub(Box::new((&**a).clone()), Box::new((&**b).clone())),
            Node::Sl(a, b) => Node::Sl(Box::new((&**a).clone()), Box::new((&**b).clone())),
            Node::Sr(a, b) => Node::Sr(Box::new((&**a).clone()), Box::new((&**b).clone())),
            Node::Mul(a, b) => Node::Mul(Box::new((&**a).clone()), Box::new((&**b).clone())),
            Node::Div(a, b) => Node::Div(Box::new((&**a).clone()), Box::new((&**b).clone())),
            Node::Eql(a, b) => Node::Eql(Box::new((&**a).clone()), Box::new((&**b).clone())),
            Node::Lt(a, b) => Node::Lt(Box::new((&**a).clone()), Box::new((&**b).clone())),
            Node::Mem8(a) => Node::Mem8(Box::new((&**a).clone())),
            Node::Mem16(a) => Node::Mem16(Box::new((&**a).clone())),
            Node::Mem32(a) => Node::Mem32(Box::new((&**a).clone())),
            Node::Opers(v) => {
                let mut copies: Vec<Node> = Vec::new();
                let mut i: usize = 0;
                while i < v.len()
                    invariant
                        i <= v.len(),
                        copies.len() == i,
                        forall|j: int| 0 <= j < i ==> copies[j]@ == v[j]@,
                    decreases v.len() - i,
                {
                    copies.push(v[i].clone());
                    i += 1;
                }
                let copy = Node::Opers(copies);
                assert(copy@->Opers_0 =~= self@->Opers_0);
                copy
            },
            Node::To(a, b) => Node::To(Box::new((&**a).clone()), Box::new((&**b).clone())),
            Node::Cond(a, b) => Node::Cond(Box::new((&**a).clone()), Box::new((&**b).clone())),
        }
    }
}

/// The statements of a list of nodes.
pub open spec fn views(nodes: Seq<Node>) -> Seq<Ast> {
    Seq::new(nodes.len(), |i: int| nodes[i]@)
}

/// Generation is a function of the statements: two programs that hold the
/// same statements and nothing generated yet give the same words, or fail
/// both.
pub proof fn lemma_gen_repeats(a: Program, b: Program)
    requires
        a.state() == GenState::fresh(),
        b.state() == GenState::fresh(),
        views(a.nodes@) == views(b.nodes@),
    ensures
        a.state().run(views(a.nodes@)) == b.state().run(views(b.nodes@)),
        assemble_all(views(a.nodes@)) == match a.state().run(views(a.nodes@)) {
            Some(end) => Some(end.binary),
            None => None,
        },
{
}

/// An instruction that was selected, with its operands not yet encoded.
struct Pick<'a> {
    opcode: Opcode,
    dest: Option<u8>,
    first: &'a Node,
    second: Option<&'a Node>,
}

impl<'a> Pick<'a> {
    spec fn view(&self) -> Choice {
        Choice {
            opcode: self.opcode,
            dest: self.dest,
            first: self.first@,
            second: match self.second {
                Some(b) => Some(b@),
                None => None,
            },
        }
    }
}

/// The program being generated: the statements still to come, the words
/// emitted so far, the labels defined so far, and the offsets that wait for
/// labels not yet defined. `addr` is the number of words emitted.
pub struct Program {
    pub nodes: Vec<Node>,
    pub binary: Vec<u32>,
    pub labels: StringHashMap<i32>,
    pub queue: StringHashMap<Vec<usize>>,
    pub addr: usize,
}

impl Program {
    /// The generator's state.
    pub open spec fn state(&self) -> GenState {
        GenState {
            binary: self.binary@,
            labels: self.labels@,
            queue: self.queue@.map_values(|v: Vec<usize>| v@),
        }
    }

    /// The cursor stands at the end of the output, and every waiting offset
    /// is the offset of an emitted word.
    pub open spec fn wf(&self) -> bool {
        self.addr == self.binary@.len() && self.state().wf()
    }

    /// A program of the statements `nodes`, with nothing generated yet.
    pub fn new(nodes: Vec<Node>) -> (program: Program)
        ensures
            program.wf(),
            program.nodes == nodes,
            program.state() == GenState::fresh(),
    {
        let program = Program {
            nodes,
            binary: Vec::new(),
            labels: StringHashMap::new(),
            queue: StringHashMap::new(),
            addr: 0,
        };
        assert(program.state().queue =~= Map::empty());
        program
    }

    /// Generates the words of the program: those of its statements in order,
    /// started from the state that the program holds. `None` where a
    /// statement fails; nothing of the output is handed out then.
    pub fn gen(self) -> (binary: Option<Vec<u32>>)
        requires
            self.wf(),
        ensures
            match self.state().run(views(self.nodes@)) {
                Some(end) => binary matches Some(words) && words@ == end.binary,
                None => binary is None,
            },
    {
        let Program { nodes, binary, labels, queue, addr } = self;
        let mut program = Program { nodes: Vec::new(), binary, labels, queue, addr };
        let ghost all = views(nodes@);
        assert(all.skip(0) =~= all);
        assert(program.state().queue =~= self.state().queue);
        let mut i: usize = 0;
        while i < nodes.len()
            invariant
                i <= nodes.len(),
                nodes == self.nodes,
                all == views(nodes@),
                program.wf(),
                program.state().run(all.skip(i as int)) == self.state().run(all),
            decreases nodes.len() - i,
        {
            assert(all.skip(i as int).drop_first() =~= all.skip(i + 1));
            assert(all.skip(i as int)[0] == nodes[i as int]@);
            assert(all.skip(i as int).len() == nodes.len() - i);
            let ghost before = program.state();
            if !nodes[i].gen(&mut program) {
                assert(before.run(all.skip(i as int)) is None);
                return None;
            }
            i += 1;
        }
        assert(all.skip(i as int).len() == 0);
        Some(program.binary)
    }

    /// Emits `word`.
    fn emit(&mut self, word: u32)
        ensures
            final(self).addr == final(self).binary@.len(),
            final(self).binary@ == old(self).binary@.push(word),
            final(self).state() == old(self).state().emit(seq![word]),
            final(self).nodes == old(self).nodes,
    {
        self.binary.push(word);
        self.addr = self.binary.len();
        assert(self.state().binary =~= old(self).state().emit(seq![word]).binary);
    }

    /// The word that stands for label `iden` in the word at offset `at`.
    /// Where the label is not defined yet, `at` is queued for it.
    fn get_iden(&mut self, iden: &String, at: usize) -> (word: u32)
        ensures
            word == resolve(old(self).labels@, iden@),
            final(self).state().queue == enqueue(
                old(self).labels@,
                old(self).state().queue,
                iden@,
                at,
            ),
            final(self).labels == old(self).labels,
            final(self).binary == old(self).binary,
            final(self).addr == old(self).addr,
            final(self).nodes == old(self).nodes,
    {
        match self.labels.get(iden.as_str()) {
            Some(num) => {
                #[verifier::truncate]
                (*num as u32)
            },
            None => {
                let mut waiting: Vec<usize> = match self.queue.get(iden.as_str()) {
                    Some(offsets) => offsets.clone(),
                    None => Vec::new(),
                };
                waiting.push(at);
                self.queue.insert(iden.clone(), waiting);
                assert(self.state().queue =~= enqueue(
                    old(self).labels@,
                    old(self).state().queue,
                    iden@,
                    at,
                ));
                0
            },
        }
    }
}

impl Node {
    /// Encodes the node in the first source slot of `inst`. False where the
    /// node is no operand.
    fn gen_src0(&self, program: &mut Program, inst: &mut Inst, at: usize) -> (ok: bool)
        ensures
            ok == is_operand(self@),
            ok ==> *final(inst) == with_src0(*old(inst), old(program).labels@, self@),
            ok ==> final(program).state().queue == refer(
                old(program).labels@,
                old(program).state().queue,
                self@,
                at,
            ),
            final(program).labels == old(program).labels,
            final(program).binary == old(program).binary,
            final(program).addr == old(program).addr,
            final(program).nodes == old(program).nodes,
    {
        match self {
            Node::Num(num) => {
                inst.i0 = true;
                inst.imm0 = #[verifier::truncate]
                (*num as u32);
                true
            },
            Node::Reg(reg) => {
                inst.src0 = *reg;
                true
            },
            Node::Iden(iden) => {
                inst.i0 = true;
                inst.imm0 = program.get_iden(iden, at);
                true
            },
            _ => false,
        }
    }

    /// Encodes the node in the second source slot of `inst`. False where the
    /// node is no operand.
    fn gen_src1(&self, program: &mut Program, inst: &mut Inst, at: usize) -> (ok: bool)
        ensures
            ok == is_operand(self@),
            ok ==> *final(inst) == with_src1(*old(inst), old(program).labels@, self@),
            ok ==> final(program).state().queue == refer(
                old(program).labels@,
                old(program).state().queue,
                self@,
                at,
            ),
            final(program).labels == old(program).labels,
            final(program).binary == old(program).binary,
            final(program).addr == old(program).addr,
            final(program).nodes == old(program).nodes,
    {
        match self {
            Node::Num(num) => {
                inst.i1 = true;
                inst.imm1 = #[verifier::truncate]
                (*num as u32);
                true
            },
            Node::Reg(reg) => {
                inst.src1 = *reg;
                true
            },
            Node::Iden(iden) => {
                inst.i1 = true;
                inst.imm1 = program.get_iden(iden, at);
                true
            },
            _ => false,
        }
    }

    /// The operation that computes the node into a register.
    fn compute(&self) -> (r: Option<(Opcode, &Node, Option<&Node>)>)
        ensures
            match r {
                Some((opcode, a, Some(b))) => compute(self@) == Some((opcode, a@, Some(b@))),
                Some((opcode, a, None)) => compute(self@) == Some((opcode, a@, None::<Ast>)),
                None => compute(self@) is None,
            },
    {
        match self {
            Node::Num(_) | Node::Reg(_) | Node::Iden(_) => Some((Opcode::Mov, self, None)),
            Node::Not(x) => {
                assert(self@ == Ast::Not(Box::new(x@)));
                match &**x {
                    Node::Or(a, b) => Some((Opcode::Nor, &**a, Some(&**b))),
                    Node::And(a, b) => Some((Opcode::Nand, &**a, Some(&**b))),
                    Node::Xor(a, b) => Some((Opcode::Xnor, &**a, Some(&**b))),
                    _ => Some((Opcode::Not, &**x, None)),
                }
            },
            Node::Neg(x) => Some((Opcode::Neg, &**x, None)),
            Node::Rep(x) => Some((Opcode::Rep, &**x, None)),
            Node::Or(a, b) => Some((Opcode::Or, &**a, Some(&**b))),
            Node::And(a, b) => Some((Opcode::And, &**a, Some(&**b))),
            Node::Xor(a, b) => Some((Opcode::Xor, &**a, Some(&**b))),
            Node::Add(a, b) => Some((Opcode::Add, &**a, Some(&**b))),
            Node::Sub(a, b) => Some((Opcode::Sub, &**a, Some(&**b))),
            Node::Lt(a, b) => Some((Opcode::Lt, &**a, Some(&**b))),
            Node::Sl(a, b) => Some((Opcode::Sl, &**a, Some(&**b))),
            Node::Sr(a, b) => Some((Opcode::Sr, &**a, Some(&**b))),
            Node::Mul(a, b) => Some((Opcode::Mul, &**a, Some(&**b))),
            Node::Div(a, b) => Some((Opcode::Div, &**a, Some(&**b))),
            Node::Mem8(x) => Some((Opcode::Lod8, &**x, None)),
            Node::Mem16(x) => Some((Opcode::Lod16, &**x, None)),
            Node::Mem32(x) => Some((Opcode::Lod32, &**x, None)),
            _ => None,
        }
    }

    /// The instruction that the shape of the statement selects.
    fn shape(&self) -> (r: Option<Pick<'_>>)
        ensures
            match r {
                Some(pick) => shape(self@) == Some(pick@),
                None => shape(self@) is None,
            },
    {
        match self {
            Node::To(source, target) => {
                assert(self@ == Ast::To(Box::new(source@), Box::new(target@)));
                match &**target {
                    Node::Reg(reg) => match source.compute() {
                        Some((opcode, first, second)) => Some(
                            Pick { opcode, dest: Some(*reg), first, second },
                        ),
                        None => None,
                    },
                    Node::Mem8(at) => Some(
                        Pick {
                            opcode: Opcode::Sto8,
                            dest: None,
                            first: &**at,
                            second: Some(&**source),
                        },
                    ),
                    Node::Mem16(at) => Some(
                        Pick {
                            opcode: Opcode::Sto16,
                            dest: None,
                            first: &**at,
                            second: Some(&**source),
                        },
                    ),
                    Node::Mem32(at) => Some(
                        Pick {
                            opcode: Opcode::Sto32,
                            dest: None,
                            first: &**at,
                            second: Some(&**source),
                        },
                    ),
                    _ => None,
                }
            },
            _ => None,
        }
    }

    /// Selects the instruction of an assignment into `inst` and queues the
    /// labels it uses that are not defined yet at offset `at`. False where
    /// the statement selects no instruction.
    fn gen_uncond(&self, program: &mut Program, inst: &mut Inst, at: usize) -> (ok: bool)
        ensures
            ok == select(self@) is Some,
            ok ==> *final(inst) == assemble(
                *old(inst),
                old(program).labels@,
                select(self@).unwrap(),
            ),
            ok ==> final(program).state().queue == refer_all(
                old(program).labels@,
                old(program).state().queue,
                select(self@).unwrap(),
                at,
            ),
            final(program).labels == old(program).labels,
            final(program).binary == old(program).binary,
            final(program).addr == old(program).addr,
            final(program).nodes == old(program).nodes,
    {
        match self.shape() {
            Some(pick) => {
                inst.opcode = pick.opcode;
                match pick.dest {
                    Some(reg) => {
                        inst.w0 = true;
                        inst.dest0 = reg;
                    },
                    None => {},
                }
                if !pick.first.gen_src0(program, inst, at) {
                    return false;
                }
                match pick.second {
                    Some(second) => second.gen_src1(program, inst, at),
                    None => true,
                }
            },
            None => false,
        }
    }

    /// The register that the node tests, where it is a guard that the
    /// machine can test.
    fn guard_reg(&self) -> (reg: Option<u8>)
        ensures
            reg == guard_reg(self@),
    {
        match self {
            Node::Not(test) => {
                assert(self@ == Ast::Not(Box::new(test@)));
                match &**test {
                    Node::Eql(left, right) => {
                        assert(test@ == Ast::Eql(Box::new(left@), Box::new(right@)));
                        match (&**left, &**right) {
                            (Node::Num(n), Node::Reg(r)) => if *n == 0 {
                                Some(*r)
                            } else {
                                None
                            },
                            (Node::Reg(r), Node::Num(n)) => if *n == 0 {
                                Some(*r)
                            } else {
                                None
                            },
                            _ => None,
                        }
                    },
                    _ => None,
                }
            },
            _ => None,
        }
    }

    /// Generates the instruction that the statement selects, started from
    /// `base`. False where it selects none.
    fn gen_inst(&self, program: &mut Program, base: Inst) -> (ok: bool)
        requires
            old(program).wf(),
        ensures
            ok == old(program).state().instruct(base, self@) is Some,
            ok ==> final(program).wf(),
            ok ==> final(program).state() == old(program).state().instruct(base, self@).unwrap(),
            final(program).nodes == old(program).nodes,
    {
        // The header's place is taken before the operands are encoded: a
        // label among them waits at the offset behind it.
        let start: usize = program.binary.len();
        program.binary.push(0);
        let at: usize = program.binary.len();
        let mut inst = base;
        if !self.gen_uncond(program, &mut inst, at) {
            return false;
        }
        let words = inst.gen();
        program.binary.set(start, words[0]);
        if inst.i0 {
            program.binary.push(inst.imm0);
        }
        if inst.i1 {
            program.binary.push(inst.imm1);
        }
        program.addr = program.binary.len();
        proof {
            let before = old(program).state();
            let choice = select(self@).unwrap();
            assert(program.binary@ =~= before.binary + inst.words());
            assert(program.state() == before.instruct(base, self@).unwrap());
        }
        true
    }

    /// Generates the statement. False where nothing can be generated for it.
    fn gen(&self, program: &mut Program) -> (ok: bool)
        requires
            old(program).wf(),
        ensures
            ok == old(program).state().step(self@) is Some,
            ok ==> final(program).wf(),
            ok ==> final(program).state() == old(program).state().step(self@).unwrap(),
            final(program).nodes == old(program).nodes,
    {
        match self {
            Node::Num(num) => {
                program.emit(
                    #[verifier::truncate]
                    (*num as u32),
                );
                true
            },
            Node::Iden(iden) => {
                let at: usize = program.binary.len();
                let word = program.get_iden(iden, at);
                program.emit(word);
                true
            },
            Node::Label(label) => {
                program.define(label);
                true
            },
            Node::Neg(inner) => {
                assert(self@ == Ast::Neg(Box::new(inner@)));
                match &**inner {
                    Node::Num(num) => {
                        program.emit(
                            0u32.wrapping_sub(
                                #[verifier::truncate]
                                (*num as u32),
                            ),
                        );
                        true
                    },
                    _ => false,
                }
            },
            Node::Cond(inner, guard) => match guard.guard_reg() {
                Some(reg) => {
                    let mut inst = Inst::new();
                    inst.ce = true;
                    inst.cond = reg;
                    inner.gen_inst(program, inst)
                },
                None => false,
            },
            _ => self.gen_inst(program, Inst::new()),
        }
    }
}

impl Program {
    /// Defines label `label` at the current end of the output: writes the
    /// address into the words that wait for it, forgets them, records the
    /// label, and emits the blank word that the label's line takes.
    fn define(&mut self, label: &String)
        requires
            old(self).wf(),
        ensures
            final(self).wf(),
            final(self).state() == old(self).state().define(label@).emit(Inst::blank().words()),
            final(self).nodes == old(self).nodes,
    {
        let word: u32 = #[verifier::truncate]
        (self.addr as u32);
        let ghost before = self.binary@;
        match self.queue.get(label.as_str()) {
            Some(offsets) => {
                assert(self.state().queue[label@] == offsets@);
                assert forall|j: int| 0 <= j < offsets.len() implies offsets[j] < before.len() by {
                    assert(self.state().queue[label@][j] < before.len());
                }
                assert(self.binary@ =~= patch(before, offsets@.take(0), word));
                let mut i: usize = 0;
                while i < offsets.len()
                    invariant
                        i <= offsets.len(),
                        self.binary@.len() == before.len(),
                        self.queue == old(self).queue,
                        self.labels == old(self).labels,
                        self.nodes == old(self).nodes,
                        self.addr == old(self).addr,
                        forall|j: int| 0 <= j < offsets.len() ==> offsets[j] < before.len(),
                        self.binary@ == patch(before, offsets@.take(i as int), word),
                    decreases offsets.len() - i,
                {
                    self.binary.set(offsets[i], word);
                    proof {
                        assert(offsets@.take(i + 1) =~= offsets@.take(i as int).push(
                            offsets[i as int],
                        ));
                        lemma_patch_push(before, offsets@.take(i as int), offsets[i as int], word);
                    }
                    i += 1;
                }
                assert(offsets@.take(i as int) =~= offsets@);
            },
            None => {
                assert(self.binary@ =~= patch(before, Seq::empty(), word));
            },
        }
        self.queue.remove(label.as_str());
        self.labels.insert(
            label.clone(),
            #[verifier::truncate]
            (self.addr as i32),
        );
        let blank = Inst::new().gen();
        self.binary.push(blank[0]);
        self.addr = self.binary.len();
        proof {
            let target = old(self).state().define(label@).emit(Inst::blank().words());
            assert(self.queue@ == old(self).queue@.remove(label@));
            assert(self.state().queue =~= old(self).state().queue.remove(label@));
            assert(self.state().binary =~= target.binary);
        }
    }
}

} // verus!
