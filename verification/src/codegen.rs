//! What the words of a program are: the generator as a function from
//! statements to states.

use vstd::prelude::*;

use crate::cpu::{Inst, Opcode};
use crate::node::Ast;

verus! {

/// What the generator knows between two statements: the words emitted so
/// far, the address of every label defined so far, and for every label used
/// but not yet defined the offsets of the words that wait for its address.
pub struct GenState {
    pub binary: Seq<u32>,
    pub labels: Map<Seq<char>, i32>,
    pub queue: Map<Seq<char>, Seq<usize>>,
}

/// The offsets that wait for `name`.
pub open spec fn pending(queue: Map<Seq<char>, Seq<usize>>, name: Seq<char>) -> Seq<usize> {
    if queue.contains_key(name) {
        queue[name]
    } else {
        Seq::empty()
    }
}

/// The word that stands for label `name`: its address where it is defined,
/// and 0 where it is not.
pub open spec fn resolve(labels: Map<Seq<char>, i32>, name: Seq<char>) -> u32 {
    if labels.contains_key(name) {
        labels[name] as u32
    } else {
        0
    }
}

/// The queue after label `name` was used in the word at offset `at`: where
/// the label is not defined yet, `at` waits for it behind the offsets that
/// already do.
pub open spec fn enqueue(
    labels: Map<Seq<char>, i32>,
    queue: Map<Seq<char>, Seq<usize>>,
    name: Seq<char>,
    at: usize,
) -> Map<Seq<char>, Seq<usize>> {
    if labels.contains_key(name) {
        queue
    } else {
        queue.insert(name, pending(queue, name).push(at))
    }
}

/// Whether `node` can stand in a source slot of an instruction: a number, a
/// register or a label.
pub open spec fn is_operand(node: Ast) -> bool {
    node is Num || node is Reg || node is Iden
}

/// `inst` with `node` in its first source slot. A number and a label are
/// immediates, a register is its index.
pub open spec fn with_src0(inst: Inst, labels: Map<Seq<char>, i32>, node: Ast) -> Inst {
    match node {
        Ast::Num(n) => Inst { i0: true, imm0: n as u32, ..inst },
        Ast::Reg(r) => Inst { src0: r, ..inst },
        Ast::Iden(s) => Inst { i0: true, imm0: resolve(labels, s), ..inst },
        _ => inst,
    }
}

/// `inst` with `node` in its second source slot.
pub open spec fn with_src1(inst: Inst, labels: Map<Seq<char>, i32>, node: Ast) -> Inst {
    match node {
        Ast::Num(n) => Inst { i1: true, imm1: n as u32, ..inst },
        Ast::Reg(r) => Inst { src1: r, ..inst },
        Ast::Iden(s) => Inst { i1: true, imm1: resolve(labels, s), ..inst },
        _ => inst,
    }
}

/// The queue after `node` was encoded as a source operand of an instruction
/// whose first immediate stands at offset `at`.
pub open spec fn refer(
    labels: Map<Seq<char>, i32>,
    queue: Map<Seq<char>, Seq<usize>>,
    node: Ast,
    at: usize,
) -> Map<Seq<char>, Seq<usize>> {
    match node {
        Ast::Iden(s) => enqueue(labels, queue, s, at),
        _ => queue,
    }
}

/// The instruction that an assignment selects: its operation, the register
/// it writes if it writes one, and what stands in its source slots.
pub struct Choice {
    pub opcode: Opcode,
    pub dest: Option<u8>,
    pub first: Ast,
    pub second: Option<Ast>,
}

/// The operation that computes `expr` into a register, with its operands.
///
/// A negated `or`, `and` or `xor` is one operation, not two. A bare operand
/// is moved.
pub open spec fn compute(expr: Ast) -> Option<(Opcode, Ast, Option<Ast>)> {
    match expr {
        Ast::Num(_) | Ast::Reg(_) | Ast::Iden(_) => Some((Opcode::Mov, expr, None)),
        Ast::Not(x) => match *x {
            Ast::Or(a, b) => Some((Opcode::Nor, *a, Some(*b))),
            Ast::And(a, b) => Some((Opcode::Nand, *a, Some(*b))),
            Ast::Xor(a, b) => Some((Opcode::Xnor, *a, Some(*b))),
            _ => Some((Opcode::Not, *x, None)),
        },
        Ast::Neg(x) => Some((Opcode::Neg, *x, None)),
        Ast::Rep(x) => Some((Opcode::Rep, *x, None)),
        Ast::Or(a, b) => Some((Opcode::Or, *a, Some(*b))),
        Ast::And(a, b) => Some((Opcode::And, *a, Some(*b))),
        Ast::Xor(a, b) => Some((Opcode::Xor, *a, Some(*b))),
        Ast::Add(a, b) => Some((Opcode::Add, *a, Some(*b))),
        Ast::Sub(a, b) => Some((Opcode::Sub, *a, Some(*b))),
        Ast::Lt(a, b) => Some((Opcode::Lt, *a, Some(*b))),
        Ast::Sl(a, b) => Some((Opcode::Sl, *a, Some(*b))),
        Ast::Sr(a, b) => Some((Opcode::Sr, *a, Some(*b))),
        Ast::Mul(a, b) => Some((Opcode::Mul, *a, Some(*b))),
        Ast::Div(a, b) => Some((Opcode::Div, *a, Some(*b))),
        Ast::Mem8(x) => Some((Opcode::Lod8, *x, None)),
        Ast::Mem16(x) => Some((Opcode::Lod16, *x, None)),
        Ast::Mem32(x) => Some((Opcode::Lod32, *x, None)),
        _ => None,
    }
}

/// The instruction that the shape of statement `node` selects, if it
/// selects one.
///
/// Only an assignment does. Into a register it computes its source; into
/// memory it stores its source, with the address in the first slot and the
/// value in the second.
pub open spec fn shape(node: Ast) -> Option<Choice> {
    match node {
        Ast::To(source, target) => match *target {
            Ast::Reg(r) => match compute(*source) {
                Some((opcode, first, second)) => Some(
                    Choice { opcode, dest: Some(r), first, second },
                ),
                None => None,
            },
            Ast::Mem8(at) => Some(
                Choice { opcode: Opcode::Sto8, dest: None, first: *at, second: Some(*source) },
            ),
            Ast::Mem16(at) => Some(
                Choice { opcode: Opcode::Sto16, dest: None, first: *at, second: Some(*source) },
            ),
            Ast::Mem32(at) => Some(
                Choice { opcode: Opcode::Sto32, dest: None, first: *at, second: Some(*source) },
            ),
            _ => None,
        },
        _ => None,
    }
}

/// The instruction that statement `node` selects: the one that its shape
/// selects, provided that every source slot holds an operand.
pub open spec fn select(node: Ast) -> Option<Choice> {
    match shape(node) {
        Some(c) => if is_operand(c.first) && (c.second matches Some(b) ==> is_operand(b)) {
            Some(c)
        } else {
            None
        },
        None => None,
    }
}

/// `base` with the operation and the destination of `choice`.
pub open spec fn aim(base: Inst, choice: Choice) -> Inst {
    let named = Inst { opcode: choice.opcode, ..base };
    match choice.dest {
        Some(r) => Inst { w0: true, dest0: r, ..named },
        None => named,
    }
}

/// `base` turned into the instruction that `choice` describes.
pub open spec fn assemble(base: Inst, labels: Map<Seq<char>, i32>, choice: Choice) -> Inst {
    let one = with_src0(aim(base, choice), labels, choice.first);
    match choice.second {
        Some(b) => with_src1(one, labels, b),
        None => one,
    }
}

/// The queue after the source slots of `choice` were encoded for an
/// instruction whose first immediate stands at offset `at`.
pub open spec fn refer_all(
    labels: Map<Seq<char>, i32>,
    queue: Map<Seq<char>, Seq<usize>>,
    choice: Choice,
    at: usize,
) -> Map<Seq<char>, Seq<usize>> {
    let once = refer(labels, queue, choice.first, at);
    match choice.second {
        Some(b) => refer(labels, once, b, at),
        None => once,
    }
}

/// The register that `guard` tests, where `guard` has the one shape that the
/// machine can test: "register is not 0", written with the 0 on either side.
pub open spec fn guard_reg(guard: Ast) -> Option<u8> {
    match guard {
        Ast::Not(test) => match *test {
            Ast::Eql(left, right) => match (*left, *right) {
                (Ast::Num(n), Ast::Reg(r)) => if n == 0 {
                    Some(r)
                } else {
                    None
                },
                (Ast::Reg(r), Ast::Num(n)) => if n == 0 {
                    Some(r)
                } else {
                    None
                },
                _ => None,
            },
            _ => None,
        },
        _ => None,
    }
}

/// The word that holds `-n` in two's complement.
pub open spec fn negated(n: i32) -> u32 {
    if n as u32 == 0 {
        0
    } else {
        (0x1_0000_0000 - (n as u32)) as u32
    }
}

/// Whether `at` is one of `offsets`.
pub open spec fn listed(offsets: Seq<usize>, at: int) -> bool {
    exists|j: int| 0 <= j < offsets.len() && #[trigger] offsets[j] == at
}

/// `binary` with `word` written at every offset in `offsets`.
pub open spec fn patch(binary: Seq<u32>, offsets: Seq<usize>, word: u32) -> Seq<u32> {
    Seq::new(
        binary.len(),
        |i: int|
            if listed(offsets, i) {
                word
            } else {
                binary[i]
            },
    )
}

/// Writing at one more offset is one more update.
pub proof fn lemma_patch_push(binary: Seq<u32>, offsets: Seq<usize>, off: usize, word: u32)
    requires
        off < binary.len(),
    ensures
        patch(binary, offsets.push(off), word) == patch(binary, offsets, word).update(
            off as int,
            word,
        ),
{
    let more = offsets.push(off);
    assert(more[offsets.len() as int] == off);
    assert forall|k: int| 0 <= k < binary.len() implies #[trigger] patch(binary, more, word)[k]
        == patch(binary, offsets, word).update(off as int, word)[k] by {
        if listed(offsets, k) {
            let j = choose|j: int| 0 <= j < offsets.len() && #[trigger] offsets[j] == k;
            assert(more[j] == k);
        }
        if listed(more, k) && k != off {
            let j = choose|j: int| 0 <= j < more.len() && #[trigger] more[j] == k;
            assert(offsets[j] == k);
        }
    }
    assert(patch(binary, more, word) =~= patch(binary, offsets, word).update(off as int, word));
}

impl GenState {
    /// The state before the first statement.
    pub open spec fn fresh() -> GenState {
        GenState { binary: Seq::empty(), labels: Map::empty(), queue: Map::empty() }
    }

    /// Every waiting offset is the offset of a word that was emitted.
    pub open spec fn wf(self) -> bool {
        forall|name: Seq<char>, i: int|
            self.queue.contains_key(name) && 0 <= i < self.queue[name].len()
                ==> #[trigger] self.queue[name][i] < self.binary.len()
    }

    /// The state after `words` were emitted.
    pub open spec fn emit(self, words: Seq<u32>) -> GenState {
        GenState { binary: self.binary + words, ..self }
    }

    /// The state after label `name` was defined at the current end of the
    /// output: the words that waited for it hold its address, nothing waits
    /// for it any more, and later uses find it.
    pub open spec fn define(self, name: Seq<char>) -> GenState {
        GenState {
            binary: patch(self.binary, pending(self.queue, name), self.binary.len() as u32),
            labels: self.labels.insert(name, self.binary.len() as i32),
            queue: self.queue.remove(name),
        }
    }

    /// The state after the instruction that `node` selects, started from
    /// `base`, or `None` where `node` selects none. A label in a source slot
    /// that is not defined yet waits at the offset behind the header.
    pub open spec fn instruct(self, base: Inst, node: Ast) -> Option<GenState> {
        match select(node) {
            Some(choice) => {
                let at = (self.binary.len() + 1) as usize;
                Some(
                    GenState { queue: refer_all(self.labels, self.queue, choice, at), ..self }.emit(
                        assemble(base, self.labels, choice).words(),
                    ),
                )
            },
            None => None,
        }
    }

    /// The state after statement `node`, or `None` where nothing can be
    /// generated for it.
    ///
    /// A number, a negated number and a label that stands alone are one word
    /// of data. A label's definition takes one blank word, whose offset is the
    /// label's address. A guarded statement is its instruction made
    /// conditional on the guard's register. Anything else must select an
    /// instruction.
    pub open spec fn step(self, node: Ast) -> Option<GenState> {
        match node {
            Ast::Num(n) => Some(self.emit(seq![n as u32])),
            Ast::Iden(s) => Some(
                GenState {
                    queue: enqueue(self.labels, self.queue, s, self.binary.len() as usize),
                    ..self
                }.emit(seq![resolve(self.labels, s)]),
            ),
            Ast::Label(s) => Some(self.define(s).emit(Inst::blank().words())),
            Ast::Neg(x) => match *x {
                Ast::Num(n) => Some(self.emit(seq![negated(n)])),
                _ => None,
            },
            Ast::Cond(inner, guard) => match guard_reg(*guard) {
                Some(r) => self.instruct(Inst { ce: true, cond: r, ..Inst::blank() }, *inner),
                None => None,
            },
            _ => self.instruct(Inst::blank(), node),
        }
    }

    /// The state after the statements `nodes`, in order, or `None` where one
    /// of them fails.
    pub open spec fn run(self, nodes: Seq<Ast>) -> Option<GenState>
        decreases nodes.len(),
    {
        if nodes.len() == 0 {
            Some(self)
        } else {
            match self.step(nodes[0]) {
                Some(next) => next.run(nodes.drop_first()),
                None => None,
            }
        }
    }
}

/// The words of the program `nodes`, or `None` where a statement fails.
pub open spec fn assemble_all(nodes: Seq<Ast>) -> Option<Seq<u32>> {
    match GenState::fresh().run(nodes) {
        Some(end) => Some(end.binary),
        None => None,
    }
}

/// The number of words that statement `node` emits, where it can be
/// generated: one for data and for a label, and for an instruction its header
/// and its immediates.
pub open spec fn word_count(node: Ast) -> nat {
    let inner = match node {
        Ast::Cond(inner, _) => *inner,
        _ => node,
    };
    match node {
        Ast::Num(_) | Ast::Iden(_) | Ast::Label(_) | Ast::Neg(_) => 1,
        _ => match select(inner) {
            Some(choice) => 1 + (if choice.first is Reg {
                0nat
            } else {
                1nat
            }) + (match choice.second {
                Some(b) => if b is Reg {
                    0nat
                } else {
                    1nat
                },
                None => 0nat,
            }),
            None => 0,
        },
    }
}

/// Whether a statement can be generated depends on the statement alone:
/// never on the state, and so never on which labels are defined.
pub proof fn lemma_step_depends_on_shape(a: GenState, b: GenState, node: Ast)
    ensures
        a.step(node) is Some <==> b.step(node) is Some,
{
}

/// A statement adds its words behind the output, between one and three, and
/// forgets no label.
pub proof fn lemma_step_grows(st: GenState, node: Ast)
    requires
        st.step(node) is Some,
    ensures
        st.step(node).unwrap().binary.len() == st.binary.len() + word_count(node),
        1 <= word_count(node) <= 3,
        forall|name: Seq<char>| #[trigger]
            st.labels.contains_key(name) ==> st.step(node).unwrap().labels.contains_key(name),
{
}

/// A statement keeps every waiting offset inside the output.
pub proof fn lemma_step_wf(st: GenState, node: Ast)
    requires
        st.wf(),
        st.step(node) is Some,
    ensures
        st.step(node).unwrap().wf(),
{
    let next = st.step(node).unwrap();
    lemma_step_grows(st, node);
    assert forall|name: Seq<char>, i: int|
        next.queue.contains_key(name) && 0 <= i < next.queue[name].len() implies (
        #[trigger] next.queue[name][i]) < next.binary.len() by {
        if st.queue.contains_key(name) && i < st.queue[name].len() {
            assert(st.queue[name][i] < st.binary.len());
        }
    }
}

/// A program adds at least one word for each of its statements, and keeps
/// every waiting offset inside the output.
pub proof fn lemma_run_grows(st: GenState, nodes: Seq<Ast>)
    requires
        st.wf(),
        st.run(nodes) is Some,
    ensures
        st.run(nodes).unwrap().wf(),
        st.run(nodes).unwrap().binary.len() >= st.binary.len() + nodes.len(),
    decreases nodes.len(),
{
    if nodes.len() > 0 {
        let next = st.step(nodes[0]).unwrap();
        lemma_step_grows(st, nodes[0]);
        lemma_step_wf(st, nodes[0]);
        lemma_run_grows(next, nodes.drop_first());
    }
}

/// When a label is defined, every word that waited for it holds its address,
/// nothing waits for it any more, the words that did not wait are as they
/// were, and a use from then on reads what the waiting words got.
pub proof fn lemma_define_patches(st: GenState, name: Seq<char>)
    requires
        st.wf(),
        st.binary.len() <= usize::MAX,
    ensures
        ({
            let next = st.define(name);
            let address = st.binary.len() as u32;
            &&& next.binary.len() == st.binary.len()
            &&& forall|i: int|
                0 <= i < pending(st.queue, name).len() ==> next.binary[pending(
                    st.queue,
                    name,
                )[i] as int] == address
            &&& forall|at: int|
                0 <= at < st.binary.len() && !listed(pending(st.queue, name), at)
                    ==> next.binary[at] == st.binary[at]
            &&& !next.queue.contains_key(name)
            &&& resolve(next.labels, name) == address
        }),
{
    let next = st.define(name);
    let offsets = pending(st.queue, name);
    assert forall|i: int| 0 <= i < offsets.len() implies next.binary[offsets[i] as int]
        == st.binary.len() as u32 by {
        assert(st.queue[name][i] < st.binary.len());
        assert(listed(offsets, offsets[i] as int));
    }
    let len = st.binary.len() as usize;
    assert((len as i32) as u32 == len as u32) by (bit_vector);
}

/// A label that is not defined reads as 0, in a source slot and as data.
pub proof fn lemma_undefined_is_zero(st: GenState, inst: Inst, name: Seq<char>)
    requires
        !st.labels.contains_key(name),
    ensures
        resolve(st.labels, name) == 0,
        with_src0(inst, st.labels, Ast::Iden(name)).i0,
        with_src0(inst, st.labels, Ast::Iden(name)).imm0 == 0,
        with_src1(inst, st.labels, Ast::Iden(name)).i1,
        with_src1(inst, st.labels, Ast::Iden(name)).imm1 == 0,
        st.step(Ast::Iden(name)) is Some,
        st.step(Ast::Iden(name)).unwrap().binary == st.binary.push(0),
{
    assert(st.step(Ast::Iden(name)).unwrap().binary =~= st.binary.push(0));
}

/// Whether a program can be generated depends on its statements alone: a
/// label that is used and never defined raises no failure.
pub proof fn lemma_run_depends_on_shape(a: GenState, b: GenState, nodes: Seq<Ast>)
    ensures
        a.run(nodes) is Some <==> b.run(nodes) is Some,
    decreases nodes.len(),
{
    if nodes.len() > 0 {
        lemma_step_depends_on_shape(a, b, nodes[0]);
        if a.step(nodes[0]) is Some {
            lemma_run_depends_on_shape(
                a.step(nodes[0]).unwrap(),
                b.step(nodes[0]).unwrap(),
                nodes.drop_first(),
            );
        }
    }
}

/// A label that no statement defines stays undefined to the end, so every
/// use of it along the way reads 0.
pub proof fn lemma_undefined_stays(st: GenState, nodes: Seq<Ast>, name: Seq<char>)
    requires
        !st.labels.contains_key(name),
        forall|i: int| 0 <= i < nodes.len() ==> #[trigger] nodes[i] != Ast::Label(name),
        st.run(nodes) is Some,
    ensures
        !st.run(nodes).unwrap().labels.contains_key(name),
    decreases nodes.len(),
{
    if nodes.len() > 0 {
        assert(nodes[0] != Ast::Label(name));
        let next = st.step(nodes[0]).unwrap();
        assert(!next.labels.contains_key(name));
        let rest = nodes.drop_first();
        assert forall|i: int| 0 <= i < rest.len() implies #[trigger] rest[i] != Ast::Label(
            name,
        ) by {
            assert(rest[i] == nodes[i + 1]);
        }
        lemma_undefined_stays(next, nodes.drop_first(), name);
    }
}

/// Moving one register into another is one word, which holds the source in
/// its lowest register field, the destination in the third and the flag that
/// the destination is written.
pub proof fn lemma_plain_move(st: GenState, from: u8, to: u8)
    ensures
        st.step(Ast::To(Box::new(Ast::Reg(from)), Box::new(Ast::Reg(to)))) == Some(
            st.emit(seq![((to % 16) * 0x1000 + (from % 16) * 0x10 + 4) as u32]),
        ),
{
    let node = Ast::To(Box::new(Ast::Reg(from)), Box::new(Ast::Reg(to)));
    let choice = select(node).unwrap();
    let inst = assemble(Inst::blank(), st.labels, choice);
    assert(inst == Inst { w0: true, dest0: to, src0: from, ..Inst::blank() });
    assert(inst.words() =~= seq![inst.header()]);
    assert(refer_all(st.labels, st.queue, choice, (st.binary.len() + 1) as usize) == st.queue);
}

/// A negated `or`, `and` or `xor` into a register is one operation that
/// takes the two operands, not a negation of a result.
pub proof fn lemma_negation_fuses(a: Ast, b: Ast, to: u8)
    ensures
        shape(
            Ast::To(
                Box::new(Ast::Not(Box::new(Ast::Or(Box::new(a), Box::new(b))))),
                Box::new(Ast::Reg(to)),
            ),
        ) == Some(Choice { opcode: Opcode::Nor, dest: Some(to), first: a, second: Some(b) }),
        shape(
            Ast::To(
                Box::new(Ast::Not(Box::new(Ast::And(Box::new(a), Box::new(b))))),
                Box::new(Ast::Reg(to)),
            ),
        ) == Some(Choice { opcode: Opcode::Nand, dest: Some(to), first: a, second: Some(b) }),
        shape(
            Ast::To(
                Box::new(Ast::Not(Box::new(Ast::Xor(Box::new(a), Box::new(b))))),
                Box::new(Ast::Reg(to)),
            ),
        ) == Some(Choice { opcode: Opcode::Xnor, dest: Some(to), first: a, second: Some(b) }),
{
}

/// A guard "register `reg` is not 0", with the 0 on either side, makes the
/// guarded instruction conditional on `reg` and leaves the condition as it
/// is, not inverted.
pub proof fn lemma_guard_sets_condition(st: GenState, inner: Ast, reg: u8)
    ensures
        ({
            let test = Ast::Not(
                Box::new(Ast::Eql(Box::new(Ast::Reg(reg)), Box::new(Ast::Num(0)))),
            );
            let mirrored = Ast::Not(
                Box::new(Ast::Eql(Box::new(Ast::Num(0)), Box::new(Ast::Reg(reg)))),
            );
            let base = Inst { ce: true, cond: reg, ..Inst::blank() };
            &&& st.step(Ast::Cond(Box::new(inner), Box::new(test))) == st.instruct(base, inner)
            &&& st.step(Ast::Cond(Box::new(inner), Box::new(mirrored))) == st.instruct(base, inner)
            &&& select(inner) matches Some(choice) ==> {
                let inst = assemble(base, st.labels, choice);
                inst.ce && !inst.ci && inst.cond == reg
            }
        }),
{
}

/// A number that stands alone is one word of data: itself where it is not
/// negative, and behind a minus sign the word that added to it gives 0 in
/// 32 bits.
pub proof fn lemma_data_word(st: GenState, n: i32)
    ensures
        st.step(Ast::Num(n)) == Some(st.emit(seq![n as u32])),
        st.step(Ast::Neg(Box::new(Ast::Num(n)))) == Some(st.emit(seq![negated(n)])),
        n >= 0 ==> n as u32 == n,
        (negated(n) + (n as u32)) % 0x1_0000_0000 == 0,
{
}

/// A label that is used before it is defined: the use is a header and an
/// immediate, the immediate waits, and the definition that follows writes
/// the label's address into it, which is the offset of the label's own word.
pub proof fn lemma_forward_reference(st: GenState, name: Seq<char>, to: u8)
    requires
        st.wf(),
        !st.labels.contains_key(name),
        st.binary.len() + 2 <= usize::MAX,
    ensures
        ({
            let start = st.binary.len() as int;
            let ahead = Ast::To(Box::new(Ast::Iden(name)), Box::new(Ast::Reg(to)));
            let run = st.run(seq![ahead, Ast::Label(name)]);
            &&& run matches Some(end)
            &&& end.binary.len() == start + 3
            &&& end.binary[start + 1] == (start + 2) as u32
            &&& end.binary[start + 2] == 0
            &&& !end.queue.contains_key(name)
            &&& resolve(end.labels, name) == (start + 2) as u32
        }),
{
    let start = st.binary.len() as int;
    let ahead = Ast::To(Box::new(Ast::Iden(name)), Box::new(Ast::Reg(to)));
    let nodes = seq![ahead, Ast::Label(name)];
    let choice = select(ahead).unwrap();
    let inst = assemble(Inst::blank(), st.labels, choice);
    assert(inst.words() =~= seq![inst.header(), 0u32]);
    let used = st.step(ahead).unwrap();
    lemma_step_wf(st, ahead);
    assert(used.binary.len() == start + 2);
    let waiting = pending(used.queue, name);
    assert(waiting == pending(st.queue, name).push((start + 1) as usize));
    assert(waiting[waiting.len() - 1] == start + 1);
    assert(listed(waiting, start + 1));
    lemma_define_patches(used, name);
    let defined = used.define(name);
    assert(defined.binary[start + 1] == (start + 2) as u32);
    let end = defined.emit(Inst::blank().words());
    assert(Inst::blank().words() =~= seq![0u32]);
    assert(used.step(Ast::Label(name)) == Some(end));
    assert(nodes.drop_first() =~= seq![Ast::Label(name)]);
    assert(nodes.drop_first().drop_first() =~= Seq::<Ast>::empty());
    assert(end.run(Seq::<Ast>::empty()) == Some(end));
    assert(used.run(seq![Ast::Label(name)]) == Some(end)) by {
        assert(seq![Ast::Label(name)].drop_first() =~= Seq::<Ast>::empty());
    }
    assert(st.run(nodes) == Some(end));
}

} // verus!
