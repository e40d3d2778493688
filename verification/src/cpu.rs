//! The instructions of the machine and their encoding in 32-bit words.

use vstd::prelude::*;

verus! {

/// The operations of the machine, in the order of their numbers: `Mov` is 0
/// and `Done` is 28.
#[derive(Debug, Clone, Copy, PartialEq, Eq)]
pub enum Opcode {
    Mov,
    Not,
    Or,
    Nor,
    And,
    Nand,
    Xor,
    Xnor,
    Neg,
    Add,
    Sub,
    Lt,
    Nlt,
    Slt,
    Nslt,
    Sl,
    Sr,
    Ssl,
    Ssr,
    Rep,
    Mul,
    Div,
    Sto8,
    Sto16,
    Sto32,
    Lod8,
    Lod16,
    Lod32,
    Done,
}

impl Opcode {
    /// The number that selects the operation in an instruction word.
    pub open spec fn number(self) -> nat {
        match self {
            Opcode::Mov => 0,
            Opcode::Not => 1,
            Opcode::Or => 2,
            Opcode::Nor => 3,
            Opcode::And => 4,
            Opcode::Nand => 5,
            Opcode::Xor => 6,
            Opcode::Xnor => 7,
            Opcode::Neg => 8,
            Opcode::Add => 9,
            Opcode::Sub => 10,
            Opcode::Lt => 11,
            Opcode::Nlt => 12,
            Opcode::Slt => 13,
            Opcode::Nslt => 14,
            Opcode::Sl => 15,
            Opcode::Sr => 16,
            Opcode::Ssl => 17,
            Opcode::Ssr => 18,
            Opcode::Rep => 19,
            Opcode::Mul => 20,
            Opcode::Div => 21,
            Opcode::Sto8 => 22,
            Opcode::Sto16 => 23,
            Opcode::Sto32 => 24,
            Opcode::Lod8 => 25,
            Opcode::Lod16 => 26,
            Opcode::Lod32 => 27,
            Opcode::Done => 28,
        }
    }

    /// The number of the operation.
    pub fn code(&self) -> (n: u32)
        ensures
            n == self.number(),
    {
        match self {
            Opcode::Mov => 0,
            Opcode::Not => 1,
            Opcode::Or => 2,
            Opcode::Nor => 3,
            Opcode::And => 4,
            Opcode::Nand => 5,
            Opcode::Xor => 6,
            Opcode::Xnor => 7,
            Opcode::Neg => 8,
            Opcode::Add => 9,
            Opcode::Sub => 10,
            Opcode::Lt => 11,
            Opcode::Nlt => 12,
            Opcode::Slt => 13,
            Opcode::Nslt => 14,
            Opcode::Sl => 15,
            Opcode::Sr => 16,
            Opcode::Ssl => 17,
            Opcode::Ssr => 18,
            Opcode::Rep => 19,
            Opcode::Mul => 20,
            Opcode::Div => 21,
            Opcode::Sto8 => 22,
            Opcode::Sto16 => 23,
            Opcode::Sto32 => 24,
            Opcode::Lod8 => 25,
            Opcode::Lod16 => 26,
            Opcode::Lod32 => 27,
            Opcode::Done => 28,
        }
    }
}

/// One instruction before it is encoded.
///
/// `ce` makes the instruction conditional on register `cond`, `ci` inverts the
/// condition. `dest0` and `dest1` are written where `w0` and `w1` are set. A
/// source is register `src0` (`src1`), or the immediate `imm0` (`imm1`) where
/// `i0` (`i1`) is set. Of a register field only the low four bits are encoded.
#[derive(Debug, Clone, Copy, PartialEq, Eq)]
pub struct Inst {
    pub opcode: Opcode,
    pub ce: bool,
    pub ci: bool,
    pub cond: u8,
    pub dest1: u8,
    pub dest0: u8,
    pub src1: u8,
    pub src0: u8,
    pub w1: bool,
    pub w0: bool,
    pub i1: bool,
    pub i0: bool,
    pub imm1: u32,
    pub imm0: u32,
}

/// A flag as a digit.
pub open spec fn flag(b: bool) -> nat {
    if b {
        1
    } else {
        0
    }
}

impl Inst {
    /// The instruction that moves register 0 nowhere: every field zero.
    pub open spec fn blank() -> Inst {
        Inst {
            opcode: Opcode::Mov,
            ce: false,
            ci: false,
            cond: 0,
            dest1: 0,
            dest0: 0,
            src1: 0,
            src0: 0,
            w1: false,
            w0: false,
            i1: false,
            i0: false,
            imm1: 0,
            imm0: 0,
        }
    }

    /// The first word of the encoded instruction. From the highest bit down:
    /// six bits of operation, `ce`, `ci`, four bits each of `cond`, `dest1`,
    /// `dest0`, `src1` and `src0`, then `w1`, `w0`, `i1`, `i0`.
    pub open spec fn header(self) -> u32 {
        (self.opcode.number() * 0x400_0000 + flag(self.ce) * 0x200_0000 + flag(self.ci)
            * 0x100_0000 + (self.cond % 16) * 0x10_0000 + (self.dest1 % 16) * 0x1_0000 + (
        self.dest0 % 16) * 0x1000 + (self.src1 % 16) * 0x100 + (self.src0 % 16) * 0x10 + flag(
            self.w1,
        ) * 8 + flag(self.w0) * 4 + flag(self.i1) * 2 + flag(self.i0)) as u32
    }

    /// The encoded instruction: the header, then the immediates that are
    /// present, `imm0` before `imm1`.
    pub open spec fn words(self) -> Seq<u32> {
        seq![self.header()] + (if self.i0 {
            seq![self.imm0]
        } else {
            seq![]
        }) + (if self.i1 {
            seq![self.imm1]
        } else {
            seq![]
        })
    }

    /// An instruction with every field zero.
    pub fn new() -> (inst: Inst)
        ensures
            inst == Inst::blank(),
    {
        Inst {
            opcode: Opcode::Mov,
            ce: false,
            ci: false,
            cond: 0,
            dest1: 0,
            dest0: 0,
            src1: 0,
            src0: 0,
            w1: false,
            w0: false,
            i1: false,
            i0: false,
            imm1: 0,
            imm0: 0,
        }
    }

    /// Encodes the instruction.
    pub fn gen(self) -> (insts: Vec<u32>)
        ensures
            insts@ == self.words(),
    {
        let mut inst: u32 = self.opcode.code();
        inst = (inst << 1) | bit(self.ce);
        inst = (inst << 1) | bit(self.ci);
        inst = (inst << 4) | nibble(self.cond);
        inst = (inst << 4) | nibble(self.dest1);
        inst = (inst << 4) | nibble(self.dest0);
        inst = (inst << 4) | nibble(self.src1);
        inst = (inst << 4) | nibble(self.src0);
        inst = (inst << 1) | bit(self.w1);
        inst = (inst << 1) | bit(self.w0);
        inst = (inst << 1) | bit(self.i1);
        inst = (inst << 1) | bit(self.i0);
        proof {
            lemma_pack(
                self.opcode.number() as u32,
                flag(self.ce) as u32,
                flag(self.ci) as u32,
                (self.cond % 16) as u32,
                (self.dest1 % 16) as u32,
                (self.dest0 % 16) as u32,
                (self.src1 % 16) as u32,
                (self.src0 % 16) as u32,
                flag(self.w1) as u32,
                flag(self.w0) as u32,
                flag(self.i1) as u32,
                flag(self.i0) as u32,
            );
        }
        let mut insts: Vec<u32> = Vec::new();
        insts.push(inst);
        if self.i0 {
            insts.push(self.imm0);
        }
        if self.i1 {
            insts.push(self.imm1);
        }
        assert(insts@ =~= self.words());
        insts
    }
}

/// An instruction is one word and one more for each immediate.
pub proof fn lemma_words_len(inst: Inst)
    ensures
        inst.words().len() == 1 + flag(inst.i0) + flag(inst.i1),
        inst.words()[0] == inst.header(),
{
}

/// Every field can be read back from the header at its place, so no two
/// instructions that differ in an encoded field share a header.
pub proof fn lemma_header_fields(inst: Inst)
    ensures
        inst.header() as nat / 0x400_0000 == inst.opcode.number(),
        (inst.header() as nat / 0x200_0000) % 2 == flag(inst.ce),
        (inst.header() as nat / 0x100_0000) % 2 == flag(inst.ci),
        (inst.header() as nat / 0x10_0000) % 16 == inst.cond % 16,
        (inst.header() as nat / 0x1_0000) % 16 == inst.dest1 % 16,
        (inst.header() as nat / 0x1000) % 16 == inst.dest0 % 16,
        (inst.header() as nat / 0x100) % 16 == inst.src1 % 16,
        (inst.header() as nat / 0x10) % 16 == inst.src0 % 16,
        (inst.header() as nat / 8) % 2 == flag(inst.w1),
        (inst.header() as nat / 4) % 2 == flag(inst.w0),
        (inst.header() as nat / 2) % 2 == flag(inst.i1),
        inst.header() as nat % 2 == flag(inst.i0),
{
    lemma_unpack(
        inst.opcode.number() as u32,
        flag(inst.ce) as u32,
        flag(inst.ci) as u32,
        (inst.cond % 16) as u32,
        (inst.dest1 % 16) as u32,
        (inst.dest0 % 16) as u32,
        (inst.src1 % 16) as u32,
        (inst.src0 % 16) as u32,
        flag(inst.w1) as u32,
        flag(inst.w0) as u32,
        flag(inst.i1) as u32,
        flag(inst.i0) as u32,
    );
}

/// A flag as a bit.
fn bit(b: bool) -> (r: u32)
    ensures
        r == flag(b),
{
    if b {
        1
    } else {
        0
    }
}

/// The low four bits of a register field.
fn nibble(r: u8) -> (n: u32)
    ensures
        n == r % 16,
{
    assert(r & 0b1111 == r % 16) by (bit_vector);
    (r & 0b1111) as u32
}

/// Shifting the fields in one after the other puts each at its place value.
proof fn lemma_pack(
    op: u32,
    ce: u32,
    ci: u32,
    cond: u32,
    d1: u32,
    d0: u32,
    s1: u32,
    s0: u32,
    w1: u32,
    w0: u32,
    i1: u32,
    i0: u32,
)
    by (bit_vector)
    requires
        op < 64,
        ce < 2,
        ci < 2,
        cond < 16,
        d1 < 16,
        d0 < 16,
        s1 < 16,
        s0 < 16,
        w1 < 2,
        w0 < 2,
        i1 < 2,
        i0 < 2,
    ensures
        (((((((((((op << 1 | ce) << 1 | ci) << 4 | cond) << 4 | d1) << 4 | d0) << 4 | s1) << 4
            | s0) << 1 | w1) << 1 | w0) << 1 | i1) << 1 | i0) == op * 0x400_0000 + ce * 0x200_0000
            + ci * 0x100_0000 + cond * 0x10_0000 + d1 * 0x1_0000 + d0 * 0x1000 + s1 * 0x100 + s0
            * 0x10 + w1 * 8 + w0 * 4 + i1 * 2 + i0,
{
}

/// Dividing a sum of place values by a place value leaves the fields above it.
proof fn lemma_unpack(
    op: u32,
    ce: u32,
    ci: u32,
    cond: u32,
    d1: u32,
    d0: u32,
    s1: u32,
    s0: u32,
    w1: u32,
    w0: u32,
    i1: u32,
    i0: u32,
)
    by (bit_vector)
    requires
        op < 64,
        ce < 2,
        ci < 2,
        cond < 16,
        d1 < 16,
        d0 < 16,
        s1 < 16,
        s0 < 16,
        w1 < 2,
        w0 < 2,
        i1 < 2,
        i0 < 2,
    ensures
        ({
            let h = op * 0x400_0000 + ce * 0x200_0000 + ci * 0x100_0000 + cond * 0x10_0000 + d1
                * 0x1_0000 + d0 * 0x1000 + s1 * 0x100 + s0 * 0x10 + w1 * 8 + w0 * 4 + i1 * 2 + i0;
            &&& h / 0x400_0000 == op
            &&& (h / 0x200_0000) % 2 == ce
            &&& (h / 0x100_0000) % 2 == ci
            &&& (h / 0x10_0000) % 16 == cond
            &&& (h / 0x1_0000) % 16 == d1
            &&& (h / 0x1000) % 16 == d0
            &&& (h / 0x100) % 16 == s1
            &&& (h / 0x10) % 16 == s0
            &&& (h / 8) % 2 == w1
            &&& (h / 4) % 2 == w0
            &&& (h / 2) % 2 == i1
            &&& h % 2 == i0
        }),
{
}

} // verus!
