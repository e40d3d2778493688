use jcpu_asm::cpu::{Inst, Opcode};

#[test]
fn new_instruction_is_blank() {
    let inst = Inst::new();
    assert_eq!(inst.opcode, Opcode::Mov);
    assert!(!inst.ce && !inst.ci && !inst.w0 && !inst.w1 && !inst.i0 && !inst.i1);
    assert_eq!(
        (inst.cond, inst.dest0, inst.dest1, inst.src0, inst.src1, inst.imm0, inst.imm1),
        (0, 0, 0, 0, 0, 0, 0)
    );
    assert_eq!(inst.gen(), vec![0]);
}

#[test]
fn opcodes_are_numbered_in_order() {
    let all = [
        Opcode::Mov,
        Opcode::Not,
        Opcode::Or,
        Opcode::Nor,
        Opcode::And,
        Opcode::Nand,
        Opcode::Xor,
        Opcode::Xnor,
        Opcode::Neg,
        Opcode::Add,
        Opcode::Sub,
        Opcode::Lt,
        Opcode::Nlt,
        Opcode::Slt,
        Opcode::Nslt,
        Opcode::Sl,
        Opcode::Sr,
        Opcode::Ssl,
        Opcode::Ssr,
        Opcode::Rep,
        Opcode::Mul,
        Opcode::Div,
        Opcode::Sto8,
        Opcode::Sto16,
        Opcode::Sto32,
        Opcode::Lod8,
        Opcode::Lod16,
        Opcode::Lod32,
        Opcode::Done,
    ];
    for (number, opcode) in all.iter().enumerate() {
        assert_eq!(opcode.code() as usize, number);
        let mut inst = Inst::new();
        inst.opcode = *opcode;
        assert_eq!(inst.gen(), vec![(number as u32) << 26]);
    }
}

#[test]
fn each_field_has_its_place() {
    let mut inst = Inst::new();
    inst.ce = true;
    assert_eq!(inst.gen(), vec![1 << 25]);
    let mut inst = Inst::new();
    inst.ci = true;
    assert_eq!(inst.gen(), vec![1 << 24]);
    let mut inst = Inst::new();
    inst.cond = 0xF;
    assert_eq!(inst.gen(), vec![0xF << 20]);
    let mut inst = Inst::new();
    inst.dest1 = 0xF;
    assert_eq!(inst.gen(), vec![0xF << 16]);
    let mut inst = Inst::new();
    inst.dest0 = 0xF;
    assert_eq!(inst.gen(), vec![0xF << 12]);
    let mut inst = Inst::new();
    inst.src1 = 0xF;
    assert_eq!(inst.gen(), vec![0xF << 8]);
    let mut inst = Inst::new();
    inst.src0 = 0xF;
    assert_eq!(inst.gen(), vec![0xF << 4]);
    let mut inst = Inst::new();
    inst.w1 = true;
    assert_eq!(inst.gen(), vec![8]);
    let mut inst = Inst::new();
    inst.w0 = true;
    assert_eq!(inst.gen(), vec![4]);
}

#[test]
fn immediates_are_emitted_when_present() {
    let mut inst = Inst::new();
    inst.imm0 = 0xAAAA_AAAA;
    inst.imm1 = 0x5555_5555;
    assert_eq!(inst.gen(), vec![0]);
    inst.i0 = true;
    assert_eq!(inst.gen(), vec![1, 0xAAAA_AAAA]);
    inst.i1 = true;
    assert_eq!(inst.gen(), vec![3, 0xAAAA_AAAA, 0x5555_5555]);
    inst.i0 = false;
    assert_eq!(inst.gen(), vec![2, 0x5555_5555]);
}

#[test]
fn register_fields_keep_four_bits() {
    let mut inst = Inst::new();
    inst.src0 = 0x13;
    inst.dest0 = 0xF1;
    assert_eq!(inst.gen(), vec![0x1030]);
}

#[test]
fn full_instruction_packs_all_fields() {
    let inst = Inst {
        opcode: Opcode::Done,
        ce: true,
        ci: true,
        cond: 1,
        dest1: 2,
        dest0: 3,
        src1: 4,
        src0: 5,
        w1: true,
        w0: true,
        i1: true,
        i0: true,
        imm1: 7,
        imm0: 6,
    };
    assert_eq!(inst.gen(), vec![0x7312_345F, 6, 7]);
}
