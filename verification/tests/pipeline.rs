use jcpu_asm::error::{Error, ErrorId};
use jcpu_asm::loc::Loc;
use jcpu_asm::node::{Node, Program};
use jcpu_asm::parser::parse;

fn assemble(source: &str) -> Option<Vec<u32>> {
    match parse(source.to_string()) {
        Ok(program) => program.gen(),
        Err(error) => panic!("{:?}", error),
    }
}

fn diagnostic(source: &str) -> Error {
    match parse(source.to_string()) {
        Ok(_) => panic!("parsed"),
        Err(error) => error,
    }
}

#[test]
fn plain_move_is_one_header_word() {
    assert_eq!(assemble("\tr0 -> r1"), Some(vec![0x0000_1004]));
}

#[test]
fn negated_or_is_one_nor() {
    assert_eq!(assemble("\t!(r0|r1) -> r2"), Some(vec![0x0C00_2104]));
}

#[test]
fn negated_and_and_xor_are_fused() {
    assert_eq!(assemble("\t!(r0&r1) -> r2"), Some(vec![0x1400_2104]));
    assert_eq!(assemble("\t!(r0^r1) -> r2"), Some(vec![0x1C00_2104]));
}

#[test]
fn guard_sets_condition_fields() {
    assert_eq!(assemble("\tr0 -> r1 ? !(r2=0)"), Some(vec![0x0220_1004]));
    assert_eq!(assemble("\tr0 -> r1 ? !(0=r2)"), Some(vec![0x0220_1004]));
}

#[test]
fn other_guards_are_refused() {
    assert_eq!(assemble("\tr0 -> r1 ? r2=0"), None);
    assert_eq!(assemble("\tr0 -> r1 ? !(r2=1)"), None);
    assert_eq!(assemble("\tr0 -> r1 ? !(r2<r3)"), None);
}

#[test]
fn forward_reference_is_patched() {
    assert_eq!(assemble("\tjmp -> r0\njmp"), Some(vec![5, 2, 0]));
}

#[test]
fn backward_reference_reads_the_address() {
    assert_eq!(assemble("\t1\nloop\n\tloop -> r3"), Some(vec![1, 0, 0x3005, 1]));
}

#[test]
fn undefined_label_is_zero() {
    assert_eq!(assemble("\tjmp -> r0"), Some(vec![5, 0]));
    assert_eq!(assemble("\tjmp"), Some(vec![0]));
}

#[test]
fn bare_number_is_a_data_word() {
    assert_eq!(assemble("\t5"), Some(vec![5]));
    assert_eq!(assemble("\t-5"), Some(vec![0xFFFF_FFFB]));
    assert_eq!(assemble("\t-0"), Some(vec![0]));
}

#[test]
fn bare_label_use_is_a_data_word() {
    assert_eq!(assemble("\t7\nhere\n\there"), Some(vec![7, 0, 1]));
    assert_eq!(assemble("\tthere\n\t9\nthere"), Some(vec![2, 9, 0]));
}

#[test]
fn generation_is_repeatable() {
    let source = "start\n\tr1 + 2 -> r3\n\tend -> r0 ? !(r3=0)\n\t-7\nend\n\tstart";
    let first = assemble(source);
    let second = assemble(source);
    assert!(first.is_some());
    assert_eq!(first, second);
}

#[test]
fn same_nodes_give_same_words() {
    let nodes = vec![
        Node::To(Box::new(Node::Iden("x".to_string())), Box::new(Node::Reg(1))),
        Node::Num(3),
        Node::Label("x".to_string()),
    ];
    let first = Program::new(nodes.clone()).gen();
    let second = Program::new(nodes).gen();
    assert_eq!(first, Some(vec![0x1005, 3, 3, 0]));
    assert_eq!(first, second);
}

#[test]
fn binary_operations_select_their_opcode() {
    assert_eq!(assemble("\tr1 | r2 -> r3"), Some(vec![0x0800_3214]));
    assert_eq!(assemble("\tr1 & r2 -> r3"), Some(vec![0x1000_3214]));
    assert_eq!(assemble("\tr1 ^ r2 -> r3"), Some(vec![0x1800_3214]));
    assert_eq!(assemble("\tr1 + r2 -> r3"), Some(vec![0x2400_3214]));
    assert_eq!(assemble("\tr1 - r2 -> r3"), Some(vec![0x2800_3214]));
    assert_eq!(assemble("\tr1 < r2 -> r3"), Some(vec![0x2C00_3214]));
    assert_eq!(assemble("\tr1 * r2 -> r3"), Some(vec![0x5000_3214]));
    assert_eq!(assemble("\tr1 / r2 -> r3"), Some(vec![0x5400_3214]));
}

#[test]
fn greater_than_swaps_its_operands() {
    assert_eq!(assemble("\tr1 > r2 -> r3"), Some(vec![0x2C00_3124]));
}

#[test]
fn unary_operations_select_their_opcode() {
    assert_eq!(assemble("\t!r1 -> r3"), Some(vec![0x0400_3014]));
    assert_eq!(assemble("\t-r1 -> r3"), Some(vec![0x2000_3014]));
    assert_eq!(assemble("\t/r1 -> r3"), Some(vec![0x4C00_3014]));
}

#[test]
fn immediates_follow_the_header() {
    assert_eq!(assemble("\t10 + 20 -> r1"), Some(vec![0x2400_1007, 10, 20]));
    assert_eq!(assemble("\tr2 + 20 -> r1"), Some(vec![0x2400_1026, 20]));
    assert_eq!(assemble("\t10 + r2 -> r1"), Some(vec![0x2400_1205, 10]));
}

#[test]
fn statements_without_an_instruction_fail() {
    assert_eq!(assemble("\tr0"), None);
    assert_eq!(assemble("\tr0 -> 5"), None);
    assert_eq!(assemble("\tr0, r1 -> r2"), None);
    assert_eq!(assemble("\tr0 = r1 -> r2"), None);
    assert_eq!(assemble("\t(r0 + r1) + r2 -> r3"), None);
    assert_eq!(assemble("\t-r0"), None);
}

#[test]
fn a_failing_statement_discards_everything() {
    assert_eq!(assemble("\t5\n\tr0 -> r1\n\tr0"), None);
}

#[test]
fn operators_fold_left_without_precedence() {
    let program = parse("\tr1 + r2 * r3".to_string()).ok().unwrap();
    assert_eq!(program.nodes.len(), 1);
    match &program.nodes[0] {
        Node::Mul(left, right) => {
            assert!(matches!(**right, Node::Reg(3)));
            match &**left {
                Node::Add(a, b) => {
                    assert!(matches!(**a, Node::Reg(1)));
                    assert!(matches!(**b, Node::Reg(2)));
                }
                other => panic!("{:?}", other),
            }
        }
        other => panic!("{:?}", other),
    }
}

#[test]
fn one_operand_is_not_wrapped() {
    let program = parse("\tr1\n\tr1, 2, x".to_string()).ok().unwrap();
    assert_eq!(program.nodes.len(), 2);
    assert!(matches!(program.nodes[0], Node::Reg(1)));
    match &program.nodes[1] {
        Node::Opers(items) => {
            assert_eq!(items.len(), 3);
            assert!(matches!(items[0], Node::Reg(1)));
            assert!(matches!(items[1], Node::Num(2)));
            assert!(matches!(&items[2], Node::Iden(name) if name == "x"));
        }
        other => panic!("{:?}", other),
    }
}

#[test]
fn blank_lines_and_comments_are_skipped() {
    let program = parse("\n# about\n\n\tr0 -> r1 # why\n\nname\n".to_string()).ok().unwrap();
    assert_eq!(program.nodes.len(), 2);
    assert!(matches!(program.nodes[0], Node::To(_, _)));
    assert!(matches!(&program.nodes[1], Node::Label(name) if name == "name"));
}

#[test]
fn empty_text_is_an_empty_program() {
    let program = parse(String::new()).ok().unwrap();
    assert_eq!(program.nodes.len(), 0);
    assert_eq!(program.gen(), Some(vec![]));
}

#[test]
fn parsed_program_starts_fresh() {
    let program = parse("\t1".to_string()).ok().unwrap();
    assert_eq!(program.addr, 0);
    assert!(program.binary.is_empty());
}

#[test]
fn line_must_start_with_tab_or_label() {
    assert_eq!(
        diagnostic("5"),
        Error { id: ErrorId::ExpectedProgram, loc: Loc { pos: 1, col: 2, line: 1 } }
    );
}

#[test]
fn statement_must_end_its_line() {
    assert_eq!(
        diagnostic("\tr0 r1"),
        Error { id: ErrorId::ExpectedLine, loc: Loc { pos: 6, col: 7, line: 1 } }
    );
    assert_eq!(
        diagnostic("name 5"),
        Error { id: ErrorId::ExpectedLine, loc: Loc { pos: 6, col: 7, line: 1 } }
    );
}

#[test]
fn tab_needs_a_statement() {
    assert_eq!(
        diagnostic("\t\n"),
        Error { id: ErrorId::ExpectedAtom, loc: Loc { pos: 2, col: 1, line: 2 } }
    );
    assert_eq!(
        diagnostic("\tr0 + "),
        Error { id: ErrorId::ExpectedAtom, loc: Loc { pos: 6, col: 7, line: 1 } }
    );
}

#[test]
fn parenthesis_must_close() {
    assert_eq!(
        diagnostic("\t(r0 -> r1"),
        Error { id: ErrorId::ExpectedParen, loc: Loc { pos: 7, col: 8, line: 1 } }
    );
}

#[test]
fn lexical_errors_stop_the_parser() {
    assert_eq!(
        diagnostic("\tr0 -> r16"),
        Error { id: ErrorId::InvalidReg, loc: Loc { pos: 10, col: 10, line: 1 } }
    );
    assert_eq!(
        diagnostic("\tr0 @ r1"),
        Error { id: ErrorId::InvalidChar, loc: Loc { pos: 4, col: 5, line: 1 } }
    );
}

#[test]
fn redefined_label_takes_the_later_address() {
    assert_eq!(assemble("a\n\t1\na\n\ta"), Some(vec![0, 1, 0, 2]));
}

#[test]
fn label_used_twice_before_its_definition() {
    assert_eq!(assemble("\tx -> r1\n\tx -> r2\nx"), Some(vec![0x1005, 4, 0x2005, 4, 0]));
}

#[test]
fn both_operands_wait_at_the_first_immediate() {
    assert_eq!(assemble("\tx + y -> r1\nx\ny"), Some(vec![0x2400_1007, 4, 0, 0, 0]));
}

#[test]
fn loads_and_stores_select_their_opcode() {
    let load = |node: fn(Box<Node>) -> Node| {
        let source = node(Box::new(Node::Reg(2)));
        Program::new(vec![Node::To(Box::new(source), Box::new(Node::Reg(1)))]).gen()
    };
    assert_eq!(load(Node::Mem8), Some(vec![0x6400_1024]));
    assert_eq!(load(Node::Mem16), Some(vec![0x6800_1024]));
    assert_eq!(load(Node::Mem32), Some(vec![0x6C00_1024]));
    let store = |node: fn(Box<Node>) -> Node| {
        let target = node(Box::new(Node::Num(64)));
        Program::new(vec![Node::To(Box::new(Node::Reg(3)), Box::new(target))]).gen()
    };
    assert_eq!(store(Node::Mem8), Some(vec![0x5800_0301, 64]));
    assert_eq!(store(Node::Mem16), Some(vec![0x5C00_0301, 64]));
    assert_eq!(store(Node::Mem32), Some(vec![0x6000_0301, 64]));
}

#[test]
fn memory_operands_may_be_labels() {
    let nodes = vec![
        Node::Label("table".to_string()),
        Node::To(
            Box::new(Node::Mem32(Box::new(Node::Iden("table".to_string())))),
            Box::new(Node::Reg(1)),
        ),
        Node::To(
            Box::new(Node::Num(9)),
            Box::new(Node::Mem8(Box::new(Node::Iden("later".to_string())))),
        ),
        Node::Label("later".to_string()),
    ];
    assert_eq!(
        Program::new(nodes).gen(),
        Some(vec![0, 0x6C00_1005, 0, 0x5800_0003, 6, 9, 0])
    );
}

#[test]
fn shapes_that_the_lexer_cannot_write_still_generate() {
    let shift = Node::To(
        Box::new(Node::Sl(Box::new(Node::Reg(1)), Box::new(Node::Num(4)))),
        Box::new(Node::Reg(2)),
    );
    assert_eq!(Program::new(vec![shift]).gen(), Some(vec![0x3C00_2016, 4]));
    let shift = Node::To(
        Box::new(Node::Sr(Box::new(Node::Reg(1)), Box::new(Node::Num(4)))),
        Box::new(Node::Reg(2)),
    );
    assert_eq!(Program::new(vec![shift]).gen(), Some(vec![0x4000_2016, 4]));
    let empty = Node::To(Box::new(Node::Empty), Box::new(Node::Reg(2)));
    assert_eq!(Program::new(vec![empty]).gen(), None);
}

#[test]
fn guarded_statement_must_select_an_instruction() {
    let guard = || {
        Box::new(Node::Not(Box::new(Node::Eql(Box::new(Node::Reg(1)), Box::new(Node::Num(0))))))
    };
    let data = Node::Cond(Box::new(Node::Num(5)), guard());
    assert_eq!(Program::new(vec![data]).gen(), None);
    let bad = Node::Cond(
        Box::new(Node::To(Box::new(Node::Empty), Box::new(Node::Reg(1)))),
        guard(),
    );
    assert_eq!(Program::new(vec![bad]).gen(), None);
}

#[test]
fn register_fields_of_nodes_keep_four_bits() {
    let node = Node::To(Box::new(Node::Reg(0x21)), Box::new(Node::Reg(0x32)));
    assert_eq!(Program::new(vec![node]).gen(), Some(vec![0x2014]));
}

#[test]
fn number_literals_wrap_to_the_word() {
    assert_eq!(assemble("\t4294967295"), Some(vec![0xFFFF_FFFF]));
    assert_eq!(assemble("\t4294967301"), Some(vec![5]));
    assert_eq!(assemble("\t-2147483648"), Some(vec![0x8000_0000]));
    assert_eq!(assemble("\t2147483648 -> r1"), Some(vec![0x1005, 0x8000_0000]));
}

#[test]
fn node_clone_is_equal() {
    let node = Node::Cond(
        Box::new(Node::To(
            Box::new(Node::Opers(vec![Node::Iden("a".to_string()), Node::Num(1)])),
            Box::new(Node::Mem16(Box::new(Node::Reg(3)))),
        )),
        Box::new(Node::Not(Box::new(Node::Label("l".to_string())))),
    );
    assert_eq!(format!("{:?}", node.clone()), format!("{:?}", node));
}

#[test]
fn program_continues_from_its_state() {
    let mut first = Program::new(vec![Node::To(
        Box::new(Node::Iden("x".to_string())),
        Box::new(Node::Reg(1)),
    )]);
    first.nodes.push(Node::Num(8));
    assert_eq!(first.gen(), Some(vec![0x1005, 0, 8]));
}
