use rlox_core::chunk::{Chunk, ConstantTrait, Op};
use rlox_core::debug::Disassembler;
use rlox_core::value::Value;

fn push_constant(chk: &mut Chunk, x: f64, line: usize) {
    let operand = chk.add_constant(Value::Num(x.to_bits())).unwrap();
    chk.write(Op::Constant, line);
    chk.write(operand, line);
}

fn scenario_chunk() -> Chunk {
    let mut chk = Chunk::new();
    push_constant(&mut chk, 1.2, 0);
    push_constant(&mut chk, 3.4, 1);
    chk.write(Op::Add, 2);
    push_constant(&mut chk, 5.6, 2);
    chk.write(Op::Divide, 3);
    chk.write(Op::Negate, 4);
    chk.write(Op::Return, 4);
    chk
}

#[test]
fn test_debugger() {
    let mut chk = Chunk::new();
    chk.write(Op::Nil, 0);

    let debugger = Disassembler::new();
    debugger.disassemble(&chk, "unit test");

    assert_eq!(chk.count, 1);
    assert_eq!(chk.code[0], Op::Nil);
}

#[test]
fn test_disassembly_header() {
    let chk = Chunk::new();
    let listing = Disassembler::new().disassemble(&chk, "unit test");
    assert_eq!(listing, "== unit test ==\nIDX | LINE | VALUE\n");
}

#[test]
fn test_one_line_per_instruction() {
    let chk = scenario_chunk();
    let listing = Disassembler::new().disassemble(&chk, "scenario");
    let lines: Vec<&str> = listing.lines().collect();
    // two header lines, then one line per decoded instruction:
    // three two-slot constants and four plain instructions
    assert_eq!(lines.len(), 2 + 7);
    for line in &lines[2..] {
        assert!(line.contains("OP_"));
    }
    // a repeated source line renders as a continuation marker, not a number
    let markers = lines.iter().filter(|l| l.contains("    | ")).count();
    assert_eq!(markers, 2);
}

#[test]
fn test_constant_line_rendering() {
    let mut chk = Chunk::new();
    push_constant(&mut chk, 1.5, 3);
    let (line, next) = Disassembler::new().disassemble_op(&chk, 0);
    assert_eq!(next, 2);
    assert_eq!(line, "0000     3   OP_CONST  0000 1.5");
}

#[test]
fn test_plain_op_rendering() {
    let mut chk = Chunk::new();
    chk.write(Op::Negate, 0);
    chk.write(Op::Return, 0);
    let d = Disassembler::new();
    let (l0, n0) = d.disassemble_op(&chk, 0);
    assert_eq!(n0, 1);
    assert_eq!(l0, "0000     0   OP_NEG");
    let (l1, n1) = d.disassemble_op(&chk, 1);
    assert_eq!(n1, 2);
    assert_eq!(l1, "0001     |   OP_RETURN");
}

#[test]
fn test_disassembler_never_reads_past_end() {
    let mut chk = Chunk::new();
    // a Constant with no operand slot after it: the cursor clamps to the end
    chk.write(Op::Constant, 0);
    let (line, next) = Disassembler::new().disassemble_op(&chk, 0);
    assert_eq!(next, 1);
    assert!(line.contains("OP_CONST"));
}
