use rlox_core::chunk::{Chunk, ConstantTrait, Op};
use rlox_core::value::Value;
use rlox_core::vm::{InterpretResult, VirtualMachine};

fn num(x: f64) -> Value {
    Value::Num(x.to_bits())
}

fn push_constant(chk: &mut Chunk, x: f64, line: usize) {
    let operand = chk.add_constant(num(x)).unwrap();
    chk.write(Op::Constant, line);
    chk.write(operand, line);
}

#[test]
fn test_vm() {
    let mut chk = Chunk::new();
    chk.write(Op::Nil, 0);
    chk.write(Op::Return, 1);

    let mut vm = VirtualMachine::new();
    let code = vm.interpret(&chk);

    assert_eq!(chk.count, 2);
    assert_eq!(chk.code[1], Op::Return);
    assert_eq!(code, InterpretResult::OK);
}

#[test]
fn test_interpreter() {
    let mut chk = Chunk::new();

    let c1 = chk.add_constant(num(1.2)).unwrap();
    chk.write(Op::Constant, 0);
    chk.write(c1, 0);

    let c2 = chk.add_constant(num(3.4)).unwrap();
    chk.write(Op::Constant, 1);
    chk.write(c2, 1);

    chk.write(Op::Add, 2);

    let c3 = chk.add_constant(num(5.6)).unwrap();
    chk.write(Op::Constant, 2);
    chk.write(c3, 2);

    chk.write(Op::Divide, 3);

    chk.write(Op::Negate, 4);
    chk.write(Op::Return, 4);

    let mut vm = VirtualMachine::new();
    vm.interpret(&chk);
}

#[test]
fn test_scenario_arithmetic_value() {
    let mut chk = Chunk::new();
    push_constant(&mut chk, 1.2, 0);
    push_constant(&mut chk, 3.4, 1);
    chk.write(Op::Add, 2);
    push_constant(&mut chk, 5.6, 2);
    chk.write(Op::Divide, 3);
    chk.write(Op::Negate, 4);
    chk.write(Op::Return, 4);

    let mut vm = VirtualMachine::new();
    let code = vm.interpret(&chk);
    assert_eq!(code, InterpretResult::OK);

    let expected = -((1.2 + 3.4) / 5.6);
    assert_eq!(expected, -0.8214285714285714);
    assert_eq!(vm.result, Some(num(expected)));
    assert!(vm.stack.is_empty());
}

#[test]
fn test_nil_return_value() {
    let mut chk = Chunk::new();
    chk.write(Op::Nil, 0);
    chk.write(Op::Return, 0);

    let mut vm = VirtualMachine::new();
    let code = vm.interpret(&chk);
    assert_eq!(code, InterpretResult::OK);
    assert_eq!(vm.result, Some(Value::Nil));
}

#[test]
fn test_underflow_is_runtime_error() {
    let mut chk = Chunk::new();
    chk.write(Op::Add, 0);
    chk.write(Op::Return, 0);

    let mut vm = VirtualMachine::new();
    let code = vm.interpret(&chk);
    assert_eq!(code, InterpretResult::RuntimeError);
    assert_eq!(vm.result, None);
}

#[test]
fn test_one_operand_binary_underflow() {
    let mut chk = Chunk::new();
    push_constant(&mut chk, 2.0, 0);
    chk.write(Op::Subtract, 0);
    chk.write(Op::Return, 0);

    let mut vm = VirtualMachine::new();
    assert_eq!(vm.interpret(&chk), InterpretResult::RuntimeError);
    // the operand that was there is still there
    assert_eq!(vm.stack.len(), 1);
}

#[test]
fn test_return_on_empty_stack() {
    let mut chk = Chunk::new();
    chk.write(Op::Return, 0);
    let mut vm = VirtualMachine::new();
    assert_eq!(vm.interpret(&chk), InterpretResult::RuntimeError);
}

#[test]
fn test_no_return_is_runtime_error() {
    let mut chk = Chunk::new();
    chk.write(Op::Nil, 0);
    let mut vm = VirtualMachine::new();
    assert_eq!(vm.interpret(&chk), InterpretResult::RuntimeError);
}

#[test]
fn test_nil_arithmetic_is_runtime_error() {
    let mut chk = Chunk::new();
    chk.write(Op::Nil, 0);
    chk.write(Op::Negate, 0);
    chk.write(Op::Return, 0);
    let mut vm = VirtualMachine::new();
    assert_eq!(vm.interpret(&chk), InterpretResult::RuntimeError);

    let mut chk2 = Chunk::new();
    chk2.write(Op::Nil, 0);
    chk2.write(Op::Nil, 0);
    chk2.write(Op::Add, 0);
    chk2.write(Op::Return, 0);
    let mut vm2 = VirtualMachine::new();
    assert_eq!(vm2.interpret(&chk2), InterpretResult::RuntimeError);
}

#[test]
fn test_binary_operator_values() {
    let cases: [(Op, f64, f64, f64); 4] = [
        (Op::Add, 2.5, 4.25, 2.5 + 4.25),
        (Op::Subtract, 2.5, 4.25, 2.5 - 4.25),
        (Op::Multiply, 2.5, 4.25, 2.5 * 4.25),
        (Op::Divide, 2.5, 4.25, 2.5 / 4.25),
    ];
    for (op, a, b, expected) in cases.iter() {
        let mut chk = Chunk::new();
        push_constant(&mut chk, *a, 0);
        push_constant(&mut chk, *b, 0);
        chk.write(*op, 0);
        chk.write(Op::Return, 0);
        let mut vm = VirtualMachine::new();
        assert_eq!(vm.interpret(&chk), InterpretResult::OK);
        assert_eq!(vm.result, Some(num(*expected)));
    }
}

#[test]
fn test_divide_by_zero_follows_ieee() {
    let mut chk = Chunk::new();
    push_constant(&mut chk, 1.0, 0);
    push_constant(&mut chk, 0.0, 0);
    chk.write(Op::Divide, 0);
    chk.write(Op::Return, 0);
    let mut vm = VirtualMachine::new();
    assert_eq!(vm.interpret(&chk), InterpretResult::OK);
    assert_eq!(vm.result, Some(num(f64::INFINITY)));
}

#[test]
fn test_negate_flips_sign_only() {
    let mut chk = Chunk::new();
    push_constant(&mut chk, 0.0, 0);
    chk.write(Op::Negate, 0);
    chk.write(Op::Return, 0);
    let mut vm = VirtualMachine::new();
    assert_eq!(vm.interpret(&chk), InterpretResult::OK);
    assert_eq!(vm.result, Some(num(-0.0)));
    assert_ne!(vm.result, Some(Value::Num(0.0f64.to_bits())));
}

#[test]
fn test_stack_below_return_survives() {
    let mut chk = Chunk::new();
    push_constant(&mut chk, 7.0, 0);
    chk.write(Op::Nil, 0);
    chk.write(Op::Return, 0);
    let mut vm = VirtualMachine::new();
    assert_eq!(vm.interpret(&chk), InterpretResult::OK);
    assert_eq!(vm.result, Some(Value::Nil));
    assert_eq!(vm.stack, vec![num(7.0)]);
}

#[test]
fn test_trace_log() {
    let mut chk = Chunk::new();
    chk.write(Op::Nil, 0);
    chk.write(Op::Return, 0);

    let mut vm = VirtualMachine::with_trace(true);
    assert_eq!(vm.interpret(&chk), InterpretResult::OK);
    // two executed instructions, two log entries each
    assert_eq!(vm.trace_log.len(), 4);
    assert!(vm.trace_log[1].contains("OP_NIL"));
    assert!(vm.trace_log[3].contains("OP_RETURN"));
    // the stack rendering before Return shows the pushed nil
    assert_eq!(vm.trace_log[2], "[nil]");

    let mut quiet = VirtualMachine::new();
    assert_eq!(quiet.interpret(&chk), InterpretResult::OK);
    assert!(quiet.trace_log.is_empty());
}

#[test]
fn test_interpret_resets_state() {
    let mut chk = Chunk::new();
    push_constant(&mut chk, 1.0, 0);
    chk.write(Op::Return, 0);

    let mut vm = VirtualMachine::new();
    assert_eq!(vm.interpret(&chk), InterpretResult::OK);
    assert_eq!(vm.interpret(&chk), InterpretResult::OK);
    assert_eq!(vm.result, Some(num(1.0)));
    assert!(vm.stack.is_empty());
}

#[test]
fn test_bad_constant_encoding() {
    // index operand names no pool slot
    let mut chk = Chunk::new();
    chk.write(Op::Constant, 0);
    chk.write(Op::ConstantIndex(9), 0);
    chk.write(Op::Return, 0);
    let mut vm = VirtualMachine::new();
    assert_eq!(vm.interpret(&chk), InterpretResult::RuntimeError);

    // no index operand follows at all
    let mut chk2 = Chunk::new();
    chk2.write(Op::Constant, 0);
    let mut vm2 = VirtualMachine::new();
    assert_eq!(vm2.interpret(&chk2), InterpretResult::RuntimeError);
}
