use rlox_core::chunk::{Chunk, ChunkError, ConstantTrait, LineTrait, Op};
use rlox_core::value::Value;

fn num(x: f64) -> Value {
    Value::Num(x.to_bits())
}

#[test]
fn test_write_constant() {
    let mut chk = Chunk::new();
    let constant = chk.add_constant(num(1.0)).unwrap();
    chk.write(Op::Constant, 0);
    chk.write(constant, 0);

    assert_eq!(chk.count, 2);
    assert_eq!(chk.code[0], Op::Constant);

    let (idx, val) = chk.get_constant(0).unwrap();
    assert_eq!(idx, 0);
    assert_eq!(val, num(1.0));
}

#[test]
fn test_clear_chunk() {
    let mut chk = Chunk::new();
    chk.add_constant(num(1.0)).unwrap();
    chk.clear();

    assert_eq!(chk.code.len(), 0);
    assert_eq!(chk.count, 0);
}

#[test]
fn test_pool_holds_256_constants() {
    let mut chk = Chunk::new();
    for i in 0..256u32 {
        let op = chk.add_constant(num(i as f64)).unwrap();
        assert_eq!(op, Op::ConstantIndex(i as u8));
    }
    let overflow = chk.add_constant(num(999.0));
    assert_eq!(overflow, Err(ChunkError::PoolExhausted));
}

#[test]
fn test_round_trip_many_constants() {
    let mut chk = Chunk::new();
    let values = [1.25, -3.5, 0.0, 1e300];
    for (i, v) in values.iter().enumerate() {
        let operand = chk.add_constant(num(*v)).unwrap();
        chk.write(Op::Constant, i);
        chk.write(operand, i);
    }
    for (i, v) in values.iter().enumerate() {
        let (idx, val) = chk.get_constant(2 * i).unwrap();
        assert_eq!(idx as usize, i);
        assert_eq!(val, num(*v));
    }
}

#[test]
fn test_get_constant_errors() {
    let mut chk = Chunk::new();
    chk.write(Op::Constant, 0);
    // no operand follows at all
    assert_eq!(chk.get_constant(0), Err(ChunkError::MissingOperand));

    let mut chk2 = Chunk::new();
    chk2.write(Op::Constant, 0);
    chk2.write(Op::Return, 0);
    // the following slot is not an index operand
    assert_eq!(chk2.get_constant(0), Err(ChunkError::MissingOperand));

    let mut chk3 = Chunk::new();
    chk3.write(Op::Constant, 0);
    chk3.write(Op::ConstantIndex(5), 0);
    // the index names no slot of the (empty) pool
    assert_eq!(chk3.get_constant(0), Err(ChunkError::BadConstantIndex));
}

#[test]
fn test_line_table_round_trip() {
    let mut chk = Chunk::new();
    let lines = [3, 3, 3, 7, 7, 2, 9, 9, 9, 9];
    for (i, ln) in lines.iter().enumerate() {
        let op = if i % 2 == 0 { Op::Nil } else { Op::Negate };
        chk.write(op, *ln);
    }
    for (i, ln) in lines.iter().enumerate() {
        assert_eq!(chk.get_line(i), *ln);
    }
    // past the recorded positions the lookup reports line 0
    assert_eq!(chk.get_line(lines.len()), 0);
    assert_eq!(chk.get_line(1000), 0);
}

#[test]
fn test_add_line_directly() {
    let mut chk = Chunk::new();
    chk.add_line(4);
    chk.add_line(4);
    chk.add_line(6);
    assert_eq!(chk.get_line(0), 4);
    assert_eq!(chk.get_line(1), 4);
    assert_eq!(chk.get_line(2), 6);
}

#[test]
fn test_capacity_grows_amortized() {
    let mut chk = Chunk::new();
    assert_eq!(chk.capacity, 0);
    chk.write(Op::Nil, 0);
    assert_eq!(chk.capacity, 8);
    for _ in 0..8 {
        chk.write(Op::Nil, 0);
    }
    assert_eq!(chk.count, 9);
    assert_eq!(chk.capacity, 16);
}
