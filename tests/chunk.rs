use bytecode_vm::chunk::{Chunk, OpCode};
use bytecode_vm::value::Value;

#[test]
fn write_adds_opcode_to_chunk_code() {
    let mut chunk = Chunk::new();

    assert_eq!(chunk.code, vec![]);
    assert_eq!(chunk.lines, vec![]);
    assert_eq!(chunk.constants, vec![]);

    chunk.write(OpCode::Return, 1);

    assert_eq!(chunk.code, vec![OpCode::Return]);
    assert_eq!(chunk.lines, vec![1]);
    assert_eq!(chunk.constants, vec![]);

    chunk.write(OpCode::Constant(1), 3);

    assert_eq!(chunk.code, vec![OpCode::Return, OpCode::Constant(1)]);
    assert_eq!(chunk.lines, vec![1, 3]);
    assert_eq!(chunk.constants, vec![]);
}

#[test]
fn write_constant_adds_opcode_to_constants() {
    let mut chunk = Chunk::new();

    assert_eq!(chunk.code, vec![]);
    assert_eq!(chunk.lines, vec![]);
    assert_eq!(chunk.constants, vec![]);

    chunk.write_constant(Value::Number(3.0f64.to_bits()), 3);

    assert_eq!(chunk.constants, vec![Value::Number(3.0f64.to_bits())]);

    assert_eq!(chunk.lines, vec![3]);

    chunk.write_constant(Value::Number(5.0f64.to_bits()), 4);

    assert_eq!(
        chunk.constants,
        vec![Value::Number(3.0f64.to_bits()), Value::Number(5.0f64.to_bits())]
    );

    assert_eq!(chunk.lines, vec![3, 4]);
}

#[test]
fn write_constant_refers_to_the_appended_value() {
    let mut chunk = Chunk::new();
    chunk.write(OpCode::Nil, 1);
    chunk.write_constant(Value::Boolean(true), 2);
    chunk.write_constant(Value::Nil, 2);
    assert_eq!(chunk.code, vec![OpCode::Nil, OpCode::Constant(0), OpCode::Constant(1)]);
    assert_eq!(chunk.constants, vec![Value::Boolean(true), Value::Nil]);
    assert_eq!(chunk.lines.len(), chunk.code.len());
}
