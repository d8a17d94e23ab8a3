use vstd::prelude::*;
use crate::value::Value;

verus! {

/// A bytecode instruction. Instructions that carry a `usize` refer to the
/// chunk's constant pool by index.
#[derive(Debug, Clone, Copy, PartialEq, Eq, Structural)]
pub enum OpCode {
    Constant(usize),
    Negate,
    Return,
    Add,
    Subtract,
    Multiply,
    Divide,
    Nil,
    Boolean(bool),
    Print,
    Pop,
    DefineGlobal(usize),
    AccessGlobal(usize),
}

/// The instructions that take their operand from the constant pool.
#[derive(Debug, Clone, Copy, PartialEq, Eq, Structural)]
pub enum ConstantOp {
    Load,
    DefineGlobal,
    AccessGlobal,
}

/// The instruction of shape `op` that refers to constant `index`.
pub open spec fn constant_instruction(op: ConstantOp, index: usize) -> OpCode {
    match op {
        ConstantOp::Load => OpCode::Constant(index),
        ConstantOp::DefineGlobal => OpCode::DefineGlobal(index),
        ConstantOp::AccessGlobal => OpCode::AccessGlobal(index),
    }
}

/// The constant-pool index an instruction refers to, if any.
pub open spec fn operand_of(op: OpCode) -> Option<usize> {
    match op {
        OpCode::Constant(i) => Some(i),
        OpCode::DefineGlobal(i) => Some(i),
        OpCode::AccessGlobal(i) => Some(i),
        _ => None,
    }
}

/// Whether every constant index in `code` is below `n_constants`.
pub open spec fn operands_in_range(code: Seq<OpCode>, n_constants: nat) -> bool {
    forall|k: int|
        0 <= k < code.len() ==> match #[trigger] operand_of(code[k]) {
            Some(i) => i < n_constants,
            None => true,
        }
}

/// Whether `op` refers to no constant, or to one of `n_constants`.
pub open spec fn operand_fits(op: OpCode, n_constants: nat) -> bool {
    match operand_of(op) {
        Some(i) => i < n_constants,
        None => true,
    }
}

proof fn lemma_operands_push(code: Seq<OpCode>, op: OpCode, n: nat)
    requires
        operands_in_range(code, n),
        operand_fits(op, n),
    ensures
        operands_in_range(code.push(op), n),
{
    assert forall|k: int| 0 <= k < code.push(op).len() implies match #[trigger] operand_of(
        code.push(op)[k],
    ) {
        Some(i) => i < n,
        None => true,
    } by {
        if k < code.len() {
            assert(code.push(op)[k] == code[k]);
        }
    }
}

proof fn lemma_operands_grow(code: Seq<OpCode>, n: nat, m: nat)
    requires
        operands_in_range(code, n),
        n <= m,
    ensures
        operands_in_range(code, m),
{
    assert forall|k: int| 0 <= k < code.len() implies match #[trigger] operand_of(code[k]) {
        Some(i) => i < m,
        None => true,
    } by {
        assert(match operand_of(code[k]) {
            Some(i) => i < n,
            None => true,
        });
    }
}

/// Compiled bytecode: instructions, their source lines, and the constant
/// pool they refer to.
#[derive(Debug, PartialEq)]
pub struct Chunk {
    pub code: Vec<OpCode>,
    pub constants: Vec<Value>,
    pub lines: Vec<usize>,
}

impl Chunk {
    /// One line per instruction, and every constant index in range.
    pub open spec fn well_formed(&self) -> bool {
        &&& self.lines@.len() == self.code@.len()
        &&& operands_in_range(self.code@, self.constants@.len())
    }

    /// An empty chunk.
    pub fn new() -> (c: Chunk)
        ensures
            c.code@ == Seq::<OpCode>::empty(),
            c.constants@ == Seq::<Value>::empty(),
            c.lines@ == Seq::<usize>::empty(),
            c.well_formed(),
    {
        Chunk { code: Vec::new(), constants: Vec::new(), lines: Vec::new() }
    }

    /// Appends `opcode`, found on source line `line`.
    pub fn write(&mut self, opcode: OpCode, line: usize)
        ensures
            final(self).code@ == old(self).code@.push(opcode),
            final(self).lines@ == old(self).lines@.push(line),
            final(self).constants@ == old(self).constants@,
            old(self).well_formed() && operand_fits(opcode, old(self).constants@.len())
                ==> final(self).well_formed(),
    {
        self.code.push(opcode);
        self.lines.push(line);
        proof {
            if old(self).well_formed() && operand_fits(opcode, old(self).constants@.len()) {
                lemma_operands_push(old(self).code@, opcode, old(self).constants@.len());
            }
        }
    }

    /// Appends `value` to the constant pool and an instruction of shape `op`
    /// that refers to it, found on source line `line`.
    pub fn write_constant_op(&mut self, op: ConstantOp, value: Value, line: usize)
        ensures
            final(self).constants@ == old(self).constants@.push(value),
            final(self).lines@ == old(self).lines@.push(line),
            final(self).code@ == old(self).code@.push(
                constant_instruction(op, old(self).constants@.len() as usize),
            ),
            old(self).well_formed() ==> final(self).well_formed(),
    {
        self.constants.push(value);
        self.lines.push(line);
        let constant_index = self.constants.len() - 1;
        let opcode = match op {
            ConstantOp::Load => OpCode::Constant(constant_index),
            ConstantOp::DefineGlobal => OpCode::DefineGlobal(constant_index),
            ConstantOp::AccessGlobal => OpCode::AccessGlobal(constant_index),
        };
        self.code.push(opcode);
        proof {
            if old(self).well_formed() {
                lemma_operands_grow(old(self).code@, old(self).constants@.len(), self.constants@.len());
                lemma_operands_push(old(self).code@, opcode, self.constants@.len());
            }
        }
    }

    /// Appends `value` to the constant pool and an instruction that loads
    /// it, found on source line `line`.
    pub fn write_constant(&mut self, value: Value, line: usize)
        ensures
            final(self).constants@ == old(self).constants@.push(value),
            final(self).lines@ == old(self).lines@.push(line),
            final(self).code@ == old(self).code@.push(
                OpCode::Constant(old(self).constants@.len() as usize),
            ),
            old(self).well_formed() ==> final(self).well_formed(),
    {
        self.write_constant_op(ConstantOp::Load, value, line);
    }
}

} // verus!
