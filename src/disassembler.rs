use vstd::prelude::*;
use crate::chunk::{Chunk, OpCode, operand_of};
use crate::value::Value;

verus! {

/// One instruction of a chunk, as a listing shows it.
#[derive(Debug, PartialEq)]
pub struct Listing {
    /// The instruction's index in the code.
    pub offset: usize,
    /// The source line, or `None` where it is the previous instruction's.
    pub line: Option<usize>,
    pub opcode: OpCode,
    /// The constant the instruction refers to, if any.
    pub constant: Option<Value>,
}

/// The listing of the instruction at `offset`.
pub open spec fn listing_at(chunk: &Chunk, offset: int) -> Listing {
    let lines = chunk.lines@;
    Listing {
        offset: offset as usize,
        line: if offset > 0 && lines[offset] == lines[offset - 1] {
            None
        } else {
            Some(lines[offset])
        },
        opcode: chunk.code@[offset],
        constant: match operand_of(chunk.code@[offset]) {
            Some(i) => Some(chunk.constants@[i as int]),
            None => None,
        },
    }
}

/// Lists the instruction at `offset`, and gives the offset of the next one.
pub fn disassemble_instruction(chunk: &Chunk, offset: usize) -> (r: (Listing, usize))
    requires
        chunk.well_formed(),
        offset < chunk.code@.len(),
    ensures
        r.0 == listing_at(chunk, offset as int),
        r.1 == offset + 1,
{
    let line = if offset > 0 && chunk.lines[offset] == chunk.lines[offset - 1] {
        None
    } else {
        Some(chunk.lines[offset])
    };
    let n = chunk.code.len();
    let opcode = chunk.code[offset];
    assert(match operand_of(chunk.code@[offset as int]) {
        Some(i) => i < chunk.constants@.len(),
        None => true,
    });
    let constant = match opcode {
        OpCode::Constant(i) | OpCode::DefineGlobal(i) | OpCode::AccessGlobal(i) => Some(
            chunk.constants[i].duplicate(),
        ),
        _ => None,
    };
    (Listing { offset, line, opcode, constant }, offset + 1)
}

/// Lists every instruction of `chunk`, one entry per instruction, in order.
pub fn disassemble_chunk(chunk: &Chunk) -> (r: Vec<Listing>)
    requires
        chunk.well_formed(),
    ensures
        r@.len() == chunk.code@.len(),
        forall|i: int| 0 <= i < r@.len() ==> #[trigger] r@[i] == listing_at(chunk, i),
        forall|i: int| 0 <= i < r@.len() ==> #[trigger] r@[i].offset == i,
{
    let mut listings: Vec<Listing> = Vec::new();
    let mut offset: usize = 0;
    while offset < chunk.code.len()
        invariant
            chunk.well_formed(),
            offset <= chunk.code@.len(),
            listings@.len() == offset,
            forall|i: int| 0 <= i < offset ==> #[trigger] listings@[i] == listing_at(chunk, i),
        decreases chunk.code@.len() - offset,
    {
        let (listing, next) = disassemble_instruction(chunk, offset);
        listings.push(listing);
        offset = next;
    }
    listings
}

} // verus!
