//! Small hand-assembled chunks to try the machine and the disassembler on.

use vstd::prelude::*;
use crate::chunk::{Chunk, ChunkView, MAX_CONSTANTS};
use crate::opcode::{encoding, OpCode};
use crate::value::Value;

verus! {

/// The encoding of `0.0`.
pub const ZERO: u64 = 0x0000_0000_0000_0000;

/// The encoding of `1.0`.
pub const ONE: u64 = 0x3FF0_0000_0000_0000;

/// The encoding of `1.2`.
pub const ONE_POINT_TWO: u64 = 0x3FF3_3333_3333_3333;

/// The encoding of `2.0`.
pub const TWO: u64 = 0x4000_0000_0000_0000;

/// The encoding of `3.0`.
pub const THREE: u64 = 0x4008_0000_0000_0000;

/// The encoding of `3.4`.
pub const THREE_POINT_FOUR: u64 = 0x400B_3333_3333_3333;

/// The encoding of `4.0`.
pub const FOUR: u64 = 0x4010_0000_0000_0000;

/// The line that the sample chunks attribute their code to.
pub const SAMPLE_LINE: usize = 123;

impl ChunkView {
    /// The chunk after a load of the number `bits` on the sample line.
    pub open spec fn load(self, bits: u64) -> ChunkView {
        self.write_constant(Value::Number(bits), SAMPLE_LINE)
    }

    /// The chunk after `op` on the sample line.
    pub open spec fn op(self, op: OpCode) -> ChunkView {
        self.write(encoding(op), SAMPLE_LINE)
    }
}

fn load(chunk: &mut Chunk, bits: u64)
    requires
        old(chunk)@.constants.len() < MAX_CONSTANTS,
    ensures
        final(chunk)@ == old(chunk)@.load(bits),
{
    match chunk.write_constant(Value::Number(bits), SAMPLE_LINE) {
        Ok(()) => {},
        Err(_) => {},
    }
}

/// The program `-1.2`.
pub fn create_simple_chunk() -> (chunk: Chunk)
    ensures
        chunk@ == ChunkView::empty().load(ONE_POINT_TWO).op(OpCode::Negate).op(
            OpCode::Return,
        ),
        chunk@.lines_parallel(),
{
    let mut chunk = Chunk::new();
    load(&mut chunk, ONE_POINT_TWO);
    chunk.write_opcode(OpCode::Negate, SAMPLE_LINE);
    chunk.write_opcode(OpCode::Return, SAMPLE_LINE);
    chunk
}

/// The program `-(1.2 + 3.4)`.
pub fn create_arithmetic_chunk() -> (chunk: Chunk)
    ensures
        chunk@ == ChunkView::empty().load(ONE_POINT_TWO).load(THREE_POINT_FOUR).op(
            OpCode::Add,
        ).op(OpCode::Negate).op(OpCode::Return),
        chunk@.lines_parallel(),
{
    let mut chunk = Chunk::new();
    load(&mut chunk, ONE_POINT_TWO);
    load(&mut chunk, THREE_POINT_FOUR);
    chunk.write_opcode(OpCode::Add, SAMPLE_LINE);
    chunk.write_opcode(OpCode::Negate, SAMPLE_LINE);
    chunk.write_opcode(OpCode::Return, SAMPLE_LINE);
    chunk
}

/// The program `((1 + 2) * 3 - 4) / 4`.
pub fn create_complex_arithmetic_chunk() -> (chunk: Chunk)
    ensures
        chunk@ == ChunkView::empty().load(ONE).load(TWO).op(OpCode::Add).load(THREE).op(
            OpCode::Multiply,
        ).load(FOUR).op(OpCode::Subtract).load(FOUR).op(OpCode::Divide).op(
            OpCode::Return,
        ),
        chunk@.lines_parallel(),
{
    let mut chunk = Chunk::new();
    load(&mut chunk, ONE);
    load(&mut chunk, TWO);
    chunk.write_opcode(OpCode::Add, SAMPLE_LINE);
    load(&mut chunk, THREE);
    chunk.write_opcode(OpCode::Multiply, SAMPLE_LINE);
    load(&mut chunk, FOUR);
    chunk.write_opcode(OpCode::Subtract, SAMPLE_LINE);
    load(&mut chunk, FOUR);
    chunk.write_opcode(OpCode::Divide, SAMPLE_LINE);
    chunk.write_opcode(OpCode::Return, SAMPLE_LINE);
    chunk
}

/// The program `((1 + 2) * 3 - 4) / 0`, which faults.
pub fn create_complex_arithmetic_divide_zero_chunk() -> (chunk: Chunk)
    ensures
        chunk@ == ChunkView::empty().load(ONE).load(TWO).op(OpCode::Add).load(THREE).op(
            OpCode::Multiply,
        ).load(FOUR).op(OpCode::Subtract).load(ZERO).op(OpCode::Divide).op(
            OpCode::Return,
        ),
        chunk@.lines_parallel(),
{
    let mut chunk = Chunk::new();
    load(&mut chunk, ONE);
    load(&mut chunk, TWO);
    chunk.write_opcode(OpCode::Add, SAMPLE_LINE);
    load(&mut chunk, THREE);
    chunk.write_opcode(OpCode::Multiply, SAMPLE_LINE);
    load(&mut chunk, FOUR);
    chunk.write_opcode(OpCode::Subtract, SAMPLE_LINE);
    load(&mut chunk, ZERO);
    chunk.write_opcode(OpCode::Divide, SAMPLE_LINE);
    chunk.write_opcode(OpCode::Return, SAMPLE_LINE);
    chunk
}

} // verus!
