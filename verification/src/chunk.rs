//! The bytecode container: an instruction stream, the source line of each of
//! its bytes, and the pool of constants that its instructions refer to.

use vstd::prelude::*;
use crate::opcode::{encoding, OpCode};
use crate::value::{Value, ValueArray};

verus! {

/// The most constants one chunk can address: a constant-load instruction has
/// a one-byte operand.
pub const MAX_CONSTANTS: usize = 256;

/// What a chunk holds.
pub struct ChunkView {
    /// The instruction stream.
    pub code: Seq<u8>,
    /// The source line of each byte of the instruction stream.
    pub lines: Seq<usize>,
    /// The constant pool.
    pub constants: Seq<Value>,
}

impl ChunkView {
    /// The chunk with nothing in it.
    pub open spec fn empty() -> ChunkView {
        ChunkView { code: Seq::empty(), lines: Seq::empty(), constants: Seq::empty() }
    }

    /// The chunk after one more byte, attributed to `line`.
    pub open spec fn write(self, byte: u8, line: usize) -> ChunkView {
        ChunkView { code: self.code.push(byte), lines: self.lines.push(line), ..self }
    }

    /// The chunk after one more constant.
    pub open spec fn add_constant(self, value: Value) -> ChunkView {
        ChunkView { constants: self.constants.push(value), ..self }
    }

    /// The chunk after `value` has joined the pool and the two bytes of the
    /// instruction that loads it have been written.
    pub open spec fn write_constant(self, value: Value, line: usize) -> ChunkView {
        self.add_constant(value).write(encoding(OpCode::Constant), line).write(
            self.constants.len() as u8,
            line,
        )
    }

    /// The line table has one entry for each byte of code.
    pub open spec fn lines_parallel(self) -> bool {
        self.lines.len() == self.code.len()
    }
}

/// One step of building a chunk.
pub enum Emission {
    /// A raw byte with its line.
    Byte(u8, usize),
    /// An opcode with its line.
    Opcode(OpCode, usize),
    /// A constant alone, without an instruction.
    Constant(Value),
    /// A constant and the instruction that loads it, with its line.
    ConstantLoad(Value, usize),
}

impl ChunkView {
    /// The chunk after one emission. A constant load on a full pool changes
    /// nothing.
    pub open spec fn emit(self, e: Emission) -> ChunkView {
        match e {
            Emission::Byte(byte, line) => self.write(byte, line),
            Emission::Opcode(op, line) => self.write(encoding(op), line),
            Emission::Constant(value) => self.add_constant(value),
            Emission::ConstantLoad(value, line) => if self.constants.len() < MAX_CONSTANTS {
                self.write_constant(value, line)
            } else {
                self
            },
        }
    }

    /// The chunk after a sequence of emissions, first to last.
    pub open spec fn emit_all(self, es: Seq<Emission>) -> ChunkView
        decreases es.len(),
    {
        if es.len() == 0 {
            self
        } else {
            self.emit_all(es.drop_last()).emit(es.last())
        }
    }
}

/// Whatever is emitted into an empty chunk, and in whatever order, the line
/// table is as long as the instruction stream after every emission.
pub proof fn lemma_lines_stay_parallel(es: Seq<Emission>)
    ensures
        forall|n: int|
            0 <= n <= es.len() ==> (#[trigger] ChunkView::empty().emit_all(
                es.take(n),
            )).lines_parallel(),
{
    assert forall|n: int| 0 <= n <= es.len() implies (#[trigger] ChunkView::empty().emit_all(
        es.take(n),
    )).lines_parallel() by {
        lemma_emit_all_parallel(ChunkView::empty(), es.take(n));
    }
}

/// A sequence of emissions keeps the line table parallel to the code.
pub proof fn lemma_emit_all_parallel(start: ChunkView, es: Seq<Emission>)
    requires
        start.lines_parallel(),
    ensures
        start.emit_all(es).lines_parallel(),
    decreases es.len(),
{
    if es.len() > 0 {
        lemma_emit_all_parallel(start, es.drop_last());
    }
}

/// The refusal to give a constant-load instruction an index that does not
/// fit its operand.
#[derive(Debug, Clone, Copy, PartialEq, Eq, Structural)]
pub struct TooManyConstants {
    /// How many constants the pool held when one more was refused.
    pub count: usize,
}

/// A unit of compiled bytecode.
#[derive(Debug)]
pub struct Chunk {
    code: Vec<u8>,
    constants: ValueArray,
    lines: Vec<usize>,
}

impl View for Chunk {
    type V = ChunkView;

    closed spec fn view(&self) -> ChunkView {
        ChunkView { code: self.code@, lines: self.lines@, constants: self.constants@ }
    }
}

impl Chunk {
    /// An empty chunk.
    pub fn new() -> (r: Self)
        ensures
            r@ == ChunkView::empty(),
    {
        Chunk { code: Vec::new(), constants: ValueArray::new(), lines: Vec::new() }
    }

    /// Appends one byte to the instruction stream and its line to the line
    /// table.
    pub fn write(&mut self, byte: u8, line: usize)
        ensures
            final(self)@ == old(self)@.write(byte, line),
            old(self)@.lines_parallel() ==> final(self)@.lines_parallel(),
    {
        self.code.push(byte);
        self.lines.push(line);
    }

    /// Appends the byte of `opcode`.
    pub fn write_opcode(&mut self, opcode: OpCode, line: usize)
        ensures
            final(self)@ == old(self)@.write(encoding(opcode), line),
            old(self)@.lines_parallel() ==> final(self)@.lines_parallel(),
    {
        self.write(u8::from(opcode), line);
    }

    /// Appends `value` to the constant pool and returns its index.
    pub fn add_constant(&mut self, value: Value) -> (index: usize)
        ensures
            final(self)@ == old(self)@.add_constant(value),
            index == old(self)@.constants.len(),
            old(self)@.lines_parallel() ==> final(self)@.lines_parallel(),
    {
        let index = self.constants.count();
        self.constants.write(value);
        index
    }

    /// Adds `value` to the pool and writes the instruction that loads it. A
    /// pool that already holds `MAX_CONSTANTS` values is full: the chunk is
    /// then left as it was and the refusal returned.
    pub fn write_constant(&mut self, value: Value, line: usize) -> (r: Result<
        (),
        TooManyConstants,
    >)
        ensures
            old(self)@.constants.len() < MAX_CONSTANTS ==> r is Ok && final(self)@ == old(
                self,
            )@.write_constant(value, line),
            old(self)@.constants.len() >= MAX_CONSTANTS ==> r == Err::<(), TooManyConstants>(
                TooManyConstants { count: old(self)@.constants.len() as usize },
            ) && final(self)@ == old(self)@,
            old(self)@.lines_parallel() ==> final(self)@.lines_parallel(),
    {
        let count = self.constants.count();
        if count < MAX_CONSTANTS {
            let index = self.add_constant(value);
            self.write_opcode(OpCode::Constant, line);
            self.write(index as u8, line);
            Ok(())
        } else {
            Err(TooManyConstants { count })
        }
    }

    /// The instruction stream.
    pub fn code(&self) -> (r: &[u8])
        ensures
            r@ == self@.code,
    {
        self.code.as_slice()
    }

    /// The line table.
    pub fn lines(&self) -> (r: &[usize])
        ensures
            r@ == self@.lines,
    {
        self.lines.as_slice()
    }

    /// The constant pool.
    pub fn constants(&self) -> (r: &ValueArray)
        ensures
            r@ == self@.constants,
    {
        &self.constants
    }

    /// The length of the instruction stream in bytes.
    pub fn count(&self) -> (r: usize)
        ensures
            r == self@.code.len(),
    {
        self.code.len()
    }
}

impl Default for Chunk {
    fn default() -> (r: Self)
        ensures
            r@ == ChunkView::empty(),
    {
        Chunk::new()
    }
}

} // verus!
