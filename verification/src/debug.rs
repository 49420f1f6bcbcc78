//! The disassembler: a chunk's instruction stream, decoded into rows that a
//! caller can print.

use vstd::prelude::*;
use crate::chunk::{Chunk, ChunkView};
use vstd::string::StringExecFns;
use crate::opcode::{decoding, OpCode};
use crate::text::{
    decimal,
    decimal_string,
    filled_before,
    filled_behind,
    push_filled_before,
    push_filled_behind,
};
use crate::value::{value_text, value_to_string, Value};

verus! {

/// What the bytes at an offset decode to.
#[derive(Debug, Clone, Copy)]
pub enum Decoded {
    /// An instruction without operand.
    Simple(OpCode),
    /// A constant load, with its operand and the constant that the operand
    /// refers to, if it refers to one.
    Constant { index: u8, value: Option<Value> },
    /// A constant load at the very end of the stream, where its operand is
    /// missing.
    Truncated,
    /// A byte that encodes no opcode.
    Unknown(u8),
}

/// One row of a disassembly.
#[derive(Debug, Clone, Copy)]
pub struct Row {
    /// The offset of the instruction.
    pub offset: usize,
    /// The source line of the instruction, or `None` where it is the line of
    /// the byte before it.
    pub line: Option<usize>,
    /// The instruction.
    pub decoded: Decoded,
}

/// The instruction at `offset`, which is inside the code.
pub open spec fn decoded_at(chunk: ChunkView, offset: int) -> Decoded {
    let byte = chunk.code[offset];
    match decoding(byte) {
        None => Decoded::Unknown(byte),
        Some(OpCode::Constant) => if offset + 1 < chunk.code.len() {
            let index = chunk.code[offset + 1];
            Decoded::Constant {
                index,
                value: if index < chunk.constants.len() {
                    Some(chunk.constants[index as int])
                } else {
                    None
                },
            }
        } else {
            Decoded::Truncated
        },
        Some(op) => Decoded::Simple(op),
    }
}

/// The number of bytes that an instruction takes.
pub open spec fn size(decoded: Decoded) -> int {
    match decoded {
        Decoded::Constant { .. } => 2,
        _ => 1,
    }
}

/// The line to show for the instruction at `offset`: none where the byte
/// before it is of the same line.
pub open spec fn shown_line(chunk: ChunkView, offset: int) -> Option<usize> {
    if offset > 0 && chunk.lines[offset] == chunk.lines[offset - 1] {
        None
    } else {
        Some(chunk.lines[offset])
    }
}

/// The row for the instruction at `offset`.
pub open spec fn row_at(chunk: ChunkView, offset: int) -> Row {
    Row {
        offset: offset as usize,
        line: shown_line(chunk, offset),
        decoded: decoded_at(chunk, offset),
    }
}

/// The rows for the instructions from `offset` to the end of the code.
pub open spec fn rows_from(chunk: ChunkView, offset: int) -> Seq<Row>
    decreases chunk.code.len() - offset,
{
    if 0 <= offset < chunk.code.len() {
        seq![row_at(chunk, offset)] + rows_from(
            chunk,
            offset + size(decoded_at(chunk, offset)),
        )
    } else {
        Seq::empty()
    }
}

/// The name of an opcode in a listing.
pub fn mnemonic(opcode: OpCode) -> (r: &'static str)
    ensures
        r@ == mnemonic_text(opcode),
{
    match opcode {
        OpCode::Return => "OP_RETURN",
        OpCode::Constant => "OP_CONSTANT",
        OpCode::Negate => "OP_NEGATE",
        OpCode::Add => "OP_ADD",
        OpCode::Subtract => "OP_SUBTRACT",
        OpCode::Multiply => "OP_MULTIPLY",
        OpCode::Divide => "OP_DIVIDE",
        OpCode::Nil => "OP_NIL",
        OpCode::True => "OP_TRUE",
        OpCode::False => "OP_FALSE",
        OpCode::Not => "OP_NOT",
        OpCode::Equal => "OP_EQUAL",
        OpCode::Greater => "OP_GREATER",
        OpCode::Less => "OP_LESS",
    }
}

/// The name of an opcode in a listing.
pub open spec fn mnemonic_text(opcode: OpCode) -> Seq<char> {
    match opcode {
        OpCode::Return => "OP_RETURN"@,
        OpCode::Constant => "OP_CONSTANT"@,
        OpCode::Negate => "OP_NEGATE"@,
        OpCode::Add => "OP_ADD"@,
        OpCode::Subtract => "OP_SUBTRACT"@,
        OpCode::Multiply => "OP_MULTIPLY"@,
        OpCode::Divide => "OP_DIVIDE"@,
        OpCode::Nil => "OP_NIL"@,
        OpCode::True => "OP_TRUE"@,
        OpCode::False => "OP_FALSE"@,
        OpCode::Not => "OP_NOT"@,
        OpCode::Equal => "OP_EQUAL"@,
        OpCode::Greater => "OP_GREATER"@,
        OpCode::Less => "OP_LESS"@,
    }
}

/// How the constant of a constant load is shown: a number by the text that
/// the caller has for it, `nil`, `true` and `false` by their names, and a
/// constant that the pool does not hold by a note that says so.
pub open spec fn constant_text(value: Option<Value>, number_text: Seq<char>) -> Seq<char> {
    match value {
        None => "INVALID_CONSTANT"@,
        Some(value) => value_text(value, number_text),
    }
}

/// How an instruction is shown: by its name; a constant load by its name in
/// a column of 16, the index in a column of 4 and the constant behind an
/// opening quote; an unknown byte by its number.
pub open spec fn instruction_text(decoded: Decoded, number_text: Seq<char>) -> Seq<char> {
    match decoded {
        Decoded::Simple(opcode) => mnemonic_text(opcode),
        Decoded::Constant { index, value } => filled_behind(
            mnemonic_text(OpCode::Constant),
            16,
        ) + " "@ + filled_before(decimal(index as nat), 4, ' ') + " '"@ + constant_text(
            value,
            number_text,
        ),
        Decoded::Truncated => mnemonic_text(OpCode::Constant),
        Decoded::Unknown(byte) => "Unknown opcode "@ + decimal(byte as nat),
    }
}

impl Row {
    /// The row as a line of a listing: the offset in four digits, the line
    /// in a column of 4 or a bar where it is that of the row before, and the
    /// instruction.
    pub open spec fn text(self, number_text: Seq<char>) -> Seq<char> {
        filled_before(decimal(self.offset as nat), 4, '0') + " "@ + (match self.line {
            None => "   | "@,
            Some(line) => filled_before(decimal(line as nat), 4, ' ') + " "@,
        }) + instruction_text(self.decoded, number_text)
    }

    /// Writes the row out as a line of a listing, without a line end.
    /// `number_text` is the text to show for the constant of a constant
    /// load where that constant is a number.
    pub fn render(&self, number_text: &str) -> (r: String)
        ensures
            r@ == self.text(number_text@),
    {
        let mut r = String::new();
        push_filled_before(&mut r, decimal_string(self.offset).as_str(), 4, '0');
        r.append(" ");
        r.append(render_line(self.line).as_str());
        r.append(render_instruction(self.decoded, number_text).as_str());
        r
    }
}

fn render_line(line: Option<usize>) -> (r: String)
    ensures
        r@ == (match line {
            None => "   | "@,
            Some(line) => filled_before(decimal(line as nat), 4, ' ') + " "@,
        }),
{
    match line {
        None => String::from_str("   | "),
        Some(line) => {
            let mut r = String::new();
            push_filled_before(&mut r, decimal_string(line).as_str(), 4, ' ');
            r.append(" ");
            r
        },
    }
}

fn render_constant(value: Option<Value>, number_text: &str) -> (r: String)
    ensures
        r@ == constant_text(value, number_text@),
{
    match value {
        None => String::from_str("INVALID_CONSTANT"),
        Some(value) => value_to_string(value, number_text),
    }
}

fn render_instruction(decoded: Decoded, number_text: &str) -> (r: String)
    ensures
        r@ == instruction_text(decoded, number_text@),
{
    match decoded {
        Decoded::Simple(opcode) => String::from_str(mnemonic(opcode)),
        Decoded::Constant { index, value } => {
            let mut r = String::new();
            push_filled_behind(&mut r, mnemonic(OpCode::Constant), 16);
            r.append(" ");
            push_filled_before(&mut r, decimal_string(index as usize).as_str(), 4, ' ');
            r.append(" '");
            r.append(render_constant(value, number_text).as_str());
            r
        },
        Decoded::Truncated => String::from_str(mnemonic(OpCode::Constant)),
        Decoded::Unknown(byte) => String::from_str("Unknown opcode ").concat(
            decimal_string(byte as usize).as_str(),
        ),
    }
}

/// Decodes the whole instruction stream of `chunk`, one row for each
/// instruction. A byte that encodes no opcode gets a row of its own and is
/// stepped over.
pub fn disassemble_chunk(chunk: &Chunk) -> (rows: Vec<Row>)
    requires
        chunk@.lines_parallel(),
    ensures
        rows@ == rows_from(chunk@, 0),
{
    let mut rows: Vec<Row> = Vec::new();
    let mut offset: usize = 0;
    while offset < chunk.count()
        invariant
            chunk@.lines_parallel(),
            offset <= chunk@.code.len(),
            rows_from(chunk@, 0) == rows@ + rows_from(chunk@, offset as int),
        decreases chunk@.code.len() - offset,
    {
        let (row, next) = disassemble_instruction(chunk, offset);
        proof {
            assert(rows@ + (seq![row] + rows_from(chunk@, next as int)) == rows@.push(row)
                + rows_from(chunk@, next as int));
        }
        rows.push(row);
        offset = next;
    }
    proof {
        assert(rows@ + Seq::<Row>::empty() == rows@);
    }
    rows
}

/// Decodes the instruction at `offset` and returns its row and the offset
/// of the instruction behind it.
pub fn disassemble_instruction(chunk: &Chunk, offset: usize) -> (r: (Row, usize))
    requires
        chunk@.lines_parallel(),
        offset < chunk@.code.len(),
    ensures
        r.0 == row_at(chunk@, offset as int),
        r.1 == offset + size(r.0.decoded),
        r.1 <= chunk@.code.len(),
{
    let lines = chunk.lines();
    let line = if offset > 0 && lines[offset] == lines[offset - 1] {
        None
    } else {
        Some(lines[offset])
    };
    let instruction = chunk.code()[offset];
    let (decoded, next) = match OpCode::try_from(instruction) {
        Ok(opcode) => match opcode {
            OpCode::Constant => constant_instruction(chunk, offset),
            _ => simple_instruction(opcode, offset),
        },
        Err(_) => (Decoded::Unknown(instruction), offset + 1),
    };
    (Row { offset, line, decoded }, next)
}

fn simple_instruction(opcode: OpCode, offset: usize) -> (r: (Decoded, usize))
    requires
        offset < usize::MAX,
    ensures
        r == (Decoded::Simple(opcode), (offset + 1) as usize),
{
    (Decoded::Simple(opcode), offset + 1)
}

fn constant_instruction(chunk: &Chunk, offset: usize) -> (r: (Decoded, usize))
    requires
        offset < chunk@.code.len(),
        decoding(chunk@.code[offset as int]) == Some(OpCode::Constant),
    ensures
        r.0 == decoded_at(chunk@, offset as int),
        r.1 == offset + size(r.0),
        r.1 <= chunk@.code.len(),
{
    let code = chunk.code();
    if offset < code.len() - 1 {
        let index = code[offset + 1];
        let value = match chunk.constants().get(index as usize) {
            Some(value) => Some(*value),
            None => None,
        };
        (Decoded::Constant { index, value }, offset + 2)
    } else {
        (Decoded::Truncated, offset + 1)
    }
}

} // verus!
