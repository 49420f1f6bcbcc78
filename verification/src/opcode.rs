//! The instruction set and its one-byte encoding.

use vstd::prelude::*;
use vstd::std_specs::convert::FromSpecImpl;
use vstd::std_specs::convert::TryFromSpecImpl;
use vstd::string::StringExecFns;
use crate::text::{decimal, decimal_string};

verus! {

/// The operation tag that occupies the first byte of an instruction.
#[derive(Debug, Clone, Copy, PartialEq, Eq, Structural)]
pub enum OpCode {
    Return,
    Constant,
    Negate,
    Add,
    Subtract,
    Multiply,
    Divide,
    Nil,
    True,
    False,
    Not,
    Equal,
    Greater,
    Less,
}

/// The byte that encodes an opcode.
pub open spec fn encoding(op: OpCode) -> u8 {
    match op {
        OpCode::Return => 0,
        OpCode::Constant => 1,
        OpCode::Negate => 2,
        OpCode::Add => 3,
        OpCode::Subtract => 4,
        OpCode::Multiply => 5,
        OpCode::Divide => 6,
        OpCode::Nil => 7,
        OpCode::True => 8,
        OpCode::False => 9,
        OpCode::Not => 10,
        OpCode::Equal => 11,
        OpCode::Greater => 12,
        OpCode::Less => 13,
    }
}

/// The opcode that a byte encodes, if it encodes one.
pub open spec fn decoding(byte: u8) -> Option<OpCode> {
    if byte == 0 {
        Some(OpCode::Return)
    } else if byte == 1 {
        Some(OpCode::Constant)
    } else if byte == 2 {
        Some(OpCode::Negate)
    } else if byte == 3 {
        Some(OpCode::Add)
    } else if byte == 4 {
        Some(OpCode::Subtract)
    } else if byte == 5 {
        Some(OpCode::Multiply)
    } else if byte == 6 {
        Some(OpCode::Divide)
    } else if byte == 7 {
        Some(OpCode::Nil)
    } else if byte == 8 {
        Some(OpCode::True)
    } else if byte == 9 {
        Some(OpCode::False)
    } else if byte == 10 {
        Some(OpCode::Not)
    } else if byte == 11 {
        Some(OpCode::Equal)
    } else if byte == 12 {
        Some(OpCode::Greater)
    } else if byte == 13 {
        Some(OpCode::Less)
    } else {
        None
    }
}

/// The failure to decode a byte that encodes no opcode.
#[derive(Debug, Clone, Copy, PartialEq, Eq, Structural)]
pub struct UnknownOpcode {
    pub byte: u8,
}

impl UnknownOpcode {
    /// The text of the failure, which names the offending byte.
    pub open spec fn message_text(self) -> Seq<char> {
        "Unknown opcode: "@ + decimal(self.byte as nat)
    }

    /// Writes the failure out.
    pub fn message(&self) -> (r: String)
        ensures
            r@ == self.message_text(),
    {
        let number = decimal_string(self.byte as usize);
        String::from_str("Unknown opcode: ").concat(number.as_str())
    }
}

/// What decoding a byte yields: the opcode, or the failure that holds the byte.
pub open spec fn decoded(byte: u8) -> Result<OpCode, UnknownOpcode> {
    match decoding(byte) {
        Some(op) => Ok(op),
        None => Err(UnknownOpcode { byte }),
    }
}

impl TryFrom<u8> for OpCode {
    type Error = UnknownOpcode;

    fn try_from(byte: u8) -> (r: Result<OpCode, UnknownOpcode>) {
        match byte {
            0 => Ok(OpCode::Return),
            1 => Ok(OpCode::Constant),
            2 => Ok(OpCode::Negate),
            3 => Ok(OpCode::Add),
            4 => Ok(OpCode::Subtract),
            5 => Ok(OpCode::Multiply),
            6 => Ok(OpCode::Divide),
            7 => Ok(OpCode::Nil),
            8 => Ok(OpCode::True),
            9 => Ok(OpCode::False),
            10 => Ok(OpCode::Not),
            11 => Ok(OpCode::Equal),
            12 => Ok(OpCode::Greater),
            13 => Ok(OpCode::Less),
            _ => Err(UnknownOpcode { byte }),
        }
    }
}

impl TryFromSpecImpl<u8> for OpCode {
    open spec fn obeys_try_from_spec() -> bool {
        true
    }

    open spec fn try_from_spec(byte: u8) -> Result<OpCode, UnknownOpcode> {
        decoded(byte)
    }
}

impl From<OpCode> for u8 {
    fn from(op: OpCode) -> (r: u8) {
        match op {
            OpCode::Return => 0,
            OpCode::Constant => 1,
            OpCode::Negate => 2,
            OpCode::Add => 3,
            OpCode::Subtract => 4,
            OpCode::Multiply => 5,
            OpCode::Divide => 6,
            OpCode::Nil => 7,
            OpCode::True => 8,
            OpCode::False => 9,
            OpCode::Not => 10,
            OpCode::Equal => 11,
            OpCode::Greater => 12,
            OpCode::Less => 13,
        }
    }
}

impl FromSpecImpl<OpCode> for u8 {
    open spec fn obeys_from_spec() -> bool {
        true
    }

    open spec fn from_spec(op: OpCode) -> u8 {
        encoding(op)
    }
}

/// Encoding and decoding are inverse to each other: every opcode decodes
/// from its own byte, and a byte that decodes at all is the encoding of what
/// it decodes to.
pub proof fn lemma_encoding_round_trip(op: OpCode, byte: u8)
    ensures
        decoding(encoding(op)) == Some(op),
        decoding(byte) matches Some(found) ==> encoding(found) == byte,
        decoding(byte) is None <==> byte > 13,
{
}

} // verus!
