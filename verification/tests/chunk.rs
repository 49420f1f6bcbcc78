use lox_vm::chunk::{Chunk, TooManyConstants, MAX_CONSTANTS};
use lox_vm::opcode::{OpCode, UnknownOpcode};
use lox_vm::text::{
    decimal_string, push_filled_before, push_filled_behind, push_repeated, string_from_chars,
};
use lox_vm::value::{value_to_string, Value, ValueArray};

#[test]
fn new_chunk_is_empty() {
    let chunk = Chunk::new();
    assert_eq!(chunk.count(), 0);
    assert_eq!(chunk.code(), &[] as &[u8]);
    assert_eq!(chunk.lines(), &[] as &[usize]);
    assert_eq!(chunk.constants().count(), 0);
    assert_eq!(Chunk::default().count(), 0);
}

#[test]
fn line_table_stays_parallel_to_code() {
    let mut chunk = Chunk::new();
    assert_eq!(chunk.lines().len(), chunk.code().len());
    chunk.write(7, 1);
    assert_eq!(chunk.lines().len(), chunk.code().len());
    chunk.write_opcode(OpCode::Add, 2);
    assert_eq!(chunk.lines().len(), chunk.code().len());
    chunk.write_constant(Value::Nil, 3).unwrap();
    assert_eq!(chunk.lines().len(), chunk.code().len());
    chunk.add_constant(Value::Bool(true));
    assert_eq!(chunk.lines().len(), chunk.code().len());
    assert_eq!(chunk.code(), &[7, 3, 1, 0]);
    assert_eq!(chunk.lines(), &[1, 2, 3, 3]);
    assert_eq!(chunk.count(), 4);
}

#[test]
fn add_constant_returns_the_index() {
    let mut chunk = Chunk::new();
    assert_eq!(chunk.add_constant(Value::Nil), 0);
    assert_eq!(chunk.add_constant(Value::Bool(true)), 1);
    assert_eq!(chunk.add_constant(Value::Number(5)), 2);
    assert_eq!(chunk.count(), 0);
    assert_eq!(
        chunk.constants().values(),
        &[Value::Nil, Value::Bool(true), Value::Number(5)]
    );
}

#[test]
fn write_constant_emits_the_load() {
    let mut chunk = Chunk::new();
    chunk.add_constant(Value::Nil);
    assert_eq!(chunk.write_constant(Value::Bool(false), 9), Ok(()));
    assert_eq!(chunk.code(), &[1, 1]);
    assert_eq!(chunk.lines(), &[9, 9]);
    assert_eq!(chunk.constants().get(1), Some(&Value::Bool(false)));
}

#[test]
fn write_constant_refuses_a_full_pool() {
    let mut chunk = Chunk::new();
    for i in 0..MAX_CONSTANTS {
        assert_eq!(chunk.write_constant(Value::Number(i as u64), i), Ok(()));
    }
    assert_eq!(chunk.count(), 512);
    assert_eq!(chunk.code()[511], 255);
    assert_eq!(
        chunk.write_constant(Value::Nil, 1),
        Err(TooManyConstants { count: 256 })
    );
    assert_eq!(chunk.count(), 512);
    assert_eq!(chunk.constants().count(), 256);
}

#[test]
fn opcode_bytes_round_trip() {
    let all = [
        OpCode::Return,
        OpCode::Constant,
        OpCode::Negate,
        OpCode::Add,
        OpCode::Subtract,
        OpCode::Multiply,
        OpCode::Divide,
        OpCode::Nil,
        OpCode::True,
        OpCode::False,
        OpCode::Not,
        OpCode::Equal,
        OpCode::Greater,
        OpCode::Less,
    ];
    for (i, op) in all.iter().enumerate() {
        assert_eq!(u8::from(*op), i as u8);
        assert_eq!(OpCode::try_from(i as u8), Ok(*op));
    }
}

#[test]
fn unknown_bytes_do_not_decode() {
    for byte in 14..=255u8 {
        assert_eq!(OpCode::try_from(byte), Err(UnknownOpcode { byte }));
    }
    assert_eq!(UnknownOpcode { byte: 14 }.message(), "Unknown opcode: 14");
    assert_eq!(UnknownOpcode { byte: 255 }.message(), "Unknown opcode: 255");
}

#[test]
fn value_array_grows_in_order() {
    let mut array = ValueArray::new();
    assert_eq!(array.count(), 0);
    assert_eq!(array.get(0), None);
    array.write(Value::Number(1));
    array.write(Value::Nil);
    assert_eq!(array.count(), 2);
    assert!(array.capacity() >= 2);
    assert_eq!(array.get(0), Some(&Value::Number(1)));
    assert_eq!(array.get(1), Some(&Value::Nil));
    assert_eq!(array.get(2), None);
    assert_eq!(array.values(), &[Value::Number(1), Value::Nil]);
    assert_eq!(ValueArray::default().count(), 0);
}

#[test]
fn capacity_covers_the_contents() {
    let mut array = ValueArray::new();
    for i in 0..100 {
        array.write(Value::Number(i));
        assert!(array.capacity() >= array.count());
    }
    assert!(array.capacity() >= 100);
}

#[test]
fn truthiness() {
    assert!(Value::Nil.is_falsy());
    assert!(Value::Bool(false).is_falsy());
    assert!(!Value::Bool(true).is_falsy());
    assert!(!Value::Number(0).is_falsy());
    assert!(!Value::Number(f64::NAN.to_bits()).is_falsy());
}

#[test]
fn as_number_gives_the_encoding() {
    assert_eq!(Value::Number(1.5f64.to_bits()).as_number(), Some(1.5f64.to_bits()));
    assert_eq!(Value::Nil.as_number(), None);
    assert_eq!(Value::Bool(true).as_number(), None);
}

#[test]
fn value_equality_is_structural() {
    assert_eq!(Value::Number(1.5f64.to_bits()), Value::Number(1.5f64.to_bits()));
    assert_eq!(Value::Number(0.0f64.to_bits()), Value::Number((-0.0f64).to_bits()));
    assert_ne!(Value::Number(f64::NAN.to_bits()), Value::Number(f64::NAN.to_bits()));
    assert_ne!(Value::Number(1.0f64.to_bits()), Value::Number(2.0f64.to_bits()));
    assert_eq!(Value::Nil, Value::Nil);
    assert_ne!(Value::Nil, Value::Bool(false));
    assert_ne!(Value::Number(0), Value::Bool(false));
    assert_ne!(Value::Bool(true), Value::Bool(false));
    assert_eq!(Value::Bool(true), Value::Bool(true));
}

#[test]
fn values_are_written_out() {
    assert_eq!(value_to_string(Value::Nil, ""), "nil");
    assert_eq!(value_to_string(Value::Bool(true), "x"), "true");
    assert_eq!(value_to_string(Value::Bool(false), "x"), "false");
    assert_eq!(value_to_string(Value::Number(1.5f64.to_bits()), "1.5"), "1.5");
}

#[test]
fn padding() {
    let mut s = String::from("ab");
    push_repeated(&mut s, '*', 3);
    assert_eq!(s, "ab***");
    push_repeated(&mut s, '!', 0);
    assert_eq!(s, "ab***");
    let mut s = String::new();
    push_filled_before(&mut s, "7", 4, '0');
    push_filled_before(&mut s, "12345", 4, '0');
    push_filled_before(&mut s, "é", 3, ' ');
    assert_eq!(s, "000712345  é");
    let mut s = String::new();
    push_filled_behind(&mut s, "OP_ADD", 8);
    push_filled_behind(&mut s, "OP_CONSTANT", 4);
    push_filled_behind(&mut s, "", 2);
    assert_eq!(s, "OP_ADD  OP_CONSTANT  ");
}

#[test]
fn decimal_strings() {
    assert_eq!(decimal_string(0), "0");
    assert_eq!(decimal_string(7), "7");
    assert_eq!(decimal_string(10), "10");
    assert_eq!(decimal_string(255), "255");
    assert_eq!(decimal_string(1234567890), "1234567890");
    assert_eq!(decimal_string(usize::MAX), usize::MAX.to_string());
}

#[test]
fn strings_from_characters() {
    let chars: Vec<char> = "héllo wörld".chars().collect();
    assert_eq!(string_from_chars(&chars, 0, chars.len()), "héllo wörld");
    assert_eq!(string_from_chars(&chars, 1, 5), "éllo");
    assert_eq!(string_from_chars(&chars, 3, 3), "");
}
