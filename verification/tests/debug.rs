use lox_vm::chunk::Chunk;
use lox_vm::debug::{disassemble_chunk, disassemble_instruction, mnemonic, Decoded};
use lox_vm::opcode::OpCode;
use lox_vm::test_helpers::{
    create_arithmetic_chunk, create_complex_arithmetic_chunk,
    create_complex_arithmetic_divide_zero_chunk, create_simple_chunk, FOUR, ONE, ONE_POINT_TWO,
    SAMPLE_LINE, THREE, THREE_POINT_FOUR, TWO, ZERO,
};
use lox_vm::value::Value;

#[test]
fn constant_load_and_return_are_two_rows() {
    let mut chunk = Chunk::new();
    chunk.write_constant(Value::Number(1.5f64.to_bits()), 7).unwrap();
    chunk.write_opcode(OpCode::Return, 7);
    let rows = disassemble_chunk(&chunk);
    assert_eq!(rows.len(), 2);
    assert_eq!(rows[0].offset, 0);
    assert_eq!(rows[1].offset, 2);
    assert_eq!(rows[0].line, Some(7));
    assert_eq!(rows[1].line, None);
    match rows[0].decoded {
        Decoded::Constant { index, value } => {
            assert_eq!(index, 0);
            assert_eq!(value, Some(Value::Number(1.5f64.to_bits())));
        }
        other => panic!("unexpected row {:?}", other),
    }
    assert!(matches!(rows[1].decoded, Decoded::Simple(OpCode::Return)));
}

#[test]
fn instruction_offsets_advance_by_size() {
    let chunk = create_arithmetic_chunk();
    let (first, next) = disassemble_instruction(&chunk, 0);
    assert_eq!(first.offset, 0);
    assert_eq!(next, 2);
    let (second, next) = disassemble_instruction(&chunk, 2);
    assert_eq!(second.offset, 2);
    assert_eq!(next, 4);
    let (third, next) = disassemble_instruction(&chunk, 4);
    assert!(matches!(third.decoded, Decoded::Simple(OpCode::Add)));
    assert_eq!(next, 5);
    let offsets: Vec<usize> = disassemble_chunk(&chunk).iter().map(|r| r.offset).collect();
    assert_eq!(offsets, vec![0, 2, 4, 5, 6]);
}

#[test]
fn line_is_shown_where_it_changes() {
    let mut chunk = Chunk::new();
    chunk.write_opcode(OpCode::Nil, 1);
    chunk.write_opcode(OpCode::Not, 1);
    chunk.write_opcode(OpCode::Negate, 2);
    chunk.write_opcode(OpCode::Return, 2);
    let lines: Vec<Option<usize>> = disassemble_chunk(&chunk).iter().map(|r| r.line).collect();
    assert_eq!(lines, vec![Some(1), None, Some(2), None]);
}

#[test]
fn unknown_byte_gets_a_row_of_its_own() {
    let mut chunk = Chunk::new();
    chunk.write(99, 1);
    chunk.write_opcode(OpCode::Return, 2);
    let rows = disassemble_chunk(&chunk);
    assert_eq!(rows.len(), 2);
    assert!(matches!(rows[0].decoded, Decoded::Unknown(99)));
    assert_eq!(rows[1].offset, 1);
    assert_eq!(rows[1].line, Some(2));
}

#[test]
fn invalid_constant_index_is_shown_without_value() {
    let mut chunk = Chunk::new();
    chunk.write_opcode(OpCode::Constant, 1);
    chunk.write(3, 1);
    let rows = disassemble_chunk(&chunk);
    assert_eq!(rows.len(), 1);
    assert!(matches!(rows[0].decoded, Decoded::Constant { index: 3, value: None }));
}

#[test]
fn truncated_constant_load_is_shown() {
    let mut chunk = Chunk::new();
    chunk.write_opcode(OpCode::Nil, 1);
    chunk.write_opcode(OpCode::Constant, 1);
    let rows = disassemble_chunk(&chunk);
    assert_eq!(rows.len(), 2);
    assert!(matches!(rows[1].decoded, Decoded::Truncated));
    assert_eq!(disassemble_instruction(&chunk, 1).1, 2);
}

#[test]
fn rows_render_as_listing_lines() {
    let mut chunk = Chunk::new();
    chunk.write_constant(Value::Number(1.2f64.to_bits()), 123).unwrap();
    chunk.write_opcode(OpCode::Negate, 123);
    chunk.write_constant(Value::Nil, 124).unwrap();
    chunk.write_opcode(OpCode::Constant, 12345);
    chunk.write(9, 12345);
    chunk.write(77, 12345);
    chunk.write_opcode(OpCode::Constant, 12345);
    let rows = disassemble_chunk(&chunk);
    let lines: Vec<String> = rows.iter().map(|r| r.render("1.2")).collect();
    assert_eq!(
        lines,
        vec![
            "0000  123 OP_CONSTANT         0 '1.2",
            "0002    | OP_NEGATE",
            "0003  124 OP_CONSTANT         1 'nil",
            "0005 12345 OP_CONSTANT         9 'INVALID_CONSTANT",
            "0007    | Unknown opcode 77",
            "0008    | OP_CONSTANT",
        ]
    );
    assert_eq!(lines[0], format!("{:04} {:4} {:<16} {:4} '{}", 0, 123, "OP_CONSTANT", 0, 1.2));
}

#[test]
fn long_offsets_take_the_room_they_need() {
    let mut chunk = Chunk::new();
    for _ in 0..10001 {
        chunk.write_opcode(OpCode::Nil, 1);
    }
    let (row, next) = disassemble_instruction(&chunk, 10000);
    assert_eq!(next, 10001);
    assert_eq!(row.render(""), "10000    | OP_NIL");
    assert_eq!(disassemble_instruction(&chunk, 0).0.render(""), "0000    1 OP_NIL");
}

#[test]
fn empty_chunk_has_no_rows() {
    assert!(disassemble_chunk(&Chunk::new()).is_empty());
}

#[test]
fn mnemonics() {
    assert_eq!(mnemonic(OpCode::Return), "OP_RETURN");
    assert_eq!(mnemonic(OpCode::Constant), "OP_CONSTANT");
    assert_eq!(mnemonic(OpCode::Negate), "OP_NEGATE");
    assert_eq!(mnemonic(OpCode::Add), "OP_ADD");
    assert_eq!(mnemonic(OpCode::Subtract), "OP_SUBTRACT");
    assert_eq!(mnemonic(OpCode::Multiply), "OP_MULTIPLY");
    assert_eq!(mnemonic(OpCode::Divide), "OP_DIVIDE");
    assert_eq!(mnemonic(OpCode::Nil), "OP_NIL");
    assert_eq!(mnemonic(OpCode::True), "OP_TRUE");
    assert_eq!(mnemonic(OpCode::False), "OP_FALSE");
    assert_eq!(mnemonic(OpCode::Not), "OP_NOT");
    assert_eq!(mnemonic(OpCode::Equal), "OP_EQUAL");
    assert_eq!(mnemonic(OpCode::Greater), "OP_GREATER");
    assert_eq!(mnemonic(OpCode::Less), "OP_LESS");
}

#[test]
fn sample_constants_encode_their_numbers() {
    assert_eq!(ZERO, 0.0f64.to_bits());
    assert_eq!(ONE, 1.0f64.to_bits());
    assert_eq!(ONE_POINT_TWO, 1.2f64.to_bits());
    assert_eq!(TWO, 2.0f64.to_bits());
    assert_eq!(THREE, 3.0f64.to_bits());
    assert_eq!(THREE_POINT_FOUR, 3.4f64.to_bits());
    assert_eq!(FOUR, 4.0f64.to_bits());
}

#[test]
fn sample_chunks_have_the_expected_code() {
    let simple = create_simple_chunk();
    assert_eq!(simple.code(), &[1, 0, 2, 0]);
    assert_eq!(simple.lines(), &[SAMPLE_LINE; 4]);
    assert_eq!(simple.constants().values(), &[Value::Number(ONE_POINT_TWO)]);
    let arithmetic = create_arithmetic_chunk();
    assert_eq!(arithmetic.code(), &[1, 0, 1, 1, 3, 2, 0]);
    let complex = create_complex_arithmetic_chunk();
    assert_eq!(complex.code(), &[1, 0, 1, 1, 3, 1, 2, 5, 1, 3, 4, 1, 4, 6, 0]);
    assert_eq!(complex.constants().count(), 5);
    let faulty = create_complex_arithmetic_divide_zero_chunk();
    assert_eq!(faulty.code(), complex.code());
    assert_eq!(faulty.constants().get(4), Some(&Value::Number(ZERO)));
    assert_eq!(complex.constants().get(4), Some(&Value::Number(FOUR)));
}
