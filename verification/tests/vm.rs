use lox_vm::chunk::Chunk;
use lox_vm::opcode::OpCode;
use lox_vm::test_helpers::{
    create_arithmetic_chunk, create_complex_arithmetic_chunk,
    create_complex_arithmetic_divide_zero_chunk, create_simple_chunk,
};
use lox_vm::value::Value;
use lox_vm::vm::{Arithmetic, InterpretResult, Outcome, RuntimeFault, VM};

fn arithmetic(op: Arithmetic, lhs: u64, rhs: u64) -> u64 {
    let a = f64::from_bits(lhs);
    let b = f64::from_bits(rhs);
    let result = match op {
        Arithmetic::Add => a + b,
        Arithmetic::Subtract => a - b,
        Arithmetic::Multiply => a * b,
        Arithmetic::Divide => a / b,
    };
    result.to_bits()
}

fn drive(vm: &mut VM, chunk: Chunk) -> Outcome {
    let mut outcome = vm.interpret(chunk);
    loop {
        match outcome {
            Outcome::Arithmetic { op, lhs, rhs } => {
                outcome = vm.resume(arithmetic(op, lhs, rhs));
            }
            done => return done,
        }
    }
}

fn run(chunk: Chunk) -> Outcome {
    drive(&mut VM::new(), chunk)
}

fn number(value: f64) -> Value {
    Value::Number(value.to_bits())
}

fn program(constants: &[Value], code: &[OpCode]) -> Chunk {
    let mut chunk = Chunk::new();
    for value in constants {
        chunk.write_constant(*value, 1).unwrap();
    }
    for op in code {
        chunk.write_opcode(*op, 1);
    }
    chunk
}

#[test]
fn sample_chunks_run() {
    assert_eq!(run(create_simple_chunk()), Outcome::Completed(number(-1.2)));
    assert_eq!(run(create_arithmetic_chunk()), Outcome::Completed(number(-4.6)));
    assert_eq!(run(create_complex_arithmetic_chunk()), Outcome::Completed(number(1.25)));
    assert_eq!(
        run(create_complex_arithmetic_divide_zero_chunk()),
        Outcome::Faulted(RuntimeFault::DivisionByZero)
    );
}

#[test]
fn division_by_zero_is_its_own_fault() {
    let outcome = run(program(&[number(1.0), number(0.0)], &[OpCode::Divide, OpCode::Return]));
    assert_eq!(outcome, Outcome::Faulted(RuntimeFault::DivisionByZero));
    assert_ne!(outcome, Outcome::Faulted(RuntimeFault::OperandsNotNumbers));
    assert_ne!(outcome, Outcome::Completed(number(f64::INFINITY)));
    assert_eq!(RuntimeFault::DivisionByZero.message(), "Division by zero");
}

#[test]
fn division_by_negative_zero_faults_too() {
    let outcome = run(program(&[number(1.0), number(-0.0)], &[OpCode::Divide, OpCode::Return]));
    assert_eq!(outcome, Outcome::Faulted(RuntimeFault::DivisionByZero));
}

#[test]
fn zero_divided_is_no_fault() {
    let outcome = run(program(&[number(0.0), number(4.0)], &[OpCode::Divide, OpCode::Return]));
    assert_eq!(outcome, Outcome::Completed(number(0.0)));
}

#[test]
fn division_checks_types_before_the_divisor() {
    let outcome = run(program(&[Value::Nil, number(0.0)], &[OpCode::Divide, OpCode::Return]));
    assert_eq!(outcome, Outcome::Faulted(RuntimeFault::OperandsNotNumbers));
}

#[test]
fn arithmetic_pauses_with_operands_in_source_order() {
    let mut vm = VM::new();
    let chunk = program(&[number(8.0), number(2.0)], &[OpCode::Subtract, OpCode::Return]);
    let outcome = vm.interpret(chunk);
    assert_eq!(
        outcome,
        Outcome::Arithmetic {
            op: Arithmetic::Subtract,
            lhs: 8.0f64.to_bits(),
            rhs: 2.0f64.to_bits()
        }
    );
    assert_eq!(outcome.result(), None);
    assert_eq!(vm.stack_len(), 0);
    assert_eq!(vm.ip(), 5);
    assert_eq!(vm.resume(6.0f64.to_bits()), Outcome::Completed(number(6.0)));
    assert_eq!(vm.ip(), 6);
}

#[test]
fn each_arithmetic_instruction_names_its_operation() {
    for (opcode, op) in [
        (OpCode::Add, Arithmetic::Add),
        (OpCode::Subtract, Arithmetic::Subtract),
        (OpCode::Multiply, Arithmetic::Multiply),
        (OpCode::Divide, Arithmetic::Divide),
    ] {
        let mut vm = VM::new();
        let outcome = vm.interpret(program(&[number(3.0), number(4.0)], &[opcode]));
        assert_eq!(
            outcome,
            Outcome::Arithmetic { op, lhs: 3.0f64.to_bits(), rhs: 4.0f64.to_bits() }
        );
    }
}

#[test]
fn negate_needs_a_number() {
    for value in [Value::Nil, Value::Bool(true), Value::Bool(false)] {
        let outcome = run(program(&[value], &[OpCode::Negate, OpCode::Return]));
        assert_eq!(outcome, Outcome::Faulted(RuntimeFault::OperandNotNumber));
    }
    assert_eq!(RuntimeFault::OperandNotNumber.message(), "Operand must be a number.");
}

#[test]
fn negate_flips_the_sign() {
    assert_eq!(
        run(program(&[number(2.5)], &[OpCode::Negate, OpCode::Return])),
        Outcome::Completed(number(-2.5))
    );
    match run(program(&[number(0.0)], &[OpCode::Negate, OpCode::Return])) {
        Outcome::Completed(Value::Number(bits)) => assert_eq!(bits, (-0.0f64).to_bits()),
        other => panic!("unexpected outcome {:?}", other),
    }
}

#[test]
fn numeric_instructions_need_numbers() {
    for opcode in [
        OpCode::Add,
        OpCode::Subtract,
        OpCode::Multiply,
        OpCode::Divide,
        OpCode::Greater,
        OpCode::Less,
    ] {
        for (a, b) in [
            (Value::Nil, number(1.0)),
            (number(1.0), Value::Bool(true)),
            (Value::Bool(false), Value::Nil),
        ] {
            let outcome = run(program(&[a, b], &[opcode, OpCode::Return]));
            assert_eq!(outcome, Outcome::Faulted(RuntimeFault::OperandsNotNumbers));
        }
    }
    assert_eq!(RuntimeFault::OperandsNotNumbers.message(), "Operands must be numbers.");
}

#[test]
fn equal_accepts_any_operands() {
    let cases = [
        (number(1.0), number(1.0), true),
        (number(1.0), number(2.0), false),
        (number(0.0), number(-0.0), true),
        (number(f64::NAN), number(f64::NAN), false),
        (Value::Nil, Value::Nil, true),
        (Value::Bool(true), Value::Bool(true), true),
        (Value::Bool(true), Value::Bool(false), false),
        (Value::Nil, Value::Bool(false), false),
        (number(0.0), Value::Bool(false), false),
        (number(0.0), Value::Nil, false),
    ];
    for (a, b, expected) in cases {
        let outcome = run(program(&[a, b], &[OpCode::Equal, OpCode::Return]));
        assert_eq!(outcome, Outcome::Completed(Value::Bool(expected)));
    }
}

#[test]
fn ordering_instructions() {
    let cases = [(1.0, 2.0), (2.0, 1.0), (1.0, 1.0), (-1.0, 0.0), (f64::NAN, 1.0)];
    for (a, b) in cases {
        let less = run(program(&[number(a), number(b)], &[OpCode::Less, OpCode::Return]));
        assert_eq!(less, Outcome::Completed(Value::Bool(a < b)));
        let greater = run(program(&[number(a), number(b)], &[OpCode::Greater, OpCode::Return]));
        assert_eq!(greater, Outcome::Completed(Value::Bool(a > b)));
    }
}

#[test]
fn not_goes_by_truthiness() {
    let cases = [
        (Value::Nil, true),
        (Value::Bool(false), true),
        (Value::Bool(true), false),
        (number(0.0), false),
        (number(f64::NAN), false),
        (number(1.0), false),
    ];
    for (value, expected) in cases {
        let outcome = run(program(&[value], &[OpCode::Not, OpCode::Return]));
        assert_eq!(outcome, Outcome::Completed(Value::Bool(expected)));
    }
}

#[test]
fn literal_instructions_push() {
    assert_eq!(run(program(&[], &[OpCode::Nil, OpCode::Return])), Outcome::Completed(Value::Nil));
    assert_eq!(
        run(program(&[], &[OpCode::True, OpCode::Return])),
        Outcome::Completed(Value::Bool(true))
    );
    assert_eq!(
        run(program(&[], &[OpCode::False, OpCode::Return])),
        Outcome::Completed(Value::Bool(false))
    );
}

#[test]
fn push_beyond_capacity_overflows() {
    let mut chunk = Chunk::new();
    for _ in 0..256 {
        chunk.write_opcode(OpCode::Nil, 1);
    }
    let mut full = Chunk::new();
    for _ in 0..256 {
        full.write_opcode(OpCode::Nil, 1);
    }
    full.write_opcode(OpCode::Return, 1);
    assert_eq!(run(full), Outcome::Completed(Value::Nil));
    chunk.write_opcode(OpCode::Nil, 1);
    chunk.write_opcode(OpCode::Return, 1);
    let outcome = run(chunk);
    assert_eq!(outcome, Outcome::Faulted(RuntimeFault::StackOverflow));
    assert_eq!(RuntimeFault::StackOverflow.message(), "Stack overflow");
}

#[test]
fn push_and_pop_report_typed_faults() {
    let mut vm = VM::new();
    assert_eq!(vm.pop(), Err(RuntimeFault::StackUnderflow));
    for i in 0..256 {
        assert_eq!(vm.push(Value::Bool(i % 2 == 0)), Ok(()));
    }
    assert_eq!(vm.stack_len(), 256);
    assert_eq!(vm.push(Value::Nil), Err(RuntimeFault::StackOverflow));
    assert_eq!(vm.stack_len(), 256);
    assert_eq!(vm.pop(), Ok(Value::Bool(false)));
    assert_eq!(vm.pop(), Ok(Value::Bool(true)));
    assert_eq!(vm.stack_len(), 254);
}

#[test]
fn pop_from_empty_stack_underflows() {
    for opcode in [
        OpCode::Return,
        OpCode::Negate,
        OpCode::Not,
        OpCode::Add,
        OpCode::Equal,
        OpCode::Less,
    ] {
        let outcome = run(program(&[], &[opcode]));
        assert_eq!(outcome, Outcome::Faulted(RuntimeFault::StackUnderflow));
    }
    for opcode in [OpCode::Add, OpCode::Divide, OpCode::Equal, OpCode::Greater] {
        let outcome = run(program(&[number(1.0)], &[opcode]));
        assert_eq!(outcome, Outcome::Faulted(RuntimeFault::StackUnderflow));
    }
    assert_eq!(RuntimeFault::StackUnderflow.message(), "Stack underflow");
}

#[test]
fn unknown_opcode_faults() {
    let mut chunk = Chunk::new();
    chunk.write(200, 1);
    chunk.write_opcode(OpCode::Return, 1);
    let outcome = run(chunk);
    assert_eq!(outcome, Outcome::Faulted(RuntimeFault::UnknownOpcode(200)));
    assert_eq!(RuntimeFault::UnknownOpcode(200).message(), "Unknown opcode: 200");
    let mut chunk = Chunk::new();
    chunk.write(14, 1);
    assert_eq!(run(chunk), Outcome::Faulted(RuntimeFault::UnknownOpcode(14)));
}

#[test]
fn invalid_constant_index_faults() {
    let mut chunk = Chunk::new();
    chunk.write_constant(number(1.0), 1).unwrap();
    chunk.write_opcode(OpCode::Constant, 1);
    chunk.write(1, 1);
    chunk.write_opcode(OpCode::Return, 1);
    assert_eq!(run(chunk), Outcome::Faulted(RuntimeFault::InvalidConstant(1)));
    assert_eq!(RuntimeFault::InvalidConstant(1).message(), "Invalid constant index");
}

#[test]
fn running_off_the_end_faults() {
    assert_eq!(run(Chunk::new()), Outcome::Faulted(RuntimeFault::UnexpectedEnd));
    assert_eq!(
        run(program(&[number(1.0)], &[])),
        Outcome::Faulted(RuntimeFault::UnexpectedEnd)
    );
    let mut chunk = Chunk::new();
    chunk.write_opcode(OpCode::Constant, 1);
    assert_eq!(run(chunk), Outcome::Faulted(RuntimeFault::UnexpectedEnd));
    assert_eq!(RuntimeFault::UnexpectedEnd.message(), "Unexpected end of code");
}

#[test]
fn fresh_machine_has_nothing_to_run() {
    let mut vm = VM::new();
    assert_eq!(vm.stack_len(), 0);
    assert_eq!(vm.ip(), 0);
    assert_eq!(vm.run(), Outcome::Faulted(RuntimeFault::UnexpectedEnd));
    let mut vm = VM::default();
    assert_eq!(vm.step(), Some(Outcome::Faulted(RuntimeFault::UnexpectedEnd)));
}

#[test]
fn step_executes_one_instruction() {
    let mut vm = VM::new();
    let chunk = program(&[number(1.0)], &[OpCode::Negate, OpCode::Nil, OpCode::Return]);
    assert_eq!(vm.interpret(chunk), Outcome::Completed(Value::Nil));
    assert_eq!(vm.stack_len(), 1);
    assert_eq!(vm.pop(), Ok(number(-1.0)));
}

#[test]
fn load_puts_the_machine_at_the_start() {
    let mut vm = VM::new();
    assert!(vm.chunk().is_none());
    vm.push(Value::Nil).unwrap();
    vm.load(program(&[number(2.0)], &[OpCode::Negate, OpCode::Return]));
    assert_eq!(vm.ip(), 0);
    assert_eq!(vm.stack(), &[] as &[Value]);
    assert_eq!(vm.chunk().unwrap().code(), &[1, 0, 2, 0]);
    assert_eq!(vm.step(), None);
    assert_eq!(vm.ip(), 2);
    assert_eq!(vm.stack(), &[number(2.0)]);
    assert_eq!(vm.step(), None);
    assert_eq!(vm.stack(), &[number(-2.0)]);
    assert_eq!(vm.step(), Some(Outcome::Completed(number(-2.0))));
    assert_eq!(vm.stack_len(), 0);
}

#[test]
fn interpret_resets_the_machine() {
    let mut vm = VM::new();
    let first = vm.interpret(program(&[number(1.0), number(2.0)], &[OpCode::Nil, OpCode::Return]));
    assert_eq!(first, Outcome::Completed(Value::Nil));
    assert_eq!(vm.stack_len(), 2);
    let second = vm.interpret(program(&[], &[OpCode::Return]));
    assert_eq!(second, Outcome::Faulted(RuntimeFault::StackUnderflow));
}

#[test]
fn outcomes_are_classified() {
    assert_eq!(Outcome::Completed(Value::Nil).result(), Some(InterpretResult::Completed));
    assert_eq!(
        Outcome::Faulted(RuntimeFault::StackOverflow).result(),
        Some(InterpretResult::RuntimeError)
    );
    assert_ne!(InterpretResult::CompileError, InterpretResult::RuntimeError);
}
