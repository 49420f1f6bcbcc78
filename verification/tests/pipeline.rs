use lox_vm::chunk::Chunk;
use lox_vm::compiler::{compile, number_lexemes, CompileFailed};
use lox_vm::opcode::OpCode;
use lox_vm::value::Value;
use lox_vm::vm::{Arithmetic, InterpretResult, Outcome, RuntimeFault, VM};

fn arithmetic(op: Arithmetic, lhs: u64, rhs: u64) -> u64 {
    let a = f64::from_bits(lhs);
    let b = f64::from_bits(rhs);
    let result = match op {
        Arithmetic::Add => a + b,
        Arithmetic::Subtract => a - b,
        Arithmetic::Multiply => a * b,
        Arithmetic::Divide => a / b,
    };
    result.to_bits()
}

fn drive(vm: &mut VM, chunk: Chunk) -> Outcome {
    let mut outcome = vm.interpret(chunk);
    loop {
        match outcome {
            Outcome::Arithmetic { op, lhs, rhs } => {
                outcome = vm.resume(arithmetic(op, lhs, rhs));
            }
            done => return done,
        }
    }
}

fn compile_source(source: &str) -> Result<Chunk, CompileFailed> {
    let mut numbers: Vec<u64> = Vec::new();
    for text in number_lexemes(source) {
        numbers.push(text.parse::<f64>().unwrap().to_bits());
    }
    compile(source.to_string(), &numbers)
}

fn evaluate(source: &str) -> f64 {
    let chunk = compile_source(source).expect("the source compiles");
    let mut vm = VM::new();
    match drive(&mut vm, chunk) {
        Outcome::Completed(Value::Number(bits)) => f64::from_bits(bits),
        other => panic!("unexpected outcome {:?}", other),
    }
}

#[test]
fn multiplication_binds_tighter_than_addition() {
    assert_eq!(evaluate("1 + 2 * 3"), 7.0);
    assert_ne!(evaluate("1 + 2 * 3"), 9.0);
    assert_eq!(evaluate("2 * 3 + 1"), 7.0);
}

#[test]
fn subtraction_associates_to_the_left() {
    assert_eq!(evaluate("8 - 4 - 2"), 2.0);
    assert_eq!(evaluate("8 / 4 / 2"), 1.0);
}

#[test]
fn parentheses_group() {
    assert_eq!(evaluate("(1 + 2) * 3"), 9.0);
    assert_eq!(evaluate("((1 + 2) * 3 - 4) / 4"), 1.25);
}

#[test]
fn negated_sum_round_trip() {
    assert_eq!(evaluate("-(1.2 + 3.4)"), -4.6);
    assert_eq!(evaluate("--3"), 3.0);
    assert_eq!(evaluate("2 - -3"), 5.0);
    assert_eq!(evaluate("-2 * 3"), -6.0);
}

#[test]
fn comments_and_blank_lines_are_skipped() {
    assert_eq!(evaluate("// a sum\n  1 +\n\t2 // the end"), 3.0);
}

#[test]
fn compiled_code_is_postfix() {
    let chunk = compile_source("1 + 2 * 3").unwrap();
    let c = u8::from(OpCode::Constant);
    assert_eq!(
        chunk.code(),
        &[
            c,
            0,
            c,
            1,
            c,
            2,
            u8::from(OpCode::Multiply),
            u8::from(OpCode::Add),
            u8::from(OpCode::Return)
        ]
    );
    assert_eq!(chunk.lines().len(), chunk.code().len());
    assert_eq!(chunk.constants().count(), 3);
    assert_eq!(chunk.constants().get(2), Some(&Value::Number(3.0f64.to_bits())));
}

#[test]
fn lines_follow_the_tokens() {
    let chunk = compile_source("1\n+\n2").unwrap();
    assert_eq!(chunk.lines(), &[1, 1, 3, 3, 3, 3]);
}

#[test]
fn division_by_zero_in_source_faults() {
    let chunk = compile_source("1 / 0").unwrap();
    let mut vm = VM::new();
    let outcome = drive(&mut vm, chunk);
    assert_eq!(outcome, Outcome::Faulted(RuntimeFault::DivisionByZero));
    assert_eq!(outcome.result(), Some(InterpretResult::RuntimeError));
}

#[test]
fn machine_is_reusable() {
    let mut vm = VM::new();
    let first = drive(&mut vm, compile_source("1 / 0").unwrap());
    assert_eq!(first, Outcome::Faulted(RuntimeFault::DivisionByZero));
    let second = drive(&mut vm, compile_source("6 / 3").unwrap());
    assert_eq!(second, Outcome::Completed(Value::Number(2.0f64.to_bits())));
    assert_eq!(second.result(), Some(InterpretResult::Completed));
}
