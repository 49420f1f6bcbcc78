//! The stack machine that executes a chunk.
//!
//! The machine decides everything that can be decided on the encodings of
//! numbers: which instruction comes next, what it does to the stack, and
//! whether it faults. The four arithmetic instructions need floating-point
//! hardware, which the machine does not touch. When it meets one it checks
//! the operands, takes them off the stack and pauses with an
//! [`Outcome::Arithmetic`] that names the operation and both operands; the
//! caller computes the result and hands it to [`VM::resume`].

use vstd::prelude::*;
use vstd::string::StringExecFns;
use crate::chunk::{Chunk, ChunkView};
use crate::number;
use crate::opcode::{decoding, OpCode, UnknownOpcode};
use crate::value::{falsy, values_equal, Value};

verus! {

/// The number of slots of the evaluation stack.
pub const STACK_MAX: usize = 256;

/// How a driver classifies what became of a program. The machine itself
/// only ever reports the first and the last: a program that failed to compile
/// never reaches it.
#[derive(Debug, Clone, Copy, PartialEq, Eq, Structural)]
pub enum InterpretResult {
    Completed,
    CompileError,
    RuntimeError,
}

/// Why execution was aborted.
#[derive(Debug, Clone, Copy, PartialEq, Eq, Structural)]
pub enum RuntimeFault {
    /// `negate` met a value that is not a number.
    OperandNotNumber,
    /// An arithmetic or ordering instruction met a value that is not a number.
    OperandsNotNumbers,
    /// `divide` met a divisor that is a zero.
    DivisionByZero,
    /// A push onto a full stack.
    StackOverflow,
    /// A pop from an empty stack.
    StackUnderflow,
    /// A constant load whose operand is no index into the pool.
    InvalidConstant(u8),
    /// A byte that encodes no opcode, where an opcode was due.
    UnknownOpcode(u8),
    /// The instruction stream ended where an opcode or an operand was due.
    UnexpectedEnd,
}

impl RuntimeFault {
    /// The text of the fault.
    pub open spec fn message_text(self) -> Seq<char> {
        match self {
            RuntimeFault::OperandNotNumber => "Operand must be a number."@,
            RuntimeFault::OperandsNotNumbers => "Operands must be numbers."@,
            RuntimeFault::DivisionByZero => "Division by zero"@,
            RuntimeFault::StackOverflow => "Stack overflow"@,
            RuntimeFault::StackUnderflow => "Stack underflow"@,
            RuntimeFault::InvalidConstant(_) => "Invalid constant index"@,
            RuntimeFault::UnknownOpcode(byte) => (UnknownOpcode { byte }).message_text(),
            RuntimeFault::UnexpectedEnd => "Unexpected end of code"@,
        }
    }

    /// Writes the fault out.
    pub fn message(&self) -> (r: String)
        ensures
            r@ == self.message_text(),
    {
        match self {
            RuntimeFault::OperandNotNumber => String::from_str("Operand must be a number."),
            RuntimeFault::OperandsNotNumbers => String::from_str("Operands must be numbers."),
            RuntimeFault::DivisionByZero => String::from_str("Division by zero"),
            RuntimeFault::StackOverflow => String::from_str("Stack overflow"),
            RuntimeFault::StackUnderflow => String::from_str("Stack underflow"),
            RuntimeFault::InvalidConstant(_) => String::from_str("Invalid constant index"),
            RuntimeFault::UnknownOpcode(byte) => (UnknownOpcode { byte: *byte }).message(),
            RuntimeFault::UnexpectedEnd => String::from_str("Unexpected end of code"),
        }
    }
}

/// The arithmetic operations that the machine leaves to its caller.
#[derive(Debug, Clone, Copy, PartialEq, Eq, Structural)]
pub enum Arithmetic {
    Add,
    Subtract,
    Multiply,
    Divide,
}

/// How a run of the machine ended, or why it paused.
#[derive(Debug, Clone, Copy, PartialEq)]
pub enum Outcome {
    /// A `return` was executed; this is the value it popped.
    Completed(Value),
    /// Execution was aborted at the faulting instruction.
    Faulted(RuntimeFault),
    /// An arithmetic instruction is pending. Both operands are numbers, have
    /// left the stack, and for a division the divisor is no zero. The caller
    /// computes `lhs op rhs` and resumes the machine with the result.
    Arithmetic { op: Arithmetic, lhs: u64, rhs: u64 },
}

impl Outcome {
    /// The classification of an outcome; a pause has none yet.
    pub fn result(&self) -> (r: Option<InterpretResult>)
        ensures
            *self is Completed ==> r == Some(InterpretResult::Completed),
            *self is Faulted ==> r == Some(InterpretResult::RuntimeError),
            *self is Arithmetic ==> r is None,
    {
        match self {
            Outcome::Completed(_) => Some(InterpretResult::Completed),
            Outcome::Faulted(_) => Some(InterpretResult::RuntimeError),
            Outcome::Arithmetic { .. } => None,
        }
    }
}

/// The state of the machine.
pub struct Machine {
    /// The instruction stream of the loaded chunk.
    pub code: Seq<u8>,
    /// The constant pool of the loaded chunk.
    pub constants: Seq<Value>,
    /// The offset of the next instruction.
    pub ip: nat,
    /// The evaluation stack, bottom first.
    pub stack: Seq<Value>,
}

/// What executing one instruction leads to.
pub enum Transition {
    /// Execution goes on in this state.
    Next(Machine),
    /// Execution stops with this outcome, in this state.
    Stop(Outcome, Machine),
}

impl Machine {
    /// The machine at the start of a run of `chunk`.
    pub open spec fn start(chunk: ChunkView) -> Machine {
        Machine { code: chunk.code, constants: chunk.constants, ip: 0, stack: Seq::empty() }
    }

    /// The machine that has no chunk.
    pub open spec fn idle() -> Machine {
        Machine { code: Seq::empty(), constants: Seq::empty(), ip: 0, stack: Seq::empty() }
    }

    /// The state `n` bytes further on.
    pub open spec fn skip(self, n: nat) -> Machine {
        Machine { ip: self.ip + n, ..self }
    }

    /// The state with the topmost `n` values gone.
    pub open spec fn drop(self, n: nat) -> Machine {
        Machine { stack: self.stack.take(self.stack.len() - n), ..self }
    }

    /// The value `depth` places below the top of the stack.
    pub open spec fn peek(self, depth: nat) -> Value {
        self.stack[self.stack.len() - 1 - depth]
    }

    /// Pushing `value`: onto a full stack a fault, else the next state.
    pub open spec fn push(self, value: Value) -> Transition {
        if self.stack.len() >= STACK_MAX {
            Transition::Stop(Outcome::Faulted(RuntimeFault::StackOverflow), self)
        } else {
            Transition::Next(Machine { stack: self.stack.push(value), ..self })
        }
    }

    /// The fault `fault`, raised in this state.
    pub open spec fn fault(self, fault: RuntimeFault) -> Transition {
        Transition::Stop(Outcome::Faulted(fault), self)
    }

    /// An instruction that pops one value and pushes one: `negate` the
    /// number of opposite sign, which needs the operand to be a number, and
    /// `not` whether the operand is falsy.
    pub open spec fn unary(self, op: OpCode) -> Transition {
        if self.stack.len() < 1 {
            self.fault(RuntimeFault::StackUnderflow)
        } else {
            let operand = self.peek(0);
            let rest = self.drop(1).skip(1);
            match op {
                OpCode::Negate => match operand {
                    Value::Number(bits) => rest.push(Value::Number(number::negated(bits))),
                    _ => self.fault(RuntimeFault::OperandNotNumber),
                },
                _ => rest.push(Value::Bool(falsy(operand))),
            }
        }
    }

    /// An instruction that pops the right operand, then the left, and that
    /// needs both to be numbers.
    pub open spec fn numeric(self, op: OpCode) -> Transition {
        if self.stack.len() < 2 {
            self.fault(RuntimeFault::StackUnderflow)
        } else {
            let rest = self.drop(2).skip(1);
            match (self.peek(1), self.peek(0)) {
                (Value::Number(lhs), Value::Number(rhs)) => match op {
                    OpCode::Add => Transition::Stop(
                        Outcome::Arithmetic { op: Arithmetic::Add, lhs, rhs },
                        rest,
                    ),
                    OpCode::Subtract => Transition::Stop(
                        Outcome::Arithmetic { op: Arithmetic::Subtract, lhs, rhs },
                        rest,
                    ),
                    OpCode::Multiply => Transition::Stop(
                        Outcome::Arithmetic { op: Arithmetic::Multiply, lhs, rhs },
                        rest,
                    ),
                    OpCode::Divide => if number::zero(rhs) {
                        self.fault(RuntimeFault::DivisionByZero)
                    } else {
                        Transition::Stop(
                            Outcome::Arithmetic { op: Arithmetic::Divide, lhs, rhs },
                            rest,
                        )
                    },
                    OpCode::Greater => rest.push(Value::Bool(number::less(rhs, lhs))),
                    _ => rest.push(Value::Bool(number::less(lhs, rhs))),
                },
                _ => self.fault(RuntimeFault::OperandsNotNumbers),
            }
        }
    }

    /// The instruction at `ip`, executed.
    pub open spec fn step(self) -> Transition {
        if self.ip >= self.code.len() {
            self.fault(RuntimeFault::UnexpectedEnd)
        } else {
            let byte = self.code[self.ip as int];
            match decoding(byte) {
                None => self.fault(RuntimeFault::UnknownOpcode(byte)),
                Some(OpCode::Constant) => if self.ip + 1 >= self.code.len() {
                    self.fault(RuntimeFault::UnexpectedEnd)
                } else {
                    let index = self.code[(self.ip + 1) as int];
                    if index >= self.constants.len() {
                        self.fault(RuntimeFault::InvalidConstant(index))
                    } else {
                        self.skip(2).push(self.constants[index as int])
                    }
                },
                Some(OpCode::Nil) => self.skip(1).push(Value::Nil),
                Some(OpCode::True) => self.skip(1).push(Value::Bool(true)),
                Some(OpCode::False) => self.skip(1).push(Value::Bool(false)),
                Some(OpCode::Return) => if self.stack.len() < 1 {
                    self.fault(RuntimeFault::StackUnderflow)
                } else {
                    Transition::Stop(Outcome::Completed(self.peek(0)), self.drop(1).skip(1))
                },
                Some(OpCode::Negate) => self.unary(OpCode::Negate),
                Some(OpCode::Not) => self.unary(OpCode::Not),
                Some(OpCode::Equal) => if self.stack.len() < 2 {
                    self.fault(RuntimeFault::StackUnderflow)
                } else {
                    self.drop(2).skip(1).push(
                        Value::Bool(values_equal(self.peek(1), self.peek(0))),
                    )
                },
                Some(op) => self.numeric(op),
            }
        }
    }

    /// Instructions executed from this state on, until one stops the run.
    pub open spec fn run(self) -> (Outcome, Machine)
        decreases self.code.len() - self.ip,
    {
        match self.step() {
            Transition::Stop(outcome, machine) => (outcome, machine),
            Transition::Next(next) => if next.code.len() - next.ip < self.code.len() - self.ip {
                next.run()
            } else {
                (Outcome::Faulted(RuntimeFault::UnexpectedEnd), self)
            },
        }
    }

    /// The run that goes on after the caller has supplied the result of the
    /// pending arithmetic.
    pub open spec fn resume(self, result: u64) -> (Outcome, Machine) {
        match self.push(Value::Number(result)) {
            Transition::Stop(outcome, machine) => (outcome, machine),
            Transition::Next(next) => next.run(),
        }
    }
}

impl Machine {
    /// The instruction at `ip`, executed by a machine whose caller answers
    /// every pause at once: where `step` pauses for arithmetic, the result
    /// that `arith` gives is pushed and execution goes on.
    pub open spec fn step_with(self, arith: spec_fn(Arithmetic, u64, u64) -> u64) -> Transition {
        match self.step() {
            Transition::Stop(Outcome::Arithmetic { op, lhs, rhs }, paused) => paused.push(
                Value::Number(arith(op, lhs, rhs)),
            ),
            other => other,
        }
    }

    /// How the program ends when the caller does its arithmetic by `arith`:
    /// the outcome of `interpret` and of as many calls of `resume` as it
    /// takes, each with the result of the arithmetic that was asked for.
    pub open spec fn run_with(self, arith: spec_fn(Arithmetic, u64, u64) -> u64) -> Outcome
        decreases self.code.len() - self.ip,
    {
        match self.step_with(arith) {
            Transition::Stop(outcome, _) => outcome,
            Transition::Next(next) => if next.code.len() - next.ip < self.code.len() - self.ip {
                next.run_with(arith)
            } else {
                Outcome::Faulted(RuntimeFault::UnexpectedEnd)
            },
        }
    }
}

/// A run that is resumed with the result that `arith` gives, whenever it
/// pauses, ends as `run_with` says: the outcome of a run that does not
/// pause is final, and after a pause the rest of the run is that of the
/// machine that was resumed.
pub proof fn lemma_run_answered(m: Machine, arith: spec_fn(Arithmetic, u64, u64) -> u64)
    ensures
        match m.run() {
            (Outcome::Arithmetic { op, lhs, rhs }, paused) => m.run_with(arith) == (match paused.push(
                Value::Number(arith(op, lhs, rhs)),
            ) {
                Transition::Stop(outcome, _) => outcome,
                Transition::Next(next) => next.run_with(arith),
            }) && paused.ip > m.ip && paused.code == m.code,
            (outcome, _) => m.run_with(arith) == outcome,
        },
    decreases m.code.len() - m.ip,
{
    lemma_step_advances(m);
    match m.step() {
        Transition::Next(next) => {
            lemma_run_answered(next, arith);
        },
        Transition::Stop(_, _) => {},
    }
}

/// Every instruction that does not stop the run moves the machine forward in
/// the same code, so the guard in `run` never cuts a run short.
pub proof fn lemma_step_advances(m: Machine)
    ensures
        m.step() matches Transition::Next(next) ==> next.code == m.code && next.constants
            == m.constants && m.ip < next.ip <= m.code.len(),
{
}

impl Machine {
    /// Whether the instruction at `ip` is `op`.
    pub open spec fn at(self, op: OpCode) -> bool {
        self.ip < self.code.len() && decoding(self.code[self.ip as int]) == Some(op)
    }
}

/// Whether `op` is one of the instructions that need two numbers.
pub open spec fn needs_numbers(op: OpCode) -> bool {
    op == OpCode::Add || op == OpCode::Subtract || op == OpCode::Multiply || op == OpCode::Divide
        || op == OpCode::Greater || op == OpCode::Less
}

/// A division whose operands are both numbers and whose divisor is a zero, of
/// either sign, faults with `DivisionByZero`. It does not pause for the
/// quotient, and the fault is not the one raised for operands of a wrong
/// type.
pub proof fn lemma_division_by_zero_faults(m: Machine, lhs: u64, rhs: u64)
    requires
        m.at(OpCode::Divide),
        m.stack.len() >= 2,
        m.peek(1) == Value::Number(lhs),
        m.peek(0) == Value::Number(rhs),
        number::zero(rhs),
    ensures
        m.step() == Transition::Stop(Outcome::Faulted(RuntimeFault::DivisionByZero), m),
        m.run().0 == Outcome::Faulted(RuntimeFault::DivisionByZero),
        RuntimeFault::DivisionByZero != RuntimeFault::OperandsNotNumbers,
        RuntimeFault::DivisionByZero.message_text() == "Division by zero"@,
{
}

/// `negate` on a value that is not a number faults, and the fault's text
/// says that the operand must be a number.
pub proof fn lemma_negate_needs_number(m: Machine)
    requires
        m.at(OpCode::Negate),
        m.stack.len() >= 1,
        !(m.peek(0) is Number),
    ensures
        m.step() == Transition::Stop(Outcome::Faulted(RuntimeFault::OperandNotNumber), m),
        m.run().0 == Outcome::Faulted(RuntimeFault::OperandNotNumber),
        RuntimeFault::OperandNotNumber.message_text() == "Operand must be a number."@,
{
}

/// An arithmetic or ordering instruction with at least one operand that is
/// not a number faults, and the fault's text says that the operands must be
/// numbers.
pub proof fn lemma_numeric_needs_numbers(m: Machine, op: OpCode)
    requires
        needs_numbers(op),
        m.at(op),
        m.stack.len() >= 2,
        !(m.peek(0) is Number) || !(m.peek(1) is Number),
    ensures
        m.step() == Transition::Stop(Outcome::Faulted(RuntimeFault::OperandsNotNumbers), m),
        m.run().0 == Outcome::Faulted(RuntimeFault::OperandsNotNumbers),
        RuntimeFault::OperandsNotNumbers.message_text() == "Operands must be numbers."@,
{
}

/// `equal` never faults on its operands, whatever their types: it replaces
/// them by a boolean, which is `false` when the two are of different
/// variants.
pub proof fn lemma_equal_accepts_all(m: Machine)
    requires
        m.at(OpCode::Equal),
        2 <= m.stack.len() <= STACK_MAX,
    ensures
        m.step() == Transition::Next(
            Machine {
                ip: m.ip + 1,
                stack: m.stack.take(m.stack.len() - 2).push(
                    Value::Bool(values_equal(m.peek(1), m.peek(0))),
                ),
                ..m
            },
        ),
        (m.peek(1) is Number) != (m.peek(0) is Number) || (m.peek(1) is Bool) != (m.peek(0)
            is Bool) ==> !values_equal(m.peek(1), m.peek(0)),
{
}

/// Whether `op` pushes a value without popping one first.
pub open spec fn only_pushes(op: OpCode) -> bool {
    op == OpCode::Nil || op == OpCode::True || op == OpCode::False
}

/// How many values `op` pops before it does anything else.
pub open spec fn demand(op: OpCode) -> nat {
    if op == OpCode::Return || op == OpCode::Negate || op == OpCode::Not {
        1
    } else if op == OpCode::Equal || needs_numbers(op) {
        2
    } else {
        0
    }
}

/// A push onto a stack that holds `STACK_MAX` values faults with
/// `StackOverflow`; so does each instruction that pushes without popping.
pub proof fn lemma_push_on_full_stack_overflows(m: Machine, value: Value, op: OpCode)
    requires
        m.stack.len() >= STACK_MAX,
    ensures
        m.push(value) == Transition::Stop(Outcome::Faulted(RuntimeFault::StackOverflow), m),
        only_pushes(op) && m.at(op) ==> m.run().0 == Outcome::Faulted(RuntimeFault::StackOverflow),
        m.at(OpCode::Constant) && m.ip + 1 < m.code.len() && m.code[(m.ip + 1) as int]
            < m.constants.len() ==> m.run().0 == Outcome::Faulted(RuntimeFault::StackOverflow),
{
}

/// An instruction that finds fewer values on the stack than it pops faults
/// with `StackUnderflow`.
pub proof fn lemma_pop_on_short_stack_underflows(m: Machine, op: OpCode)
    requires
        m.at(op),
        m.stack.len() < demand(op),
    ensures
        m.step() == Transition::Stop(Outcome::Faulted(RuntimeFault::StackUnderflow), m),
        m.run().0 == Outcome::Faulted(RuntimeFault::StackUnderflow),
{
}

/// No instruction grows the stack beyond `STACK_MAX` values, and neither
/// does a whole run.
pub proof fn lemma_stack_stays_bounded(m: Machine)
    requires
        m.stack.len() <= STACK_MAX,
    ensures
        m.step() matches Transition::Next(next) ==> next.stack.len() <= STACK_MAX,
        !(m.run().0 is Faulted) ==> m.run().1.stack.len() <= STACK_MAX,
    decreases m.code.len() - m.ip,
{
    lemma_step_advances(m);
    match m.step() {
        Transition::Next(next) => {
            lemma_stack_stays_bounded(next);
        },
        Transition::Stop(_, _) => {},
    }
}

/// The stack machine. It owns the chunk it runs, an instruction pointer and
/// an evaluation stack of at most `STACK_MAX` values.
pub struct VM {
    chunk: Option<Chunk>,
    ip: usize,
    stack: Vec<Value>,
}

impl View for VM {
    type V = Machine;

    closed spec fn view(&self) -> Machine {
        match self.chunk {
            Some(chunk) => Machine {
                code: chunk@.code,
                constants: chunk@.constants,
                ip: self.ip as nat,
                stack: self.stack@,
            },
            None => Machine {
                code: Seq::empty(),
                constants: Seq::empty(),
                ip: self.ip as nat,
                stack: self.stack@,
            },
        }
    }
}

impl VM {
    /// A machine with no chunk and an empty stack.
    pub fn new() -> (r: Self)
        ensures
            r@ == Machine::idle(),
    {
        VM { chunk: None, ip: 0, stack: Vec::new() }
    }

    /// Loads `chunk`, clears the stack and runs from the first instruction
    /// until the program returns, faults, or needs arithmetic done. After a
    /// pause the machine is in the state from which `resume` goes on.
    pub fn interpret(&mut self, chunk: Chunk) -> (r: Outcome)
        ensures
            r == Machine::start(chunk@).run().0,
            r is Faulted || final(self)@ == Machine::start(chunk@).run().1,
    {
        self.load(chunk);
        self.run()
    }

    /// Loads `chunk` and puts the machine at its first instruction, with an
    /// empty stack, without executing anything yet.
    pub fn load(&mut self, chunk: Chunk)
        ensures
            final(self)@ == Machine::start(chunk@),
    {
        self.chunk = Some(chunk);
        self.ip = 0;
        self.reset_stack();
    }

    /// Pushes the result of the arithmetic that the machine paused on and
    /// runs on from there.
    pub fn resume(&mut self, result: u64) -> (r: Outcome)
        ensures
            r == old(self)@.resume(result).0,
            r is Faulted || final(self)@ == old(self)@.resume(result).1,
    {
        match self.push(Value::Number(result)) {
            Ok(()) => self.run(),
            Err(fault) => Outcome::Faulted(fault),
        }
    }

    /// Executes instructions from the current one on until one of them stops
    /// the run.
    pub fn run(&mut self) -> (r: Outcome)
        ensures
            r == old(self)@.run().0,
            r is Faulted || final(self)@ == old(self)@.run().1,
    {
        let ghost start = self@;
        loop
            invariant
                start == old(self)@,
                self@.run() == start.run(),
            decreases self@.code.len() - self@.ip,
        {
            proof {
                lemma_step_advances(self@);
            }
            match self.step() {
                Some(outcome) => {
                    return outcome;
                },
                None => {},
            }
        }
    }

    /// Executes the instruction at the instruction pointer. `None` says that
    /// execution goes on with the next one.
    pub fn step(&mut self) -> (r: Option<Outcome>)
        ensures
            match old(self)@.step() {
                Transition::Next(next) => r is None && final(self)@ == next,
                Transition::Stop(outcome, machine) => r == Some(outcome) && (outcome is Faulted
                    || final(self)@ == machine),
            },
    {
        let byte = match self.read_byte() {
            Some(byte) => byte,
            None => {
                return Some(Outcome::Faulted(RuntimeFault::UnexpectedEnd));
            },
        };
        match OpCode::try_from(byte) {
            Ok(opcode) => match opcode {
                OpCode::Constant => match self.read_constant() {
                    Ok(constant) => self.push_result(constant),
                    Err(fault) => Some(Outcome::Faulted(fault)),
                },
                OpCode::True => self.push_result(Value::Bool(true)),
                OpCode::False => self.push_result(Value::Bool(false)),
                OpCode::Nil => self.push_result(Value::Nil),
                OpCode::Return => match self.pop() {
                    Ok(value) => Some(Outcome::Completed(value)),
                    Err(fault) => Some(Outcome::Faulted(fault)),
                },
                OpCode::Negate => match self.pop() {
                    Ok(Value::Number(bits)) => self.push_result(
                        Value::Number(number::negate(bits)),
                    ),
                    Ok(_) => Some(Outcome::Faulted(RuntimeFault::OperandNotNumber)),
                    Err(fault) => Some(Outcome::Faulted(fault)),
                },
                OpCode::Not => match self.pop() {
                    Ok(value) => self.push_result(Value::Bool(value.is_falsy())),
                    Err(fault) => Some(Outcome::Faulted(fault)),
                },
                OpCode::Equal => match self.pop_pair() {
                    Ok((a, b)) => self.push_result(Value::Bool(a == b)),
                    Err(fault) => Some(Outcome::Faulted(fault)),
                },
                OpCode::Add => self.arithmetic(Arithmetic::Add),
                OpCode::Subtract => self.arithmetic(Arithmetic::Subtract),
                OpCode::Multiply => self.arithmetic(Arithmetic::Multiply),
                OpCode::Divide => self.arithmetic(Arithmetic::Divide),
                OpCode::Greater => match self.pop_numbers() {
                    Ok((lhs, rhs)) => self.push_result(Value::Bool(number::is_less(rhs, lhs))),
                    Err(fault) => Some(Outcome::Faulted(fault)),
                },
                OpCode::Less => match self.pop_numbers() {
                    Ok((lhs, rhs)) => self.push_result(Value::Bool(number::is_less(lhs, rhs))),
                    Err(fault) => Some(Outcome::Faulted(fault)),
                },
            },
            Err(_) => Some(Outcome::Faulted(RuntimeFault::UnknownOpcode(byte))),
        }
    }

    /// Pushes `value`, or reports that the stack is full and leaves it as it
    /// was.
    pub fn push(&mut self, value: Value) -> (r: Result<(), RuntimeFault>)
        ensures
            match old(self)@.push(value) {
                Transition::Next(next) => r is Ok && final(self)@ == next,
                Transition::Stop(_, _) => r == Err::<(), RuntimeFault>(
                    RuntimeFault::StackOverflow,
                ) && final(self)@ == old(self)@,
            },
            old(self)@.stack.len() >= STACK_MAX <==> r is Err,
    {
        if self.stack.len() >= STACK_MAX {
            return Err(RuntimeFault::StackOverflow);
        }
        self.stack.push(value);
        Ok(())
    }

    /// Pops the topmost value, or reports that the stack is empty.
    pub fn pop(&mut self) -> (r: Result<Value, RuntimeFault>)
        ensures
            old(self)@.stack.len() == 0 ==> r == Err::<Value, RuntimeFault>(
                RuntimeFault::StackUnderflow,
            ) && final(self)@ == old(self)@,
            old(self)@.stack.len() > 0 ==> r == Ok::<Value, RuntimeFault>(old(self)@.peek(0))
                && final(self)@ == old(self)@.drop(1),
    {
        match self.stack.pop() {
            Some(value) => Ok(value),
            None => Err(RuntimeFault::StackUnderflow),
        }
    }

    /// The number of values on the stack.
    pub fn stack_len(&self) -> (r: usize)
        ensures
            r == self@.stack.len(),
    {
        self.stack.len()
    }

    /// The evaluation stack, bottom first.
    pub fn stack(&self) -> (r: &[Value])
        ensures
            r@ == self@.stack,
    {
        self.stack.as_slice()
    }

    /// The chunk that is loaded, if one is.
    pub fn chunk(&self) -> (r: Option<&Chunk>)
        ensures
            r matches Some(chunk) ==> chunk@.code == self@.code && chunk@.constants
                == self@.constants,
            r is None ==> self@.code.len() == 0 && self@.constants.len() == 0,
    {
        self.chunk.as_ref()
    }

    /// The offset of the next instruction.
    pub fn ip(&self) -> (r: usize)
        ensures
            r == self@.ip,
    {
        self.ip
    }

    fn reset_stack(&mut self)
        ensures
            final(self)@ == (Machine { stack: Seq::empty(), ..old(self)@ }),
    {
        self.stack.clear();
    }

    fn read_byte(&mut self) -> (r: Option<u8>)
        ensures
            old(self)@.ip < old(self)@.code.len() ==> r == Some(
                old(self)@.code[old(self)@.ip as int],
            ) && final(self)@ == old(self)@.skip(1),
            old(self)@.ip >= old(self)@.code.len() ==> r is None && final(self)@ == old(self)@,
    {
        let byte = match &self.chunk {
            Some(chunk) => {
                let code = chunk.code();
                if self.ip < code.len() {
                    code[self.ip]
                } else {
                    return None;
                }
            },
            None => {
                return None;
            },
        };
        self.ip = self.ip + 1;
        Some(byte)
    }

    fn read_constant(&mut self) -> (r: Result<Value, RuntimeFault>)
        ensures
            final(self)@.code == old(self)@.code,
            final(self)@.constants == old(self)@.constants,
            final(self)@.stack == old(self)@.stack,
            old(self)@.ip >= old(self)@.code.len() ==> r == Err::<Value, RuntimeFault>(
                RuntimeFault::UnexpectedEnd,
            ),
            old(self)@.ip < old(self)@.code.len() ==> {
                let index = old(self)@.code[old(self)@.ip as int];
                &&& index >= old(self)@.constants.len() ==> r == Err::<Value, RuntimeFault>(
                    RuntimeFault::InvalidConstant(index),
                )
                &&& index < old(self)@.constants.len() ==> r == Ok::<Value, RuntimeFault>(
                    old(self)@.constants[index as int],
                ) && final(self)@ == old(self)@.skip(1)
            },
    {
        let index = match self.read_byte() {
            Some(index) => index,
            None => {
                return Err(RuntimeFault::UnexpectedEnd);
            },
        };
        match &self.chunk {
            Some(chunk) => match chunk.constants().get(index as usize) {
                Some(value) => Ok(*value),
                None => Err(RuntimeFault::InvalidConstant(index)),
            },
            None => Err(RuntimeFault::InvalidConstant(index)),
        }
    }

    fn push_result(&mut self, value: Value) -> (r: Option<Outcome>)
        ensures
            match old(self)@.push(value) {
                Transition::Next(next) => r is None && final(self)@ == next,
                Transition::Stop(outcome, _) => r == Some(outcome),
            },
    {
        match self.push(value) {
            Ok(()) => None,
            Err(fault) => Some(Outcome::Faulted(fault)),
        }
    }

    fn pop_pair(&mut self) -> (r: Result<(Value, Value), RuntimeFault>)
        ensures
            old(self)@.stack.len() < 2 ==> r == Err::<(Value, Value), RuntimeFault>(
                RuntimeFault::StackUnderflow,
            ),
            old(self)@.stack.len() >= 2 ==> r == Ok::<(Value, Value), RuntimeFault>(
                (old(self)@.peek(1), old(self)@.peek(0)),
            ) && final(self)@ == old(self)@.drop(2),
    {
        let b = match self.pop() {
            Ok(b) => b,
            Err(fault) => {
                return Err(fault);
            },
        };
        let a = match self.pop() {
            Ok(a) => a,
            Err(fault) => {
                return Err(fault);
            },
        };
        proof {
            assert(old(self)@.drop(1).drop(1).stack == old(self)@.drop(2).stack);
        }
        Ok((a, b))
    }

    fn pop_numbers(&mut self) -> (r: Result<(u64, u64), RuntimeFault>)
        ensures
            old(self)@.stack.len() < 2 ==> r == Err::<(u64, u64), RuntimeFault>(
                RuntimeFault::StackUnderflow,
            ),
            old(self)@.stack.len() >= 2 ==> match (old(self)@.peek(1), old(self)@.peek(0)) {
                (Value::Number(lhs), Value::Number(rhs)) => r == Ok::<(u64, u64), RuntimeFault>(
                    (lhs, rhs),
                ) && final(self)@ == old(self)@.drop(2),
                _ => r == Err::<(u64, u64), RuntimeFault>(RuntimeFault::OperandsNotNumbers),
            },
    {
        match self.pop_pair() {
            Ok((Value::Number(lhs), Value::Number(rhs))) => Ok((lhs, rhs)),
            Ok(_) => Err(RuntimeFault::OperandsNotNumbers),
            Err(fault) => Err(fault),
        }
    }

    fn arithmetic(&mut self, op: Arithmetic) -> (r: Option<Outcome>)
        ensures
            old(self)@.stack.len() < 2 ==> r == Some(
                Outcome::Faulted(RuntimeFault::StackUnderflow),
            ),
            old(self)@.stack.len() >= 2 ==> match (old(self)@.peek(1), old(self)@.peek(0)) {
                (Value::Number(lhs), Value::Number(rhs)) => if op == Arithmetic::Divide
                    && number::zero(rhs) {
                    r == Some(Outcome::Faulted(RuntimeFault::DivisionByZero))
                } else {
                    r == Some(Outcome::Arithmetic { op, lhs, rhs }) && final(self)@ == old(
                        self,
                    )@.drop(2)
                },
                _ => r == Some(Outcome::Faulted(RuntimeFault::OperandsNotNumbers)),
            },
    {
        match self.pop_numbers() {
            Ok((lhs, rhs)) => {
                if op == Arithmetic::Divide && number::is_zero(rhs) {
                    Some(Outcome::Faulted(RuntimeFault::DivisionByZero))
                } else {
                    Some(Outcome::Arithmetic { op, lhs, rhs })
                }
            },
            Err(fault) => Some(Outcome::Faulted(fault)),
        }
    }
}

impl Default for VM {
    fn default() -> (r: Self)
        ensures
            r@ == Machine::idle(),
    {
        VM::new()
    }
}

} // verus!
