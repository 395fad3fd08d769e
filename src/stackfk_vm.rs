//! The execution engine: machine state, the transition each instruction
//! makes, and the step-by-step interpreter that a driver runs.
//!
//! The engine decides everything on integers and strings itself. Work on
//! floating-point values, console input and random numbers is handed to the
//! driver as a request; the driver answers with an outcome, which the engine
//! then applies.
use vstd::prelude::*;
use crate::error::Error;
use crate::program::{
    analyze_labels, compile, compiled, is_jump, label_target, lemma_label_target_in_range, program_view,
    InstrView, Instruction, LabelTable, Opcode, Operand, OperandView,
};
use crate::text::{compare_text, joined, parse_i32, parsed_i32, text_order, strip_line_end, without_line_end, Order};
use crate::tokenizer::Symbol;

verus! {

/// A runtime value.
pub enum Value {
    Integer(i32),
    /// A 32-bit IEEE-754 float, held as its bit pattern.
    Float(u32),
    String(String),
}

pub enum ValueView {
    Integer(i32),
    Float(u32),
    Text(Seq<char>),
}

impl View for Value {
    type V = ValueView;

    open spec fn view(&self) -> ValueView {
        match self {
            Value::Integer(i) => ValueView::Integer(*i),
            Value::Float(b) => ValueView::Float(*b),
            Value::String(s) => ValueView::Text(s@),
        }
    }
}

impl Value {
    /// A full copy of the value.
    pub fn duplicate(&self) -> (r: Value)
        ensures
            r@ == self@,
    {
        match self {
            Value::Integer(i) => Value::Integer(*i),
            Value::Float(b) => Value::Float(*b),
            Value::String(s) => Value::String(s.clone()),
        }
    }
}

pub open spec fn stack_view(s: Seq<Value>) -> Seq<ValueView> {
    s.map_values(|v: Value| v@)
}

/// The eight comparison flags, all set together by every comparison.
#[derive(Clone, Copy, PartialEq, Eq, Structural, Debug)]
pub struct Flags {
    pub zero: bool,
    pub negative: bool,
    pub equal: bool,
    pub not_equal: bool,
    pub greater_than: bool,
    pub less_than: bool,
    pub greater_than_or_equal: bool,
    pub less_than_or_equal: bool,
}

pub open spec fn cleared_flags() -> Flags {
    Flags {
        zero: false,
        negative: false,
        equal: false,
        not_equal: false,
        greater_than: false,
        less_than: false,
        greater_than_or_equal: false,
        less_than_or_equal: false,
    }
}

/// The flags that a comparison of `a` against `b` with outcome `o` sets.
/// `Unordered` (a NaN operand) leaves only `not_equal` set.
pub open spec fn flags_of(o: Order) -> Flags {
    Flags {
        zero: o == Order::Equal,
        negative: o == Order::Less,
        equal: o == Order::Equal,
        not_equal: o != Order::Equal,
        greater_than: o == Order::Greater,
        less_than: o == Order::Less,
        greater_than_or_equal: o == Order::Greater || o == Order::Equal,
        less_than_or_equal: o == Order::Less || o == Order::Equal,
    }
}

impl Flags {
    pub fn cleared() -> (r: Flags)
        ensures
            r == cleared_flags(),
    {
        Flags {
            zero: false,
            negative: false,
            equal: false,
            not_equal: false,
            greater_than: false,
            less_than: false,
            greater_than_or_equal: false,
            less_than_or_equal: false,
        }
    }

    pub fn from_order(o: Order) -> (r: Flags)
        ensures
            r == flags_of(o),
    {
        Flags {
            zero: o == Order::Equal,
            negative: o == Order::Less,
            equal: o == Order::Equal,
            not_equal: o != Order::Equal,
            greater_than: o == Order::Greater,
            less_than: o == Order::Less,
            greater_than_or_equal: o == Order::Greater || o == Order::Equal,
            less_than_or_equal: o == Order::Less || o == Order::Equal,
        }
    }
}

pub open spec fn int_order(a: int, b: int) -> Order {
    if a < b {
        Order::Less
    } else if a == b {
        Order::Equal
    } else {
        Order::Greater
    }
}

fn compare_ints(a: i32, b: i32) -> (r: Order)
    ensures
        r == int_order(a as int, b as int),
{
    if a < b {
        Order::Less
    } else if a == b {
        Order::Equal
    } else {
        Order::Greater
    }
}

/// Whether a jump is taken under the given flags.
pub open spec fn jump_taken(op: Opcode, f: Flags) -> bool {
    match op {
        Opcode::Jump => true,
        Opcode::JumpEq => f.equal,
        Opcode::JumpNotEq => f.not_equal,
        Opcode::JumpGt => f.greater_than,
        Opcode::JumpLt => f.less_than,
        Opcode::JumpGtEq => f.greater_than_or_equal,
        Opcode::JumpLtEq => f.less_than_or_equal,
        Opcode::JumpZero => f.zero,
        Opcode::JumpNotZero => !f.zero,
        Opcode::JumpNeg => f.negative,
        _ => false,
    }
}

fn is_taken(op: Opcode, f: Flags) -> (r: bool)
    ensures
        r == jump_taken(op, f),
{
    match op {
        Opcode::Jump => true,
        Opcode::JumpEq => f.equal,
        Opcode::JumpNotEq => f.not_equal,
        Opcode::JumpGt => f.greater_than,
        Opcode::JumpLt => f.less_than,
        Opcode::JumpGtEq => f.greater_than_or_equal,
        Opcode::JumpLtEq => f.less_than_or_equal,
        Opcode::JumpZero => f.zero,
        Opcode::JumpNotZero => !f.zero,
        Opcode::JumpNeg => f.negative,
        _ => false,
    }
}

pub open spec fn magnitude(x: int) -> int {
    if x < 0 {
        -x
    } else {
        x
    }
}

/// Division truncating toward zero.
pub open spec fn trunc_div(b: int, a: int) -> int {
    let q = magnitude(b) / magnitude(a);
    if (b < 0) == (a < 0) {
        q
    } else {
        -q
    }
}

/// The exact result of `b OP a` on integers; `None` for a zero divisor.
pub open spec fn int_result(op: Opcode, b: int, a: int) -> Option<int> {
    match op {
        Opcode::Add => Some(b + a),
        Opcode::Sub => Some(b - a),
        Opcode::Mul => Some(b * a),
        Opcode::Div | Opcode::IDiv => if a == 0 {
            None
        } else {
            Some(trunc_div(b, a))
        },
        Opcode::Mod => if a == 0 {
            None
        } else {
            Some(b - a * trunc_div(b, a))
        },
        _ => None,
    }
}

pub open spec fn is_binary(op: Opcode) -> bool {
    match op {
        Opcode::Add | Opcode::Sub | Opcode::Mul | Opcode::Div | Opcode::IDiv | Opcode::Mod => true,
        _ => false,
    }
}

pub fn int_arith(op: Opcode, b: i32, a: i32) -> (r: Option<i64>)
    requires
        is_binary(op),
    ensures
        match int_result(op, b as int, a as int) {
            Some(v) => r == Some(v as i64) && i64::MIN <= v <= i64::MAX,
            None => r is None,
        },
{
    let x = b as i64;
    let y = a as i64;
    match op {
        Opcode::Add => Some(x + y),
        Opcode::Sub => Some(x - y),
        Opcode::Mul => {
            assert(-0x4000_0000_0000_0000 <= x * y <= 0x4000_0000_0000_0000) by (nonlinear_arith)
                requires
                    -0x8000_0000 <= x <= 0x7fff_ffff,
                    -0x8000_0000 <= y <= 0x7fff_ffff,
            ;
            Some(x * y)
        },
        _ => {
            if a == 0 {
                return None;
            }
            let ux: u64 = if x < 0 {
                (-x) as u64
            } else {
                x as u64
            };
            let uy: u64 = if y < 0 {
                (-y) as u64
            } else {
                y as u64
            };
            let uq = ux / uy;
            assert(uq <= ux) by (nonlinear_arith)
                requires
                    uy >= 1,
                    uq == ux / uy,
            ;
            let q: i64 = if (x < 0) == (y < 0) {
                uq as i64
            } else {
                -(uq as i64)
            };
            assert(q == trunc_div(b as int, a as int));
            if op == Opcode::Mod {
                assert(-0x4000_0000_0000_0000 <= y * q <= 0x4000_0000_0000_0000) by (nonlinear_arith)
                    requires
                        -0x8000_0000 <= y <= 0x7fff_ffff,
                        -0x8000_0000 <= q <= 0x8000_0000,
                ;
                Some(x - y * q)
            } else {
                Some(q)
            }
        },
    }
}

pub open spec fn underflow_message(op: Opcode) -> Seq<char> {
    match op {
        Opcode::Add => "Not enough operands for ADD instruction"@,
        Opcode::Sub => "Not enough operands for SUB instruction"@,
        Opcode::Mul => "Not enough operands for MUL instruction"@,
        Opcode::Div => "Not enough operands for DIV instruction"@,
        Opcode::IDiv => "Not enough operands for IDIV instruction"@,
        Opcode::Mod => "Not enough operands for MOD instruction"@,
        _ => ""@,
    }
}

fn underflow_message_text(op: Opcode) -> (r: &'static str)
    ensures
        r@ == underflow_message(op),
{
    match op {
        Opcode::Add => "Not enough operands for ADD instruction",
        Opcode::Sub => "Not enough operands for SUB instruction",
        Opcode::Mul => "Not enough operands for MUL instruction",
        Opcode::Div => "Not enough operands for DIV instruction",
        Opcode::IDiv => "Not enough operands for IDIV instruction",
        Opcode::Mod => "Not enough operands for MOD instruction",
        _ => "",
    }
}

pub open spec fn mismatch_message(op: Opcode) -> Seq<char> {
    match op {
        Opcode::Add => "Type mismatch for ADD instruction"@,
        Opcode::Sub => "Type mismatch for SUB instruction"@,
        Opcode::Mul => "Type mismatch for MUL instruction"@,
        Opcode::Div => "Type mismatch for DIV instruction"@,
        Opcode::IDiv => "Type mismatch for IDIV instruction"@,
        Opcode::Mod => "Type mismatch for MOD instruction"@,
        _ => ""@,
    }
}

fn mismatch_message_text(op: Opcode) -> (r: &'static str)
    ensures
        r@ == mismatch_message(op),
{
    match op {
        Opcode::Add => "Type mismatch for ADD instruction",
        Opcode::Sub => "Type mismatch for SUB instruction",
        Opcode::Mul => "Type mismatch for MUL instruction",
        Opcode::Div => "Type mismatch for DIV instruction",
        Opcode::IDiv => "Type mismatch for IDIV instruction",
        Opcode::Mod => "Type mismatch for MOD instruction",
        _ => "",
    }
}

pub open spec fn overflow_message(op: Opcode) -> Seq<char> {
    match op {
        Opcode::Add => "Integer overflow in ADD instruction"@,
        Opcode::Sub => "Integer overflow in SUB instruction"@,
        Opcode::Mul => "Integer overflow in MUL instruction"@,
        Opcode::Div => "Integer overflow in DIV instruction"@,
        Opcode::IDiv => "Integer overflow in IDIV instruction"@,
        Opcode::Mod => "Integer overflow in MOD instruction"@,
        _ => ""@,
    }
}

fn overflow_message_text(op: Opcode) -> (r: &'static str)
    ensures
        r@ == overflow_message(op),
{
    match op {
        Opcode::Add => "Integer overflow in ADD instruction",
        Opcode::Sub => "Integer overflow in SUB instruction",
        Opcode::Mul => "Integer overflow in MUL instruction",
        Opcode::Div => "Integer overflow in DIV instruction",
        Opcode::IDiv => "Integer overflow in IDIV instruction",
        Opcode::Mod => "Integer overflow in MOD instruction",
        _ => "",
    }
}

pub open spec fn zero_message(op: Opcode) -> Seq<char> {
    match op {
        Opcode::Add => "Division by zero in ADD instruction"@,
        Opcode::Sub => "Division by zero in SUB instruction"@,
        Opcode::Mul => "Division by zero in MUL instruction"@,
        Opcode::Div => "Division by zero in DIV instruction"@,
        Opcode::IDiv => "Division by zero in IDIV instruction"@,
        Opcode::Mod => "Division by zero in MOD instruction"@,
        _ => ""@,
    }
}

fn zero_message_text(op: Opcode) -> (r: &'static str)
    ensures
        r@ == zero_message(op),
{
    match op {
        Opcode::Add => "Division by zero in ADD instruction",
        Opcode::Sub => "Division by zero in SUB instruction",
        Opcode::Mul => "Division by zero in MUL instruction",
        Opcode::Div => "Division by zero in DIV instruction",
        Opcode::IDiv => "Division by zero in IDIV instruction",
        Opcode::Mod => "Division by zero in MOD instruction",
        _ => "",
    }
}

/// An operand handed to the driver for floating-point work.
pub enum FloatArg {
    Bits(u32),
    Int(i32),
    /// The text of a float literal.
    Text(String),
}

pub enum FloatArgView {
    Bits(u32),
    Int(i32),
    Text(Seq<char>),
}

impl View for FloatArg {
    type V = FloatArgView;

    open spec fn view(&self) -> FloatArgView {
        match self {
            FloatArg::Bits(b) => FloatArgView::Bits(*b),
            FloatArg::Int(i) => FloatArgView::Int(*i),
            FloatArg::Text(s) => FloatArgView::Text(s@),
        }
    }
}

/// Floating-point work that the driver performs for the machine.
pub enum FloatTask {
    /// Read a float literal; answered with `Outcome::Value(Value::Float(..))`,
    /// or `Outcome::Invalid` when the text is not a float.
    Load(String),
    /// `lhs OP rhs` for one of add, sub, mul, div, idiv, mod, the integer
    /// operand promoted; answered with the resulting value (an integer, floored,
    /// for idiv; a float otherwise).
    Arith(Opcode, FloatArg, FloatArg),
    /// Compare `lhs` against `rhs`; answered with `Outcome::Order(..)`.
    Compare(FloatArg, FloatArg),
    /// Truncate a float toward zero; answered with the integer value.
    Truncate(u32),
}

pub enum FloatTaskView {
    Load(Seq<char>),
    Arith(Opcode, FloatArgView, FloatArgView),
    Compare(FloatArgView, FloatArgView),
    Truncate(u32),
}

impl View for FloatTask {
    type V = FloatTaskView;

    open spec fn view(&self) -> FloatTaskView {
        match self {
            FloatTask::Load(s) => FloatTaskView::Load(s@),
            FloatTask::Arith(op, l, r) => FloatTaskView::Arith(*op, l@, r@),
            FloatTask::Compare(l, r) => FloatTaskView::Compare(l@, r@),
            FloatTask::Truncate(b) => FloatTaskView::Truncate(*b),
        }
    }
}

/// What one step asks of the driver.
pub enum Step {
    /// Nothing: run the next step.
    Continue,
    /// The run is over.
    Halt,
    /// Write the value's textual form as one line.
    Print(Value),
    /// Read one line of input; answer with `Outcome::Input`.
    Read,
    /// Draw a float uniformly from [0, 1); answer with `Outcome::Value`.
    Random,
    /// Perform floating-point work; answer as the task says.
    Float(FloatTask),
}

pub enum Effect {
    Continue,
    Halt,
    Print(ValueView),
    Read,
    Random,
    Float(FloatTaskView),
}

impl View for Step {
    type V = Effect;

    open spec fn view(&self) -> Effect {
        match self {
            Step::Continue => Effect::Continue,
            Step::Halt => Effect::Halt,
            Step::Print(v) => Effect::Print(v@),
            Step::Read => Effect::Read,
            Step::Random => Effect::Random,
            Step::Float(t) => Effect::Float(t@),
        }
    }
}

/// The driver's answer to a request.
pub enum Outcome {
    Value(Value),
    Order(Order),
    /// A line of input, or `None` when reading failed.
    Input(Option<String>),
    /// The float literal could not be read.
    Invalid,
}

pub enum OutcomeView {
    Value(ValueView),
    Order(Order),
    Input(Option<Seq<char>>),
    Invalid,
}

impl View for Outcome {
    type V = OutcomeView;

    open spec fn view(&self) -> OutcomeView {
        match self {
            Outcome::Value(v) => OutcomeView::Value(v@),
            Outcome::Order(o) => OutcomeView::Order(*o),
            Outcome::Input(Some(s)) => OutcomeView::Input(Some(s@)),
            Outcome::Input(None) => OutcomeView::Input(None),
            Outcome::Invalid => OutcomeView::Invalid,
        }
    }
}

/// The machine state as a mathematical value.
pub struct MachineView {
    pub program: Seq<InstrView>,
    pub stack: Seq<ValueView>,
    pub ip: int,
    pub flags: Flags,
    pub return_stack: Seq<usize>,
    /// Whether a request of the last step still waits for its outcome.
    pub awaiting: bool,
}

/// The machine right after loading `program`.
pub open spec fn initial(program: Seq<InstrView>) -> MachineView {
    MachineView {
        program,
        stack: Seq::empty(),
        ip: 0,
        flags: cleared_flags(),
        return_stack: Seq::empty(),
        awaiting: false,
    }
}

/// The result of one step: the next state and what it asks of the driver, or
/// the diagnostic (message, position) that ends the run.
pub enum Transition {
    Next(MachineView, Effect),
    Fail(Seq<char>, Seq<char>),
}

pub open spec fn advanced(m: MachineView, stack: Seq<ValueView>) -> MachineView {
    MachineView { stack, ip: m.ip + 1, ..m }
}

pub open spec fn waiting(m: MachineView, e: Effect) -> Transition {
    Transition::Next(MachineView { awaiting: true, ..m }, e)
}

pub open spec fn continued(m: MachineView, stack: Seq<ValueView>) -> Transition {
    Transition::Next(advanced(m, stack), Effect::Continue)
}

pub open spec fn float_arg(v: ValueView) -> FloatArgView {
    match v {
        ValueView::Integer(i) => FloatArgView::Int(i),
        ValueView::Float(b) => FloatArgView::Bits(b),
        ValueView::Text(t) => FloatArgView::Text(t),
    }
}

/// How a comparison of `a` against `b` comes out.
pub enum Comparison {
    Known(Order),
    Deferred(FloatTaskView),
    Mismatch,
}

pub open spec fn compare_values(a: ValueView, b: ValueView) -> Comparison {
    match (a, b) {
        (ValueView::Integer(x), ValueView::Integer(y)) => Comparison::Known(int_order(x as int, y as int)),
        (ValueView::Text(x), ValueView::Text(y)) => Comparison::Known(text_order(x, y)),
        (ValueView::Float(x), ValueView::Float(y)) => Comparison::Deferred(
            FloatTaskView::Compare(FloatArgView::Bits(x), FloatArgView::Bits(y)),
        ),
        _ => Comparison::Mismatch,
    }
}

pub open spec fn compare_literal(a: ValueView, lit: OperandView) -> Comparison {
    match (a, lit) {
        (ValueView::Integer(x), OperandView::Integer(y)) => Comparison::Known(int_order(x as int, y as int)),
        (ValueView::Text(x), OperandView::Text(y)) => Comparison::Known(text_order(x, y)),
        (ValueView::Float(x), OperandView::Float(y)) => Comparison::Deferred(
            FloatTaskView::Compare(FloatArgView::Bits(x), FloatArgView::Text(y)),
        ),
        _ => Comparison::Mismatch,
    }
}

pub open spec fn compared(m: MachineView, c: Comparison, mismatch: Seq<char>, pos: Seq<char>) -> Transition {
    match c {
        Comparison::Known(o) => Transition::Next(
            MachineView { flags: flags_of(o), ip: m.ip + 1, ..m },
            Effect::Continue,
        ),
        Comparison::Deferred(t) => waiting(m, Effect::Float(t)),
        Comparison::Mismatch => Transition::Fail(mismatch, pos),
    }
}

/// `b OP a`, where `a` is the top of the stack and `b` the value below it.
pub open spec fn binary_transition(m: MachineView, op: Opcode, pos: Seq<char>) -> Transition {
    let s = m.stack;
    let n = s.len();
    if n < 2 {
        Transition::Fail(underflow_message(op), pos)
    } else {
        let a = s[n - 1];
        let b = s[n - 2];
        let rest = s.take(n - 2);
        match (b, a) {
            (ValueView::Integer(x), ValueView::Integer(y)) => match int_result(op, x as int, y as int) {
                Some(v) => if i32::MIN <= v <= i32::MAX {
                    continued(m, rest.push(ValueView::Integer(v as i32)))
                } else {
                    Transition::Fail(overflow_message(op), pos)
                },
                None => Transition::Fail(zero_message(op), pos),
            },
            (ValueView::Text(x), ValueView::Text(y)) => if op == Opcode::Add {
                continued(m, rest.push(ValueView::Text(x + y)))
            } else {
                Transition::Fail(mismatch_message(op), pos)
            },
            (ValueView::Text(_), _) | (_, ValueView::Text(_)) => Transition::Fail(mismatch_message(op), pos),
            _ => waiting(m, Effect::Float(FloatTaskView::Arith(op, float_arg(b), float_arg(a)))),
        }
    }
}

/// A jump that is not taken moves on. A taken jump pushes the address after
/// it on the return stack and continues after the label; a taken jump whose
/// label is not defined is always fatal, whichever flag it tests.
pub open spec fn jump_transition(m: MachineView, op: Opcode, operand: OperandView, pos: Seq<char>) -> Transition {
    if !jump_taken(op, m.flags) {
        continued(m, m.stack)
    } else {
        match operand {
            OperandView::Label(name) => match label_target(m.program, name) {
                Some(t) => Transition::Next(
                    MachineView {
                        ip: t + 1,
                        return_stack: m.return_stack.push((m.ip + 1) as usize),
                        ..m
                    },
                    Effect::Continue,
                ),
                None => Transition::Fail("Unknown label: "@ + name, pos),
            },
            _ => Transition::Fail("Malformed instruction"@, pos),
        }
    }
}

/// The step that the machine makes from state `m`.
pub open spec fn transition(m: MachineView) -> Transition {
    if m.ip < 0 || m.ip >= m.program.len() {
        Transition::Next(m, Effect::Halt)
    } else {
        let ins = m.program[m.ip];
        let pos = ins.pos;
        let s = m.stack;
        let n = s.len();
        match ins.opcode {
            Opcode::Push => match ins.operand {
                OperandView::Integer(i) => continued(m, s.push(ValueView::Integer(i))),
                OperandView::Text(t) => continued(m, s.push(ValueView::Text(t))),
                OperandView::Float(t) => waiting(m, Effect::Float(FloatTaskView::Load(t))),
                _ => Transition::Fail("Malformed instruction"@, pos),
            },
            Opcode::Pop => if n < 1 {
                Transition::Fail("Cannot pop from an empty stack"@, pos)
            } else {
                continued(m, s.drop_last())
            },
            Opcode::Duplicate => if n < 1 {
                Transition::Fail("Cannot duplicate from an empty stack"@, pos)
            } else {
                continued(m, s.push(s.last()))
            },
            Opcode::Swap => if n < 2 {
                Transition::Fail("Not enough operands for SWAP instruction"@, pos)
            } else {
                continued(m, s.take(n - 2).push(s[n - 1]).push(s[n - 2]))
            },
            Opcode::Add | Opcode::Sub | Opcode::Mul | Opcode::Div | Opcode::IDiv | Opcode::Mod =>
                binary_transition(m, ins.opcode, pos),
            Opcode::Cmp => if n < 1 {
                Transition::Fail("Not enough operands for CMP instruction"@, pos)
            } else {
                compared(m, compare_literal(s[n - 1], ins.operand), "Type mismatch for CMP instruction"@, pos)
            },
            Opcode::CmpInStack => if n < 2 {
                Transition::Fail("Not enough operands for SCMP instruction"@, pos)
            } else {
                compared(m, compare_values(s[n - 1], s[n - 2]), "Type mismatch for SCMP instruction"@, pos)
            },
            Opcode::Jump | Opcode::JumpEq | Opcode::JumpNotEq | Opcode::JumpGt | Opcode::JumpLt
            | Opcode::JumpGtEq | Opcode::JumpLtEq | Opcode::JumpZero | Opcode::JumpNotZero
            | Opcode::JumpNeg => jump_transition(m, ins.opcode, ins.operand, pos),
            Opcode::Return => if m.return_stack.len() == 0 {
                Transition::Fail("Cannot return anything from the main function!"@, pos)
            } else {
                Transition::Next(
                    MachineView {
                        ip: m.return_stack.last() as int,
                        return_stack: m.return_stack.drop_last(),
                        ..m
                    },
                    Effect::Continue,
                )
            },
            Opcode::Exit => Transition::Next(MachineView { ip: m.program.len() as int, ..m }, Effect::Halt),
            Opcode::Label => continued(m, s),
            Opcode::Print => if n < 1 {
                Transition::Fail("Cannot print from an empty stack"@, pos)
            } else {
                Transition::Next(advanced(m, s.drop_last()), Effect::Print(s.last()))
            },
            Opcode::Read => waiting(m, Effect::Read),
            Opcode::Random => waiting(m, Effect::Random),
            Opcode::AToI => if n < 1 {
                Transition::Fail("Cannot convert emptiness to an integer!"@, pos)
            } else {
                match s.last() {
                    ValueView::Text(t) => match parsed_i32(t) {
                        Some(v) => continued(m, s.drop_last().push(ValueView::Integer(v))),
                        None => Transition::Fail("Invalid integer: "@ + t, pos),
                    },
                    _ => Transition::Fail("Type mismatch for ATOI instruction"@, pos),
                }
            },
            Opcode::FToI => if n < 1 {
                Transition::Fail("Cannot convert emptiness to an integer!"@, pos)
            } else {
                match s.last() {
                    ValueView::Float(b) => waiting(m, Effect::Float(FloatTaskView::Truncate(b))),
                    _ => Transition::Fail("Type mismatch for FTOI instruction"@, pos),
                }
            },
            Opcode::IToA | Opcode::IToF | Opcode::Time => Transition::Fail(
                "Unimplemented instruction"@,
                Seq::empty(),
            ),
        }
    }
}

/// Whether a value answers the request of an instruction of kind `op`: an
/// integer for `idiv` and `ftoi`, a float for everything else.
pub open spec fn answer_fits(op: Opcode, v: ValueView) -> bool {
    if op == Opcode::IDiv || op == Opcode::FToI {
        v is Integer
    } else {
        v is Float
    }
}

/// The state after the driver answers the waiting request of state `m` with
/// `outcome`, or the diagnostic that ends the run. A line of input is pushed
/// without its line ending.
pub open spec fn resumed(m: MachineView, outcome: OutcomeView) -> Result<MachineView, (Seq<char>, Seq<char>)> {
    let ins = m.program[m.ip];
    let pos = ins.pos;
    let s = m.stack;
    let n = s.len();
    let done = |stack: Seq<ValueView>| MachineView { stack, ip: m.ip + 1, awaiting: false, ..m };
    match outcome {
        OutcomeView::Value(v) => if !answer_fits(ins.opcode, v) {
            Err(("Outcome does not fit the waiting instruction"@, pos))
        } else {
            match ins.opcode {
            Opcode::Push | Opcode::Random => Ok(done(s.push(v))),
            _ => if is_binary(ins.opcode) && n >= 2 {
                Ok(done(s.take(n - 2).push(v)))
            } else if ins.opcode == Opcode::FToI && n >= 1 {
                Ok(done(s.drop_last().push(v)))
            } else {
                Err(("Outcome does not fit the waiting instruction"@, pos))
            },
            }
        },
        OutcomeView::Order(o) => match ins.opcode {
            Opcode::Cmp | Opcode::CmpInStack => Ok(
                MachineView { flags: flags_of(o), ip: m.ip + 1, awaiting: false, ..m },
            ),
            _ => Err(("Outcome does not fit the waiting instruction"@, pos)),
        },
        OutcomeView::Input(line) => match ins.opcode {
            Opcode::Read => match line {
                Some(t) => Ok(done(s.push(ValueView::Text(without_line_end(t))))),
                None => Err(("Failed to read input"@, pos)),
            },
            _ => Err(("Outcome does not fit the waiting instruction"@, pos)),
        },
        OutcomeView::Invalid => match ins.operand {
            OperandView::Float(t) => Err(("Invalid float literal: "@ + t, pos)),
            _ => Err(("Outcome does not fit the waiting instruction"@, pos)),
        },
    }
}

/// The invariant of every state that a run reaches.
pub open spec fn sound(m: MachineView) -> bool {
    &&& 0 <= m.ip <= m.program.len()
    &&& m.awaiting ==> m.ip < m.program.len()
    &&& forall|i: int| 0 <= i < m.return_stack.len() ==> #[trigger] m.return_stack[i] <= m.program.len()
}

/// Whether a step's result and the state it left agree with `transition`; a
/// failing step leaves the state as it was.
pub open spec fn step_agrees(before: MachineView, after: MachineView, r: Result<Step, Error>) -> bool {
    match transition(before) {
        Transition::Next(m, e) => r is Ok && r->Ok_0@ == e && after == m,
        Transition::Fail(message, pos) => r is Err && r->Err_0.view_pair() == (message, pos) && after
            == before,
    }
}

/// A freshly loaded machine is sound.
pub proof fn lemma_initial_sound(program: Seq<InstrView>)
    ensures
        sound(initial(program)),
{
}

/// Every state that a step reaches from a sound state is sound.
pub proof fn lemma_transition_sound(m: MachineView)
    requires
        sound(m),
        !m.awaiting,
    ensures
        transition(m) is Next ==> sound(transition(m)->Next_0),
{
    if 0 <= m.ip < m.program.len() {
        let ins = m.program[m.ip];
        if let OperandView::Label(name) = ins.operand {
            lemma_label_target_in_range(m.program, name);
        }
        if m.return_stack.len() > 0 {
            assert(m.return_stack[m.return_stack.len() - 1] <= m.program.len());
        }
        if let Transition::Next(m2, _) = transition(m) {
            assert forall|i: int| 0 <= i < m2.return_stack.len() implies #[trigger] m2.return_stack[i] <= m2.program.len() by {
                if i < m.return_stack.len() {
                    assert(m.return_stack[i] <= m.program.len());
                }
            }
        }
    }
}

pub proof fn lemma_resume_sound(m: MachineView, outcome: OutcomeView)
    requires
        sound(m),
        m.awaiting,
    ensures
        resumed(m, outcome) is Ok ==> sound(resumed(m, outcome)->Ok_0),
{
}

/// Exec counterpart of `Comparison`.
enum Checked {
    Known(Order),
    Deferred(FloatTask),
    Mismatch,
}

impl View for Checked {
    type V = Comparison;

    closed spec fn view(&self) -> Comparison {
        match self {
            Checked::Known(o) => Comparison::Known(*o),
            Checked::Deferred(t) => Comparison::Deferred(t@),
            Checked::Mismatch => Comparison::Mismatch,
        }
    }
}

fn check_values(a: &Value, b: &Value) -> (r: Checked)
    ensures
        r@ == compare_values(a@, b@),
{
    match (a, b) {
        (Value::Integer(x), Value::Integer(y)) => Checked::Known(compare_ints(*x, *y)),
        (Value::String(x), Value::String(y)) => Checked::Known(compare_text(x.as_str(), y.as_str())),
        (Value::Float(x), Value::Float(y)) => Checked::Deferred(
            FloatTask::Compare(FloatArg::Bits(*x), FloatArg::Bits(*y)),
        ),
        _ => Checked::Mismatch,
    }
}

fn check_literal(a: &Value, lit: &Operand) -> (r: Checked)
    ensures
        r@ == compare_literal(a@, lit@),
{
    match (a, lit) {
        (Value::Integer(x), Operand::Integer(y)) => Checked::Known(compare_ints(*x, *y)),
        (Value::String(x), Operand::Text(y)) => Checked::Known(compare_text(x.as_str(), y.as_str())),
        (Value::Float(x), Operand::Float(y)) => Checked::Deferred(
            FloatTask::Compare(FloatArg::Bits(*x), FloatArg::Text(y.clone())),
        ),
        _ => Checked::Mismatch,
    }
}

fn to_float_arg(v: &Value) -> (r: FloatArg)
    ensures
        r@ == float_arg(v@),
{
    match v {
        Value::Integer(i) => FloatArg::Int(*i),
        Value::Float(b) => FloatArg::Bits(*b),
        Value::String(t) => FloatArg::Text(t.clone()),
    }
}

/// The stack machine: a compiled program, its label table, and the state of
/// a run over it.
pub struct StackFkVM {
    stack: Vec<Value>,
    ip: usize,
    symbols: Vec<Symbol>,
    program: Vec<Instruction>,
    labels: LabelTable,
    flags: Flags,
    return_stack: Vec<usize>,
    awaiting: bool,
}

impl View for StackFkVM {
    type V = MachineView;

    closed spec fn view(&self) -> MachineView {
        MachineView {
            program: program_view(self.program@),
            stack: stack_view(self.stack@),
            ip: self.ip as int,
            flags: self.flags,
            return_stack: self.return_stack@,
            awaiting: self.awaiting,
        }
    }
}

impl StackFkVM {
    /// The machine's state is sound and its label table resolves its program.
    pub closed spec fn wf(&self) -> bool {
        &&& sound(self@)
        &&& forall|name: Seq<char>| #[trigger] self.labels.target(name) == label_target(self@.program, name)
    }

    /// The symbols the machine was made from.
    pub closed spec fn source(&self) -> Seq<Symbol> {
        self.symbols@
    }

    pub fn new(symbols: Vec<Symbol>) -> (r: StackFkVM)
        ensures
            r.wf(),
            r.source() == symbols@,
            r@ == initial(Seq::empty()),
    {
        let r = StackFkVM {
            stack: Vec::new(),
            ip: 0,
            symbols,
            program: Vec::new(),
            labels: LabelTable::new(),
            flags: Flags::cleared(),
            return_stack: Vec::new(),
            awaiting: false,
        };
        assert(r@.stack =~= Seq::empty());
        assert(r@.program =~= Seq::empty());
        r
    }

    /// Compiles the machine's symbols, resolves its labels, and resets the
    /// run to the first instruction.
    pub fn load(&mut self) -> (r: Result<(), Error>)
        requires
            old(self).wf(),
        ensures
            final(self).wf(),
            final(self).source() == old(self).source(),
            match compiled(old(self).source()) {
                Ok(p) => r is Ok && final(self)@ == initial(p),
                Err(e) => r is Err && r->Err_0.view_pair() == e && final(self)@ == old(self)@,
            },
    {
        match compile(&self.symbols) {
            Ok(program) => {
                self.labels = analyze_labels(&program);
                self.program = program;
                self.stack = Vec::new();
                self.ip = 0;
                self.flags = Flags::cleared();
                self.return_stack = Vec::new();
                self.awaiting = false;
                assert(self@.stack =~= Seq::empty());
                Ok(())
            },
            Err(e) => Err(e),
        }
    }

    pub fn stack(&self) -> (r: &Vec<Value>)
        ensures
            stack_view(r@) == self@.stack,
    {
        &self.stack
    }

    pub fn ip(&self) -> (r: usize)
        ensures
            r == self@.ip,
    {
        self.ip
    }

    pub fn flags(&self) -> (r: Flags)
        ensures
            r == self@.flags,
    {
        self.flags
    }

    pub fn return_stack(&self) -> (r: &Vec<usize>)
        ensures
            r@ == self@.return_stack,
    {
        &self.return_stack
    }

    pub fn program_len(&self) -> (r: usize)
        ensures
            r == self@.program.len(),
    {
        self.program.len()
    }

    /// Whether a request of the last step still waits for its outcome.
    pub fn is_awaiting(&self) -> (r: bool)
        ensures
            r == self@.awaiting,
    {
        self.awaiting
    }

    fn push_value(&mut self, v: Value)
        ensures
            final(self)@ == (MachineView { stack: old(self)@.stack.push(v@), ..old(self)@ }),
            final(self).labels == old(self).labels,
            final(self).symbols == old(self).symbols,
    {
        let ghost s = self.stack@;
        self.stack.push(v);
        assert(stack_view(self.stack@) =~= stack_view(s).push(v@));
    }

    fn pop_value(&mut self) -> (v: Value)
        requires
            old(self).stack@.len() > 0,
        ensures
            v@ == old(self)@.stack.last(),
            final(self).stack@.len() == old(self).stack@.len() - 1,
            final(self)@ == (MachineView { stack: old(self)@.stack.drop_last(), ..old(self)@ }),
            final(self).labels == old(self).labels,
            final(self).symbols == old(self).symbols,
    {
        let ghost s = self.stack@;
        let v = self.stack.pop().unwrap();
        assert(stack_view(self.stack@) =~= stack_view(s).drop_last());
        v
    }

    fn fail(&self, message: &str) -> (e: Error)
        requires
            self.ip < self.program@.len(),
        ensures
            e.view_pair() == (message@, self@.program[self.ip as int].pos),
    {
        Error::new(message, self.program[self.ip].pos.clone())
    }

    /// Executes the instruction at the instruction pointer.
    pub fn step(&mut self) -> (r: Result<Step, Error>)
        requires
            old(self).wf(),
            !old(self)@.awaiting,
        ensures
            step_agrees(old(self)@, final(self)@, r),
            r is Ok ==> final(self).wf(),
            final(self).source() == old(self).source(),
    {
        let ghost before = self@;
        if self.ip >= self.program.len() {
            return Ok(Step::Halt);
        }
        let r = match self.program[self.ip].opcode {
            Opcode::Add | Opcode::Sub | Opcode::Mul | Opcode::Div | Opcode::IDiv | Opcode::Mod => self.step_binary(),
            Opcode::Cmp | Opcode::CmpInStack => self.step_compare(),
            Opcode::Jump | Opcode::JumpEq | Opcode::JumpNotEq | Opcode::JumpGt | Opcode::JumpLt
            | Opcode::JumpGtEq | Opcode::JumpLtEq | Opcode::JumpZero | Opcode::JumpNotZero
            | Opcode::JumpNeg => self.step_jump(),
            Opcode::Push | Opcode::Pop | Opcode::Duplicate | Opcode::Swap => self.step_stack(),
            Opcode::AToI | Opcode::FToI => self.step_convert(),
            Opcode::Return | Opcode::Exit | Opcode::Label | Opcode::Print | Opcode::Read
            | Opcode::Random => self.step_flow(),
            Opcode::IToA | Opcode::IToF | Opcode::Time => Err(
                Error::new("Unimplemented instruction", String::new()),
            ),
        };
        proof {
            lemma_transition_sound(before);
        }
        r
    }

    fn step_binary(&mut self) -> (r: Result<Step, Error>)
        requires
            old(self).wf(),
            !old(self)@.awaiting,
            old(self).ip < old(self).program@.len(),
            is_binary(old(self).program@[old(self).ip as int].opcode),
        ensures
            step_agrees(old(self)@, final(self)@, r),
            final(self).labels == old(self).labels,
            final(self).symbols == old(self).symbols,
    {
        let ghost m = self@;
        let ip = self.ip;
        let len = self.program.len();
        assert(ip < len);
        let op = self.program[ip].opcode;
        let n = self.stack.len();
        if n < 2 {
            return Err(self.fail(underflow_message_text(op)));
        }
        let ghost s = m.stack;
        assert(s[n - 1] == self.stack@[n - 1]@ && s[n - 2] == self.stack@[n - 2]@);
        assert(s.drop_last().drop_last() =~= s.take(n - 2));
        match (&self.stack[n - 2], &self.stack[n - 1]) {
            (Value::Integer(x), Value::Integer(y)) => {
                match int_arith(op, *x, *y) {
                    Some(v) => {
                        if v < i32::MIN as i64 || v > i32::MAX as i64 {
                            Err(self.fail(overflow_message_text(op)))
                        } else {
                            self.pop_value();
                            self.pop_value();
                            self.push_value(Value::Integer(v as i32));
                            self.ip = ip + 1;
                            Ok(Step::Continue)
                        }
                    },
                    None => Err(self.fail(zero_message_text(op))),
                }
            },
            (Value::String(x), Value::String(y)) => {
                if op == Opcode::Add {
                    let t = joined(x.as_str(), y.as_str());
                    self.pop_value();
                    self.pop_value();
                    self.push_value(Value::String(t));
                    self.ip = ip + 1;
                    Ok(Step::Continue)
                } else {
                    Err(self.fail(mismatch_message_text(op)))
                }
            },
            (Value::String(_), _) | (_, Value::String(_)) => Err(self.fail(mismatch_message_text(op))),
            (b, a) => {
                let task = FloatTask::Arith(op, to_float_arg(b), to_float_arg(a));
                self.awaiting = true;
                Ok(Step::Float(task))
            },
        }
    }

    fn step_compare(&mut self) -> (r: Result<Step, Error>)
        requires
            old(self).wf(),
            !old(self)@.awaiting,
            old(self).ip < old(self).program@.len(),
            old(self).program@[old(self).ip as int].opcode == Opcode::Cmp
                || old(self).program@[old(self).ip as int].opcode == Opcode::CmpInStack,
        ensures
            step_agrees(old(self)@, final(self)@, r),
            final(self).labels == old(self).labels,
            final(self).symbols == old(self).symbols,
    {
        let ip = self.ip;
        let len = self.program.len();
        assert(ip < len);
        let op = self.program[ip].opcode;
        let n = self.stack.len();
        let checked = if op == Opcode::Cmp {
            if n < 1 {
                return Err(self.fail("Not enough operands for CMP instruction"));
            }
            check_literal(&self.stack[n - 1], &self.program[self.ip].operand)
        } else {
            if n < 2 {
                return Err(self.fail("Not enough operands for SCMP instruction"));
            }
            check_values(&self.stack[n - 1], &self.stack[n - 2])
        };
        match checked {
            Checked::Known(o) => {
                self.flags = Flags::from_order(o);
                self.ip = ip + 1;
                Ok(Step::Continue)
            },
            Checked::Deferred(task) => {
                self.awaiting = true;
                Ok(Step::Float(task))
            },
            Checked::Mismatch => if op == Opcode::Cmp {
                Err(self.fail("Type mismatch for CMP instruction"))
            } else {
                Err(self.fail("Type mismatch for SCMP instruction"))
            },
        }
    }

    fn step_jump(&mut self) -> (r: Result<Step, Error>)
        requires
            old(self).wf(),
            !old(self)@.awaiting,
            old(self).ip < old(self).program@.len(),
            is_jump(old(self).program@[old(self).ip as int].opcode),
        ensures
            step_agrees(old(self)@, final(self)@, r),
            final(self).labels == old(self).labels,
            final(self).symbols == old(self).symbols,
    {
        let ip = self.ip;
        let len = self.program.len();
        assert(ip < len);
        let op = self.program[ip].opcode;
        if !is_taken(op, self.flags) {
            self.ip = ip + 1;
            return Ok(Step::Continue);
        }
        match &self.program[ip].operand {
            Operand::Label(name) => match self.labels.get(name.as_str()) {
                Some(t) => {
                    proof {
                        lemma_label_target_in_range(self@.program, name@);
                    }
                    self.return_stack.push(ip + 1);
                    self.ip = t + 1;
                    Ok(Step::Continue)
                },
                None => Err(self.fail(&joined("Unknown label: ", name.as_str()))),
            },
            _ => Err(self.fail("Malformed instruction")),
        }
    }

    fn step_stack(&mut self) -> (r: Result<Step, Error>)
        requires
            old(self).wf(),
            !old(self)@.awaiting,
            old(self).ip < old(self).program@.len(),
            ({
                let op = old(self).program@[old(self).ip as int].opcode;
                op == Opcode::Push || op == Opcode::Pop || op == Opcode::Duplicate || op == Opcode::Swap
            }),
        ensures
            step_agrees(old(self)@, final(self)@, r),
            final(self).labels == old(self).labels,
            final(self).symbols == old(self).symbols,
    {
        let ghost m = self@;
        let ip = self.ip;
        let len = self.program.len();
        assert(ip < len);
        let n = self.stack.len();
        match self.program[ip].opcode {
            Opcode::Push => {
                let v = match &self.program[ip].operand {
                    Operand::Integer(i) => Value::Integer(*i),
                    Operand::Text(t) => Value::String(t.clone()),
                    Operand::Float(t) => {
                        let task = FloatTask::Load(t.clone());
                        self.awaiting = true;
                        return Ok(Step::Float(task));
                    },
                    _ => {
                        return Err(self.fail("Malformed instruction"));
                    },
                };
                self.push_value(v);
                self.ip = ip + 1;
                Ok(Step::Continue)
            },
            Opcode::Pop => {
                if n < 1 {
                    return Err(self.fail("Cannot pop from an empty stack"));
                }
                self.pop_value();
                self.ip = ip + 1;
                Ok(Step::Continue)
            },
            Opcode::Duplicate => {
                if n < 1 {
                    return Err(self.fail("Cannot duplicate from an empty stack"));
                }
                let v = self.stack[n - 1].duplicate();
                self.push_value(v);
                self.ip = ip + 1;
                Ok(Step::Continue)
            },
            Opcode::Swap => {
                if n < 2 {
                    return Err(self.fail("Not enough operands for SWAP instruction"));
                }
                let a = self.pop_value();
                let b = self.pop_value();
                self.push_value(a);
                self.push_value(b);
                assert(m.stack.drop_last().drop_last() =~= m.stack.take(n - 2));
                self.ip = ip + 1;
                Ok(Step::Continue)
            },
            _ => Err(Error::new("Unimplemented instruction", String::new())),
        }
    }

    fn step_convert(&mut self) -> (r: Result<Step, Error>)
        requires
            old(self).wf(),
            !old(self)@.awaiting,
            old(self).ip < old(self).program@.len(),
            ({
                let op = old(self).program@[old(self).ip as int].opcode;
                op == Opcode::AToI || op == Opcode::FToI
            }),
        ensures
            step_agrees(old(self)@, final(self)@, r),
            final(self).labels == old(self).labels,
            final(self).symbols == old(self).symbols,
    {
        let ghost m = self@;
        let ip = self.ip;
        let len = self.program.len();
        assert(ip < len);
        let n = self.stack.len();
        match self.program[ip].opcode {
            Opcode::AToI => {
                if n < 1 {
                    return Err(self.fail("Cannot convert emptiness to an integer!"));
                }
                let parsed = match &self.stack[n - 1] {
                    Value::String(t) => match parse_i32(t.as_str()) {
                        Some(v) => v,
                        None => {
                            return Err(self.fail(&joined("Invalid integer: ", t.as_str())));
                        },
                    },
                    _ => {
                        return Err(self.fail("Type mismatch for ATOI instruction"));
                    },
                };
                self.pop_value();
                self.push_value(Value::Integer(parsed));
                self.ip = ip + 1;
                Ok(Step::Continue)
            },
            Opcode::FToI => {
                if n < 1 {
                    return Err(self.fail("Cannot convert emptiness to an integer!"));
                }
                match &self.stack[n - 1] {
                    Value::Float(b) => {
                        let task = FloatTask::Truncate(*b);
                        self.awaiting = true;
                        Ok(Step::Float(task))
                    },
                    _ => Err(self.fail("Type mismatch for FTOI instruction")),
                }
            },
            _ => Err(Error::new("Unimplemented instruction", String::new())),
        }
    }

    fn step_flow(&mut self) -> (r: Result<Step, Error>)
        requires
            old(self).wf(),
            !old(self)@.awaiting,
            old(self).ip < old(self).program@.len(),
            ({
                let op = old(self).program@[old(self).ip as int].opcode;
                op == Opcode::Return || op == Opcode::Exit || op == Opcode::Label || op == Opcode::Print || op == Opcode::Read || op == Opcode::Random
            }),
        ensures
            step_agrees(old(self)@, final(self)@, r),
            final(self).labels == old(self).labels,
            final(self).symbols == old(self).symbols,
    {
        let ghost m = self@;
        let ip = self.ip;
        let len = self.program.len();
        assert(ip < len);
        let n = self.stack.len();
        match self.program[ip].opcode {
            Opcode::Return => {
                match self.return_stack.pop() {
                    Some(target) => {
                        self.ip = target;
                        Ok(Step::Continue)
                    },
                    None => Err(self.fail("Cannot return anything from the main function!")),
                }
            },
            Opcode::Exit => {
                self.ip = self.program.len();
                Ok(Step::Halt)
            },
            Opcode::Label => {
                self.ip = ip + 1;
                Ok(Step::Continue)
            },
            Opcode::Print => {
                if n < 1 {
                    return Err(self.fail("Cannot print from an empty stack"));
                }
                let v = self.pop_value();
                self.ip = ip + 1;
                Ok(Step::Print(v))
            },
            Opcode::Read => {
                self.awaiting = true;
                Ok(Step::Read)
            },
            Opcode::Random => {
                self.awaiting = true;
                Ok(Step::Random)
            },
            _ => Err(Error::new("Unimplemented instruction", String::new())),
        }
    }

    /// Applies the driver's answer to the waiting request.
    pub fn resume(&mut self, outcome: Outcome) -> (r: Result<(), Error>)
        requires
            old(self).wf(),
            old(self)@.awaiting,
        ensures
            final(self).source() == old(self).source(),
            match resumed(old(self)@, outcome@) {
                Ok(m) => r is Ok && final(self)@ == m && final(self).wf(),
                Err(e) => r is Err && r->Err_0.view_pair() == e && final(self)@ == old(self)@,
            },
    {
        let ghost m = self@;
        proof {
            lemma_resume_sound(m, outcome@);
        }
        let ip = self.ip;
        let len = self.program.len();
        assert(ip < len);
        let op = self.program[ip].opcode;
        let n = self.stack.len();
        match outcome {
            Outcome::Value(v) => {
                let fits = match v {
                    Value::Integer(_) => op == Opcode::IDiv || op == Opcode::FToI,
                    Value::Float(_) => !(op == Opcode::IDiv || op == Opcode::FToI),
                    Value::String(_) => false,
                };
                if !fits {
                    return Err(self.fail("Outcome does not fit the waiting instruction"));
                }
                if op == Opcode::Push || op == Opcode::Random {
                    self.push_value(v);
                } else if (op == Opcode::Add || op == Opcode::Sub || op == Opcode::Mul || op == Opcode::Div
                    || op == Opcode::IDiv || op == Opcode::Mod) && n >= 2 {
                    self.pop_value();
                    self.pop_value();
                    self.push_value(v);
                    assert(m.stack.drop_last().drop_last() =~= m.stack.take(n - 2));
                } else if op == Opcode::FToI && n >= 1 {
                    self.pop_value();
                    self.push_value(v);
                } else {
                    return Err(self.fail("Outcome does not fit the waiting instruction"));
                }
            },
            Outcome::Order(o) => {
                if op == Opcode::Cmp || op == Opcode::CmpInStack {
                    self.flags = Flags::from_order(o);
                } else {
                    return Err(self.fail("Outcome does not fit the waiting instruction"));
                }
            },
            Outcome::Input(line) => {
                if op != Opcode::Read {
                    return Err(self.fail("Outcome does not fit the waiting instruction"));
                }
                match line {
                    Some(t) => self.push_value(Value::String(strip_line_end(t.as_str()))),
                    None => {
                        return Err(self.fail("Failed to read input"));
                    },
                }
            },
            Outcome::Invalid => {
                return match &self.program[ip].operand {
                    Operand::Float(t) => Err(self.fail(&joined("Invalid float literal: ", t.as_str()))),
                    _ => Err(self.fail("Outcome does not fit the waiting instruction")),
                };
            },
        }
        self.ip = ip + 1;
        self.awaiting = false;
        Ok(())
    }
}

/// `cmp` and `scmp` leave the stack exactly as they found it: the step itself
/// does not change it, and neither does the driver's answer when the
/// comparison was on floats.
pub proof fn lemma_compare_keeps_stack(m: MachineView, outcome: OutcomeView)
    requires
        0 <= m.ip < m.program.len(),
        !m.awaiting,
        m.program[m.ip].opcode == Opcode::Cmp || m.program[m.ip].opcode == Opcode::CmpInStack,
    ensures
        transition(m) is Next ==> transition(m)->Next_0.stack == m.stack,
        transition(m) is Next && transition(m)->Next_0.awaiting && resumed(transition(m)->Next_0, outcome) is Ok
            ==> resumed(transition(m)->Next_0, outcome)->Ok_0.stack == m.stack,
{
}

/// Whether the step from `m` takes a jump or returns: the only steps that can
/// move the instruction pointer backward.
pub open spec fn transfers(m: MachineView) -> bool {
    &&& !m.awaiting
    &&& 0 <= m.ip < m.program.len()
    &&& {
        let op = m.program[m.ip].opcode;
        op == Opcode::Return || (is_jump(op) && jump_taken(op, m.flags))
    }
}

/// `m2` is a state that the run can reach from `m` in one move that does not
/// end it: a step, or the resumption of a waiting request with some outcome.
pub open spec fn moves_to(m: MachineView, m2: MachineView) -> bool {
    if m.awaiting {
        exists|o: OutcomeView| resumed(m, o) == Ok::<MachineView, (Seq<char>, Seq<char>)>(m2)
    } else {
        match transition(m) {
            Transition::Next(n, e) => n == m2 && !(e is Halt),
            Transition::Fail(_, _) => false,
        }
    }
}

pub open spec fn is_run(trace: Seq<MachineView>) -> bool {
    forall|i: int| 0 <= i < trace.len() - 1 ==> moves_to(#[trigger] trace[i], trace[i + 1])
}

/// The number of moves along `trace` that take a jump or return.
pub open spec fn transfer_count(trace: Seq<MachineView>) -> nat
    decreases trace.len(),
{
    if trace.len() <= 1 {
        0
    } else {
        (if transfers(trace[0]) {
            1nat
        } else {
            0nat
        }) + transfer_count(trace.drop_first())
    }
}

/// Twice the instruction pointer, plus one while a request waits.
pub open spec fn progress(m: MachineView) -> int {
    2 * m.ip + if m.awaiting {
        1int
    } else {
        0int
    }
}

proof fn lemma_move(m: MachineView, m2: MachineView)
    requires
        sound(m),
        moves_to(m, m2),
    ensures
        sound(m2),
        m2.program == m.program,
        !transfers(m) ==> progress(m2) >= progress(m) + 1,
{
    if m.awaiting {
        let o = choose|o: OutcomeView| resumed(m, o) == Ok::<MachineView, (Seq<char>, Seq<char>)>(m2);
        lemma_resume_sound(m, o);
    } else {
        lemma_transition_sound(m);
    }
}

proof fn lemma_run_progress(trace: Seq<MachineView>)
    requires
        trace.len() >= 1,
        sound(trace[0]),
        is_run(trace),
    ensures
        trace.len() + progress(trace[0]) <= (transfer_count(trace) + 1) * (2 * trace[0].program.len() + 1),
    decreases trace.len(),
{
    let l = trace[0].program.len() as int;
    let t = transfer_count(trace) as int;
    assert(progress(trace[0]) <= 2 * l);
    if trace.len() == 1 {
        assert((t + 1) * (2 * l + 1) >= 2 * l + 1) by (nonlinear_arith)
            requires
                t >= 0,
                l >= 0,
        ;
    } else {
        let rest = trace.drop_first();
        assert(moves_to(trace[0], trace[1]));
        lemma_move(trace[0], trace[1]);
        assert forall|i: int| 0 <= i < rest.len() - 1 implies moves_to(#[trigger] rest[i], rest[i + 1]) by {
            assert(moves_to(trace[i + 1], trace[i + 2]));
        }
        lemma_run_progress(rest);
        let tr = transfer_count(rest) as int;
        assert(rest[0] == trace[1]);
        assert(progress(rest[0]) >= 0);
        if transfers(trace[0]) {
            assert(t == tr + 1);
            assert((tr + 1) * (2 * l + 1) + (2 * l + 1) == (tr + 2) * (2 * l + 1)) by (nonlinear_arith);
        } else {
            assert(t == tr);
        }
    }
}

/// A run ends within a bound fixed by the program's length and the number of
/// jumps taken and returns made: every other move advances the instruction
/// pointer, or waits once for the driver at the same instruction before
/// advancing it.
pub proof fn lemma_run_bounded(trace: Seq<MachineView>)
    requires
        trace.len() >= 1,
        sound(trace[0]),
        is_run(trace),
    ensures
        trace.len() <= (transfer_count(trace) + 1) * (2 * trace[0].program.len() + 1),
{
    lemma_run_progress(trace);
}

/// Whether the step from `m` takes a jump.
pub open spec fn takes_jump(m: MachineView) -> bool {
    &&& !m.awaiting
    &&& 0 <= m.ip < m.program.len()
    &&& is_jump(m.program[m.ip].opcode)
    &&& jump_taken(m.program[m.ip].opcode, m.flags)
}

/// The number of moves along `trace` that take a jump.
pub open spec fn jump_count(trace: Seq<MachineView>) -> nat
    decreases trace.len(),
{
    if trace.len() <= 1 {
        0
    } else {
        (if takes_jump(trace[0]) {
            1nat
        } else {
            0nat
        }) + jump_count(trace.drop_first())
    }
}

proof fn lemma_return_stack_step(m: MachineView, m2: MachineView)
    requires
        moves_to(m, m2),
    ensures
        takes_jump(m) ==> m2.return_stack.len() == m.return_stack.len() + 1,
        transfers(m) && !takes_jump(m) ==> m2.return_stack.len() + 1 == m.return_stack.len(),
        !transfers(m) ==> m2.return_stack.len() == m.return_stack.len(),
{
    if m.awaiting {
        let o = choose|o: OutcomeView| resumed(m, o) == Ok::<MachineView, (Seq<char>, Seq<char>)>(m2);
    }
}

proof fn lemma_transfers_balance(trace: Seq<MachineView>)
    requires
        trace.len() >= 1,
        is_run(trace),
    ensures
        trace.last().return_stack.len() + transfer_count(trace) == trace[0].return_stack.len() + 2
            * jump_count(trace),
        jump_count(trace) <= transfer_count(trace),
    decreases trace.len(),
{
    if trace.len() > 1 {
        let rest = trace.drop_first();
        assert(moves_to(trace[0], trace[1]));
        lemma_return_stack_step(trace[0], trace[1]);
        assert forall|i: int| 0 <= i < rest.len() - 1 implies moves_to(#[trigger] rest[i], rest[i + 1]) by {
            assert(moves_to(trace[i + 1], trace[i + 2]));
        }
        lemma_transfers_balance(rest);
        assert(rest.last() == trace.last());
        assert(rest[0] == trace[1]);
        if takes_jump(trace[0]) {
            assert(transfers(trace[0]));
        }
    }
}

/// From a state with an empty return stack, a run ends within a bound fixed
/// by the program's length and the number of jumps taken alone: every return
/// undoes an earlier jump, so returns never outnumber taken jumps.
pub proof fn lemma_run_bounded_by_jumps(trace: Seq<MachineView>)
    requires
        trace.len() >= 1,
        sound(trace[0]),
        trace[0].return_stack.len() == 0,
        is_run(trace),
    ensures
        trace.len() <= (2 * jump_count(trace) + 1) * (2 * trace[0].program.len() + 1),
{
    lemma_run_bounded(trace);
    lemma_transfers_balance(trace);
    let t = transfer_count(trace) as int;
    let j = jump_count(trace) as int;
    let l = trace[0].program.len() as int;
    assert(t <= 2 * j);
    assert((t + 1) * (2 * l + 1) <= (2 * j + 1) * (2 * l + 1)) by (nonlinear_arith)
        requires
            t <= 2 * j,
            l >= 0,
    ;
}

} // verus!
