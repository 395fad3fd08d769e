//! Instructions, the compiler from symbols to a program, and the label table.
use vstd::prelude::*;
use vstd::string::*;
use crate::error::Error;
use crate::text::{float_shape, is_float_text, parse_i32, parsed_i32, position_of, position_text, joined, same_text};
use crate::tokenizer::{Symbol, SymbolType};

verus! {

/// The operation of an instruction.
#[derive(Clone, Copy, PartialEq, Eq, Structural, Debug)]
pub enum Opcode {
    Push,
    Pop,
    Duplicate,
    Swap,
    Add,
    Sub,
    Mul,
    Div,
    IDiv,
    Mod,
    Print,
    Read,
    AToI,
    IToA,
    IToF,
    FToI,
    Jump,
    JumpEq,
    JumpNotEq,
    JumpGt,
    JumpLt,
    JumpGtEq,
    JumpLtEq,
    JumpZero,
    JumpNotZero,
    JumpNeg,
    Cmp,
    CmpInStack,
    Exit,
    Return,
    Random,
    Time,
    Label,
}

pub open spec fn opcode_named(s: Seq<char>) -> Option<Opcode> {
    if s == "push"@ {
        Some(Opcode::Push)
    } else if s == "pop"@ {
        Some(Opcode::Pop)
    } else if s == "dup"@ {
        Some(Opcode::Duplicate)
    } else if s == "swap"@ {
        Some(Opcode::Swap)
    } else if s == "add"@ {
        Some(Opcode::Add)
    } else if s == "sub"@ {
        Some(Opcode::Sub)
    } else if s == "mul"@ {
        Some(Opcode::Mul)
    } else if s == "div"@ {
        Some(Opcode::Div)
    } else if s == "idiv"@ {
        Some(Opcode::IDiv)
    } else if s == "mod"@ {
        Some(Opcode::Mod)
    } else if s == "print"@ {
        Some(Opcode::Print)
    } else if s == "read"@ {
        Some(Opcode::Read)
    } else if s == "atoi"@ {
        Some(Opcode::AToI)
    } else if s == "itoa"@ {
        Some(Opcode::IToA)
    } else if s == "itof"@ {
        Some(Opcode::IToF)
    } else if s == "ftoi"@ {
        Some(Opcode::FToI)
    } else if s == "jmp"@ {
        Some(Opcode::Jump)
    } else if s == "jeq"@ {
        Some(Opcode::JumpEq)
    } else if s == "jne"@ {
        Some(Opcode::JumpNotEq)
    } else if s == "jgt"@ {
        Some(Opcode::JumpGt)
    } else if s == "jlt"@ {
        Some(Opcode::JumpLt)
    } else if s == "jge"@ {
        Some(Opcode::JumpGtEq)
    } else if s == "jle"@ {
        Some(Opcode::JumpLtEq)
    } else if s == "jz"@ {
        Some(Opcode::JumpZero)
    } else if s == "jnz"@ {
        Some(Opcode::JumpNotZero)
    } else if s == "jneg"@ {
        Some(Opcode::JumpNeg)
    } else if s == "cmp"@ {
        Some(Opcode::Cmp)
    } else if s == "scmp"@ {
        Some(Opcode::CmpInStack)
    } else if s == "exit"@ {
        Some(Opcode::Exit)
    } else if s == "ret"@ {
        Some(Opcode::Return)
    } else if s == "rand"@ {
        Some(Opcode::Random)
    } else if s == "time"@ {
        Some(Opcode::Time)
    } else {
        None
    }
}

/// The opcode that an instruction name denotes.
pub fn opcode_of(name: &str) -> (r: Option<Opcode>)
    ensures
        r == opcode_named(name@),
{
    if same_text(name, "push") {
        Some(Opcode::Push)
    } else if same_text(name, "pop") {
        Some(Opcode::Pop)
    } else if same_text(name, "dup") {
        Some(Opcode::Duplicate)
    } else if same_text(name, "swap") {
        Some(Opcode::Swap)
    } else if same_text(name, "add") {
        Some(Opcode::Add)
    } else if same_text(name, "sub") {
        Some(Opcode::Sub)
    } else if same_text(name, "mul") {
        Some(Opcode::Mul)
    } else if same_text(name, "div") {
        Some(Opcode::Div)
    } else if same_text(name, "idiv") {
        Some(Opcode::IDiv)
    } else if same_text(name, "mod") {
        Some(Opcode::Mod)
    } else if same_text(name, "print") {
        Some(Opcode::Print)
    } else if same_text(name, "read") {
        Some(Opcode::Read)
    } else if same_text(name, "atoi") {
        Some(Opcode::AToI)
    } else if same_text(name, "itoa") {
        Some(Opcode::IToA)
    } else if same_text(name, "itof") {
        Some(Opcode::IToF)
    } else if same_text(name, "ftoi") {
        Some(Opcode::FToI)
    } else if same_text(name, "jmp") {
        Some(Opcode::Jump)
    } else if same_text(name, "jeq") {
        Some(Opcode::JumpEq)
    } else if same_text(name, "jne") {
        Some(Opcode::JumpNotEq)
    } else if same_text(name, "jgt") {
        Some(Opcode::JumpGt)
    } else if same_text(name, "jlt") {
        Some(Opcode::JumpLt)
    } else if same_text(name, "jge") {
        Some(Opcode::JumpGtEq)
    } else if same_text(name, "jle") {
        Some(Opcode::JumpLtEq)
    } else if same_text(name, "jz") {
        Some(Opcode::JumpZero)
    } else if same_text(name, "jnz") {
        Some(Opcode::JumpNotZero)
    } else if same_text(name, "jneg") {
        Some(Opcode::JumpNeg)
    } else if same_text(name, "cmp") {
        Some(Opcode::Cmp)
    } else if same_text(name, "scmp") {
        Some(Opcode::CmpInStack)
    } else if same_text(name, "exit") {
        Some(Opcode::Exit)
    } else if same_text(name, "ret") {
        Some(Opcode::Return)
    } else if same_text(name, "rand") {
        Some(Opcode::Random)
    } else if same_text(name, "time") {
        Some(Opcode::Time)
    } else {
        None
    }
}

/// The instruction name of an opcode (`label` for a label definition, which
/// has no name of its own).
pub open spec fn mnemonic(op: Opcode) -> Seq<char> {
    match op {
        Opcode::Push => "push"@,
        Opcode::Pop => "pop"@,
        Opcode::Duplicate => "dup"@,
        Opcode::Swap => "swap"@,
        Opcode::Add => "add"@,
        Opcode::Sub => "sub"@,
        Opcode::Mul => "mul"@,
        Opcode::Div => "div"@,
        Opcode::IDiv => "idiv"@,
        Opcode::Mod => "mod"@,
        Opcode::Print => "print"@,
        Opcode::Read => "read"@,
        Opcode::AToI => "atoi"@,
        Opcode::IToA => "itoa"@,
        Opcode::IToF => "itof"@,
        Opcode::FToI => "ftoi"@,
        Opcode::Jump => "jmp"@,
        Opcode::JumpEq => "jeq"@,
        Opcode::JumpNotEq => "jne"@,
        Opcode::JumpGt => "jgt"@,
        Opcode::JumpLt => "jlt"@,
        Opcode::JumpGtEq => "jge"@,
        Opcode::JumpLtEq => "jle"@,
        Opcode::JumpZero => "jz"@,
        Opcode::JumpNotZero => "jnz"@,
        Opcode::JumpNeg => "jneg"@,
        Opcode::Cmp => "cmp"@,
        Opcode::CmpInStack => "scmp"@,
        Opcode::Exit => "exit"@,
        Opcode::Return => "ret"@,
        Opcode::Random => "rand"@,
        Opcode::Time => "time"@,
        Opcode::Label => "label"@,
    }
}

pub fn mnemonic_text(op: Opcode) -> (r: &'static str)
    ensures
        r@ == mnemonic(op),
{
    match op {
        Opcode::Push => "push",
        Opcode::Pop => "pop",
        Opcode::Duplicate => "dup",
        Opcode::Swap => "swap",
        Opcode::Add => "add",
        Opcode::Sub => "sub",
        Opcode::Mul => "mul",
        Opcode::Div => "div",
        Opcode::IDiv => "idiv",
        Opcode::Mod => "mod",
        Opcode::Print => "print",
        Opcode::Read => "read",
        Opcode::AToI => "atoi",
        Opcode::IToA => "itoa",
        Opcode::IToF => "itof",
        Opcode::FToI => "ftoi",
        Opcode::Jump => "jmp",
        Opcode::JumpEq => "jeq",
        Opcode::JumpNotEq => "jne",
        Opcode::JumpGt => "jgt",
        Opcode::JumpLt => "jlt",
        Opcode::JumpGtEq => "jge",
        Opcode::JumpLtEq => "jle",
        Opcode::JumpZero => "jz",
        Opcode::JumpNotZero => "jnz",
        Opcode::JumpNeg => "jneg",
        Opcode::Cmp => "cmp",
        Opcode::CmpInStack => "scmp",
        Opcode::Exit => "exit",
        Opcode::Return => "ret",
        Opcode::Random => "rand",
        Opcode::Time => "time",
        Opcode::Label => "label",
    }
}

/// Whether an opcode takes an operand symbol after its name.
pub open spec fn needs_operand(op: Opcode) -> bool {
    takes_literal(op) || is_jump(op)
}

/// Whether an opcode takes a literal operand.
pub open spec fn takes_literal(op: Opcode) -> bool {
    op == Opcode::Push || op == Opcode::Cmp
}

/// Whether an opcode is one of the jumps, which take a label reference.
pub open spec fn is_jump(op: Opcode) -> bool {
    match op {
        Opcode::Jump | Opcode::JumpEq | Opcode::JumpNotEq | Opcode::JumpGt | Opcode::JumpLt
        | Opcode::JumpGtEq | Opcode::JumpLtEq | Opcode::JumpZero | Opcode::JumpNotZero
        | Opcode::JumpNeg => true,
        _ => false,
    }
}

fn is_jump_op(op: Opcode) -> (r: bool)
    ensures
        r == is_jump(op),
{
    match op {
        Opcode::Jump | Opcode::JumpEq | Opcode::JumpNotEq | Opcode::JumpGt | Opcode::JumpLt
        | Opcode::JumpGtEq | Opcode::JumpLtEq | Opcode::JumpZero | Opcode::JumpNotZero
        | Opcode::JumpNeg => true,
        _ => false,
    }
}

/// The operand an instruction carries.
pub enum Operand {
    Nothing,
    Integer(i32),
    /// The text of a float literal, as the symbol gave it.
    Float(String),
    Text(String),
    /// The name of a label, defined or referenced.
    Label(String),
}

pub enum OperandView {
    Nothing,
    Integer(i32),
    Float(Seq<char>),
    Text(Seq<char>),
    Label(Seq<char>),
}

impl View for Operand {
    type V = OperandView;

    open spec fn view(&self) -> OperandView {
        match self {
            Operand::Nothing => OperandView::Nothing,
            Operand::Integer(i) => OperandView::Integer(*i),
            Operand::Float(s) => OperandView::Float(s@),
            Operand::Text(s) => OperandView::Text(s@),
            Operand::Label(s) => OperandView::Label(s@),
        }
    }
}

/// One compiled step of a program, with the position it was compiled from.
pub struct Instruction {
    pub opcode: Opcode,
    pub operand: Operand,
    pub pos: String,
}

pub struct InstrView {
    pub opcode: Opcode,
    pub operand: OperandView,
    pub pos: Seq<char>,
}

impl View for Instruction {
    type V = InstrView;

    open spec fn view(&self) -> InstrView {
        InstrView { opcode: self.opcode, operand: self.operand@, pos: self.pos@ }
    }
}

pub open spec fn program_view(p: Seq<Instruction>) -> Seq<InstrView> {
    p.map_values(|i: Instruction| i@)
}

/// Where the compiler stands after a prefix of the symbols: the instructions
/// so far and the opcode still waiting for its operand, or a failure.
pub enum CompileState {
    Going(Seq<InstrView>, Option<Opcode>),
    Failed(Seq<char>, Seq<char>),
}

pub open spec fn missing_argument(op: Opcode) -> Seq<char> {
    "Missing argument for instruction: "@ + mnemonic(op)
}

/// A label definition's name: its text without the trailing marker.
pub open spec fn defined_name(s: Seq<char>) -> Seq<char> {
    if s.len() > 0 {
        s.drop_last()
    } else {
        s
    }
}

/// A label reference's name: its text without the leading marker.
pub open spec fn referenced_name(s: Seq<char>) -> Seq<char> {
    if s.len() > 0 {
        s.drop_first()
    } else {
        s
    }
}

pub open spec fn compile_step(prog: Seq<InstrView>, pending: Option<Opcode>, s: Symbol) -> CompileState {
    let pos = position_of(s.line_number as nat, s.column_number as nat);
    let text = s.value@;
    let done = |operand: OperandView| CompileState::Going(
        prog.push(InstrView { opcode: pending->0, operand, pos }),
        None,
    );
    match s.symbol_type {
        SymbolType::Instruction => if pending is Some {
            CompileState::Failed(missing_argument(pending->0), pos)
        } else {
            match opcode_named(text) {
                None => CompileState::Failed("Unknown instruction: "@ + text, pos),
                Some(op) => if needs_operand(op) {
                    CompileState::Going(prog, Some(op))
                } else {
                    CompileState::Going(
                        prog.push(InstrView { opcode: op, operand: OperandView::Nothing, pos }),
                        None,
                    )
                },
            }
        },
        SymbolType::String => if pending is Some && takes_literal(pending->0) {
            done(OperandView::Text(text))
        } else {
            CompileState::Failed("Unexpected string literal: "@ + text, pos)
        },
        SymbolType::Integer => if pending is Some && takes_literal(pending->0) {
            match parsed_i32(text) {
                Some(v) => done(OperandView::Integer(v)),
                None => CompileState::Failed("Invalid integer literal: "@ + text, pos),
            }
        } else {
            CompileState::Failed("Unexpected integer literal: "@ + text, pos)
        },
        SymbolType::Float => if pending is Some && takes_literal(pending->0) {
            if float_shape(text) {
                done(OperandView::Float(text))
            } else {
                CompileState::Failed("Invalid float literal: "@ + text, pos)
            }
        } else {
            CompileState::Failed("Unexpected float literal: "@ + text, pos)
        },
        SymbolType::Label => if pending is Some {
            CompileState::Failed(missing_argument(pending->0), pos)
        } else {
            CompileState::Going(
                prog.push(
                    InstrView {
                        opcode: Opcode::Label,
                        operand: OperandView::Label(defined_name(text)),
                        pos,
                    },
                ),
                None,
            )
        },
        SymbolType::LabelReference => if pending is Some && is_jump(pending->0) {
            done(OperandView::Label(referenced_name(text)))
        } else {
            CompileState::Failed("Unexpected label reference: "@ + text, pos)
        },
    }
}

/// The compiler's state after consuming `syms` left to right.
pub open spec fn compile_prefix(syms: Seq<Symbol>) -> CompileState
    decreases syms.len(),
{
    if syms.len() == 0 {
        CompileState::Going(Seq::empty(), None)
    } else {
        match compile_prefix(syms.drop_last()) {
            CompileState::Going(prog, pending) => compile_step(prog, pending, syms.last()),
            failed => failed,
        }
    }
}

/// The program that a symbol sequence compiles to, or the diagnostic
/// (message, position) that stops compilation.
pub open spec fn compiled(syms: Seq<Symbol>) -> Result<Seq<InstrView>, (Seq<char>, Seq<char>)> {
    match compile_prefix(syms) {
        CompileState::Going(prog, None) => Ok(prog),
        CompileState::Going(_, Some(op)) => Err((missing_argument(op), Seq::empty())),
        CompileState::Failed(message, pos) => Err((message, pos)),
    }
}

fn push_instruction(program: &mut Vec<Instruction>, opcode: Opcode, operand: Operand, pos: String)
    ensures
        program_view(final(program)@) == program_view(old(program)@).push(
            InstrView { opcode, operand: operand@, pos: pos@ },
        ),
{
    let ghost before = program@;
    program.push(Instruction { opcode, operand, pos });
    assert(program_view(program@) =~= program_view(before).push(
        InstrView { opcode, operand: operand@, pos: pos@ },
    ));
}

fn compile_symbol(program: &mut Vec<Instruction>, pending: Option<Opcode>, symbol: &Symbol) -> (r:
    Result<Option<Opcode>, Error>)
    ensures
        match compile_step(program_view(old(program)@), pending, *symbol) {
            CompileState::Going(prog, next) => r is Ok && r->Ok_0 == next && program_view(
                final(program)@,
            ) == prog,
            CompileState::Failed(message, pos) => r is Err && r->Err_0.view_pair() == (
                message,
                pos,
            ),
        },
{
    let pos = position_text(symbol.line_number, symbol.column_number);
    let text = symbol.value.as_str();
    match symbol.symbol_type {
        SymbolType::Instruction => {
            if let Some(op) = pending {
                return Err(Error::new(&joined("Missing argument for instruction: ", mnemonic_text(op)), pos));
            }
            match opcode_of(text) {
                None => Err(Error::new(&joined("Unknown instruction: ", text), pos)),
                Some(op) => {
                    if op == Opcode::Push || op == Opcode::Cmp || is_jump_op(op) {
                        Ok(Some(op))
                    } else {
                        push_instruction(program, op, Operand::Nothing, pos);
                        Ok(None)
                    }
                },
            }
        },
        SymbolType::String => match pending {
            Some(op) if op == Opcode::Push || op == Opcode::Cmp => {
                push_instruction(program, op, Operand::Text(symbol.value.clone()), pos);
                Ok(None)
            },
            _ => Err(Error::new(&joined("Unexpected string literal: ", text), pos)),
        },
        SymbolType::Integer => match pending {
            Some(op) if op == Opcode::Push || op == Opcode::Cmp => match parse_i32(text) {
                Some(v) => {
                    push_instruction(program, op, Operand::Integer(v), pos);
                    Ok(None)
                },
                None => Err(Error::new(&joined("Invalid integer literal: ", text), pos)),
            },
            _ => Err(Error::new(&joined("Unexpected integer literal: ", text), pos)),
        },
        SymbolType::Float => match pending {
            Some(op) if op == Opcode::Push || op == Opcode::Cmp => {
                if !is_float_text(text) {
                    return Err(Error::new(&joined("Invalid float literal: ", text), pos));
                }
                push_instruction(program, op, Operand::Float(symbol.value.clone()), pos);
                Ok(None)
            },
            _ => Err(Error::new(&joined("Unexpected float literal: ", text), pos)),
        },
        SymbolType::Label => {
            if let Some(op) = pending {
                return Err(Error::new(&joined("Missing argument for instruction: ", mnemonic_text(op)), pos));
            }
            let n = text.unicode_len();
            let name = if n > 0 {
                text.substring_char(0, n - 1)
            } else {
                text
            };
            proof {
                if n > 0 {
                    assert(name@ =~= text@.drop_last());
                }
            }
            push_instruction(program, Opcode::Label, Operand::Label(String::from_str(name)), pos);
            Ok(None)
        },
        SymbolType::LabelReference => match pending {
            Some(op) if is_jump_op(op) => {
                let n = text.unicode_len();
                let name = if n > 0 {
                    text.substring_char(1, n)
                } else {
                    text
                };
                proof {
                    if n > 0 {
                        assert(name@ =~= text@.drop_first());
                    }
                }
                push_instruction(program, op, Operand::Label(String::from_str(name)), pos);
                Ok(None)
            },
            _ => Err(Error::new(&joined("Unexpected label reference: ", text), pos)),
        },
    }
}

/// Compiles a symbol sequence in one pass, left to right.
pub fn compile(symbols: &Vec<Symbol>) -> (r: Result<Vec<Instruction>, Error>)
    ensures
        match r {
            Ok(program) => compiled(symbols@) == Ok::<_, (Seq<char>, Seq<char>)>(program_view(program@)),
            Err(e) => compiled(symbols@) == Err::<Seq<InstrView>, _>(e.view_pair()),
        },
{
    let mut program: Vec<Instruction> = Vec::new();
    let mut pending: Option<Opcode> = None;
    let mut i: usize = 0;
    assert(program_view(program@) =~= Seq::empty());
    assert(symbols@.take(0) =~= Seq::empty());
    while i < symbols.len()
        invariant
            i <= symbols@.len(),
            compile_prefix(symbols@.take(i as int)) == CompileState::Going(program_view(program@), pending),
        decreases symbols@.len() - i,
    {
        assert(symbols@.take(i as int + 1).drop_last() =~= symbols@.take(i as int));
        match compile_symbol(&mut program, pending, &symbols[i]) {
            Ok(next) => {
                pending = next;
            },
            Err(e) => {
                proof {
                    lemma_failure_sticks(symbols@, i as int + 1);
                }
                return Err(e);
            },
        }
        i += 1;
    }
    assert(symbols@.take(i as int) =~= symbols@);
    if let Some(op) = pending {
        return Err(Error::new(&joined("Missing argument for instruction: ", mnemonic_text(op)), String::new()));
    }
    Ok(program)
}

proof fn lemma_failure_sticks(syms: Seq<Symbol>, n: int)
    requires
        0 <= n <= syms.len(),
        compile_prefix(syms.take(n)) is Failed,
    ensures
        compile_prefix(syms) == compile_prefix(syms.take(n)),
    decreases syms.len() - n,
{
    if n < syms.len() {
        assert(syms.take(n + 1).drop_last() =~= syms.take(n));
        lemma_failure_sticks(syms, n + 1);
    } else {
        assert(syms.take(n) =~= syms);
    }
}

/// The index of the last label definition named `name`: a later definition
/// of the same name replaces an earlier one.
pub open spec fn label_target(prog: Seq<InstrView>, name: Seq<char>) -> Option<int>
    decreases prog.len(),
{
    if prog.len() == 0 {
        None
    } else if prog.last().opcode == Opcode::Label && prog.last().operand == OperandView::Label(name) {
        Some(prog.len() - 1)
    } else {
        label_target(prog.drop_last(), name)
    }
}

pub proof fn lemma_label_target_in_range(prog: Seq<InstrView>, name: Seq<char>)
    ensures
        label_target(prog, name) is Some ==> 0 <= label_target(prog, name)->0 < prog.len(),
    decreases prog.len(),
{
    if prog.len() > 0 {
        lemma_label_target_in_range(prog.drop_last(), name);
    }
}

/// The entry for `name` that was recorded last.
pub open spec fn last_entry(entries: Seq<(String, usize)>, name: Seq<char>) -> Option<int>
    decreases entries.len(),
{
    if entries.len() == 0 {
        None
    } else if entries.last().0@ == name {
        Some(entries.last().1 as int)
    } else {
        last_entry(entries.drop_last(), name)
    }
}

/// A mapping from label name to instruction index.
pub struct LabelTable {
    entries: Vec<(String, usize)>,
}

impl LabelTable {
    pub fn new() -> (r: LabelTable)
        ensures
            forall|name: Seq<char>| r.target(name) == None::<int>,
    {
        LabelTable { entries: Vec::new() }
    }

    /// The index that `name` resolves to.
    pub closed spec fn target(&self, name: Seq<char>) -> Option<int> {
        last_entry(self.entries@, name)
    }

    pub fn get(&self, name: &str) -> (r: Option<usize>)
        ensures
            match self.target(name@) {
                Some(t) => r == Some(t as usize),
                None => r is None,
            },
    {
        let mut k: usize = self.entries.len();
        assert(self.entries@.take(k as int) =~= self.entries@);
        while k > 0
            invariant
                k <= self.entries@.len(),
                last_entry(self.entries@.take(k as int), name@) == last_entry(self.entries@, name@),
            decreases k,
        {
            let entry = &self.entries[k - 1];
            assert(self.entries@.take(k as int).last() == self.entries@[k - 1]);
            if same_text(entry.0.as_str(), name) {
                return Some(entry.1);
            }
            assert(self.entries@.take(k as int).drop_last() =~= self.entries@.take(k - 1));
            k -= 1;
        }
        None
    }
}

/// Records, for every label definition of `program`, its name and index.
pub fn analyze_labels(program: &Vec<Instruction>) -> (r: LabelTable)
    ensures
        forall|name: Seq<char>| #[trigger] r.target(name) == label_target(program_view(program@), name),
{
    let mut entries: Vec<(String, usize)> = Vec::new();
    let ghost pv = program_view(program@);
    let mut i: usize = 0;
    while i < program.len()
        invariant
            i <= program@.len(),
            pv == program_view(program@),
            forall|name: Seq<char>| #[trigger] last_entry(entries@, name) == label_target(pv.take(i as int), name),
        decreases program@.len() - i,
    {
        let ghost before = entries@;
        assert(pv.take(i as int + 1).drop_last() =~= pv.take(i as int));
        assert(pv.take(i as int + 1).last() == program@[i as int]@);
        let instruction = &program[i];
        let ghost defined = instruction.opcode == Opcode::Label && instruction.operand is Label;
        if let Operand::Label(name) = &instruction.operand {
            if instruction.opcode == Opcode::Label {
                entries.push((name.clone(), i));
                assert(entries@.drop_last() =~= before);
            }
        }
        assert forall|name: Seq<char>| #[trigger] last_entry(entries@, name) == label_target(pv.take(i as int + 1), name) by {
            let last = pv.take(i as int + 1).last();
            assert(last == program@[i as int]@);
            assert(last_entry(before, name) == label_target(pv.take(i as int), name));
            if defined {
                assert(entries@.drop_last() =~= before);
                assert(entries@.last().0@ == last.operand->Label_0);
            } else {
                assert(entries@ == before);
                assert(!(last.opcode == Opcode::Label && last.operand is Label));
            }
        }
        i += 1;
    }
    assert(pv.take(i as int) =~= pv);
    LabelTable { entries }
}

} // verus!
