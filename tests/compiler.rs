use stackfk::program::{analyze_labels, compile, Opcode, Operand};
use stackfk::tokenizer::{Symbol, SymbolType};

fn sym(kind: SymbolType, text: &str, line: usize) -> Symbol {
    Symbol::new(kind, text.to_string(), line, 1)
}

#[test]
fn compiles_operands_and_labels() {
    let symbols = vec![
        sym(SymbolType::Instruction, "push", 1),
        sym(SymbolType::Integer, "-12", 1),
        sym(SymbolType::Label, "top:", 2),
        sym(SymbolType::Instruction, "jnz", 3),
        sym(SymbolType::LabelReference, "@top", 3),
        sym(SymbolType::Instruction, "cmp", 4),
        sym(SymbolType::Float, "2.5", 4),
    ];
    let program = compile(&symbols).ok().expect("compiles");
    assert_eq!(program.len(), 4);
    assert_eq!(program[0].opcode, Opcode::Push);
    assert!(matches!(program[0].operand, Operand::Integer(-12)));
    assert_eq!(program[0].pos, "1:1");
    assert_eq!(program[1].opcode, Opcode::Label);
    assert!(matches!(&program[1].operand, Operand::Label(n) if n == "top"));
    assert_eq!(program[2].opcode, Opcode::JumpNotZero);
    assert!(matches!(&program[2].operand, Operand::Label(n) if n == "top"));
    assert!(matches!(&program[3].operand, Operand::Float(t) if t == "2.5"));
    let labels = analyze_labels(&program);
    assert_eq!(labels.get("top"), Some(1));
    assert_eq!(labels.get("other"), None);
}

#[test]
fn compile_errors() {
    let e = compile(&vec![sym(SymbolType::Instruction, "bogus", 1)]).err().unwrap();
    assert_eq!(e.message, "Unknown instruction: bogus");
    assert_eq!(e.pos, "1:1");
    let e = compile(&vec![sym(SymbolType::Integer, "3", 2)]).err().unwrap();
    assert_eq!(e.message, "Unexpected integer literal: 3");
    let e = compile(&vec![sym(SymbolType::String, "s", 2)]).err().unwrap();
    assert_eq!(e.message, "Unexpected string literal: s");
    let e = compile(&vec![sym(SymbolType::Float, "1.0", 2)]).err().unwrap();
    assert_eq!(e.message, "Unexpected float literal: 1.0");
    let e = compile(&vec![sym(SymbolType::LabelReference, "@x", 2)]).err().unwrap();
    assert_eq!(e.message, "Unexpected label reference: @x");
    let e = compile(&vec![sym(SymbolType::Instruction, "jmp", 1), sym(SymbolType::Integer, "1", 1)])
        .err()
        .unwrap();
    assert_eq!(e.message, "Unexpected integer literal: 1");
    let e = compile(&vec![sym(SymbolType::Instruction, "push", 1), sym(SymbolType::LabelReference, "@x", 1)])
        .err()
        .unwrap();
    assert_eq!(e.message, "Unexpected label reference: @x");
    let e = compile(&vec![sym(SymbolType::Instruction, "push", 1), sym(SymbolType::Label, "x:", 1)])
        .err()
        .unwrap();
    assert_eq!(e.message, "Missing argument for instruction: push");
    let e = compile(&vec![sym(SymbolType::Instruction, "cmp", 1), sym(SymbolType::Instruction, "pop", 2)])
        .err()
        .unwrap();
    assert_eq!(e.message, "Missing argument for instruction: cmp");
    assert_eq!(e.pos, "2:1");
    let e = compile(&vec![sym(SymbolType::Instruction, "jeq", 1)]).err().unwrap();
    assert_eq!(e.message, "Missing argument for instruction: jeq");
    assert_eq!(e.pos, "");
    let e = compile(&vec![sym(SymbolType::Instruction, "push", 1), sym(SymbolType::Integer, "99999999999", 1)])
        .err()
        .unwrap();
    assert_eq!(e.message, "Invalid integer literal: 99999999999");
}

#[test]
fn every_zero_operand_name_compiles() {
    let names = [
        ("pop", Opcode::Pop), ("dup", Opcode::Duplicate), ("swap", Opcode::Swap), ("add", Opcode::Add),
        ("sub", Opcode::Sub), ("mul", Opcode::Mul), ("div", Opcode::Div), ("idiv", Opcode::IDiv),
        ("mod", Opcode::Mod), ("print", Opcode::Print), ("read", Opcode::Read), ("atoi", Opcode::AToI),
        ("itoa", Opcode::IToA), ("itof", Opcode::IToF), ("ftoi", Opcode::FToI), ("scmp", Opcode::CmpInStack),
        ("exit", Opcode::Exit), ("ret", Opcode::Return), ("rand", Opcode::Random), ("time", Opcode::Time),
    ];
    for (name, op) in names {
        let program = compile(&vec![sym(SymbolType::Instruction, name, 1)]).ok().unwrap();
        assert_eq!(program.len(), 1);
        assert_eq!(program[0].opcode, op);
    }
}

#[test]
fn float_literal_text_is_checked_when_compiling() {
    let e = compile(&vec![sym(SymbolType::Instruction, "push", 1), sym(SymbolType::Float, "abc", 1)])
        .err()
        .unwrap();
    assert_eq!(e.message, "Invalid float literal: abc");
    assert_eq!(e.pos, "1:1");
    let e = compile(&vec![sym(SymbolType::Instruction, "cmp", 3), sym(SymbolType::Float, "1.2.3", 3)])
        .err()
        .unwrap();
    assert_eq!(e.message, "Invalid float literal: 1.2.3");
    assert_eq!(e.pos, "3:1");
    let program = compile(&vec![sym(SymbolType::Instruction, "push", 1), sym(SymbolType::Float, "-0.25", 1)])
        .ok()
        .unwrap();
    assert!(matches!(&program[0].operand, Operand::Float(t) if t == "-0.25"));
}
