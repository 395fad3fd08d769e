use stackfk::tokenizer::{SymbolType, TokenType, Tokenizer};

#[test]
fn classifies_symbols() {
    let mut t = Tokenizer::new();
    t.tokenize("start:\n  push 1.\n  push 2.5 ; note\n  jmp @start\n  push \"hi there\"\n").unwrap();
    let kinds: Vec<(SymbolType, String)> =
        t.into_symbols().into_iter().map(|s| (s.symbol_type, s.value)).collect();
    assert_eq!(
        kinds,
        vec![
            (SymbolType::Label, "start:".to_string()),
            (SymbolType::Instruction, "push".to_string()),
            (SymbolType::Float, "1.0".to_string()),
            (SymbolType::Instruction, "push".to_string()),
            (SymbolType::Float, "2.5".to_string()),
            (SymbolType::Instruction, "jmp".to_string()),
            (SymbolType::LabelReference, "@start".to_string()),
            (SymbolType::Instruction, "push".to_string()),
            (SymbolType::String, "hi there".to_string()),
        ]
    );
}

#[test]
fn positions_and_end_marker() {
    let mut t = Tokenizer::new();
    t.tokenize("push 12\n").unwrap();
    assert_eq!(t.tokens.len(), 3);
    assert_eq!(t.tokens[0].token_type, TokenType::Identifier);
    assert_eq!((t.tokens[0].line_number, t.tokens[0].column_number), (1, 5));
    assert_eq!(t.tokens[1].token_type, TokenType::NumericLiteral);
    assert_eq!(t.tokens[1].value, "12");
    assert_eq!((t.tokens[1].line_number, t.tokens[1].column_number), (1, 8));
    assert_eq!(t.tokens[2].token_type, TokenType::EOF);
    assert_eq!((t.tokens[2].line_number, t.tokens[2].column_number), (2, 1));
    let symbols = t.into_symbols();
    assert_eq!(symbols.len(), 2);
    assert_eq!(symbols[1].symbol_type, SymbolType::Integer);
}

#[test]
fn lexing_errors() {
    let mut t = Tokenizer::new();
    let e = t.tokenize("push .5\n").err().unwrap();
    assert_eq!(e.message, "Invalid token");
    assert_eq!(e.pos, "1:6");
    let mut t = Tokenizer::new();
    let e = t.tokenize("push \"a b\nc\"\n").err().unwrap();
    assert_eq!(e.message, "Unterminated string literal");
    assert!(t.tokens.is_empty());
}

#[test]
fn spaces_inside_strings_collapse() {
    let mut t = Tokenizer::new();
    t.tokenize("push \"a  b\"\n").unwrap();
    let symbols = t.into_symbols();
    assert_eq!(symbols.len(), 2);
    assert_eq!(symbols[1].symbol_type, SymbolType::String);
    assert_eq!(symbols[1].value, "a b");
}

#[test]
fn comment_line_breaks_count() {
    let mut t = Tokenizer::new();
    t.tokenize("; c\npop\n").unwrap();
    let symbols = t.into_symbols();
    assert_eq!(symbols.len(), 1);
    assert_eq!(symbols[0].value, "pop");
    assert_eq!((symbols[0].line_number, symbols[0].column_number), (2, 4));
}

#[test]
fn spaces_inside_strings_move_the_column() {
    let mut t = Tokenizer::new();
    let e = t.tokenize("push \"a b\" .\n").err().unwrap();
    assert_eq!(e.message, "Invalid token");
    assert_eq!(e.pos, "1:12");
}

#[test]
fn malformed_numbers_are_refused() {
    for (src, pos) in [("5x\n", "1:3"), ("99999999999\n", "1:12"), ("1.2.3\n", "1:6"), ("5-3\n", "1:4")] {
        let mut t = Tokenizer::new();
        let e = t.tokenize(src).err().unwrap();
        assert_eq!(e.message, "Invalid numeric literal");
        assert_eq!(e.pos, pos);
    }
    let mut t = Tokenizer::new();
    t.tokenize("-12 +3 4. -0.5\n").unwrap();
    let texts: Vec<(SymbolType, String)> =
        t.into_symbols().into_iter().map(|s| (s.symbol_type, s.value)).collect();
    assert_eq!(
        texts,
        vec![
            (SymbolType::Integer, "-12".to_string()),
            (SymbolType::Integer, "+3".to_string()),
            (SymbolType::Float, "4.0".to_string()),
            (SymbolType::Float, "-0.5".to_string()),
        ]
    );
}
