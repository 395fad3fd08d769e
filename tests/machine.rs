use stackfk::error::Error;
use stackfk::program::Opcode;
use stackfk::stackfk_vm::{FloatArg, FloatTask, Outcome, StackFkVM, Step, Value};
use stackfk::text::Order;
use stackfk::tokenizer::{Symbol, SymbolType, Tokenizer};

struct Run {
    printed: Vec<String>,
    error: Option<Error>,
    vm: StackFkVM,
}

fn show(v: &Value) -> String {
    match v {
        Value::Integer(i) => i.to_string(),
        Value::Float(b) => f32::from_bits(*b).to_string(),
        Value::String(s) => s.clone(),
    }
}

fn to_f32(a: &FloatArg) -> Option<f32> {
    match a {
        FloatArg::Bits(b) => Some(f32::from_bits(*b)),
        FloatArg::Int(i) => Some(*i as f32),
        FloatArg::Text(t) => t.parse::<f32>().ok(),
    }
}

fn perform(task: &FloatTask) -> Outcome {
    match task {
        FloatTask::Load(t) => match t.parse::<f32>() {
            Ok(f) => Outcome::Value(Value::Float(f.to_bits())),
            Err(_) => Outcome::Invalid,
        },
        FloatTask::Arith(op, l, r) => {
            let (x, y) = (to_f32(l).unwrap(), to_f32(r).unwrap());
            let v = match op {
                Opcode::Add => x + y,
                Opcode::Sub => x - y,
                Opcode::Mul => x * y,
                Opcode::Div => x / y,
                Opcode::Mod => x % y,
                _ => return Outcome::Value(Value::Integer((x / y).floor() as i32)),
            };
            Outcome::Value(Value::Float(v.to_bits()))
        }
        FloatTask::Compare(l, r) => match (to_f32(l), to_f32(r)) {
            (Some(x), Some(y)) => Outcome::Order(match x.partial_cmp(&y) {
                Some(std::cmp::Ordering::Less) => Order::Less,
                Some(std::cmp::Ordering::Equal) => Order::Equal,
                Some(std::cmp::Ordering::Greater) => Order::Greater,
                None => Order::Unordered,
            }),
            _ => Outcome::Invalid,
        },
        FloatTask::Truncate(b) => Outcome::Value(Value::Integer(f32::from_bits(*b) as i32)),
    }
}

fn run_with_input(src: &str, input: &[&str]) -> Run {
    let mut t = Tokenizer::new();
    t.tokenize(src).expect("source lexes");
    run_symbols(t.into_symbols(), input)
}

fn run_symbols(symbols: Vec<Symbol>, input: &[&str]) -> Run {
    let mut vm = StackFkVM::new(symbols);
    let mut printed = Vec::new();
    if let Err(e) = vm.load() {
        return Run { printed, error: Some(e), vm };
    }
    let mut lines = input.iter();
    let mut steps = 0;
    loop {
        steps += 1;
        assert!(steps < 10_000, "run does not end");
        let outcome = match vm.step() {
            Err(e) => return Run { printed, error: Some(e), vm },
            Ok(Step::Halt) => break,
            Ok(Step::Continue) => continue,
            Ok(Step::Print(v)) => {
                printed.push(show(&v));
                continue;
            }
            Ok(Step::Read) => Outcome::Input(lines.next().map(|s| s.to_string())),
            Ok(Step::Random) => Outcome::Value(Value::Float(0.25f32.to_bits())),
            Ok(Step::Float(task)) => perform(&task),
        };
        if let Err(e) = vm.resume(outcome) {
            return Run { printed, error: Some(e), vm };
        }
    }
    Run { printed, error: None, vm }
}

fn run(src: &str) -> Run {
    run_with_input(src, &[])
}

fn stack_text(vm: &StackFkVM) -> Vec<String> {
    vm.stack().iter().map(show).collect()
}

#[test]
fn sub_takes_earlier_operand_first() {
    let r = run("push 3\npush 2\nsub\n");
    assert!(r.error.is_none());
    assert!(matches!(r.vm.stack()[..], [Value::Integer(1)]));
    let r = run("push 2\npush 3\nsub\n");
    assert!(matches!(r.vm.stack()[..], [Value::Integer(-1)]));
}

#[test]
fn add_concatenates_strings_in_push_order() {
    let r = run("push \"ab\"\npush \"cd\"\nadd\n");
    assert!(r.error.is_none());
    assert_eq!(stack_text(&r.vm), vec!["abcd".to_string()]);
}

#[test]
fn compare_ops_keep_stack_depth() {
    let r = run("push 4\ncmp 4\n");
    assert!(r.error.is_none());
    assert_eq!(stack_text(&r.vm), vec!["4"]);
    let f = r.vm.flags();
    assert!(f.equal && f.zero && f.greater_than_or_equal && f.less_than_or_equal);
    assert!(!f.not_equal && !f.less_than && !f.greater_than && !f.negative);
    let r = run("push 1\npush 2\nscmp\n");
    assert_eq!(stack_text(&r.vm), vec!["1", "2"]);
    let f = r.vm.flags();
    assert!(f.greater_than && f.not_equal && !f.less_than);
    let r = run("push 1.5\npush 2.5\nscmp\n");
    assert_eq!(r.vm.stack().len(), 2);
    assert!(r.vm.flags().greater_than);
    let r = run("push \"a\"\ncmp \"b\"\n");
    assert_eq!(stack_text(&r.vm), vec!["a"]);
    assert!(r.vm.flags().less_than && r.vm.flags().negative);
}

#[test]
fn dup_then_pop_round_trip() {
    let r = run("push 5\ndup\n");
    assert!(r.error.is_none());
    assert_eq!(stack_text(&r.vm), vec!["5", "5"]);
    let r = run("push 5\ndup\npop\n");
    assert_eq!(stack_text(&r.vm), vec!["5"]);
}

#[test]
fn jump_returns_after_call_site() {
    let r = run("jmp @sub\npush \"after\"\nprint\nexit\nsub:\npush \"reached\"\nprint\nret\n");
    assert!(r.error.is_none());
    assert_eq!(r.printed, vec!["reached", "after"]);
}

#[test]
fn ret_resumes_at_instruction_after_jump() {
    let r = run("jmp @L\npush \"skipped\"\nprint\nL:\npush \"reached\"\nprint\nret\npush \"after\"\nprint\n");
    assert_eq!(r.printed, vec!["reached", "skipped", "reached"]);
    let e = r.error.expect("second ret has no caller");
    assert_eq!(e.message, "Cannot return anything from the main function!");
    assert_eq!(e.pos, "7:4");
}

#[test]
fn add_underflow_is_one_diagnostic() {
    let r = run("push 1\nadd\npush \"x\"\nprint\n");
    assert!(r.printed.is_empty());
    let e = r.error.expect("underflow");
    assert_eq!(e.message, "Not enough operands for ADD instruction");
    assert_eq!(e.pos, "2:4");
    assert_eq!(stack_text(&r.vm), vec!["1"]);
    assert_eq!(r.vm.ip(), 1);
}

#[test]
fn unresolved_label_names_label() {
    let r = run("jmp @missing\n");
    let e = r.error.expect("unknown label");
    assert_eq!(e.message, "Unknown label: missing");
    assert_eq!(e.pos, "1:13");
    assert!(r.printed.is_empty());
    assert!(r.vm.return_stack().is_empty());
    assert_eq!(r.vm.ip(), 0);
}

#[test]
fn conditional_jump_with_missing_label_fails_only_when_taken() {
    let r = run("push 1\ncmp 2\njeq @nowhere\npush \"on\"\nprint\n");
    assert!(r.error.is_none());
    assert_eq!(r.printed, vec!["on"]);
    let r = run("push 1\ncmp 1\njeq @nowhere\n");
    assert_eq!(r.error.expect("taken").message, "Unknown label: nowhere");
}

#[test]
fn loop_counts_down() {
    let src = "push 3\ntop:\ndup\nprint\npush 1\nsub\ncmp 0\njgt @top\n";
    let r = run(src);
    assert!(r.error.is_none());
    assert_eq!(r.printed, vec!["3", "2", "1"]);
    assert_eq!(r.vm.return_stack().len(), 2);
}

#[test]
fn last_label_definition_wins() {
    let r = run("jmp @L\nL:\npush 1\nprint\nexit\nL:\npush 2\nprint\nexit\n");
    assert_eq!(r.printed, vec!["2"]);
}

#[test]
fn integer_arithmetic_results() {
    assert_eq!(stack_text(&run("push 6\npush 7\nmul\n").vm), vec!["42"]);
    assert_eq!(stack_text(&run("push -7\npush 2\ndiv\n").vm), vec!["-3"]);
    assert_eq!(stack_text(&run("push -7\npush 2\nidiv\n").vm), vec!["-3"]);
    assert_eq!(stack_text(&run("push -7\npush 2\nmod\n").vm), vec!["-1"]);
    assert_eq!(stack_text(&run("push 7\npush -2\nmod\n").vm), vec!["1"]);
    assert_eq!(stack_text(&run("push 1\npush 2\nswap\n").vm), vec!["2", "1"]);
}

#[test]
fn integer_faults_are_diagnosed() {
    let e = run("push 1\npush 0\ndiv\n").error.expect("zero");
    assert_eq!(e.message, "Division by zero in DIV instruction");
    let e = run("push 1\npush 0\nmod\n").error.expect("zero");
    assert_eq!(e.message, "Division by zero in MOD instruction");
    let e = run("push 2147483647\npush 1\nadd\n").error.expect("overflow");
    assert_eq!(e.message, "Integer overflow in ADD instruction");
    let e = run("push -2147483648\npush -1\ndiv\n").error.expect("overflow");
    assert_eq!(e.message, "Integer overflow in DIV instruction");
}

#[test]
fn type_mismatches_are_diagnosed() {
    let e = run("push \"a\"\npush \"b\"\nsub\n").error.expect("mismatch");
    assert_eq!(e.message, "Type mismatch for SUB instruction");
    let e = run("push \"a\"\npush 1\nadd\n").error.expect("mismatch");
    assert_eq!(e.message, "Type mismatch for ADD instruction");
    let e = run("push 1\ncmp \"a\"\n").error.expect("mismatch");
    assert_eq!(e.message, "Type mismatch for CMP instruction");
    let e = run("push 1\npush \"a\"\nscmp\n").error.expect("mismatch");
    assert_eq!(e.message, "Type mismatch for SCMP instruction");
}

#[test]
fn stack_underflows_are_diagnosed() {
    assert_eq!(run("pop\n").error.unwrap().message, "Cannot pop from an empty stack");
    assert_eq!(run("dup\n").error.unwrap().message, "Cannot duplicate from an empty stack");
    assert_eq!(run("push 1\nswap\n").error.unwrap().message, "Not enough operands for SWAP instruction");
    assert_eq!(run("print\n").error.unwrap().message, "Cannot print from an empty stack");
    assert_eq!(run("cmp 1\n").error.unwrap().message, "Not enough operands for CMP instruction");
    assert_eq!(run("ret\n").error.unwrap().message, "Cannot return anything from the main function!");
}

#[test]
fn float_arithmetic_promotes_integers() {
    let r = run("push 1.5\npush 2\nadd\nprint\n");
    assert!(r.error.is_none());
    assert_eq!(r.printed, vec!["3.5"]);
    let r = run("push 2\npush 0.5\nsub\nprint\n");
    assert_eq!(r.printed, vec!["1.5"]);
    let r = run("push 7.5\npush 2\nidiv\n");
    assert!(matches!(r.vm.stack()[..], [Value::Integer(3)]));
    let r = run("push -7.5\npush 2\nidiv\n");
    assert!(matches!(r.vm.stack()[..], [Value::Integer(-4)]));
    let r = run("push 3.9\nftoi\n");
    assert!(matches!(r.vm.stack()[..], [Value::Integer(3)]));
}

#[test]
fn conversions() {
    let r = run_with_input("read\natoi\npush 1\nadd\nprint\n", &["41"]);
    assert!(r.error.is_none());
    assert_eq!(r.printed, vec!["42"]);
    let e = run_with_input("read\natoi\n", &["4x"]).error.expect("not a number");
    assert_eq!(e.message, "Invalid integer: 4x");
    let e = run("read\n").error.expect("no input");
    assert_eq!(e.message, "Failed to read input");
    let e = run("push 1\natoi\n").error.expect("mismatch");
    assert_eq!(e.message, "Type mismatch for ATOI instruction");
    let e = run("push 1\nftoi\n").error.expect("mismatch");
    assert_eq!(e.message, "Type mismatch for FTOI instruction");
}

#[test]
fn unimplemented_and_random() {
    let e = run("push 1\nitoa\n").error.expect("unimplemented");
    assert_eq!(e.message, "Unimplemented instruction");
    assert_eq!(e.pos, "");
    assert_eq!(run("time\n").error.unwrap().message, "Unimplemented instruction");
    let r = run("rand\nprint\n");
    assert_eq!(r.printed, vec!["0.25"]);
}

#[test]
fn exit_halts_and_stays_halted() {
    let mut r = run("push 1\nexit\npush 2\n");
    assert!(r.error.is_none());
    assert_eq!(stack_text(&r.vm), vec!["1"]);
    assert_eq!(r.vm.ip(), r.vm.program_len());
    assert!(matches!(r.vm.step(), Ok(Step::Halt)));
}

#[test]
fn invalid_float_literal_is_diagnosed() {
    let symbols = vec![
        Symbol::new(SymbolType::Instruction, "push".to_string(), 1, 5),
        Symbol::new(SymbolType::Float, "1.2.3".to_string(), 1, 11),
    ];
    let e = run_symbols(symbols, &[]).error.expect("bad literal");
    assert_eq!(e.message, "Invalid float literal: 1.2.3");
    assert_eq!(e.pos, "1:11");
}

#[test]
fn answer_of_wrong_type_is_refused() {
    let mut t = Tokenizer::new();
    t.tokenize("push 1.5\n").unwrap();
    let mut vm = StackFkVM::new(t.into_symbols());
    vm.load().unwrap();
    assert!(matches!(vm.step(), Ok(Step::Float(FloatTask::Load(_)))));
    let e = vm.resume(Outcome::Value(Value::Integer(1))).err().expect("not a float");
    assert_eq!(e.message, "Outcome does not fit the waiting instruction");
    assert!(vm.is_awaiting());
    assert!(vm.stack().is_empty());
    assert!(vm.resume(Outcome::Value(Value::Float(1.5f32.to_bits()))).is_ok());
    assert_eq!(stack_text(&vm), vec!["1.5"]);
}

#[test]
fn input_lines_lose_only_their_line_ending() {
    let r = run_with_input("read\natoi\nprint\n", &["41\r\n"]);
    assert!(r.error.is_none());
    assert_eq!(r.printed, vec!["41"]);
    let r = run_with_input("read\nprint\n", &[" a b \n"]);
    assert_eq!(r.printed, vec![" a b "]);
    let r = run_with_input("read\nprint\n", &["last"]);
    assert_eq!(r.printed, vec!["last"]);
}

#[test]
fn float_sub_keeps_operand_order() {
    let r = run("push 2.5\npush 1\nsub\nprint\n");
    assert_eq!(r.printed, vec!["1.5"]);
    let r = run("push 1\npush 2.5\nsub\nprint\n");
    assert_eq!(r.printed, vec!["-1.5"]);
}
