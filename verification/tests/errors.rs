use forth_vm::forth_core;
use forth_vm::stream::StreamReader;
use forth_vm::vm::{EvalResult, OpCode, VM};

const FUEL: u64 = 1_000_000;

fn chars(s: &str) -> Vec<char> {
    s.chars().collect()
}

fn machine_with(src: &str) -> VM {
    let mut vm = VM::new();
    forth_core::register(&mut vm);
    let mut sr = StreamReader::new();
    sr.feed(&chars(src));
    sr.close();
    vm.add_stream(sr);
    vm
}

fn out_string(vm: &VM) -> String {
    vm.out.iter().collect()
}

#[test]
fn unknown_word_reports_and_continues() {
    let mut vm = machine_with("bogus 5\n");
    vm.repl(FUEL);
    assert_eq!(out_string(&vm), "Error: Word bogus not found!\n");
    // The driver went on: the next token was still resolved.
    assert_eq!(vm.stack, vec![5]);
    assert_eq!(vm.code.len(), 0);
}

#[test]
fn unknown_token_leaves_machine_unchanged() {
    let mut vm = VM::new();
    forth_core::register(&mut vm);
    vm.stack.push(9);
    let r = vm.resolve_token(chars("bogus"));
    match r {
        EvalResult::WordNotFound(w) => assert_eq!(w, chars("bogus")),
        _ => panic!("expected WordNotFound"),
    }
    assert_eq!(vm.stack, vec![9]);
    assert_eq!(vm.code.len(), 0);
    assert_eq!(vm.i_2_w.len(), 23);
}

#[test]
fn op_ret_underflow_appends_nothing() {
    let mut vm = machine_with("op.ret\n");
    vm.repl(FUEL);
    assert_eq!(out_string(&vm), "Error: Stack underflow\n");
    assert_eq!(vm.code.len(), 0);
}

#[test]
fn op_ret_pops_and_emits() {
    let mut vm = machine_with("7 op.ret\n");
    vm.repl(FUEL);
    assert!(vm.stack.is_empty());
    assert_eq!(vm.code.len(), 1);
    assert!(matches!(vm.code[0], OpCode::Ret));
}

#[test]
fn op_lit_emits_operand() {
    let mut vm = machine_with("9 op.lit\n");
    vm.repl(FUEL);
    assert!(vm.stack.is_empty());
    assert!(matches!(vm.code[0], OpCode::PushUSize(9)));
}

#[test]
fn add_underflow_keeps_stack() {
    let mut vm = machine_with("5 +\n");
    vm.repl(FUEL);
    assert_eq!(out_string(&vm), "Error: Stack underflow\n");
    assert_eq!(vm.stack, vec![5]);
}

#[test]
fn division_by_zero_reported() {
    // divisor is the second value popped
    let mut vm = machine_with("0 1 /\n");
    vm.repl(FUEL);
    assert_eq!(out_string(&vm), "Error: division by zero\n");
    assert_eq!(vm.stack, vec![0, 1]);
}

#[test]
fn modulo_by_zero_reported() {
    let mut vm = machine_with("0 1 %\n");
    vm.repl(FUEL);
    assert_eq!(out_string(&vm), "Error: division by zero\n");
}

#[test]
fn definition_without_name_reports_empty_token() {
    let mut vm = machine_with(":\n");
    vm.repl(FUEL);
    assert_eq!(out_string(&vm), "Error: empty token\n");
    assert_eq!(vm.i_2_w.len(), 23);
}

#[test]
fn at_unknown_name_reports() {
    let mut vm = machine_with("@ nosuch\n");
    vm.repl(FUEL);
    assert_eq!(out_string(&vm), "Error: Word nosuch not found!\n");
}

#[test]
fn ret_native_underflow() {
    let mut vm = VM::new();
    let r = forth_core::ret(&mut vm);
    assert!(matches!(r, EvalResult::ReturnStackUnderflow));
}

#[test]
fn ret_native_pops_address() {
    let mut vm = VM::new();
    vm.ret.push(5);
    let r = forth_core::ret(&mut vm);
    assert!(matches!(r, EvalResult::Nothing));
    assert_eq!(vm.ip, 5);
    assert!(vm.ret.is_empty());
}

#[test]
fn step_outside_code_is_bad_address() {
    let mut vm = VM::new();
    let r = vm.next_word();
    assert!(matches!(r, EvalResult::BadAddress));
}

#[test]
fn step_ret_with_empty_return_stack() {
    let mut vm = VM::new();
    vm.code.push(OpCode::Ret);
    vm.ip = 0;
    let r = vm.next_word();
    assert!(matches!(r, EvalResult::ReturnStackUnderflow));
}

#[test]
fn step_cond_with_empty_stack() {
    let mut vm = VM::new();
    vm.code.push(OpCode::Cond(0));
    vm.ip = 0;
    let r = vm.next_word();
    assert!(matches!(r, EvalResult::StackUnderflow));
}

#[test]
fn step_call_outside_dictionary() {
    let mut vm = VM::new();
    vm.code.push(OpCode::Call(7));
    vm.ip = 0;
    let r = vm.next_word();
    assert!(matches!(r, EvalResult::BadAddress));
}

#[test]
fn overflowing_literal_is_not_a_number() {
    let mut vm = machine_with("99999999999999999999999999\n");
    vm.repl(FUEL);
    assert_eq!(
        out_string(&vm),
        "Error: Word 99999999999999999999999999 not found!\n"
    );
    assert!(vm.stack.is_empty());
}
