use forth_vm::forth_core;
use forth_vm::stream::StreamReader;
use forth_vm::vm::{OpCode, ReplStatus, VM};

const FUEL: u64 = 1_000_000;

fn chars(s: &str) -> Vec<char> {
    s.chars().collect()
}

fn machine_with(src: &str) -> VM {
    let mut vm = VM::new();
    forth_core::register(&mut vm);
    let mut sr = StreamReader::new();
    sr.feed(&chars(src));
    sr.close();
    vm.add_stream(sr);
    vm
}

fn out_string(vm: &VM) -> String {
    vm.out.iter().collect()
}

#[test]
fn literal_immediate_pushes_value() {
    let mut vm = machine_with("42\n");
    assert_eq!(vm.repl(FUEL), ReplStatus::Finished);
    assert_eq!(vm.stack, vec![42]);
    assert_eq!(vm.code.len(), 0);
}

#[test]
fn literal_compile_emits_push() {
    let mut vm = VM::new();
    forth_core::register(&mut vm);
    vm.is_cm = true;
    vm.resolve_token(chars("7"));
    assert_eq!(vm.code.len(), 1);
    assert!(matches!(vm.code[0], OpCode::PushUSize(7)));
    assert!(vm.stack.is_empty());
}

#[test]
fn add_leaves_sum() {
    let mut vm = machine_with("3 4 +\n");
    vm.repl(FUEL);
    assert_eq!(vm.stack, vec![7]);
}

#[test]
fn print_stack_shows_seven() {
    let mut vm = machine_with("3 4 + .s\n");
    vm.repl(FUEL);
    assert_eq!(out_string(&vm), "[ 7 ]\n");
}

#[test]
fn print_stack_many_values() {
    let mut vm = machine_with("1 22 333 .s\n");
    vm.repl(FUEL);
    assert_eq!(out_string(&vm), "[ 1 22 333 ]\n");
}

#[test]
fn define_and_invoke() {
    let mut vm = machine_with(": foo 1 2 + ;\nfoo\n");
    vm.repl(FUEL);
    assert_eq!(vm.stack, vec![3]);
}

#[test]
fn sub_reflects_stack_order() {
    // pop a = 4, pop b = 3, push a - b
    let mut vm = machine_with("3 4 -\n");
    vm.repl(FUEL);
    assert_eq!(vm.stack, vec![1]);
}

#[test]
fn div_reflects_stack_order() {
    // pop a = 10, pop b = 2, push a / b
    let mut vm = machine_with("2 10 /\n");
    vm.repl(FUEL);
    assert_eq!(vm.stack, vec![5]);
    let mut w = machine_with("10 2 /\n");
    w.repl(FUEL);
    assert_eq!(w.stack, vec![0]);
}

#[test]
fn mod_reflects_stack_order() {
    // pop a = 7, pop b = 3, push a % b
    let mut vm = machine_with("3 7 %\n");
    vm.repl(FUEL);
    assert_eq!(vm.stack, vec![1]);
}

#[test]
fn mul_multiplies() {
    let mut vm = machine_with("6 7 *\n");
    vm.repl(FUEL);
    assert_eq!(vm.stack, vec![42]);
}

#[test]
fn sub_wraps_below_zero() {
    // pop a = 0, pop b = 1, push a - b wrapped
    let mut vm = machine_with("1 0 -\n");
    vm.repl(FUEL);
    assert_eq!(vm.stack, vec![usize::MAX]);
}

#[test]
fn macro_emits_into_outer_body() {
    // The macro word runs while `outer` is being compiled, so its
    // `op.lit` writes a push instruction into `outer`'s body instead of
    // a call to `emit5` being emitted.
    let mut vm = machine_with("! emit5 5 op.lit ;\n: outer emit5 ;\nouter\n");
    vm.repl(FUEL);
    assert_eq!(vm.stack, vec![5]);
    assert!(matches!(vm.code[3], OpCode::PushUSize(5)));
}

#[test]
fn redefinition_keeps_old_calls() {
    // `bar` was compiled against the first `foo` and still calls it.
    let mut vm = machine_with(": foo 1 ;\n: bar foo ;\n: foo 2 ;\nbar foo\n");
    vm.repl(FUEL);
    assert_eq!(vm.stack, vec![1, 2]);
}

#[test]
fn quit_stops_driver() {
    let mut vm = machine_with("quit 5\n");
    assert_eq!(vm.repl(FUEL), ReplStatus::Finished);
    assert!(vm.dead);
    assert!(vm.stack.is_empty());
}

#[test]
fn getch_pushes_code_point() {
    let mut vm = machine_with("getch x\n");
    vm.repl(FUEL);
    assert_eq!(vm.stack, vec![120]);
}

#[test]
fn peekch_does_not_consume() {
    let mut vm = machine_with("peekch 7\n");
    vm.repl(FUEL);
    assert_eq!(vm.stack, vec![55, 7]);
}

#[test]
fn getch_sentinel_at_end_of_sources() {
    let mut vm = machine_with("getch\n");
    vm.repl(FUEL);
    assert_eq!(vm.stack, vec![0]);
}

#[test]
fn cm_get_reports_mode() {
    let mut vm = machine_with("cm.get\n");
    vm.repl(FUEL);
    assert_eq!(vm.stack, vec![0]);
}

#[test]
fn cm_true_and_false_toggle() {
    let mut vm = machine_with("cm.true cm.get cm.false cm.get\n");
    vm.repl(FUEL);
    assert_eq!(vm.stack, vec![1, 0]);
}

#[test]
fn cm_set_pops_flag() {
    let mut vm = machine_with("1 cm.set cm.get\n");
    vm.repl(FUEL);
    assert_eq!(vm.stack, vec![1]);
    assert!(vm.is_cm);
}

#[test]
fn at_pushes_identifier() {
    // "+" is the 19th catalog entry, identifier 18.
    let mut vm = machine_with("@ +\n");
    vm.repl(FUEL);
    assert_eq!(vm.stack, vec![18]);
}

#[test]
fn two_streams_in_order() {
    let mut vm = VM::new();
    forth_core::register(&mut vm);
    let mut a = StreamReader::new();
    a.feed(&chars("1\n"));
    a.close();
    let mut b = StreamReader::new();
    b.feed(&chars("2\n"));
    b.close();
    vm.add_stream(a);
    vm.add_stream(b);
    assert_eq!(vm.repl(FUEL), ReplStatus::Finished);
    assert_eq!(vm.stack, vec![1, 2]);
}

#[test]
fn feeding_resumes_interrupted_input() {
    let mut vm = VM::new();
    forth_core::register(&mut vm);
    let mut sr = StreamReader::new();
    sr.feed(&chars("3 4"));
    vm.add_stream(sr);
    assert_eq!(vm.repl(FUEL), ReplStatus::NeedInput);
    assert_eq!(vm.stack, vec![3]);
    vm.streams[0].feed(&chars(" +\n"));
    assert_eq!(vm.repl(FUEL), ReplStatus::NeedInput);
    assert_eq!(vm.stack, vec![7]);
    vm.streams[0].close();
    assert_eq!(vm.repl(FUEL), ReplStatus::Finished);
}

#[test]
fn fuel_bounds_runaway_code() {
    // An instruction that jumps to itself spins until the budget ends.
    let mut vm = machine_with("0\n");
    vm.code.push(OpCode::Jmp(0));
    vm.ret.push(0);
    vm.ip = 0;
    assert_eq!(vm.repl(100), ReplStatus::OutOfFuel);
}

#[test]
fn empty_sources_finish() {
    let mut vm = machine_with("");
    assert_eq!(vm.repl(FUEL), ReplStatus::Finished);
}

#[test]
fn print_return_stack_inside_word() {
    // While `show`'s body runs, the return stack holds the sentinel
    // address 0, which lies in `show`'s own body (the first compiled
    // one, starting at 0).
    let mut vm = machine_with(": show .r ;\nshow\n");
    vm.repl(FUEL);
    assert_eq!(out_string(&vm), "0 - show\n");
}

#[test]
fn print_return_stack_names_originating_words() {
    // Inside `inner` (called from `outer`), the second return-stack
    // entry is the address after the call, which lies in `outer`'s
    // body.
    let mut vm = machine_with(": inner .r ;\n: outer inner ;\nouter\n");
    vm.repl(FUEL);
    assert_eq!(out_string(&vm), "0 - inner\n1 - outer\n");
}

#[test]
fn definition_waits_for_its_name() {
    // `:` with the name not yet buffered on an open source waits for
    // input instead of failing with an empty token.
    let mut vm = VM::new();
    forth_core::register(&mut vm);
    let mut sr = StreamReader::new();
    sr.feed(&chars(": "));
    vm.add_stream(sr);
    assert_eq!(vm.repl(FUEL), ReplStatus::NeedInput);
    assert_eq!(vm.i_2_w.len(), 23);
    vm.streams[0].feed(&chars("f 9 ;\nf\n"));
    vm.streams[0].close();
    assert_eq!(vm.repl(FUEL), ReplStatus::Finished);
    assert_eq!(vm.stack, vec![9]);
    assert!(vm.out.is_empty());
}

#[test]
fn register_assigns_dense_identifiers() {
    let mut vm = VM::new();
    forth_core::register(&mut vm);
    assert_eq!(vm.i_2_w.len(), 23);
    assert_eq!(vm.i_2_n.len(), 23);
    assert_eq!(vm.i_2_n[0], chars("quit"));
    assert_eq!(vm.i_2_n[1], chars(":"));
    assert_eq!(vm.i_2_n[22], chars("%"));
}

#[test]
fn print_stack_empty() {
    let mut vm = machine_with(".s\n");
    vm.repl(FUEL);
    assert_eq!(out_string(&vm), "[ ]\n");
}

#[test]
fn cm_set_zero_clears_mode() {
    let mut vm = machine_with("0 cm.set cm.get\n");
    vm.repl(FUEL);
    assert_eq!(vm.stack, vec![0]);
    assert!(!vm.is_cm);
}

#[test]
fn nested_calls_return_in_order() {
    let mut vm = machine_with(": one 1 ;\n: two one one + ;\ntwo .s\n");
    vm.repl(FUEL);
    assert_eq!(vm.stack, vec![2]);
    assert_eq!(out_string(&vm), "[ 2 ]\n");
}

#[test]
fn getch_waits_for_an_open_source() {
    // The source is still open when `getch` runs dry, so the machine
    // asks for input instead of pushing the end-of-source mark, and the
    // fed character is picked up on retry.
    let mut vm = VM::new();
    forth_core::register(&mut vm);
    let mut sr = StreamReader::new();
    sr.feed(&chars("getch\n"));
    vm.add_stream(sr);
    assert_eq!(vm.repl(FUEL), ReplStatus::NeedInput);
    assert!(vm.stack.is_empty());
    vm.streams[0].feed(&chars("A"));
    assert_eq!(vm.repl(FUEL), ReplStatus::NeedInput);
    assert_eq!(vm.stack, vec![65]);
    vm.streams[0].close();
    assert_eq!(vm.repl(FUEL), ReplStatus::Finished);
}

#[test]
fn getch_resumes_inside_a_word() {
    // `getch` pauses mid-body; the body is resumed, not restarted, once
    // a character has been fed.
    let mut vm = VM::new();
    forth_core::register(&mut vm);
    let mut sr = StreamReader::new();
    sr.feed(&chars(": g 1 getch ;\ng\n"));
    vm.add_stream(sr);
    assert_eq!(vm.repl(FUEL), ReplStatus::NeedInput);
    assert_eq!(vm.stack, vec![1]);
    vm.streams[0].feed(&chars("B"));
    assert_eq!(vm.repl(FUEL), ReplStatus::NeedInput);
    assert_eq!(vm.stack, vec![1, 66]);
    vm.streams[0].close();
    assert_eq!(vm.repl(FUEL), ReplStatus::Finished);
}

#[test]
fn peekch_waits_for_an_open_source() {
    let mut vm = VM::new();
    forth_core::register(&mut vm);
    let mut sr = StreamReader::new();
    sr.feed(&chars("peekch\n"));
    vm.add_stream(sr);
    assert_eq!(vm.repl(FUEL), ReplStatus::NeedInput);
    assert!(vm.stack.is_empty());
    vm.streams[0].feed(&chars("7"));
    vm.streams[0].close();
    assert_eq!(vm.repl(FUEL), ReplStatus::Finished);
    // peeked, then read back as the literal 7
    assert_eq!(vm.stack, vec![55, 7]);
}

#[test]
fn failed_body_abandons_pending_execution() {
    // The failing `+` inside `bad` is reported and the rest of the
    // command's execution is dropped; the driver goes on with the next
    // token.
    let mut vm = machine_with(": bad + ;\nbad 5\n");
    vm.repl(FUEL);
    assert_eq!(out_string(&vm), "Error: Stack underflow\n");
    assert_eq!(vm.stack, vec![5]);
    assert!(vm.ret.is_empty());
}

#[test]
fn out_of_fuel_resumes_where_it_stopped() {
    // Four units: resolve "2", resolve "3", resolve "+", one more for
    // the drain check never happens — a budget of 2 stops mid-way and a
    // second call finishes.
    let mut vm = machine_with("2 3 +\n");
    assert_eq!(vm.repl(2), ReplStatus::OutOfFuel);
    assert_eq!(vm.stack, vec![2, 3]);
    assert_eq!(vm.repl(FUEL), ReplStatus::Finished);
    assert_eq!(vm.stack, vec![5]);
}
