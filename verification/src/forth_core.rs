//! The native word registry: the fixed catalog of built-in behaviours
//! that bootstraps the language, each with a relation stating exactly how
//! it moves the machine from one state to the next.
//!
//! Every behaviour that fails leaves the machine exactly as it was and
//! reports why; a behaviour that succeeds reports `Nothing`.

use vstd::prelude::*;
use vstd::wrapping::usize_specs;

use crate::render;
use crate::vm::{
    lookup, same_cm, same_code, same_dead, same_dict, same_ip, same_out, same_ret, same_stack,
    same_streams, streams_after_char, streams_after_tok, EvalResult, NativeOp, OpCode, Word, VM,
};

verus! {

/// `quit` clears the liveness flag; the top-level driver then stops.
pub open spec fn quit_spec(a: VM, b: VM, r: EvalResult) -> bool {
    &&& b.dead
    &&& same_code(a, b) && same_stack(a, b) && same_ret(a, b) && same_ip(a, b)
    &&& same_dict(a, b) && same_streams(a, b) && same_out(a, b) && same_cm(a, b)
    &&& r is Nothing
}

pub fn quit(vm: &mut VM) -> (r: EvalResult)
    requires
        old(vm).wf(),
    ensures
        final(vm).wf(),
        quit_spec(*old(vm), *final(vm), r),
{
    vm.dead = true;
    EvalResult::Nothing
}

/// `:` and `!` read the new word's name and open a definition: the
/// machine switches to compile mode and a fresh identifier is bound to a
/// compiled word whose body starts at the instruction store's current
/// end.  With every source exhausted and no token to name the word,
/// `EmptyToken` is reported; with a source still open but no complete
/// name buffered yet, `NeedChar` asks the driver to wait for input and
/// retry.  Either way nothing changes.
pub open spec fn define_spec(a: VM, b: VM, r: EvalResult, mac: bool) -> bool {
    if a.tok_avail() {
        &&& b.i_2_w@ == a.i_2_w@.push(
            Word::Interp { is_macro: mac, fip: a.code@.len() as usize },
        )
        &&& b.names() == a.names().push(a.next_tok())
        &&& b.is_cm
        &&& streams_after_tok(a, b)
        &&& same_code(a, b) && same_stack(a, b) && same_ret(a, b) && same_ip(a, b)
        &&& same_out(a, b) && same_dead(a, b)
        &&& r is Nothing
    } else if a.toks_exhausted() {
        b == a && r is EmptyToken
    } else {
        b == a && r is NeedChar
    }
}

pub fn define_word(vm: &mut VM) -> (r: EvalResult)
    requires
        old(vm).wf(),
    ensures
        final(vm).wf(),
        define_spec(*old(vm), *final(vm), r, false),
{
    let token = vm.read_token();
    match token {
        Some(token) => {
            vm.is_cm = true;
            let fip = vm.code.len();
            vm.i_2_w.push(Word::Interp { is_macro: false, fip });
            vm.i_2_n.push(token);
            proof {
                assert(vm.names() =~~= old(vm).names().push(old(vm).next_tok()));
            }
            EvalResult::Nothing
        },
        None => {
            if vm.sources_done() {
                EvalResult::EmptyToken
            } else {
                EvalResult::NeedChar
            }
        },
    }
}

pub fn define_immediate(vm: &mut VM) -> (r: EvalResult)
    requires
        old(vm).wf(),
    ensures
        final(vm).wf(),
        define_spec(*old(vm), *final(vm), r, true),
{
    let token = vm.read_token();
    match token {
        Some(token) => {
            vm.is_cm = true;
            let fip = vm.code.len();
            vm.i_2_w.push(Word::Interp { is_macro: true, fip });
            vm.i_2_n.push(token);
            proof {
                assert(vm.names() =~~= old(vm).names().push(old(vm).next_tok()));
            }
            EvalResult::Nothing
        },
        None => {
            if vm.sources_done() {
                EvalResult::EmptyToken
            } else {
                EvalResult::NeedChar
            }
        },
    }
}

/// `;` closes a definition: a `Ret` is appended so the body returns, and
/// the machine goes back to immediate mode.
pub open spec fn eofn_spec(a: VM, b: VM, r: EvalResult) -> bool {
    &&& b.code@ == a.code@.push(OpCode::Ret)
    &&& !b.is_cm
    &&& same_stack(a, b) && same_ret(a, b) && same_ip(a, b) && same_dict(a, b)
    &&& same_streams(a, b) && same_out(a, b) && same_dead(a, b)
    &&& r is Nothing
}

pub fn eofn(vm: &mut VM) -> (r: EvalResult)
    requires
        old(vm).wf(),
    ensures
        final(vm).wf(),
        eofn_spec(*old(vm), *final(vm), r),
{
    vm.code.push(OpCode::Ret);
    vm.is_cm = false;
    EvalResult::Nothing
}

/// `cm.set` pops a value and makes it the compile-mode flag: nonzero
/// turns compiling on, zero turns it off.
pub open spec fn cm_set_spec(a: VM, b: VM, r: EvalResult) -> bool {
    if a.stack@.len() == 0 {
        b == a && r is StackUnderflow
    } else {
        &&& b.stack@ == a.stack@.drop_last()
        &&& b.is_cm == (a.stack@.last() != 0)
        &&& same_code(a, b) && same_ret(a, b) && same_ip(a, b) && same_dict(a, b)
        &&& same_streams(a, b) && same_out(a, b) && same_dead(a, b)
        &&& r is Nothing
    }
}

pub fn cm_set(vm: &mut VM) -> (r: EvalResult)
    requires
        old(vm).wf(),
    ensures
        final(vm).wf(),
        cm_set_spec(*old(vm), *final(vm), r),
{
    if vm.stack.len() == 0 {
        return EvalResult::StackUnderflow;
    }
    let p = vm.stack.pop().unwrap();
    vm.is_cm = p != 0;
    EvalResult::Nothing
}

/// `cm.true` and `cm.false` set the compile-mode flag unconditionally.
pub open spec fn cm_flag_spec(a: VM, b: VM, r: EvalResult, flag: bool) -> bool {
    &&& b.is_cm == flag
    &&& same_code(a, b) && same_stack(a, b) && same_ret(a, b) && same_ip(a, b)
    &&& same_dict(a, b) && same_streams(a, b) && same_out(a, b) && same_dead(a, b)
    &&& r is Nothing
}

pub fn cm_set_true(vm: &mut VM) -> (r: EvalResult)
    requires
        old(vm).wf(),
    ensures
        final(vm).wf(),
        cm_flag_spec(*old(vm), *final(vm), r, true),
{
    vm.is_cm = true;
    EvalResult::Nothing
}

pub fn cm_set_false(vm: &mut VM) -> (r: EvalResult)
    requires
        old(vm).wf(),
    ensures
        final(vm).wf(),
        cm_flag_spec(*old(vm), *final(vm), r, false),
{
    vm.is_cm = false;
    EvalResult::Nothing
}

/// `cm.get` pushes 1 when the machine is compiling, 0 otherwise.
pub open spec fn cm_get_spec(a: VM, b: VM, r: EvalResult) -> bool {
    &&& b.stack@ == a.stack@.push(if a.is_cm { 1usize } else { 0usize })
    &&& same_code(a, b) && same_ret(a, b) && same_ip(a, b) && same_dict(a, b)
    &&& same_streams(a, b) && same_out(a, b) && same_cm(a, b) && same_dead(a, b)
    &&& r is Nothing
}

pub fn cm_get(vm: &mut VM) -> (r: EvalResult)
    requires
        old(vm).wf(),
    ensures
        final(vm).wf(),
        cm_get_spec(*old(vm), *final(vm), r),
{
    vm.stack.push(if vm.is_cm { 1 } else { 0 });
    EvalResult::Nothing
}

/// `@` reads the next token and pushes the identifier it resolves to.
/// An unknown name reports `WordNotFound` (the token is consumed, the
/// stacks stay); with every source exhausted and no token left,
/// `EmptyToken`; with a source open but no complete token buffered
/// yet, `NeedChar`.  The last two change nothing.
pub open spec fn get_addr_spec(a: VM, b: VM, r: EvalResult) -> bool {
    if a.tok_avail() {
        match lookup(a.names(), a.next_tok()) {
            Some(wid) => {
                &&& b.stack@ == a.stack@.push(wid as usize)
                &&& streams_after_tok(a, b)
                &&& same_code(a, b) && same_ret(a, b) && same_ip(a, b) && same_dict(a, b)
                &&& same_out(a, b) && same_cm(a, b) && same_dead(a, b)
                &&& r is Nothing
            },
            None => {
                &&& streams_after_tok(a, b)
                &&& same_code(a, b) && same_stack(a, b) && same_ret(a, b) && same_ip(a, b)
                &&& same_dict(a, b) && same_out(a, b) && same_cm(a, b) && same_dead(a, b)
                &&& (r matches EvalResult::WordNotFound(w) && w@ == a.next_tok())
            },
        }
    } else if a.toks_exhausted() {
        b == a && r is EmptyToken
    } else {
        b == a && r is NeedChar
    }
}

pub fn get_addr(vm: &mut VM) -> (r: EvalResult)
    requires
        old(vm).wf(),
    ensures
        final(vm).wf(),
        get_addr_spec(*old(vm), *final(vm), r),
{
    let tok = vm.read_token();
    match tok {
        Some(tok) => {
            match vm.find_word(&tok) {
                Some(wid) => {
                    vm.stack.push(wid);
                    EvalResult::Nothing
                },
                None => EvalResult::WordNotFound(tok),
            }
        },
        None => {
            if vm.sources_done() {
                EvalResult::EmptyToken
            } else {
                EvalResult::NeedChar
            }
        },
    }
}

/// `getch` consumes the next raw character and pushes its code point.
/// It pushes the 0 sentinel only when every source has ended; with a
/// source still open but dry it reports `NeedChar`, changing nothing,
/// so the driver can ask for input and retry.
pub open spec fn getch_spec(a: VM, b: VM, r: EvalResult) -> bool {
    if a.char_avail() {
        &&& b.stack@ == a.stack@.push(a.next_char() as usize)
        &&& streams_after_char(a, b)
        &&& same_code(a, b) && same_ret(a, b) && same_ip(a, b) && same_dict(a, b)
        &&& same_out(a, b) && same_cm(a, b) && same_dead(a, b)
        &&& r is Nothing
    } else if a.chars_exhausted() {
        &&& b.stack@ == a.stack@.push(0usize)
        &&& same_streams(a, b)
        &&& same_code(a, b) && same_ret(a, b) && same_ip(a, b) && same_dict(a, b)
        &&& same_out(a, b) && same_cm(a, b) && same_dead(a, b)
        &&& r is Nothing
    } else {
        b == a && r is NeedChar
    }
}

/// `peekch` pushes the next raw character's code point without
/// consuming anything; the 0 sentinel and `NeedChar` as for `getch`.
pub open spec fn peekch_spec(a: VM, b: VM, r: EvalResult) -> bool {
    if a.char_avail() {
        &&& b.stack@ == a.stack@.push(a.next_char() as usize)
        &&& same_code(a, b) && same_ret(a, b) && same_ip(a, b) && same_dict(a, b)
        &&& same_streams(a, b) && same_out(a, b) && same_cm(a, b) && same_dead(a, b)
        &&& r is Nothing
    } else if a.chars_exhausted() {
        &&& b.stack@ == a.stack@.push(0usize)
        &&& same_code(a, b) && same_ret(a, b) && same_ip(a, b) && same_dict(a, b)
        &&& same_streams(a, b) && same_out(a, b) && same_cm(a, b) && same_dead(a, b)
        &&& r is Nothing
    } else {
        b == a && r is NeedChar
    }
}

impl VM {
    /// The behaviour of `getch`; relies on the machine's own character
    /// reader.
    pub fn read_char(vm: &mut VM) -> (r: EvalResult)
        requires
            old(vm).wf(),
        ensures
            final(vm).wf(),
            getch_spec(*old(vm), *final(vm), r),
    {
        match vm.read_stream_char() {
            Some(c) => {
                vm.stack.push(c as usize);
                EvalResult::Nothing
            },
            None => {
                if vm.chars_done() {
                    vm.stack.push(0);
                    EvalResult::Nothing
                } else {
                    EvalResult::NeedChar
                }
            },
        }
    }

    /// The behaviour of `peekch`.
    pub fn peek_char(vm: &mut VM) -> (r: EvalResult)
        requires
            old(vm).wf(),
        ensures
            final(vm).wf(),
            peekch_spec(*old(vm), *final(vm), r),
    {
        match vm.peek_stream_char() {
            Some(c) => {
                vm.stack.push(c as usize);
                EvalResult::Nothing
            },
            None => {
                if vm.chars_done() {
                    vm.stack.push(0);
                    EvalResult::Nothing
                } else {
                    EvalResult::NeedChar
                }
            },
        }
    }
}

/// `.s` prints the operand stack, bottom to top, between brackets.
pub open spec fn print_stack_spec(a: VM, b: VM, r: EvalResult) -> bool {
    &&& b.out@ == a.out@ + render::stack_text(a.stack@)
    &&& same_code(a, b) && same_stack(a, b) && same_ret(a, b) && same_ip(a, b)
    &&& same_dict(a, b) && same_streams(a, b) && same_cm(a, b) && same_dead(a, b)
    &&& r is Nothing
}

pub fn print_value_stack(vm: &mut VM) -> (r: EvalResult)
    requires
        old(vm).wf(),
    ensures
        final(vm).wf(),
        print_stack_spec(*old(vm), *final(vm), r),
{
    let ghost s = vm.stack@;
    vm.out.push('[');
    vm.out.push(' ');
    let mut i: usize = 0;
    while i < vm.stack.len()
        invariant
            old(vm).wf(),
            vm.wf(),
            0 <= i <= s.len(),
            s == vm.stack@,
            same_code(*old(vm), *vm) && same_stack(*old(vm), *vm) && same_ret(*old(vm), *vm),
            same_ip(*old(vm), *vm) && same_dict(*old(vm), *vm) && same_streams(*old(vm), *vm),
            same_cm(*old(vm), *vm) && same_dead(*old(vm), *vm),
            vm.out@ == old(vm).out@ + seq!['[', ' '] + render::vals_text(s.take(i as int)),
        decreases s.len() - i,
    {
        let v = vm.stack[i];
        render::push_num(&mut vm.out, v);
        vm.out.push(' ');
        proof {
            assert(s.take(i + 1).drop_last() =~= s.take(i as int));
            assert(s.take(i + 1).last() == s[i as int]);
            assert(vm.out@ =~= old(vm).out@ + seq!['[', ' '] + render::vals_text(s.take(i + 1)));
        }
        i = i + 1;
    }
    vm.out.push(']');
    vm.out.push('\n');
    proof {
        assert(s.take(s.len() as int) =~= s);
        assert(vm.out@ =~= old(vm).out@ + render::stack_text(s));
    }
    EvalResult::Nothing
}

/// `.r` prints the return-address stack, one line per entry: its
/// position and the name of the word the address originates from (or
/// the bare address, when it lies in no compiled body).
pub open spec fn print_ret_spec(a: VM, b: VM, r: EvalResult) -> bool {
    &&& b.out@ == a.out@ + render::rets_text(a.names(), a.i_2_w@, a.ret@)
    &&& same_code(a, b) && same_stack(a, b) && same_ret(a, b) && same_ip(a, b)
    &&& same_dict(a, b) && same_streams(a, b) && same_cm(a, b) && same_dead(a, b)
    &&& r is Nothing
}

pub fn print_return_stack(vm: &mut VM) -> (r: EvalResult)
    requires
        old(vm).wf(),
    ensures
        final(vm).wf(),
        print_ret_spec(*old(vm), *final(vm), r),
{
    let ghost rs = vm.ret@;
    let ghost ns = vm.names();
    let ghost ws = vm.i_2_w@;
    let mut i: usize = 0;
    while i < vm.ret.len()
        invariant
            old(vm).wf(),
            vm.wf(),
            0 <= i <= rs.len(),
            rs == vm.ret@,
            ns == vm.names(),
            ws == vm.i_2_w@,
            same_code(*old(vm), *vm) && same_stack(*old(vm), *vm) && same_ret(*old(vm), *vm),
            same_ip(*old(vm), *vm) && same_dict(*old(vm), *vm) && same_streams(*old(vm), *vm),
            same_cm(*old(vm), *vm) && same_dead(*old(vm), *vm),
            vm.out@ == old(vm).out@ + render::rets_text(ns, ws, rs.take(i as int)),
        decreases rs.len() - i,
    {
        let a = vm.ret[i];
        render::push_num(&mut vm.out, i);
        render::push_str_chars(&mut vm.out, " - ");
        let nw = vm.i_2_w.len();
        match vm.find_owner(a) {
            Some(w) => {
                proof {
                    crate::vm::lemma_owner_props(ws, a);
                    assert(0 <= crate::vm::owner_of(ws, a)->0 < nw);
                    assert(ns.len() == vm.i_2_n@.len());
                    assert(ns[w as int] =~= vm.i_2_n@[w as int]@);
                }
                push_tok_entry(vm, w);
            },
            None => {
                render::push_num(&mut vm.out, a);
            },
        }
        vm.out.push('\n');
        proof {
            assert(rs.take(i + 1).drop_last() =~= rs.take(i as int));
            assert(rs.take(i + 1).last() == rs[i as int]);
            assert(" - "@ =~= seq![' ', '-', ' ']) by {
                reveal_strlit(" - ");
            }
            assert(vm.out@ =~= old(vm).out@ + render::rets_text(ns, ws, rs.take(i + 1)));
        }
        i = i + 1;
    }
    proof {
        assert(rs.take(rs.len() as int) =~= rs);
    }
    EvalResult::Nothing
}

/// Append dictionary name `a` to the machine's output.
fn push_tok_entry(vm: &mut VM, a: usize)
    requires
        old(vm).wf(),
        a < old(vm).i_2_n@.len(),
    ensures
        final(vm).wf(),
        final(vm).out@ == old(vm).out@ + old(vm).i_2_n@[a as int]@,
        same_code(*old(vm), *final(vm)) && same_stack(*old(vm), *final(vm)),
        same_ret(*old(vm), *final(vm)) && same_ip(*old(vm), *final(vm)),
        same_dict(*old(vm), *final(vm)) && same_streams(*old(vm), *final(vm)),
        same_cm(*old(vm), *final(vm)) && same_dead(*old(vm), *final(vm)),
{
    let mut k: usize = 0;
    let n = vm.i_2_n[a].len();
    while k < n
        invariant
            old(vm).wf(),
            vm.wf(),
            a < vm.i_2_n@.len(),
            n == vm.i_2_n@[a as int]@.len(),
            0 <= k <= n,
            same_code(*old(vm), *vm) && same_stack(*old(vm), *vm) && same_ret(*old(vm), *vm),
            same_ip(*old(vm), *vm) && same_dict(*old(vm), *vm) && same_streams(*old(vm), *vm),
            same_cm(*old(vm), *vm) && same_dead(*old(vm), *vm),
            vm.i_2_n@ == old(vm).i_2_n@,
            vm.out@ == old(vm).out@ + vm.i_2_n@[a as int]@.take(k as int),
        decreases n - k,
    {
        let c = vm.i_2_n[a][k];
        vm.out.push(c);
        proof {
            assert(vm.out@ =~= old(vm).out@ + vm.i_2_n@[a as int]@.take(k + 1));
        }
        k = k + 1;
    }
    proof {
        assert(vm.i_2_n@[a as int]@.take(n as int) =~= vm.i_2_n@[a as int]@);
    }
}

/// The `op.lit op.call op.cond op.jmp` emitters pop the instruction's
/// operand and append the instruction; `op.ret` pops (and discards) an
/// operand and appends `Ret`.  An empty stack reports `StackUnderflow`
/// and appends nothing.
pub open spec fn emit_spec(a: VM, b: VM, r: EvalResult, ins: OpCode) -> bool {
    if a.stack@.len() == 0 {
        b == a && r is StackUnderflow
    } else {
        &&& b.stack@ == a.stack@.drop_last()
        &&& b.code@ == a.code@.push(ins)
        &&& same_ret(a, b) && same_ip(a, b) && same_dict(a, b) && same_streams(a, b)
        &&& same_out(a, b) && same_cm(a, b) && same_dead(a, b)
        &&& r is Nothing
    }
}

pub fn opcode_literal(vm: &mut VM) -> (r: EvalResult)
    requires
        old(vm).wf(),
    ensures
        final(vm).wf(),
        emit_spec(
            *old(vm),
            *final(vm),
            r,
            OpCode::PushUSize(old(vm).stack@.last()),
        ),
{
    if vm.stack.len() == 0 {
        return EvalResult::StackUnderflow;
    }
    let p = vm.stack.pop().unwrap();
    vm.code.push(OpCode::PushUSize(p));
    EvalResult::Nothing
}

pub fn opcode_call(vm: &mut VM) -> (r: EvalResult)
    requires
        old(vm).wf(),
    ensures
        final(vm).wf(),
        emit_spec(*old(vm), *final(vm), r, OpCode::Call(old(vm).stack@.last())),
{
    if vm.stack.len() == 0 {
        return EvalResult::StackUnderflow;
    }
    let p = vm.stack.pop().unwrap();
    vm.code.push(OpCode::Call(p));
    EvalResult::Nothing
}

pub fn opcode_cond(vm: &mut VM) -> (r: EvalResult)
    requires
        old(vm).wf(),
    ensures
        final(vm).wf(),
        emit_spec(*old(vm), *final(vm), r, OpCode::Cond(old(vm).stack@.last())),
{
    if vm.stack.len() == 0 {
        return EvalResult::StackUnderflow;
    }
    let p = vm.stack.pop().unwrap();
    vm.code.push(OpCode::Cond(p));
    EvalResult::Nothing
}

pub fn opcode_jmp(vm: &mut VM) -> (r: EvalResult)
    requires
        old(vm).wf(),
    ensures
        final(vm).wf(),
        emit_spec(*old(vm), *final(vm), r, OpCode::Jmp(old(vm).stack@.last())),
{
    if vm.stack.len() == 0 {
        return EvalResult::StackUnderflow;
    }
    let p = vm.stack.pop().unwrap();
    vm.code.push(OpCode::Jmp(p));
    EvalResult::Nothing
}

pub fn opcode_ret(vm: &mut VM) -> (r: EvalResult)
    requires
        old(vm).wf(),
    ensures
        final(vm).wf(),
        emit_spec(*old(vm), *final(vm), r, OpCode::Ret),
{
    if vm.stack.len() == 0 {
        return EvalResult::StackUnderflow;
    }
    let _p = vm.stack.pop().unwrap();
    vm.code.push(OpCode::Ret);
    EvalResult::Nothing
}

/// The arithmetic words pop `x` (the top), then `y`, and push `x OP y`:
/// the operand order mirrors the stack, not the source.  Fewer than two
/// values report `StackUnderflow` and change nothing; `/` and `%` with a
/// zero divisor report `DivisionByZero` and change nothing.  `+ - *`
/// wrap around the machine word.
pub open spec fn binop_pre(a: VM) -> bool {
    a.stack@.len() >= 2
}

pub open spec fn binop_x(a: VM) -> usize {
    a.stack@.last()
}

pub open spec fn binop_y(a: VM) -> usize {
    a.stack@[a.stack@.len() - 2]
}

/// The machine after a successful binary operation with result `v`.
pub open spec fn binop_post(a: VM, b: VM, r: EvalResult, v: usize) -> bool {
    &&& b.stack@ == a.stack@.take(a.stack@.len() - 2).push(v)
    &&& same_code(a, b) && same_ret(a, b) && same_ip(a, b) && same_dict(a, b)
    &&& same_streams(a, b) && same_out(a, b) && same_cm(a, b) && same_dead(a, b)
    &&& r is Nothing
}

pub open spec fn add_spec(a: VM, b: VM, r: EvalResult) -> bool {
    if !binop_pre(a) {
        b == a && r is StackUnderflow
    } else {
        binop_post(a, b, r, usize_specs::wrapping_add(binop_x(a), binop_y(a)))
    }
}

pub open spec fn sub_spec(a: VM, b: VM, r: EvalResult) -> bool {
    if !binop_pre(a) {
        b == a && r is StackUnderflow
    } else {
        binop_post(a, b, r, usize_specs::wrapping_sub(binop_x(a), binop_y(a)))
    }
}

pub open spec fn mul_spec(a: VM, b: VM, r: EvalResult) -> bool {
    if !binop_pre(a) {
        b == a && r is StackUnderflow
    } else {
        binop_post(a, b, r, usize_specs::wrapping_mul(binop_x(a), binop_y(a)))
    }
}

pub open spec fn div_spec(a: VM, b: VM, r: EvalResult) -> bool {
    if !binop_pre(a) {
        b == a && r is StackUnderflow
    } else if binop_y(a) == 0 {
        b == a && r is DivisionByZero
    } else {
        binop_post(a, b, r, (binop_x(a) as int / binop_y(a) as int) as usize)
    }
}

pub open spec fn mod_spec(a: VM, b: VM, r: EvalResult) -> bool {
    if !binop_pre(a) {
        b == a && r is StackUnderflow
    } else if binop_y(a) == 0 {
        b == a && r is DivisionByZero
    } else {
        binop_post(a, b, r, (binop_x(a) as int % binop_y(a) as int) as usize)
    }
}

pub fn add(vm: &mut VM) -> (r: EvalResult)
    requires
        old(vm).wf(),
    ensures
        final(vm).wf(),
        add_spec(*old(vm), *final(vm), r),
{
    if vm.stack.len() < 2 {
        return EvalResult::StackUnderflow;
    }
    let x = vm.stack.pop().unwrap();
    let y = vm.stack.pop().unwrap();
    vm.stack.push(x.wrapping_add(y));
    proof {
        assert(vm.stack@ =~= old(vm).stack@.take(old(vm).stack@.len() - 2).push(
            usize_specs::wrapping_add(x, y),
        ));
    }
    EvalResult::Nothing
}

pub fn sub(vm: &mut VM) -> (r: EvalResult)
    requires
        old(vm).wf(),
    ensures
        final(vm).wf(),
        sub_spec(*old(vm), *final(vm), r),
{
    if vm.stack.len() < 2 {
        return EvalResult::StackUnderflow;
    }
    let x = vm.stack.pop().unwrap();
    let y = vm.stack.pop().unwrap();
    vm.stack.push(x.wrapping_sub(y));
    proof {
        assert(vm.stack@ =~= old(vm).stack@.take(old(vm).stack@.len() - 2).push(
            usize_specs::wrapping_sub(x, y),
        ));
    }
    EvalResult::Nothing
}

pub fn mul(vm: &mut VM) -> (r: EvalResult)
    requires
        old(vm).wf(),
    ensures
        final(vm).wf(),
        mul_spec(*old(vm), *final(vm), r),
{
    if vm.stack.len() < 2 {
        return EvalResult::StackUnderflow;
    }
    let x = vm.stack.pop().unwrap();
    let y = vm.stack.pop().unwrap();
    vm.stack.push(x.wrapping_mul(y));
    proof {
        assert(vm.stack@ =~= old(vm).stack@.take(old(vm).stack@.len() - 2).push(
            usize_specs::wrapping_mul(x, y),
        ));
    }
    EvalResult::Nothing
}

pub fn div(vm: &mut VM) -> (r: EvalResult)
    requires
        old(vm).wf(),
    ensures
        final(vm).wf(),
        div_spec(*old(vm), *final(vm), r),
{
    if vm.stack.len() < 2 {
        return EvalResult::StackUnderflow;
    }
    let n = vm.stack.len();
    if vm.stack[n - 2] == 0 {
        return EvalResult::DivisionByZero;
    }
    let x = vm.stack.pop().unwrap();
    let y = vm.stack.pop().unwrap();
    vm.stack.push(x / y);
    proof {
        assert(vm.stack@ =~= old(vm).stack@.take(old(vm).stack@.len() - 2).push(
            ((x as int / y as int) as usize),
        ));
    }
    EvalResult::Nothing
}

pub fn modulo(vm: &mut VM) -> (r: EvalResult)
    requires
        old(vm).wf(),
    ensures
        final(vm).wf(),
        mod_spec(*old(vm), *final(vm), r),
{
    if vm.stack.len() < 2 {
        return EvalResult::StackUnderflow;
    }
    let n = vm.stack.len();
    if vm.stack[n - 2] == 0 {
        return EvalResult::DivisionByZero;
    }
    let x = vm.stack.pop().unwrap();
    let y = vm.stack.pop().unwrap();
    vm.stack.push(x % y);
    proof {
        assert(vm.stack@ =~= old(vm).stack@.take(old(vm).stack@.len() - 2).push(
            ((x as int % y as int) as usize),
        ));
    }
    EvalResult::Nothing
}

/// `ret` pops the return-address stack and jumps there; an empty stack
/// reports `ReturnStackUnderflow` and changes nothing.
pub open spec fn ret_spec(a: VM, b: VM, r: EvalResult) -> bool {
    if a.ret@.len() == 0 {
        b == a && r is ReturnStackUnderflow
    } else {
        &&& b.ret@ == a.ret@.drop_last()
        &&& b.ip == a.ret@.last()
        &&& same_code(a, b) && same_stack(a, b) && same_dict(a, b) && same_streams(a, b)
        &&& same_out(a, b) && same_cm(a, b) && same_dead(a, b)
        &&& r is Nothing
    }
}

pub fn ret(vm: &mut VM) -> (r: EvalResult)
    requires
        old(vm).wf(),
    ensures
        final(vm).wf(),
        ret_spec(*old(vm), *final(vm), r),
{
    if vm.ret.len() == 0 {
        return EvalResult::ReturnStackUnderflow;
    }
    let ip = vm.ret.pop().unwrap();
    vm.ip = ip;
    EvalResult::Nothing
}

/// How each catalog entry moves the machine: the dispatch table of the
/// built-in behaviours.
pub open spec fn native_spec(op: NativeOp, a: VM, b: VM, r: EvalResult) -> bool {
    match op {
        NativeOp::Quit => quit_spec(a, b, r),
        NativeOp::DefineWord => define_spec(a, b, r, false),
        NativeOp::DefineImmediate => define_spec(a, b, r, true),
        NativeOp::EndDef => eofn_spec(a, b, r),
        NativeOp::CmSet => cm_set_spec(a, b, r),
        NativeOp::CmGet => cm_get_spec(a, b, r),
        NativeOp::CmTrue => cm_flag_spec(a, b, r, true),
        NativeOp::CmFalse => cm_flag_spec(a, b, r, false),
        NativeOp::GetAddr => get_addr_spec(a, b, r),
        NativeOp::PrintStack => print_stack_spec(a, b, r),
        NativeOp::PrintRet => print_ret_spec(a, b, r),
        NativeOp::PeekCh => peekch_spec(a, b, r),
        NativeOp::GetCh => getch_spec(a, b, r),
        NativeOp::OpLit => emit_spec(a, b, r, OpCode::PushUSize(a.stack@.last())),
        NativeOp::OpCall => emit_spec(a, b, r, OpCode::Call(a.stack@.last())),
        NativeOp::OpCond => emit_spec(a, b, r, OpCode::Cond(a.stack@.last())),
        NativeOp::OpJmp => emit_spec(a, b, r, OpCode::Jmp(a.stack@.last())),
        NativeOp::OpRet => emit_spec(a, b, r, OpCode::Ret),
        NativeOp::Plus => add_spec(a, b, r),
        NativeOp::Minus => sub_spec(a, b, r),
        NativeOp::Times => mul_spec(a, b, r),
        NativeOp::Slash => div_spec(a, b, r),
        NativeOp::Percent => mod_spec(a, b, r),
    }
}

/// Run one built-in behaviour.
pub fn exec_native(vm: &mut VM, op: NativeOp) -> (r: EvalResult)
    requires
        old(vm).wf(),
    ensures
        final(vm).wf(),
        native_spec(op, *old(vm), *final(vm), r),
{
    match op {
        NativeOp::Quit => quit(vm),
        NativeOp::DefineWord => define_word(vm),
        NativeOp::DefineImmediate => define_immediate(vm),
        NativeOp::EndDef => eofn(vm),
        NativeOp::CmSet => cm_set(vm),
        NativeOp::CmGet => cm_get(vm),
        NativeOp::CmTrue => cm_set_true(vm),
        NativeOp::CmFalse => cm_set_false(vm),
        NativeOp::GetAddr => get_addr(vm),
        NativeOp::PrintStack => print_value_stack(vm),
        NativeOp::PrintRet => print_return_stack(vm),
        NativeOp::PeekCh => VM::peek_char(vm),
        NativeOp::GetCh => VM::read_char(vm),
        NativeOp::OpLit => opcode_literal(vm),
        NativeOp::OpCall => opcode_call(vm),
        NativeOp::OpCond => opcode_cond(vm),
        NativeOp::OpJmp => opcode_jmp(vm),
        NativeOp::OpRet => opcode_ret(vm),
        NativeOp::Plus => crate::forth_core::add(vm),
        NativeOp::Minus => crate::forth_core::sub(vm),
        NativeOp::Times => crate::forth_core::mul(vm),
        NativeOp::Slash => div(vm),
        NativeOp::Percent => modulo(vm),
    }
}

/// The names of the fixed catalog, in registration order.
pub open spec fn core_names() -> Seq<Seq<char>> {
    seq![
        "quit"@,
        ":"@,
        "!"@,
        ";"@,
        "cm.set"@,
        "cm.get"@,
        "cm.true"@,
        "cm.false"@,
        "@"@,
        ".s"@,
        ".r"@,
        "peekch"@,
        "getch"@,
        "op.lit"@,
        "op.call"@,
        "op.cond"@,
        "op.jmp"@,
        "op.ret"@,
        "+"@,
        "-"@,
        "*"@,
        "/"@,
        "%"@,
    ]
}

/// The words of the fixed catalog, in registration order: the definition
/// and mode words are macros (they must act even while compiling), the
/// rest are ordinary.
pub open spec fn core_words() -> Seq<Word> {
    seq![
        Word::Native { is_macro: true, op: NativeOp::Quit },
        Word::Native { is_macro: true, op: NativeOp::DefineWord },
        Word::Native { is_macro: true, op: NativeOp::DefineImmediate },
        Word::Native { is_macro: true, op: NativeOp::EndDef },
        Word::Native { is_macro: true, op: NativeOp::CmSet },
        Word::Native { is_macro: true, op: NativeOp::CmGet },
        Word::Native { is_macro: true, op: NativeOp::CmTrue },
        Word::Native { is_macro: true, op: NativeOp::CmFalse },
        Word::Native { is_macro: true, op: NativeOp::GetAddr },
        Word::Native { is_macro: false, op: NativeOp::PrintStack },
        Word::Native { is_macro: false, op: NativeOp::PrintRet },
        Word::Native { is_macro: false, op: NativeOp::PeekCh },
        Word::Native { is_macro: false, op: NativeOp::GetCh },
        Word::Native { is_macro: false, op: NativeOp::OpLit },
        Word::Native { is_macro: false, op: NativeOp::OpCall },
        Word::Native { is_macro: false, op: NativeOp::OpCond },
        Word::Native { is_macro: false, op: NativeOp::OpJmp },
        Word::Native { is_macro: false, op: NativeOp::OpRet },
        Word::Native { is_macro: false, op: NativeOp::Plus },
        Word::Native { is_macro: false, op: NativeOp::Minus },
        Word::Native { is_macro: false, op: NativeOp::Times },
        Word::Native { is_macro: false, op: NativeOp::Slash },
        Word::Native { is_macro: false, op: NativeOp::Percent },
    ]
}

/// Install the fixed catalog.  Entries are appended in a stable order,
/// so the identifiers they receive are deterministic across runs.
pub fn register(vm: &mut VM)
    requires
        old(vm).wf(),
    ensures
        final(vm).wf(),
        final(vm).i_2_w@ == old(vm).i_2_w@ + core_words(),
        final(vm).names() == old(vm).names() + core_names(),
        same_code(*old(vm), *final(vm)) && same_stack(*old(vm), *final(vm)),
        same_ret(*old(vm), *final(vm)) && same_ip(*old(vm), *final(vm)),
        same_streams(*old(vm), *final(vm)) && same_out(*old(vm), *final(vm)),
        same_cm(*old(vm), *final(vm)) && same_dead(*old(vm), *final(vm)),
{
    vm.register_native(render::str_chars("quit"), true, NativeOp::Quit);
    vm.register_native(render::str_chars(":"), true, NativeOp::DefineWord);
    vm.register_native(render::str_chars("!"), true, NativeOp::DefineImmediate);
    vm.register_native(render::str_chars(";"), true, NativeOp::EndDef);
    vm.register_native(render::str_chars("cm.set"), true, NativeOp::CmSet);
    vm.register_native(render::str_chars("cm.get"), true, NativeOp::CmGet);
    vm.register_native(render::str_chars("cm.true"), true, NativeOp::CmTrue);
    vm.register_native(render::str_chars("cm.false"), true, NativeOp::CmFalse);
    vm.register_native(render::str_chars("@"), true, NativeOp::GetAddr);
    vm.register_native(render::str_chars(".s"), false, NativeOp::PrintStack);
    vm.register_native(render::str_chars(".r"), false, NativeOp::PrintRet);
    vm.register_native(render::str_chars("peekch"), false, NativeOp::PeekCh);
    vm.register_native(render::str_chars("getch"), false, NativeOp::GetCh);
    vm.register_native(render::str_chars("op.lit"), false, NativeOp::OpLit);
    vm.register_native(render::str_chars("op.call"), false, NativeOp::OpCall);
    vm.register_native(render::str_chars("op.cond"), false, NativeOp::OpCond);
    vm.register_native(render::str_chars("op.jmp"), false, NativeOp::OpJmp);
    vm.register_native(render::str_chars("op.ret"), false, NativeOp::OpRet);
    vm.register_native(render::str_chars("+"), false, NativeOp::Plus);
    vm.register_native(render::str_chars("-"), false, NativeOp::Minus);
    vm.register_native(render::str_chars("*"), false, NativeOp::Times);
    vm.register_native(render::str_chars("/"), false, NativeOp::Slash);
    vm.register_native(render::str_chars("%"), false, NativeOp::Percent);
    proof {
        assert(vm.i_2_w@ =~= old(vm).i_2_w@ + core_words());
        assert(vm.names() =~~= old(vm).names() + core_names());
    }
}

/// No built-in behaviour moves the instruction pointer (only the engine
/// does, after the behaviour returns).
pub proof fn lemma_native_keeps_ip(op: NativeOp, a: VM, b: VM, r: EvalResult)
    requires
        native_spec(op, a, b, r),
    ensures
        same_ip(a, b),
{
}

} // verus!
