//! Properties of the machine that hold for every input, stated once and
//! proved from the resolver's and the natives' contracts.

use vstd::prelude::*;

use crate::forth_core::{add_spec, binop_x, binop_y, define_spec, emit_spec, native_spec};
use crate::tokens;
use crate::vm::{
    cmd_step, drive_chain, drive_step, lookup, read_rel, reported, resolve_spec, same_code,
    same_dict, same_ret, same_stack, step_spec, vm_same, EvalResult, NativeOp, OpCode, Word, VM,
    SENTINEL_RET,
};

verus! {

/// Resolving a valid unsigned integer token in immediate mode leaves
/// exactly its value on top of the operand stack and the instruction
/// store untouched; in compile mode it appends exactly one push-literal
/// instruction and leaves the operand stack untouched.
pub proof fn lemma_literal_resolution(a: VM, b: VM, t: Seq<char>, r: EvalResult)
    requires
        resolve_spec(a, b, t, r),
        tokens::is_literal(t),
    ensures
        !a.is_cm ==> b.stack@ == a.stack@.push(tokens::tok_num(t) as usize) && same_code(a, b),
        a.is_cm ==> b.code@ == a.code@.push(
            OpCode::PushUSize(tokens::tok_num(t) as usize),
        ) && same_stack(a, b),
        same_dict(a, b),
        r is Nothing,
{
}

/// Resolving a token that is neither a numeric literal nor a known word
/// reports `WordNotFound` with that token and leaves the machine — both
/// stacks, the instruction store, the dictionary, the sources — exactly
/// as it was.
pub proof fn lemma_unknown_token(a: VM, b: VM, t: Seq<char>, r: EvalResult)
    requires
        resolve_spec(a, b, t, r),
        !tokens::is_literal(t),
        lookup(a.names(), t) is None,
    ensures
        b == a,
        r matches EvalResult::WordNotFound(w) && w@ == t,
{
}

/// An instruction emitter run with an empty operand stack reports
/// `StackUnderflow` and appends no instruction; in particular `op.ret`
/// does.
pub proof fn lemma_emit_underflow(a: VM, b: VM, r: EvalResult, ins: OpCode)
    requires
        emit_spec(a, b, r, ins),
        a.stack@.len() == 0,
    ensures
        b == a,
        r is StackUnderflow,
{
}

/// A word whose macro flag is set is executed at resolution even while
/// the machine is compiling: a native behaves as its behaviour relation
/// says, and a compiled word is entered at once behind the sentinel
/// return address.  In neither case is a `Call` to it emitted.
pub proof fn lemma_macro_executes_now(a: VM, b: VM, t: Seq<char>, r: EvalResult, wid: int)
    requires
        resolve_spec(a, b, t, r),
        !tokens::is_literal(t),
        lookup(a.names(), t) == Some(wid),
        0 <= wid < a.i_2_w@.len(),
        match a.i_2_w@[wid] {
            Word::Native { is_macro, .. } => is_macro,
            Word::Interp { is_macro, .. } => is_macro,
        },
    ensures
        a.i_2_w@[wid] matches Word::Native { op, .. } ==> native_spec(op, a, b, r),
        a.i_2_w@[wid] matches Word::Interp { fip, .. } ==> b.ip == fip && b.ret@ == a.ret@.push(
            SENTINEL_RET,
        ) && same_code(a, b),
{
}

/// Redefining a name binds it to a fresh identifier, strictly greater
/// than any identifier the name resolved to before; the instruction
/// store and every existing dictionary entry stand untouched, so
/// instructions compiled before the redefinition still call the old
/// identifier's body.
pub proof fn lemma_redefinition(a: VM, b: VM, r: EvalResult, mac: bool)
    requires
        a.wf(),
        a.tok_avail(),
        define_spec(a, b, r, mac),
    ensures
        lookup(b.names(), a.next_tok()) == Some(a.names().len() as int),
        forall|i: int| lookup(a.names(), a.next_tok()) == Some(i) ==> i < a.names().len() as int,
        b.code@ == a.code@,
        forall|w: int| 0 <= w < a.i_2_w@.len() ==> b.i_2_w@[w] == a.i_2_w@[w],
{
    crate::vm::lemma_lookup_props(a.names(), a.next_tok());
    assert(b.names().last() == a.next_tok());
    assert(b.names().drop_last() =~= a.names());
}

/// With at least two values on the stack and a sum that fits the
/// machine word, `+` pops `x` (the top), then `y`, and pushes exactly
/// `x + y`; the instruction store, return stack and dictionary stand
/// untouched.  (On a larger sum the contract, like the machine word,
/// wraps.)
pub proof fn lemma_add_exact(a: VM, b: VM, r: EvalResult)
    requires
        add_spec(a, b, r),
        a.stack@.len() >= 2,
        binop_x(a) + binop_y(a) <= usize::MAX,
    ensures
        b.stack@ == a.stack@.take(a.stack@.len() - 2).push(
            ((binop_x(a) + binop_y(a)) as usize),
        ),
        same_code(a, b) && same_ret(a, b) && same_dict(a, b),
        r is Nothing,
{
}

/// No built-in behaviour disturbs an instruction already stored:
/// whatever it emits is appended at the end.
pub proof fn lemma_native_store_grows(op: NativeOp, a: VM, b: VM, r: EvalResult)
    requires
        native_spec(op, a, b, r),
    ensures
        a.code@.len() <= b.code@.len(),
        forall|i: int| 0 <= i < a.code@.len() ==> b.code@[i] == a.code@[i],
{
}

/// Nor does an engine step.
pub proof fn lemma_step_store_grows(a: VM, b: VM, r: EvalResult)
    requires
        step_spec(a, b, r),
    ensures
        a.code@.len() <= b.code@.len(),
        forall|i: int| 0 <= i < a.code@.len() ==> b.code@[i] == a.code@[i],
{
    if a.ip < a.code@.len() {
        match a.code@[a.ip as int] {
            OpCode::Call(w) => {
                if (w as int) < a.i_2_w@.len() {
                    match a.i_2_w@[w as int] {
                        Word::Native { is_macro: _, op } => {
                            lemma_native_store_grows(op, a, VM { ip: a.ip, ..b }, r);
                        },
                        _ => {},
                    }
                }
            },
            _ => {},
        }
    }
}

/// Nor does resolving a token.
pub proof fn lemma_resolve_store_grows(a: VM, b: VM, t: Seq<char>, r: EvalResult)
    requires
        resolve_spec(a, b, t, r),
    ensures
        a.code@.len() <= b.code@.len(),
        forall|i: int| 0 <= i < a.code@.len() ==> b.code@[i] == a.code@[i],
{
    if !tokens::is_literal(t) {
        match lookup(a.names(), t) {
            Some(wid) => {
                match a.i_2_w@[wid] {
                    Word::Native { is_macro, op } => {
                        if is_macro || !a.is_cm {
                            lemma_native_store_grows(op, a, b, r);
                        }
                    },
                    _ => {},
                }
            },
            _ => {},
        }
    }
}

/// The instruction store is append-only under the driver: across any
/// run of commands and engine steps — in particular across a macro
/// word's immediate execution while an outer definition is open —
/// every instruction already stored, the macro's own compiled body
/// included, is unchanged, and everything the run emits is appended
/// after it, at the end of the open definition.
pub proof fn lemma_store_append_only(a: VM, b: VM, n: nat)
    requires
        drive_chain(a, b, n),
    ensures
        a.code@.len() <= b.code@.len(),
        forall|i: int| 0 <= i < a.code@.len() ==> b.code@[i] == a.code@[i],
    decreases n,
{
    if n > 0 {
        let mid = choose|mid: VM|
            drive_chain(a, mid, (n - 1) as nat) && #[trigger] drive_step(mid, b);
        lemma_store_append_only(a, mid, (n - 1) as nat);
        if cmd_step(mid, b) {
            let (m1, m2, e) = choose|m1: VM, m2: VM, e: EvalResult|
                {
                    &&& read_rel(mid, m1)
                    &&& #[trigger] resolve_spec(m1, m2, mid.next_tok(), e)
                    &&& !(e is NeedChar)
                    &&& if e is Nothing {
                        vm_same(m2, b)
                    } else {
                        reported(m2, b, e)
                    }
                };
            lemma_resolve_store_grows(m1, m2, mid.next_tok(), e);
            assert forall|i: int| 0 <= i < a.code@.len() implies b.code@[i] == a.code@[i] by {
                assert(mid.code@[i] == a.code@[i]);
                assert(m2.code@[i] == m1.code@[i]);
            }
        } else {
            let (m1, e) = choose|m1: VM, e: EvalResult|
                {
                    &&& #[trigger] step_spec(mid, m1, e)
                    &&& !(e is NeedChar)
                    &&& if e is Nothing {
                        vm_same(m1, b)
                    } else {
                        &&& b.out@ == m1.out@ + crate::render::err_text(e)
                        &&& b.ret@ == Seq::<usize>::empty()
                        &&& crate::vm::same_code(m1, b) && crate::vm::same_stack(m1, b)
                        &&& crate::vm::same_ip(m1, b) && crate::vm::same_dict(m1, b)
                        &&& crate::vm::same_streams(m1, b) && crate::vm::same_cm(m1, b)
                        &&& crate::vm::same_dead(m1, b)
                    }
                };
            lemma_step_store_grows(mid, m1, e);
            assert forall|i: int| 0 <= i < a.code@.len() implies b.code@[i] == a.code@[i] by {
                assert(mid.code@[i] == a.code@[i]);
                assert(m1.code@[i] == mid.code@[i]);
            }
        }
    }
}

} // verus!
