//! What the machine prints: decimal numbers, the operand stack, the
//! return-address stack, and error reports.  Everything is appended to a
//! character buffer; a host decides where the characters go.

use vstd::prelude::*;
use vstd::string::*;

use crate::vm::{owner_of, EvalResult, Word};

verus! {

/// The character of one decimal digit.
pub open spec fn digit_char(d: int) -> char {
    if d == 0 {
        '0'
    } else if d == 1 {
        '1'
    } else if d == 2 {
        '2'
    } else if d == 3 {
        '3'
    } else if d == 4 {
        '4'
    } else if d == 5 {
        '5'
    } else if d == 6 {
        '6'
    } else if d == 7 {
        '7'
    } else if d == 8 {
        '8'
    } else {
        '9'
    }
}

/// The decimal text of `n`, most significant digit first.
pub open spec fn dec_rep(n: int) -> Seq<char>
    decreases n,
{
    if n < 10 {
        seq![digit_char(n)]
    } else {
        dec_rep(n / 10).push(digit_char(n % 10))
    }
}

/// The text `.s` prints: the operand stack bottom-to-top between
/// brackets, each value followed by a space.
pub open spec fn vals_text(s: Seq<usize>) -> Seq<char>
    decreases s.len(),
{
    if s.len() == 0 {
        Seq::empty()
    } else {
        vals_text(s.drop_last()) + dec_rep(s.last() as int) + seq![' ']
    }
}

pub open spec fn stack_text(s: Seq<usize>) -> Seq<char> {
    seq!['[', ' '] + vals_text(s) + seq![']', '\n']
}

/// One line of `.r`'s output: the entry's position, then the name of
/// the word the return address originates from, or the bare address
/// when it lies in no compiled body.
pub open spec fn ret_entry_text(ns: Seq<Seq<char>>, ws: Seq<Word>, i: int, r: usize) -> Seq<
    char,
> {
    dec_rep(i) + seq![' ', '-', ' '] + (match owner_of(ws, r) {
        Some(w) => if 0 <= w < ns.len() {
            ns[w]
        } else {
            dec_rep(r as int)
        },
        None => dec_rep(r as int),
    }) + seq!['\n']
}

/// The text `.r` prints: one line per return-stack entry, bottom first.
pub open spec fn rets_text(ns: Seq<Seq<char>>, ws: Seq<Word>, rs: Seq<usize>) -> Seq<char>
    decreases rs.len(),
{
    if rs.len() == 0 {
        Seq::empty()
    } else {
        rets_text(ns, ws, rs.drop_last()) + ret_entry_text(ns, ws, rs.len() - 1, rs.last())
    }
}

/// The report the driver prints for each outcome.
pub open spec fn err_text(e: EvalResult) -> Seq<char> {
    match e {
        EvalResult::Nothing => Seq::empty(),
        EvalResult::NeedChar => Seq::empty(),
        EvalResult::StackUnderflow => "Error: Stack underflow\n"@,
        EvalResult::ReturnStackUnderflow => "Error: return stack underflow\n"@,
        EvalResult::WordNotFound(w) => "Error: Word "@ + w@ + " not found!\n"@,
        EvalResult::EmptyToken => "Error: empty token\n"@,
        EvalResult::DivisionByZero => "Error: division by zero\n"@,
        EvalResult::BadAddress => "Error: instruction address out of range\n"@,
    }
}

pub fn digit_char_of(d: usize) -> (c: char)
    requires
        d < 10,
    ensures
        c == digit_char(d as int),
{
    if d == 0 {
        '0'
    } else if d == 1 {
        '1'
    } else if d == 2 {
        '2'
    } else if d == 3 {
        '3'
    } else if d == 4 {
        '4'
    } else if d == 5 {
        '5'
    } else if d == 6 {
        '6'
    } else if d == 7 {
        '7'
    } else if d == 8 {
        '8'
    } else {
        '9'
    }
}

/// Append the decimal text of `n`.
pub fn push_num(out: &mut Vec<char>, n: usize)
    ensures
        final(out)@ == old(out)@ + dec_rep(n as int),
    decreases n,
{
    if n >= 10 {
        push_num(out, n / 10);
        out.push(digit_char_of(n % 10));
        proof {
            assert(out@ =~= old(out)@ + dec_rep(n as int));
        }
    } else {
        out.push(digit_char_of(n));
        proof {
            assert(out@ =~= old(out)@ + dec_rep(n as int));
        }
    }
}

/// Append every character of a string slice.
pub fn push_str_chars(out: &mut Vec<char>, s: &str)
    ensures
        final(out)@ == old(out)@ + s@,
{
    let n = s.unicode_len();
    let mut i: usize = 0;
    while i < n
        invariant
            0 <= i <= n,
            n == s@.len(),
            out@ == old(out)@ + s@.take(i as int),
        decreases n - i,
    {
        out.push(s.get_char(i));
        proof {
            assert(out@ =~= old(out)@ + s@.take(i + 1));
        }
        i = i + 1;
    }
    proof {
        assert(s@.take(n as int) =~= s@);
    }
}

/// Append every character of a token.
pub fn push_tok_chars(out: &mut Vec<char>, t: &Vec<char>)
    ensures
        final(out)@ == old(out)@ + t@,
{
    out.extend_from_slice(t.as_slice());
}

/// The characters of a string slice as a vector.
pub fn str_chars(s: &str) -> (r: Vec<char>)
    ensures
        r@ == s@,
{
    let mut r: Vec<char> = Vec::new();
    push_str_chars(&mut r, s);
    proof {
        assert(r@ =~= s@);
    }
    r
}

/// Append the report for one outcome.
pub fn report(out: &mut Vec<char>, e: &EvalResult)
    ensures
        final(out)@ == old(out)@ + err_text(*e),
{
    match e {
        EvalResult::Nothing => {
            proof {
                assert(out@ =~= old(out)@ + err_text(*e));
            }
        },
        EvalResult::NeedChar => {
            proof {
                assert(out@ =~= old(out)@ + err_text(*e));
            }
        },
        EvalResult::StackUnderflow => {
            push_str_chars(out, "Error: Stack underflow\n");
        },
        EvalResult::ReturnStackUnderflow => {
            push_str_chars(out, "Error: return stack underflow\n");
        },
        EvalResult::WordNotFound(w) => {
            push_str_chars(out, "Error: Word ");
            push_tok_chars(out, w);
            push_str_chars(out, " not found!\n");
            proof {
                assert(out@ =~= old(out)@ + err_text(*e));
            }
        },
        EvalResult::EmptyToken => {
            push_str_chars(out, "Error: empty token\n");
        },
        EvalResult::DivisionByZero => {
            push_str_chars(out, "Error: division by zero\n");
        },
        EvalResult::BadAddress => {
            push_str_chars(out, "Error: instruction address out of range\n");
        },
    }
}

} // verus!
