//! The word reader's mathematics: whitespace-delimited tokens and the
//! reading of unsigned decimal literals.
//!
//! A token is a maximal run of non-whitespace characters.  A reader scans
//! the characters still buffered in a [`StreamReader`]; a token is complete
//! once a whitespace character follows it, or once the source has ended.

use vstd::prelude::*;

use crate::stream::StreamReader;

verus! {

/// The token separators: space, newline and tab.
pub open spec fn is_ws(c: char) -> bool {
    c == ' ' || c == '\n' || c == '\t'
}

/// Length of the maximal whitespace prefix of `s`.
pub open spec fn ws_len(s: Seq<char>) -> int
    decreases s.len(),
{
    if s.len() == 0 {
        0
    } else if is_ws(s[0]) {
        1 + ws_len(s.skip(1))
    } else {
        0
    }
}

/// Length of the maximal non-whitespace prefix of `s`.
pub open spec fn word_len(s: Seq<char>) -> int
    decreases s.len(),
{
    if s.len() == 0 {
        0
    } else if !is_ws(s[0]) {
        1 + word_len(s.skip(1))
    } else {
        0
    }
}

/// A run of `k` whitespace characters followed by the end or a
/// non-whitespace character pins `ws_len` down to `k`.
pub proof fn lemma_ws_len_is(s: Seq<char>, k: int)
    requires
        0 <= k <= s.len(),
        forall|i: int| 0 <= i < k ==> is_ws(#[trigger] s[i]),
        k < s.len() ==> !is_ws(s[k]),
    ensures
        ws_len(s) == k,
    decreases s.len(),
{
    if s.len() != 0 && is_ws(s[0]) {
        assert forall|i: int| 0 <= i < k - 1 implies is_ws(#[trigger] s.skip(1)[i]) by {
            assert(s.skip(1)[i] == s[i + 1]);
        }
        if k - 1 < s.skip(1).len() {
            assert(s.skip(1)[k - 1] == s[k]);
        }
        lemma_ws_len_is(s.skip(1), k - 1);
    }
}

/// A run of `k` non-whitespace characters followed by the end or a
/// whitespace character pins `word_len` down to `k`.
pub proof fn lemma_word_len_is(s: Seq<char>, k: int)
    requires
        0 <= k <= s.len(),
        forall|i: int| 0 <= i < k ==> !is_ws(#[trigger] s[i]),
        k < s.len() ==> is_ws(s[k]),
    ensures
        word_len(s) == k,
    decreases s.len(),
{
    if s.len() != 0 && !is_ws(s[0]) {
        assert forall|i: int| 0 <= i < k - 1 implies !is_ws(#[trigger] s.skip(1)[i]) by {
            assert(s.skip(1)[i] == s[i + 1]);
        }
        if k - 1 < s.skip(1).len() {
            assert(s.skip(1)[k - 1] == s[k]);
        }
        lemma_word_len_is(s.skip(1), k - 1);
    }
}

/// The unconsumed characters of `r` past their leading whitespace.
pub open spec fn after_ws(r: StreamReader) -> Seq<char> {
    r.rem().skip(ws_len(r.rem()))
}

/// A complete token is buffered in `r`: some non-whitespace character
/// follows the leading whitespace, and either a separator follows the
/// token or the source has ended (so the token cannot grow any more).
pub open spec fn has_tok(r: StreamReader) -> bool {
    after_ws(r).len() > 0 && (word_len(after_ws(r)) < after_ws(r).len() || r.eos)
}

/// The token buffered in `r` (meaningful when `has_tok(r)`).
pub open spec fn tok_of(r: StreamReader) -> Seq<char> {
    after_ws(r).take(word_len(after_ws(r)))
}

/// How many characters reading that token consumes: the whitespace, the
/// token itself, and the separator when one follows.
pub open spec fn tok_used(r: StreamReader) -> int {
    ws_len(r.rem()) + word_len(after_ws(r)) + if word_len(after_ws(r)) < after_ws(r).len() {
        1int
    } else {
        0int
    }
}

/// `r` will never yield another token: the source has ended and only
/// whitespace (or nothing) is left.
pub open spec fn spent(r: StreamReader) -> bool {
    r.eos && after_ws(r).len() == 0
}

pub fn ws_char(c: char) -> (r: bool)
    ensures
        r == is_ws(c),
{
    c == ' ' || c == '\n' || c == '\t'
}

/// Scan the reader for one complete token, consuming nothing.  Returns
/// the token together with the cursor position just past it (and past
/// its separator, when one follows).
pub fn scan_tok(sr: &StreamReader) -> (r: Option<(Vec<char>, usize)>)
    requires
        sr.wf(),
    ensures
        match r {
            Some(p) => has_tok(*sr) && p.0@ == tok_of(*sr) && p.1 == sr.offset + tok_used(*sr)
                && p.1 <= sr.buff@.len(),
            None => !has_tok(*sr),
        },
{
    let slen = sr.buff.len();
    let off = sr.offset;
    let mut p = off;
    while p < slen
        invariant
            slen == sr.buff@.len(),
            off <= p <= slen,
            forall|i: int| off <= i < p ==> is_ws(#[trigger] sr.buff@[i]),
        ensures
            off <= p <= slen,
            forall|i: int| off <= i < p ==> is_ws(#[trigger] sr.buff@[i]),
            p < slen ==> !is_ws(sr.buff@[p as int]),
        decreases slen - p,
    {
        if !ws_char(sr.buff[p]) {
            break;
        }
        p = p + 1;
    }
    proof {
        assert forall|i: int| 0 <= i < p - off implies is_ws(#[trigger] sr.rem()[i]) by {
            assert(sr.rem()[i] == sr.buff@[i + off]);
        }
        if p < slen {
            assert(sr.rem()[p - off] == sr.buff@[p as int]);
        }
        lemma_ws_len_is(sr.rem(), p - off);
        assert(after_ws(*sr) =~= sr.buff@.skip(p as int));
    }
    if p == slen {
        return None;
    }
    let mut q = p;
    while q < slen
        invariant
            slen == sr.buff@.len(),
            p <= q <= slen,
            forall|i: int| p <= i < q ==> !is_ws(#[trigger] sr.buff@[i]),
        ensures
            p <= q <= slen,
            forall|i: int| p <= i < q ==> !is_ws(#[trigger] sr.buff@[i]),
            q < slen ==> is_ws(sr.buff@[q as int]),
        decreases slen - q,
    {
        if ws_char(sr.buff[q]) {
            break;
        }
        q = q + 1;
    }
    proof {
        assert forall|i: int| 0 <= i < q - p implies !is_ws(#[trigger] after_ws(*sr)[i]) by {
            assert(after_ws(*sr)[i] == sr.buff@[i + p]);
        }
        if q < slen {
            assert(after_ws(*sr)[q - p] == sr.buff@[q as int]);
        }
        lemma_word_len_is(after_ws(*sr), q - p);
    }
    if q == slen && !sr.eos {
        return None;
    }
    let mut tok: Vec<char> = Vec::new();
    let mut x = p;
    while x < q
        invariant
            p <= x <= q,
            q <= sr.buff@.len(),
            tok@ == sr.buff@.subrange(p as int, x as int),
        decreases q - x,
    {
        tok.push(sr.buff[x]);
        proof {
            assert(tok@ =~= sr.buff@.subrange(p as int, x + 1));
        }
        x = x + 1;
    }
    proof {
        assert(tok@ =~= tok_of(*sr));
    }
    let newoff = if q < slen {
        q + 1
    } else {
        q
    };
    Some((tok, newoff))
}

/// Whether the reader will never yield another token.
pub fn stream_spent(sr: &StreamReader) -> (r: bool)
    requires
        sr.wf(),
    ensures
        r == spent(*sr),
{
    if !sr.is_eos() {
        return false;
    }
    let slen = sr.buff.len();
    let off = sr.offset;
    let mut p = off;
    while p < slen
        invariant
            slen == sr.buff@.len(),
            off <= p <= slen,
            forall|i: int| off <= i < p ==> is_ws(#[trigger] sr.buff@[i]),
        ensures
            off <= p <= slen,
            forall|i: int| off <= i < p ==> is_ws(#[trigger] sr.buff@[i]),
            p < slen ==> !is_ws(sr.buff@[p as int]),
        decreases slen - p,
    {
        if !ws_char(sr.buff[p]) {
            break;
        }
        p = p + 1;
    }
    proof {
        assert forall|i: int| 0 <= i < p - off implies is_ws(#[trigger] sr.rem()[i]) by {
            assert(sr.rem()[i] == sr.buff@[i + off]);
        }
        if p < slen {
            assert(sr.rem()[p - off] == sr.buff@[p as int]);
        }
        lemma_ws_len_is(sr.rem(), p - off);
        assert(after_ws(*sr) =~= sr.buff@.skip(p as int));
    }
    p == slen
}

/// A decimal digit.
pub open spec fn is_digit(c: char) -> bool {
    '0' <= c && c <= '9'
}

pub open spec fn all_digits(t: Seq<char>) -> bool {
    forall|i: int| 0 <= i < t.len() ==> is_digit(#[trigger] t[i])
}

pub open spec fn digit_val(c: char) -> int {
    c as int - '0' as int
}

/// The value of a string of decimal digits, most significant first.
pub open spec fn tok_num(t: Seq<char>) -> int
    decreases t.len(),
{
    if t.len() == 0 {
        0
    } else {
        tok_num(t.drop_last()) * 10 + digit_val(t.last())
    }
}

/// A token resolves as a numeric literal exactly when it is a nonempty
/// string of digits whose value fits the machine word.
pub open spec fn is_literal(t: Seq<char>) -> bool {
    t.len() > 0 && all_digits(t) && tok_num(t) <= usize::MAX
}

pub proof fn lemma_tok_num_nonneg(t: Seq<char>)
    requires
        all_digits(t),
    ensures
        tok_num(t) >= 0,
    decreases t.len(),
{
    if t.len() > 0 {
        assert(all_digits(t.drop_last())) by {
            assert(forall|i: int| 0 <= i < t.len() - 1 ==> is_digit(#[trigger] t[i]));
        }
        lemma_tok_num_nonneg(t.drop_last());
    }
}

/// A prefix of a digit string is worth no more than the whole string.
pub proof fn lemma_tok_num_prefix(t: Seq<char>, i: int)
    requires
        all_digits(t),
        0 <= i <= t.len(),
    ensures
        tok_num(t.take(i)) <= tok_num(t),
    decreases t.len() - i,
{
    if i < t.len() {
        let u = t.take(i + 1);
        assert(u.drop_last() =~= t.take(i));
        assert(all_digits(t.take(i)));
        lemma_tok_num_nonneg(t.take(i));
        assert(tok_num(u) == tok_num(t.take(i)) * 10 + digit_val(t[i]));
        assert(tok_num(t.take(i)) <= tok_num(u));
        lemma_tok_num_prefix(t, i + 1);
        assert(t.take(t.len() as int) =~= t);
    } else {
        assert(t.take(i) =~= t);
    }
}

/// Read an unsigned decimal literal.  Returns its value exactly when the
/// token is a nonempty digit string whose value fits a `usize`.
pub fn parse_literal(tok: &Vec<char>) -> (r: Option<usize>)
    ensures
        is_literal(tok@) ==> r == Some((tok_num(tok@) as usize)),
        !is_literal(tok@) ==> r is None,
{
    if tok.len() == 0 {
        return None;
    }
    let mut v: u128 = 0;
    let mut i: usize = 0;
    while i < tok.len()
        invariant
            0 <= i <= tok@.len(),
            all_digits(tok@.take(i as int)),
            v as int == tok_num(tok@.take(i as int)),
            v <= usize::MAX as u128,
        decreases tok@.len() - i,
    {
        let c = tok[i];
        if c < '0' || c > '9' {
            assert(!all_digits(tok@));
            return None;
        }
        let d = (c as u32 - '0' as u32) as u128;
        proof {
            assert(tok@.take(i + 1).drop_last() =~= tok@.take(i as int));
            assert(tok@.take(i + 1).last() == tok@[i as int]);
        }
        v = v * 10 + d;
        if v > usize::MAX as u128 {
            proof {
                if all_digits(tok@) {
                    lemma_tok_num_prefix(tok@, i + 1);
                }
            }
            return None;
        }
        i = i + 1;
    }
    proof {
        assert(tok@.take(i as int) =~= tok@);
    }
    Some(v as usize)
}

} // verus!
