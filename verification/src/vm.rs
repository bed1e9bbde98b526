//! The machine itself: instruction set, word dictionary, operand and
//! return-address stacks, token reader and mode-sensitive resolver.

use vstd::prelude::*;

use crate::stream::StreamReader;
use crate::tokens;

verus! {

/// The outcome of resolving one token or executing one instruction.
/// `Nothing` means the step succeeded and has nothing to report.
/// `NeedChar` is no error: a character-reading word found a source open
/// but dry, the machine is unchanged, and the driver should ask for
/// more input and retry.
#[derive(Debug, PartialEq, Eq)]
pub enum EvalResult {
    Nothing,
    StackUnderflow,
    ReturnStackUnderflow,
    WordNotFound(Vec<char>),
    EmptyToken,
    DivisionByZero,
    BadAddress,
    NeedChar,
}

/// One instruction of the threaded code.
#[derive(Clone, Copy, Debug, PartialEq, Eq, Structural)]
pub enum OpCode {
    PushUSize(usize),
    Jmp(usize),
    Call(usize),
    /// Jump when the popped top of the stack is nonzero.
    Cond(usize),
    Ret,
}

/// The catalog of built-in behaviours.  A native word's behaviour is one
/// of these tags, dispatched by the execution engine.
#[derive(Clone, Copy, Debug, PartialEq, Eq, Structural)]
pub enum NativeOp {
    Quit,
    DefineWord,
    DefineImmediate,
    EndDef,
    CmSet,
    CmGet,
    CmTrue,
    CmFalse,
    GetAddr,
    PrintStack,
    PrintRet,
    PeekCh,
    GetCh,
    OpLit,
    OpCall,
    OpCond,
    OpJmp,
    OpRet,
    Plus,
    Minus,
    Times,
    Slash,
    Percent,
}

/// A dictionary entry: a built-in behaviour or a compiled body, each with
/// the flag that forces immediate execution while compiling.
#[derive(Clone, Copy, Debug, PartialEq, Eq, Structural)]
pub enum Word {
    Native { is_macro: bool, op: NativeOp },
    Interp { is_macro: bool, fip: usize },
}

/// The sentinel return address pushed before a word is entered from the
/// top level; when its `Ret` pops it the return stack is empty again and
/// the run loop stops.
pub const SENTINEL_RET: usize = 0;

pub struct VM {
    /// Instruction pointer.
    pub ip: usize,
    /// The instruction store: one append-only sequence shared by all
    /// compiled word bodies.
    pub code: Vec<OpCode>,
    /// Operand stack.
    pub stack: Vec<usize>,
    /// Return-address stack.
    pub ret: Vec<usize>,
    /// Identifier-to-word table; identifiers are dense and never reused.
    pub i_2_w: Vec<Word>,
    /// Identifier-to-name table, parallel to `i_2_w`.
    pub i_2_n: Vec<Vec<char>>,
    /// Compile mode: when set, resolved literals and non-macro words are
    /// emitted as instructions instead of being executed.
    pub is_cm: bool,
    /// The character sources, in the order they are consumed.
    pub streams: Vec<StreamReader>,
    /// Index of the source currently being read.
    pub curr_sr: usize,
    /// Cleared liveness: the top-level driver stops once this is set.
    pub dead: bool,
    /// Everything the machine has printed.
    pub out: Vec<char>,
}

impl VM {
    /// The structural invariant: the two dictionary tables run in
    /// parallel, the source index never runs past the sources, and every
    /// source is well formed.
    pub open spec fn wf(self) -> bool {
        &&& self.i_2_w@.len() == self.i_2_n@.len()
        &&& self.curr_sr <= self.streams@.len()
        &&& forall|i: int| 0 <= i < self.streams@.len() ==> (#[trigger] self.streams@[i]).wf()
    }

    /// The dictionary's names as mathematical sequences.
    pub open spec fn names(self) -> Seq<Seq<char>> {
        self.i_2_n.deep_view()
    }
}

/// The identifier a name resolves to: the last entry with that name, so a
/// redefinition shadows older identifiers without disturbing them.
pub open spec fn lookup(names: Seq<Seq<char>>, t: Seq<char>) -> Option<int>
    decreases names.len(),
{
    if names.len() == 0 {
        None
    } else if names.last() == t {
        Some(names.len() - 1)
    } else {
        lookup(names.drop_last(), t)
    }
}

pub proof fn lemma_lookup_props(names: Seq<Seq<char>>, t: Seq<char>)
    ensures
        lookup(names, t) matches Some(i) ==> 0 <= i < names.len() && names[i] == t,
        lookup(names, t) is None ==> forall|i: int| 0 <= i < names.len() ==> names[i] != t,
    decreases names.len(),
{
    if names.len() > 0 && names.last() != t {
        lemma_lookup_props(names.drop_last(), t);
        if lookup(names, t) is None {
            assert forall|i: int| 0 <= i < names.len() implies names[i] != t by {
                if i < names.len() - 1 {
                    assert(names.drop_last()[i] == names[i]);
                }
            }
        }
    }
}

/// The word an instruction address originates from: the most recently
/// defined compiled word whose body starts at or before the address
/// (bodies are appended to the store in definition order, so this is
/// the body the address lies in).
pub open spec fn owner_of(ws: Seq<Word>, addr: usize) -> Option<int>
    decreases ws.len(),
{
    if ws.len() == 0 {
        None
    } else {
        match ws.last() {
            Word::Interp { is_macro: _, fip } => if fip <= addr {
                Some(ws.len() - 1)
            } else {
                owner_of(ws.drop_last(), addr)
            },
            Word::Native { .. } => owner_of(ws.drop_last(), addr),
        }
    }
}

pub proof fn lemma_owner_props(ws: Seq<Word>, addr: usize)
    ensures
        owner_of(ws, addr) matches Some(i) ==> 0 <= i < ws.len(),
    decreases ws.len(),
{
    if ws.len() > 0 {
        lemma_owner_props(ws.drop_last(), addr);
    }
}

/// Two source lists agree as values.
pub open spec fn streams_eq(a: Seq<StreamReader>, b: Seq<StreamReader>) -> bool {
    &&& a.len() == b.len()
    &&& forall|i: int| 0 <= i < a.len() ==> StreamReader::model_eq(#[trigger] a[i], b[i])
}

/// `b` is `a` with source `j`'s cursor moved to `newoff`.
pub open spec fn streams_advanced(
    a: Seq<StreamReader>,
    b: Seq<StreamReader>,
    j: int,
    newoff: int,
) -> bool {
    &&& a.len() == b.len()
    &&& 0 <= j < a.len()
    &&& forall|i: int| 0 <= i < a.len() && i != j ==> StreamReader::model_eq(#[trigger] a[i], b[i])
    &&& b[j].buff@ == a[j].buff@
    &&& b[j].eos == a[j].eos
    &&& b[j].offset == newoff
}

// Frame predicates: which parts of the machine two states share.
pub open spec fn same_code(a: VM, b: VM) -> bool {
    a.code@ == b.code@
}

pub open spec fn same_stack(a: VM, b: VM) -> bool {
    a.stack@ == b.stack@
}

pub open spec fn same_ret(a: VM, b: VM) -> bool {
    a.ret@ == b.ret@
}

pub open spec fn same_ip(a: VM, b: VM) -> bool {
    a.ip == b.ip
}

pub open spec fn same_dict(a: VM, b: VM) -> bool {
    a.i_2_w@ == b.i_2_w@ && a.names() == b.names()
}

pub open spec fn same_streams(a: VM, b: VM) -> bool {
    streams_eq(a.streams@, b.streams@) && a.curr_sr == b.curr_sr
}

pub open spec fn same_out(a: VM, b: VM) -> bool {
    a.out@ == b.out@
}

pub open spec fn same_cm(a: VM, b: VM) -> bool {
    a.is_cm == b.is_cm
}

pub open spec fn same_dead(a: VM, b: VM) -> bool {
    a.dead == b.dead
}

/// The two machine states agree part for part (as models; the backing
/// allocations may differ).
pub open spec fn vm_same(a: VM, b: VM) -> bool {
    &&& same_code(a, b)
    &&& same_stack(a, b)
    &&& same_ret(a, b)
    &&& same_ip(a, b)
    &&& same_dict(a, b)
    &&& same_streams(a, b)
    &&& same_out(a, b)
    &&& same_cm(a, b)
    &&& same_dead(a, b)
}

// The token reader, over the list of sources: sources that will never
// yield another token are skipped; a token comes from the first source
// that holds a complete one.
pub open spec fn tok_avail_from(ss: Seq<StreamReader>, i: int) -> bool
    decreases ss.len() - i,
{
    if i < 0 || i >= ss.len() {
        false
    } else if tokens::has_tok(ss[i]) {
        true
    } else if tokens::spent(ss[i]) {
        tok_avail_from(ss, i + 1)
    } else {
        false
    }
}

pub open spec fn toks_exhausted_from(ss: Seq<StreamReader>, i: int) -> bool
    decreases ss.len() - i,
{
    if i >= ss.len() {
        true
    } else if i < 0 {
        false
    } else if tokens::spent(ss[i]) {
        toks_exhausted_from(ss, i + 1)
    } else {
        false
    }
}

/// The source the next token comes from (meaningful when one is
/// available).
pub open spec fn tok_src_from(ss: Seq<StreamReader>, i: int) -> int
    decreases ss.len() - i,
{
    if i < 0 || i >= ss.len() {
        i
    } else if tokens::has_tok(ss[i]) {
        i
    } else if tokens::spent(ss[i]) {
        tok_src_from(ss, i + 1)
    } else {
        i
    }
}

// The character reader, over the list of sources: ended sources with
// nothing buffered are skipped; the next character comes from the first
// source with one buffered.
pub open spec fn char_avail_from(ss: Seq<StreamReader>, i: int) -> bool
    decreases ss.len() - i,
{
    if i < 0 || i >= ss.len() {
        false
    } else if ss[i].rem().len() > 0 {
        true
    } else if ss[i].eos {
        char_avail_from(ss, i + 1)
    } else {
        false
    }
}

pub open spec fn char_src_from(ss: Seq<StreamReader>, i: int) -> int
    decreases ss.len() - i,
{
    if i < 0 || i >= ss.len() {
        i
    } else if ss[i].rem().len() > 0 {
        i
    } else if ss[i].eos {
        char_src_from(ss, i + 1)
    } else {
        i
    }
}

/// No source will ever yield another character: every source from `i`
/// on has ended with nothing left buffered.
pub open spec fn chars_exhausted_from(ss: Seq<StreamReader>, i: int) -> bool
    decreases ss.len() - i,
{
    if i >= ss.len() {
        true
    } else if i < 0 {
        false
    } else if ss[i].rem().len() == 0 && ss[i].eos {
        chars_exhausted_from(ss, i + 1)
    } else {
        false
    }
}

impl VM {
    /// A complete token is buffered in the sources.
    pub open spec fn tok_avail(self) -> bool {
        tok_avail_from(self.streams@, self.curr_sr as int)
    }

    /// No source will ever yield another token.
    pub open spec fn toks_exhausted(self) -> bool {
        toks_exhausted_from(self.streams@, self.curr_sr as int)
    }

    pub open spec fn tok_src(self) -> int {
        tok_src_from(self.streams@, self.curr_sr as int)
    }

    /// The next token (meaningful when `tok_avail()`).
    pub open spec fn next_tok(self) -> Seq<char> {
        tokens::tok_of(self.streams@[self.tok_src()])
    }

    pub open spec fn char_avail(self) -> bool {
        char_avail_from(self.streams@, self.curr_sr as int)
    }

    pub open spec fn char_src(self) -> int {
        char_src_from(self.streams@, self.curr_sr as int)
    }

    /// No source will ever yield another character.
    pub open spec fn chars_exhausted(self) -> bool {
        chars_exhausted_from(self.streams@, self.curr_sr as int)
    }

    /// The next raw character (meaningful when `char_avail()`).
    pub open spec fn next_char(self) -> char {
        self.streams@[self.char_src()].rem()[0]
    }
}

/// The sources of `b` are those of `a` after one token has been read:
/// the reader stands at the providing source, whose cursor has moved past
/// the token and its separator.
pub open spec fn streams_after_tok(a: VM, b: VM) -> bool {
    let j = a.tok_src();
    &&& b.curr_sr == j
    &&& streams_advanced(
        a.streams@,
        b.streams@,
        j,
        a.streams@[j].offset + tokens::tok_used(a.streams@[j]),
    )
}

/// The sources of `b` are those of `a` after one character has been read.
pub open spec fn streams_after_char(a: VM, b: VM) -> bool {
    let j = a.char_src();
    &&& b.curr_sr == j
    &&& streams_advanced(a.streams@, b.streams@, j, a.streams@[j].offset + 1)
}

/// Everything but the sources agrees: the reader touches nothing else.
pub open spec fn same_but_streams(a: VM, b: VM) -> bool {
    &&& same_code(a, b)
    &&& same_stack(a, b)
    &&& same_ret(a, b)
    &&& same_ip(a, b)
    &&& same_dict(a, b)
    &&& same_out(a, b)
    &&& same_cm(a, b)
    &&& same_dead(a, b)
}

impl VM {
    pub fn new() -> (r: VM)
        ensures
            r.wf(),
            r.ip == 0,
            r.code@.len() == 0,
            r.stack@.len() == 0,
            r.ret@.len() == 0,
            r.i_2_w@.len() == 0,
            r.names().len() == 0,
            !r.is_cm,
            r.streams@.len() == 0,
            r.curr_sr == 0,
            !r.dead,
            r.out@.len() == 0,
    {
        let r = VM {
            ip: 0,
            code: Vec::new(),
            stack: Vec::new(),
            ret: Vec::new(),
            i_2_w: Vec::new(),
            i_2_n: Vec::new(),
            is_cm: false,
            streams: Vec::new(),
            curr_sr: 0,
            dead: false,
            out: Vec::new(),
        };
        proof {
            assert(r.names() =~~= Seq::<Seq<char>>::empty());
        }
        r
    }

    /// Append a built-in behaviour to the dictionary under `name`.  The
    /// new word receives the next identifier; an older word of the same
    /// name is shadowed for future lookups but keeps its identifier.
    pub fn register_native(&mut self, name: Vec<char>, is_macro: bool, op: NativeOp)
        requires
            old(self).wf(),
        ensures
            final(self).wf(),
            final(self).i_2_w@ == old(self).i_2_w@.push(Word::Native { is_macro, op }),
            final(self).names() == old(self).names().push(name@),
            same_code(*old(self), *final(self)),
            same_stack(*old(self), *final(self)),
            same_ret(*old(self), *final(self)),
            same_ip(*old(self), *final(self)),
            same_streams(*old(self), *final(self)),
            same_out(*old(self), *final(self)),
            same_cm(*old(self), *final(self)),
            same_dead(*old(self), *final(self)),
    {
        let ghost pre = *self;
        self.i_2_w.push(Word::Native { is_macro, op });
        self.i_2_n.push(name);
        proof {
            assert(self.names() =~~= pre.names().push(self.i_2_n@.last()@));
        }
    }

    /// Hand the machine one more character source; it is consumed after
    /// all the sources already present.
    pub fn add_stream(&mut self, sr: StreamReader)
        requires
            old(self).wf(),
            sr.wf(),
        ensures
            final(self).wf(),
            final(self).streams@ == old(self).streams@.push(sr),
            final(self).curr_sr == old(self).curr_sr,
            same_but_streams(*old(self), *final(self)),
    {
        self.streams.push(sr)
    }

    pub fn is_digit(c: char) -> (r: bool)
        ensures
            r == tokens::is_digit(c),
    {
        c >= '0' && c <= '9'
    }

    /// Whether every character of the token is a decimal digit (an empty
    /// token counts, as the original reader never produces one).
    pub fn is_number(token: &Vec<char>) -> (r: bool)
        ensures
            r == tokens::all_digits(token@),
    {
        let mut i: usize = 0;
        while i < token.len()
            invariant
                0 <= i <= token@.len(),
                forall|j: int| 0 <= j < i ==> tokens::is_digit(#[trigger] token@[j]),
            decreases token@.len() - i,
        {
            if !VM::is_digit(token[i]) {
                return false;
            }
            i = i + 1;
        }
        true
    }

    /// Find a name in the dictionary; the last definition wins.
    pub fn find_word(&self, tok: &Vec<char>) -> (r: Option<usize>)
        requires
            self.wf(),
        ensures
            match lookup(self.names(), tok@) {
                Some(i) => r == Some(i as usize),
                None => r is None,
            },
    {
        let ghost names = self.names();
        let mut i: usize = self.i_2_n.len();
        proof {
            assert(names.take(i as int) =~= names);
        }
        while i > 0
            invariant
                self.wf(),
                i <= self.i_2_n@.len(),
                names == self.names(),
                lookup(names, tok@) == lookup(names.take(i as int), tok@),
            decreases i,
        {
            let k = i - 1;
            proof {
                assert(names.take(i as int).last() == names[k as int]);
                assert(names.take(i as int).drop_last() =~= names.take(k as int));
                assert(names[k as int] =~= self.i_2_n@[k as int]@);
            }
            if chars_eq(&self.i_2_n[k], tok) {
                return Some(k);
            }
            i = k;
        }
        proof {
            assert(names.take(0) =~= Seq::<Seq<char>>::empty());
        }
        None
    }
}

/// Skipping sources that will never yield another token changes nothing
/// about where the next token comes from.
pub proof fn lemma_tok_scan_skip(ss: Seq<StreamReader>, a: int, b: int)
    requires
        0 <= a <= b <= ss.len(),
        forall|i: int| a <= i < b ==> tokens::spent(#[trigger] ss[i]),
    ensures
        tok_avail_from(ss, a) == tok_avail_from(ss, b),
        toks_exhausted_from(ss, a) == toks_exhausted_from(ss, b),
        tok_avail_from(ss, a) ==> tok_src_from(ss, a) == tok_src_from(ss, b),
    decreases b - a,
{
    if a < b {
        lemma_tok_scan_skip(ss, a + 1, b);
    }
}

/// Skipping ended sources with nothing buffered changes nothing about
/// where the next character comes from.
pub proof fn lemma_char_scan_skip(ss: Seq<StreamReader>, a: int, b: int)
    requires
        0 <= a <= b <= ss.len(),
        forall|i: int| a <= i < b ==> (#[trigger] ss[i]).rem().len() == 0 && ss[i].eos,
    ensures
        char_avail_from(ss, a) == char_avail_from(ss, b),
        char_avail_from(ss, a) ==> char_src_from(ss, a) == char_src_from(ss, b),
        chars_exhausted_from(ss, a) == chars_exhausted_from(ss, b),
    decreases b - a,
{
    if a < b {
        lemma_char_scan_skip(ss, a + 1, b);
    }
}

/// A buffered token rules out exhaustion: its source is not spent.
pub proof fn lemma_avail_not_exhausted(ss: Seq<StreamReader>, i: int)
    requires
        tok_avail_from(ss, i),
    ensures
        !toks_exhausted_from(ss, i),
    decreases ss.len() - i,
{
    if 0 <= i < ss.len() && !tokens::has_tok(ss[i]) && tokens::spent(ss[i]) {
        lemma_avail_not_exhausted(ss, i + 1);
    }
}

/// A reader that is dry while some source is still open has not run out
/// of tokens either: the open source may still produce one.
pub proof fn lemma_open_source_not_exhausted(ss: Seq<StreamReader>, i: int)
    requires
        !char_avail_from(ss, i),
        !chars_exhausted_from(ss, i),
    ensures
        !toks_exhausted_from(ss, i),
    decreases ss.len() - i,
{
    if 0 <= i < ss.len() && ss[i].rem().len() == 0 && ss[i].eos {
        lemma_open_source_not_exhausted(ss, i + 1);
    }
}

impl VM {
    /// Find the next whitespace-delimited token without consuming
    /// anything: the token, the source it comes from, and the cursor
    /// position past it (and past its separator).  `None` means no
    /// complete token is buffered.
    fn locate_token(&self) -> (r: Option<(Vec<char>, usize, usize)>)
        requires
            self.wf(),
        ensures
            self.tok_avail() ==> (match r {
                Some(p) => {
                    &&& p.0@ == self.next_tok()
                    &&& p.1 == self.tok_src()
                    &&& p.1 < self.streams@.len()
                    &&& p.2 == self.streams@[p.1 as int].offset + tokens::tok_used(
                        self.streams@[p.1 as int],
                    )
                    &&& p.2 <= self.streams@[p.1 as int].buff@.len()
                },
                None => false,
            }),
            !self.tok_avail() ==> r is None,
    {
        let ghost ss = self.streams@;
        let mut j = self.curr_sr;
        while j < self.streams.len()
            invariant
                self.wf(),
                ss == self.streams@,
                self.curr_sr <= j <= ss.len(),
                forall|i: int| self.curr_sr <= i < j ==> tokens::spent(#[trigger] ss[i]),
            decreases ss.len() - j,
        {
            match tokens::scan_tok(&self.streams[j]) {
                Some(pair) => {
                    let (tok, newoff) = pair;
                    proof {
                        lemma_tok_scan_skip(ss, self.curr_sr as int, j as int);
                    }
                    return Some((tok, j, newoff));
                },
                None => {
                    if tokens::stream_spent(&self.streams[j]) {
                        j = j + 1;
                    } else {
                        proof {
                            lemma_tok_scan_skip(ss, self.curr_sr as int, j as int);
                        }
                        return None;
                    }
                },
            }
        }
        proof {
            lemma_tok_scan_skip(ss, self.curr_sr as int, j as int);
        }
        None
    }

    /// Read the next whitespace-delimited token, skipping sources that
    /// are spent.  `None` means no complete token is buffered — either
    /// every source is exhausted, or the machine must wait for more
    /// characters — and nothing was consumed.
    pub fn read_token(&mut self) -> (r: Option<Vec<char>>)
        requires
            old(self).wf(),
        ensures
            final(self).wf(),
            same_but_streams(*old(self), *final(self)),
            old(self).tok_avail() ==> (match r {
                Some(t) => t@ == old(self).next_tok() && streams_after_tok(
                    *old(self),
                    *final(self),
                ),
                None => false,
            }),
            !old(self).tok_avail() ==> r is None && *final(self) == *old(self),
    {
        match self.locate_token() {
            Some(trip) => {
                let (tok, j, newoff) = trip;
                self.streams[j].offset = newoff;
                self.curr_sr = j;
                proof {
                    assert(streams_advanced(
                        old(self).streams@,
                        self.streams@,
                        j as int,
                        old(self).streams@[j as int].offset + tokens::tok_used(
                            old(self).streams@[j as int],
                        ),
                    ));
                }
                Some(tok)
            },
            None => None,
        }
    }

    /// Whether no source will ever yield another token.
    pub fn sources_done(&self) -> (r: bool)
        requires
            self.wf(),
        ensures
            r == self.toks_exhausted(),
    {
        let ghost ss = self.streams@;
        let mut j = self.curr_sr;
        while j < self.streams.len()
            invariant
                self.wf(),
                ss == self.streams@,
                self.curr_sr <= j <= ss.len(),
                forall|i: int| self.curr_sr <= i < j ==> tokens::spent(#[trigger] ss[i]),
            decreases ss.len() - j,
        {
            if !tokens::stream_spent(&self.streams[j]) {
                proof {
                    lemma_tok_scan_skip(ss, self.curr_sr as int, j as int);
                }
                return false;
            }
            j = j + 1;
        }
        proof {
            lemma_tok_scan_skip(ss, self.curr_sr as int, j as int);
        }
        true
    }

    /// Whether no source will ever yield another character.
    pub fn chars_done(&self) -> (r: bool)
        requires
            self.wf(),
        ensures
            r == self.chars_exhausted(),
    {
        let ghost ss = self.streams@;
        let mut j = self.curr_sr;
        while j < self.streams.len()
            invariant
                self.wf(),
                ss == self.streams@,
                self.curr_sr <= j <= ss.len(),
                forall|i: int|
                    self.curr_sr <= i < j ==> (#[trigger] ss[i]).rem().len() == 0 && ss[i].eos,
            decreases ss.len() - j,
        {
            if self.streams[j].offset < self.streams[j].buff.len() {
                proof {
                    lemma_char_scan_skip(ss, self.curr_sr as int, j as int);
                }
                return false;
            } else if self.streams[j].is_eos() {
                j = j + 1;
            } else {
                proof {
                    lemma_char_scan_skip(ss, self.curr_sr as int, j as int);
                }
                return false;
            }
        }
        proof {
            lemma_char_scan_skip(ss, self.curr_sr as int, j as int);
        }
        true
    }

    /// Consume the next raw character, skipping ended sources.  `None`
    /// means no character is buffered right now; nothing was consumed.
    pub fn read_stream_char(&mut self) -> (r: Option<char>)
        requires
            old(self).wf(),
        ensures
            final(self).wf(),
            same_but_streams(*old(self), *final(self)),
            old(self).char_avail() ==> r == Some(old(self).next_char()) && streams_after_char(
                *old(self),
                *final(self),
            ),
            !old(self).char_avail() ==> r is None && *final(self) == *old(self),
    {
        let ghost ss = self.streams@;
        let mut j = self.curr_sr;
        while j < self.streams.len()
            invariant
                self.wf(),
                *self == *old(self),
                ss == self.streams@,
                self.curr_sr <= j <= ss.len(),
                forall|i: int|
                    self.curr_sr <= i < j ==> (#[trigger] ss[i]).rem().len() == 0 && ss[i].eos,
            decreases ss.len() - j,
        {
            let off = self.streams[j].offset;
            if off < self.streams[j].buff.len() {
                let c = self.streams[j].buff[off];
                proof {
                    lemma_char_scan_skip(ss, self.curr_sr as int, j as int);
                    assert(ss[j as int].rem()[0] == ss[j as int].buff@[off as int]);
                }
                self.streams[j].offset = off + 1;
                self.curr_sr = j;
                return Some(c);
            } else if self.streams[j].is_eos() {
                j = j + 1;
            } else {
                proof {
                    lemma_char_scan_skip(ss, self.curr_sr as int, j as int);
                }
                return None;
            }
        }
        proof {
            lemma_char_scan_skip(ss, self.curr_sr as int, j as int);
        }
        None
    }

    /// Look at the next raw character without consuming it.
    pub fn peek_stream_char(&self) -> (r: Option<char>)
        requires
            self.wf(),
        ensures
            self.char_avail() ==> r == Some(self.next_char()),
            !self.char_avail() ==> r is None,
    {
        let ghost ss = self.streams@;
        let mut j = self.curr_sr;
        while j < self.streams.len()
            invariant
                self.wf(),
                ss == self.streams@,
                self.curr_sr <= j <= ss.len(),
                forall|i: int|
                    self.curr_sr <= i < j ==> (#[trigger] ss[i]).rem().len() == 0 && ss[i].eos,
            decreases ss.len() - j,
        {
            let off = self.streams[j].offset;
            if off < self.streams[j].buff.len() {
                let c = self.streams[j].buff[off];
                proof {
                    lemma_char_scan_skip(ss, self.curr_sr as int, j as int);
                    assert(ss[j as int].rem()[0] == ss[j as int].buff@[off as int]);
                }
                return Some(c);
            } else if self.streams[j].is_eos() {
                j = j + 1;
            } else {
                proof {
                    lemma_char_scan_skip(ss, self.curr_sr as int, j as int);
                }
                return None;
            }
        }
        proof {
            lemma_char_scan_skip(ss, self.curr_sr as int, j as int);
        }
        None
    }
}

/// One step of the execution engine: what executing the instruction at
/// the current instruction pointer does.  A pointer or word identifier
/// outside its table reports `BadAddress` and changes nothing.
pub open spec fn step_spec(a: VM, b: VM, r: EvalResult) -> bool {
    if a.ip >= a.code@.len() {
        b == a && r is BadAddress
    } else {
        match a.code@[a.ip as int] {
            OpCode::PushUSize(u) => {
                &&& b.stack@ == a.stack@.push(u)
                &&& b.ip == a.ip + 1
                &&& same_code(a, b) && same_ret(a, b) && same_dict(a, b) && same_streams(a, b)
                &&& same_out(a, b) && same_cm(a, b) && same_dead(a, b)
                &&& r is Nothing
            },
            OpCode::Jmp(t) => {
                &&& b.ip == t
                &&& same_code(a, b) && same_stack(a, b) && same_ret(a, b) && same_dict(a, b)
                &&& same_streams(a, b) && same_out(a, b) && same_cm(a, b) && same_dead(a, b)
                &&& r is Nothing
            },
            OpCode::Cond(t) => {
                if a.stack@.len() == 0 {
                    b == a && r is StackUnderflow
                } else {
                    &&& b.stack@ == a.stack@.drop_last()
                    &&& b.ip == if a.stack@.last() != 0 {
                        t as int
                    } else {
                        a.ip + 1
                    }
                    &&& same_code(a, b) && same_ret(a, b) && same_dict(a, b) && same_streams(a, b)
                    &&& same_out(a, b) && same_cm(a, b) && same_dead(a, b)
                    &&& r is Nothing
                }
            },
            OpCode::Ret => {
                if a.ret@.len() == 0 {
                    b == a && r is ReturnStackUnderflow
                } else {
                    &&& b.ret@ == a.ret@.drop_last()
                    &&& b.ip == a.ret@.last()
                    &&& same_code(a, b) && same_stack(a, b) && same_dict(a, b) && same_streams(a, b)
                    &&& same_out(a, b) && same_cm(a, b) && same_dead(a, b)
                    &&& r is Nothing
                }
            },
            OpCode::Call(w) => {
                if w >= a.i_2_w@.len() {
                    b == a && r is BadAddress
                } else {
                    match a.i_2_w@[w as int] {
                        Word::Interp { is_macro: _, fip } => {
                            &&& b.ret@ == a.ret@.push((a.ip + 1) as usize)
                            &&& b.ip == fip
                            &&& same_code(a, b) && same_stack(a, b) && same_dict(a, b)
                            &&& same_streams(a, b) && same_out(a, b) && same_cm(a, b)
                            &&& same_dead(a, b)
                            &&& r is Nothing
                        },
                        Word::Native { is_macro: _, op } => {
                            // `NeedChar` pauses the instruction: the pointer
                            // stays put so the next step retries it once the
                            // host has fed more characters.
                            &&& crate::forth_core::native_spec(op, a, VM { ip: a.ip, ..b }, r)
                            &&& (r is NeedChar ==> b.ip == a.ip)
                            &&& (!(r is NeedChar) ==> b.ip == a.ip + 1)
                        },
                    }
                }
            },
        }
    }
}

/// How one token moves the machine (the mode-sensitive resolver): a
/// numeric literal is pushed or compiled according to the mode; a known
/// word is executed now, entered now (behind a sentinel return address),
/// or compiled to a `Call`, according to the mode and its macro flag; an
/// unknown token reports `WordNotFound` and changes nothing.
pub open spec fn resolve_spec(a: VM, b: VM, t: Seq<char>, r: EvalResult) -> bool {
    if tokens::is_literal(t) {
        if a.is_cm {
            &&& b.code@ == a.code@.push(OpCode::PushUSize(tokens::tok_num(t) as usize))
            &&& same_stack(a, b) && same_ret(a, b) && same_ip(a, b) && same_dict(a, b)
            &&& same_streams(a, b) && same_out(a, b) && same_cm(a, b) && same_dead(a, b)
            &&& r is Nothing
        } else {
            &&& b.stack@ == a.stack@.push(tokens::tok_num(t) as usize)
            &&& same_code(a, b) && same_ret(a, b) && same_ip(a, b) && same_dict(a, b)
            &&& same_streams(a, b) && same_out(a, b) && same_cm(a, b) && same_dead(a, b)
            &&& r is Nothing
        }
    } else {
        match lookup(a.names(), t) {
            None => b == a && (r matches EvalResult::WordNotFound(w) && w@ == t),
            Some(wid) => match a.i_2_w@[wid] {
                Word::Interp { is_macro, fip } => {
                    if is_macro || !a.is_cm {
                        &&& b.ret@ == a.ret@.push(SENTINEL_RET)
                        &&& b.ip == fip
                        &&& same_code(a, b) && same_stack(a, b) && same_dict(a, b)
                        &&& same_streams(a, b) && same_out(a, b) && same_cm(a, b) && same_dead(a, b)
                        &&& r is Nothing
                    } else {
                        &&& b.code@ == a.code@.push(OpCode::Call(wid as usize))
                        &&& same_stack(a, b) && same_ret(a, b) && same_ip(a, b) && same_dict(a, b)
                        &&& same_streams(a, b) && same_out(a, b) && same_cm(a, b) && same_dead(a, b)
                        &&& r is Nothing
                    }
                },
                Word::Native { is_macro, op } => {
                    if is_macro || !a.is_cm {
                        crate::forth_core::native_spec(op, a, b, r)
                    } else {
                        &&& b.code@ == a.code@.push(OpCode::Call(wid as usize))
                        &&& same_stack(a, b) && same_ret(a, b) && same_ip(a, b) && same_dict(a, b)
                        &&& same_streams(a, b) && same_out(a, b) && same_cm(a, b) && same_dead(a, b)
                        &&& r is Nothing
                    }
                },
            },
        }
    }
}

impl VM {
    /// Execute exactly the instruction at the current instruction
    /// pointer.
    pub fn next_word(&mut self) -> (r: EvalResult)
        requires
            old(self).wf(),
        ensures
            final(self).wf(),
            step_spec(*old(self), *final(self), r),
    {
        if self.ip >= self.code.len() {
            return EvalResult::BadAddress;
        }
        let instr = self.code[self.ip];
        match instr {
            OpCode::PushUSize(u) => {
                self.stack.push(u);
                self.ip = self.ip + 1;
                EvalResult::Nothing
            },
            OpCode::Jmp(t) => {
                self.ip = t;
                EvalResult::Nothing
            },
            OpCode::Cond(t) => {
                if self.stack.len() == 0 {
                    return EvalResult::StackUnderflow;
                }
                let v = self.stack.pop().unwrap();
                if v != 0 {
                    self.ip = t;
                } else {
                    self.ip = self.ip + 1;
                }
                EvalResult::Nothing
            },
            OpCode::Ret => {
                if self.ret.len() == 0 {
                    return EvalResult::ReturnStackUnderflow;
                }
                let t = self.ret.pop().unwrap();
                self.ip = t;
                EvalResult::Nothing
            },
            OpCode::Call(w) => {
                if w >= self.i_2_w.len() {
                    return EvalResult::BadAddress;
                }
                let word = self.i_2_w[w];
                match word {
                    Word::Interp { is_macro: _, fip } => {
                        self.ret.push(self.ip + 1);
                        self.ip = fip;
                        EvalResult::Nothing
                    },
                    Word::Native { is_macro: _, op } => {
                        let r = crate::forth_core::exec_native(self, op);
                        proof {
                            crate::forth_core::lemma_native_keeps_ip(op, *old(self), *self, r);
                        }
                        match &r {
                            EvalResult::NeedChar => {},
                            _ => {
                                self.ip = self.ip + 1;
                            },
                        }
                        proof {
                            assert(*old(self) == VM { ip: old(self).ip, ..*old(self) });
                        }
                        r
                    },
                }
            },
        }
    }

    /// Resolve one token against the current mode and dictionary.
    pub fn resolve_token(&mut self, tok: Vec<char>) -> (r: EvalResult)
        requires
            old(self).wf(),
        ensures
            final(self).wf(),
            resolve_spec(*old(self), *final(self), tok@, r),
    {
        match tokens::parse_literal(&tok) {
            Some(v) => {
                if self.is_cm {
                    self.code.push(OpCode::PushUSize(v));
                } else {
                    self.stack.push(v);
                }
                EvalResult::Nothing
            },
            None => {
                proof {
                    lemma_lookup_props(self.names(), tok@);
                }
                match self.find_word(&tok) {
                    None => EvalResult::WordNotFound(tok),
                    Some(wid) => {
                        let n_names = self.i_2_n.len();
                        let word = self.i_2_w[wid];
                        proof {
                            let lk = lookup(old(self).names(), tok@);
                            assert(0 <= lk->0 < n_names);
                            assert(word == old(self).i_2_w@[lk->0]);
                        }
                        match word {
                            Word::Interp { is_macro, fip } => {
                                if is_macro || !self.is_cm {
                                    self.ret.push(SENTINEL_RET);
                                    self.ip = fip;
                                    EvalResult::Nothing
                                } else {
                                    self.code.push(OpCode::Call(wid));
                                    EvalResult::Nothing
                                }
                            },
                            Word::Native { is_macro, op } => {
                                if is_macro || !self.is_cm {
                                    crate::forth_core::exec_native(self, op)
                                } else {
                                    self.code.push(OpCode::Call(wid));
                                    EvalResult::Nothing
                                }
                            },
                        }
                    },
                }
            },
        }
    }
}

/// What one driver call can end with.
#[derive(Clone, Copy, Debug, PartialEq, Eq, Structural)]
pub enum ReplStatus {
    /// The machine died (`quit`) or every source is exhausted.
    Finished,
    /// The machine cannot go on without more characters — the next
    /// token is incomplete, or a character-reading word found its
    /// source open but dry.  Feed the waiting source (or close it) and
    /// call again.
    NeedInput,
    /// The step budget ran out before the machine came to rest.
    OutOfFuel,
}

/// Reading one token left the machine in `mid`.
pub open spec fn read_rel(a: VM, mid: VM) -> bool {
    &&& mid.wf()
    &&& same_but_streams(a, mid)
    &&& streams_after_tok(a, mid)
}

/// Reading and resolving the machine's next token yields `NeedChar`
/// and so changes nothing: only the character-reading words can, when
/// their source is open but dry.
pub open spec fn next_tok_blocks(m: VM) -> bool {
    &&& m.tok_avail()
    &&& exists|mid: VM|
        #[trigger] read_rel(m, mid) && resolve_spec(
            mid,
            mid,
            m.next_tok(),
            EvalResult::NeedChar,
        )
}

/// The machine cannot go on without more characters: no complete token
/// is buffered, or the instruction in flight is a paused character
/// read, or resolving the next token comes back asking for characters.
pub open spec fn awaiting_input(m: VM) -> bool {
    ||| (m.ret@.len() == 0 && !m.tok_avail())
    ||| (m.ret@.len() > 0 && step_spec(m, m, EvalResult::NeedChar))
    ||| (m.ret@.len() == 0 && next_tok_blocks(m))
}

/// `b` is `a` with the report for `e` appended to the output.
pub open spec fn reported(a: VM, b: VM, e: EvalResult) -> bool {
    &&& b.out@ == a.out@ + crate::render::err_text(e)
    &&& same_code(a, b) && same_stack(a, b) && same_ret(a, b) && same_ip(a, b)
    &&& same_dict(a, b) && same_streams(a, b) && same_cm(a, b) && same_dead(a, b)
}

/// One top-level command, taken only once no execution is pending: the
/// next token is read and resolved, and a failing outcome has its
/// report appended to the output.
pub open spec fn cmd_step(a: VM, b: VM) -> bool {
    &&& a.ret@.len() == 0
    &&& a.tok_avail()
    &&& exists|mid: VM, mid2: VM, e: EvalResult|
        {
            &&& read_rel(a, mid)
            &&& #[trigger] resolve_spec(mid, mid2, a.next_tok(), e)
            &&& !(e is NeedChar)
            &&& if e is Nothing {
                vm_same(mid2, b)
            } else {
                reported(mid2, b, e)
            }
        }
}

/// One engine step of the drain phase, taken while the return stack is
/// nonempty: a failing step has its report appended and the failed
/// command's pending execution abandoned (the return stack cleared), so
/// the driver can go on with the next command.
pub open spec fn engine_step(a: VM, b: VM) -> bool {
    &&& a.ret@.len() > 0
    &&& exists|mid: VM, e: EvalResult|
        {
            &&& #[trigger] step_spec(a, mid, e)
            &&& !(e is NeedChar)
            &&& if e is Nothing {
                vm_same(mid, b)
            } else {
                &&& b.out@ == mid.out@ + crate::render::err_text(e)
                &&& b.ret@ == Seq::<usize>::empty()
                &&& same_code(mid, b) && same_stack(mid, b) && same_ip(mid, b)
                &&& same_dict(mid, b) && same_streams(mid, b) && same_cm(mid, b)
                &&& same_dead(mid, b)
            }
        }
}

/// One unit of the driver's work — where one unit of its budget goes:
/// a command resolved, or an engine step taken, on a live machine.
pub open spec fn drive_step(a: VM, b: VM) -> bool {
    &&& !a.dead
    &&& (cmd_step(a, b) || engine_step(a, b))
}

/// `b` is reached from `a` by exactly `n` units of the driver's work.
pub open spec fn drive_chain(a: VM, b: VM, n: nat) -> bool
    decreases n,
{
    if n == 0 {
        vm_same(a, b)
    } else {
        exists|mid: VM| drive_chain(a, mid, (n - 1) as nat) && #[trigger] drive_step(mid, b)
    }
}

pub proof fn lemma_streams_eq_trans(a: Seq<StreamReader>, b: Seq<StreamReader>, c: Seq<
    StreamReader,
>)
    requires
        streams_eq(a, b),
        streams_eq(b, c),
    ensures
        streams_eq(a, c),
{
    assert forall|i: int| 0 <= i < a.len() implies StreamReader::model_eq(
        #[trigger] a[i],
        c[i],
    ) by {
        assert(StreamReader::model_eq(a[i], b[i]));
        assert(StreamReader::model_eq(b[i], c[i]));
    }
}

pub proof fn lemma_vm_same_trans(a: VM, b: VM, c: VM)
    requires
        vm_same(a, b),
        vm_same(b, c),
    ensures
        vm_same(a, c),
{
    lemma_streams_eq_trans(a.streams@, b.streams@, c.streams@);
}

/// A chain's endpoint may be replaced by any state that agrees with it
/// part for part.
pub proof fn lemma_chain_like(a: VM, b: VM, b2: VM, n: nat)
    requires
        drive_chain(a, b, n),
        vm_same(b, b2),
    ensures
        drive_chain(a, b2, n),
    decreases n,
{
    if n == 0 {
        lemma_vm_same_trans(a, b, b2);
    } else {
        let mid = choose|mid: VM|
            drive_chain(a, mid, (n - 1) as nat) && #[trigger] drive_step(mid, b);
        if cmd_step(mid, b) {
            let (m1, m2, e) = choose|m1: VM, m2: VM, e: EvalResult|
                {
                    &&& read_rel(mid, m1)
                    &&& #[trigger] resolve_spec(m1, m2, mid.next_tok(), e)
                    &&& !(e is NeedChar)
                    &&& if e is Nothing {
                        vm_same(m2, b)
                    } else {
                        reported(m2, b, e)
                    }
                };
            if e is Nothing {
                lemma_vm_same_trans(m2, b, b2);
            } else {
                lemma_streams_eq_trans(m2.streams@, b.streams@, b2.streams@);
                assert(reported(m2, b2, e));
            }
            assert(cmd_step(mid, b2));
        } else {
            let (m1, e) = choose|m1: VM, e: EvalResult|
                {
                    &&& #[trigger] step_spec(mid, m1, e)
                    &&& !(e is NeedChar)
                    &&& if e is Nothing {
                        vm_same(m1, b)
                    } else {
                        &&& b.out@ == m1.out@ + crate::render::err_text(e)
                        &&& b.ret@ == Seq::<usize>::empty()
                        &&& same_code(m1, b) && same_stack(m1, b) && same_ip(m1, b)
                        &&& same_dict(m1, b) && same_streams(m1, b) && same_cm(m1, b)
                        &&& same_dead(m1, b)
                    }
                };
            if e is Nothing {
                lemma_vm_same_trans(m1, b, b2);
            } else {
                lemma_streams_eq_trans(m1.streams@, b.streams@, b2.streams@);
            }
            assert(engine_step(mid, b2));
        }
        assert(drive_step(mid, b2));
    }
}

impl VM {
    /// Read one token and resolve it.  `None` means no complete token
    /// is buffered and the machine is untouched.  `Some(NeedChar)`
    /// means the token's word needs characters that are not buffered
    /// yet: the token is put back and the machine is as it was, so that
    /// a retry after more input resolves it again.
    pub fn consume_token(&mut self) -> (r: Option<EvalResult>)
        requires
            old(self).wf(),
        ensures
            final(self).wf(),
            !old(self).tok_avail() ==> r is None && *final(self) == *old(self),
            old(self).tok_avail() ==> (match r {
                Some(e) => {
                    if e is NeedChar {
                        vm_same(*old(self), *final(self)) && next_tok_blocks(*final(self))
                    } else {
                        exists|mid: VM|
                            #[trigger] read_rel(*old(self), mid) && resolve_spec(
                                mid,
                                *final(self),
                                old(self).next_tok(),
                                e,
                            )
                    }
                },
                None => false,
            }),
    {
        let trip = match self.locate_token() {
            Some(t) => t,
            None => {
                return None;
            },
        };
        let (tok, j, newoff) = trip;
        let oldoff = self.streams[j].offset;
        let oldcur = self.curr_sr;
        self.streams[j].offset = newoff;
        self.curr_sr = j;
        let ghost mid = *self;
        let ghost t0 = tok@;
        proof {
            assert(read_rel(*old(self), mid));
        }
        let e = self.resolve_token(tok);
        let ghost afterr = *self;
        match &e {
            EvalResult::NeedChar => {
                // the word needs characters that are not buffered yet:
                // put the token back so a retry reads it again
                self.streams[j].offset = oldoff;
                self.curr_sr = oldcur;
                proof {
                    assert(afterr == mid);
                    assert(self.streams@[j as int] == old(self).streams@[j as int]);
                    assert(self.streams@ =~= old(self).streams@);
                    assert(vm_same(*old(self), *self));
                    assert(read_rel(*self, mid));
                    assert(self.next_tok() == old(self).next_tok());
                    assert(resolve_spec(mid, mid, self.next_tok(), EvalResult::NeedChar));
                    assert(next_tok_blocks(*self));
                }
            },
            _ => {
                proof {
                    assert(read_rel(*old(self), mid) && resolve_spec(mid, afterr, t0, e));
                }
            },
        }
        Some(e)
    }

    /// The top-level driver: finish or resume any execution in flight —
    /// single-stepping the engine until the return stack drains or the
    /// machine dies — then read and resolve the next token, and repeat.
    /// Every error is reported by kind and the driver goes on with the
    /// next command; a command that fails mid-body has its pending
    /// execution abandoned.  `fuel` bounds the number of tokens and
    /// engine steps taken in this call; a later call goes on where this
    /// one stopped.  The final state is reached from the initial one by
    /// exactly the chain of command and engine transitions the budget
    /// paid for, and `OutOfFuel` comes only once the whole budget went
    /// on such transitions.
    pub fn repl(&mut self, fuel: u64) -> (r: ReplStatus)
        requires
            old(self).wf(),
        ensures
            final(self).wf(),
            exists|n: nat|
                {
                    &&& #[trigger] drive_chain(*old(self), *final(self), n)
                    &&& n <= fuel
                    &&& (r is OutOfFuel ==> n == fuel)
                },
            r is Finished ==> final(self).dead || final(self).toks_exhausted(),
            r is NeedInput ==> !final(self).dead && !final(self).toks_exhausted()
                && awaiting_input(*final(self)),
    {
        let mut left = fuel;
        loop
            invariant
                self.wf(),
                left <= fuel,
                drive_chain(*old(self), *self, (fuel - left) as nat),
            decreases left,
        {
            if self.dead {
                return ReplStatus::Finished;
            }
            let ghost left_enter = left;
            // finish or resume the execution in flight before reading
            while self.ret.len() > 0 && !self.dead && left > 0
                invariant
                    self.wf(),
                    left <= fuel,
                    left <= left_enter,
                    self.dead ==> left < left_enter,
                    drive_chain(*old(self), *self, (fuel - left) as nat),
                decreases left,
            {
                let ghost prev = *self;
                let ghost done = (fuel - left) as nat;
                let e2 = self.next_word();
                match &e2 {
                    EvalResult::Nothing => {
                        left = left - 1;
                        proof {
                            assert(engine_step(prev, *self));
                            assert(drive_step(prev, *self));
                            assert(drive_chain(*old(self), *self, (done + 1) as nat));
                        }
                    },
                    EvalResult::NeedChar => {
                        proof {
                            assert(*self == prev);
                            assert(step_spec(*self, *self, EvalResult::NeedChar));
                            if !self.char_avail() && !self.chars_exhausted() {
                                lemma_open_source_not_exhausted(
                                    self.streams@,
                                    self.curr_sr as int,
                                );
                            }
                            assert(!self.toks_exhausted());
                        }
                        return ReplStatus::NeedInput;
                    },
                    _ => {
                        left = left - 1;
                        crate::render::report(&mut self.out, &e2);
                        self.ret.clear();
                        proof {
                            assert(engine_step(prev, *self));
                            assert(drive_step(prev, *self));
                            assert(drive_chain(*old(self), *self, (done + 1) as nat));
                        }
                    },
                }
            }
            if self.dead {
                continue;
            }
            if left == 0 {
                return ReplStatus::OutOfFuel;
            }
            let ghost prev = *self;
            let ghost done = (fuel - left) as nat;
            match self.consume_token() {
                None => {
                    if self.sources_done() {
                        return ReplStatus::Finished;
                    } else {
                        return ReplStatus::NeedInput;
                    }
                },
                Some(e) => {
                    match &e {
                        EvalResult::NeedChar => {
                            proof {
                                lemma_avail_not_exhausted(self.streams@, self.curr_sr as int);
                                lemma_chain_like(*old(self), prev, *self, done);
                            }
                            return ReplStatus::NeedInput;
                        },
                        _ => {
                            left = left - 1;
                            let ghost afterc = *self;
                            match &e {
                                EvalResult::Nothing => {},
                                _ => {
                                    crate::render::report(&mut self.out, &e);
                                },
                            }
                            proof {
                                let mid = choose|m: VM|
                                    #[trigger] read_rel(prev, m) && resolve_spec(
                                        m,
                                        afterc,
                                        prev.next_tok(),
                                        e,
                                    );
                                assert(read_rel(prev, mid) && resolve_spec(
                                    mid,
                                    afterc,
                                    prev.next_tok(),
                                    e,
                                ));
                                if e is Nothing {
                                    assert(vm_same(afterc, *self));
                                } else {
                                    assert(reported(afterc, *self, e));
                                }
                                assert(cmd_step(prev, *self));
                                assert(drive_step(prev, *self));
                                assert(drive_chain(*old(self), *self, (done + 1) as nat));
                            }
                        },
                    }
                },
            }
        }
    }
}

impl VM {
    /// The dictionary entry a return address originates from; the last
    /// definition wins, as in `find_word`.
    pub fn find_owner(&self, addr: usize) -> (r: Option<usize>)
        requires
            self.wf(),
        ensures
            match owner_of(self.i_2_w@, addr) {
                Some(i) => r == Some(i as usize),
                None => r is None,
            },
    {
        let ghost ws = self.i_2_w@;
        let mut i: usize = self.i_2_w.len();
        proof {
            assert(ws.take(i as int) =~= ws);
        }
        while i > 0
            invariant
                self.wf(),
                i <= ws.len(),
                ws == self.i_2_w@,
                owner_of(ws, addr) == owner_of(ws.take(i as int), addr),
            decreases i,
        {
            let k = i - 1;
            proof {
                assert(ws.take(i as int).last() == ws[k as int]);
                assert(ws.take(i as int).drop_last() =~= ws.take(k as int));
            }
            match self.i_2_w[k] {
                Word::Interp { is_macro: _, fip } => {
                    if fip <= addr {
                        return Some(k);
                    }
                },
                Word::Native { .. } => {},
            }
            i = k;
        }
        proof {
            assert(ws.take(0) =~= Seq::<Word>::empty());
        }
        None
    }
}

/// Character-for-character equality of two tokens.
pub fn chars_eq(a: &Vec<char>, b: &Vec<char>) -> (r: bool)
    ensures
        r == (a@ == b@),
{
    if a.len() != b.len() {
        return false;
    }
    let mut i: usize = 0;
    while i < a.len()
        invariant
            a@.len() == b@.len(),
            0 <= i <= a@.len(),
            forall|j: int| 0 <= j < i ==> a@[j] == b@[j],
        decreases a@.len() - i,
    {
        if a[i] != b[i] {
            return false;
        }
        i = i + 1;
    }
    proof {
        assert(a@ =~= b@);
    }
    true
}

} // verus!
