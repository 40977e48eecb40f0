use vstd::prelude::*;

use crate::lexer::{
    Lexer, is_instr_byte, lemma_instrs_props, OP_DEC, OP_INC, OP_INPUT, OP_LEFT,
    OP_LOOP_START, OP_OUTPUT, OP_RIGHT,
};

verus! {

/// One instruction of a program.
///
/// `>`  moves the data pointer right, `<` left; `+` and `-` change the cell under it;
/// `.` writes that cell and `,` reads a byte into it. `[` jumps past its matching `]`
/// when the cell is zero, and `]` jumps back to its matching `[` when it is not.
#[derive(Debug, Clone, Copy, PartialEq, Eq, Structural)]
pub enum Token {
    IncPtr(usize),
    DecPtr(usize),
    IncByte(u8),
    DecByte(u8),
    Output,
    Input,
    JumpZero(usize),
    JumpNonZero(usize),
}

/// Target of a loop instruction whose partner has not been found yet.
pub const INVALID_JUMP_ADDR: usize = usize::MAX;

/// Why a source cannot be turned into a program.
#[derive(Debug, Clone, Copy, PartialEq, Eq, Structural)]
pub enum TokenizeError {
    /// A loop end with no open loop start; holds the instruction index of that end.
    UnmatchedLoopEnd(usize),
    /// Loop starts left open at the end of the source; holds how many.
    UnmatchedLoopStart(usize),
}

// ---------------------------------------------------------------------------
// Run-length folding
// ---------------------------------------------------------------------------

/// Length of the run of `b` at the front of `s`.
pub open spec fn run_len(s: Seq<u8>, b: u8) -> nat
    decreases s.len(),
{
    if s.len() > 0 && s[0] == b {
        1 + run_len(s.drop_first(), b)
    } else {
        0
    }
}

pub proof fn lemma_run_len_bound(s: Seq<u8>, b: u8)
    ensures
        run_len(s, b) <= s.len(),
        s.len() > 0 && s[0] == b ==> run_len(s, b) >= 1,
    decreases s.len(),
{
    if s.len() > 0 && s[0] == b {
        lemma_run_len_bound(s.drop_first(), b);
    }
}

/// The operators whose runs are folded into one counted instruction.
pub open spec fn is_foldable(c: u8) -> bool {
    c == OP_RIGHT || c == OP_LEFT || c == OP_INC || c == OP_DEC
}

/// The instruction for a run of `n` copies of the foldable operator `c`;
/// cell changes are taken modulo 256.
pub open spec fn fold_token(c: u8, n: nat) -> Token {
    if c == OP_RIGHT {
        Token::IncPtr(n as usize)
    } else if c == OP_LEFT {
        Token::DecPtr(n as usize)
    } else if c == OP_INC {
        Token::IncByte((n % 256) as u8)
    } else {
        Token::DecByte((n % 256) as u8)
    }
}

/// The instruction for one of the operators that are never folded; loop
/// instructions carry the unresolved target.
pub open spec fn single_token(c: u8) -> Token {
    if c == OP_OUTPUT {
        Token::Output
    } else if c == OP_INPUT {
        Token::Input
    } else if c == OP_LOOP_START {
        Token::JumpZero(INVALID_JUMP_ADDR)
    } else {
        Token::JumpNonZero(INVALID_JUMP_ADDR)
    }
}

/// The unresolved instructions built from a sequence of operator bytes; any other
/// byte is skipped.
pub open spec fn build(s: Seq<u8>) -> Seq<Token>
    decreases s.len(),
    via build_decreases
{
    if s.len() == 0 {
        seq![]
    } else if is_foldable(s[0]) {
        let n = run_len(s, s[0]);
        seq![fold_token(s[0], n)] + build(s.skip(n as int))
    } else if is_instr_byte(s[0]) {
        seq![single_token(s[0])] + build(s.drop_first())
    } else {
        build(s.drop_first())
    }
}

#[via_fn]
proof fn build_decreases(s: Seq<u8>) {
    if s.len() > 0 && is_foldable(s[0]) {
        lemma_run_len_bound(s, s[0]);
    }
}

/// The bytes still to come when the lexer has already handed out `next`.
pub open spec fn stream(next: Option<u8>, rest: Seq<u8>) -> Seq<u8> {
    match next {
        Some(b) => seq![b] + rest,
        None => rest,
    }
}

// ---------------------------------------------------------------------------
// Bracket matching
// ---------------------------------------------------------------------------

/// How an instruction changes the loop nesting depth.
pub open spec fn delta(t: Token) -> int {
    match t {
        Token::JumpZero(_) => 1,
        Token::JumpNonZero(_) => -1,
        _ => 0,
    }
}

/// Nesting depth after the first `m` instructions.
pub open spec fn depth(toks: Seq<Token>, m: int) -> int
    decreases m,
{
    if m <= 0 {
        0
    } else {
        depth(toks, m - 1) + delta(toks[m - 1])
    }
}

/// No prefix closes more loops than it opens.
pub open spec fn never_negative(toks: Seq<Token>) -> bool {
    forall|m: int| 0 <= m <= toks.len() ==> #[trigger] depth(toks, m) >= 0
}

/// Every loop start has a loop end and every loop end a loop start.
pub open spec fn balanced(toks: Seq<Token>) -> bool {
    never_negative(toks) && depth(toks, toks.len() as int) == 0
}

/// `i` is the first loop end with no open loop start before it.
pub open spec fn first_unmatched_end(toks: Seq<Token>, i: int) -> bool {
    &&& 0 <= i < toks.len()
    &&& depth(toks, i + 1) < 0
    &&& forall|m: int| 0 <= m <= i ==> #[trigger] depth(toks, m) >= 0
}

/// The loop start at `i` and the loop end at `j` belong together: `j` is the first
/// position after `i` where the nesting depth falls back to what it was before `i`.
pub open spec fn matched(toks: Seq<Token>, i: int, j: int) -> bool {
    &&& 0 <= i < j < toks.len()
    &&& toks[i] is JumpZero
    &&& toks[j] is JumpNonZero
    &&& depth(toks, j + 1) == depth(toks, i)
    &&& forall|m: int| i < m <= j ==> #[trigger] depth(toks, m) > depth(toks, i)
}

/// Instruction `t` at position `i` is the resolved form of `toks[i]`.
pub open spec fn resolved_at(toks: Seq<Token>, t: Token, i: int) -> bool {
    match t {
        Token::JumpZero(j) => matched(toks, i, j as int),
        Token::JumpNonZero(j) => matched(toks, j as int, i),
        _ => t == toks[i],
    }
}

/// `res` is `toks` with every loop instruction pointing at its partner.
pub open spec fn resolved(toks: Seq<Token>, res: Seq<Token>) -> bool {
    &&& res.len() == toks.len()
    &&& forall|i: int| 0 <= i < toks.len() ==> #[trigger] resolved_at(toks, res[i], i)
}

/// What resolving the loops of `toks` yields: `res` on success, else the first
/// error met.
pub open spec fn resolution(
    toks: Seq<Token>,
    res: Seq<Token>,
    r: Result<(), TokenizeError>,
) -> bool {
    match r {
        Ok(()) => balanced(toks) && resolved(toks, res),
        Err(TokenizeError::UnmatchedLoopEnd(i)) => first_unmatched_end(toks, i as int),
        Err(TokenizeError::UnmatchedLoopStart(n)) => never_negative(toks) && n > 0 && depth(
            toks,
            toks.len() as int,
        ) == n,
    }
}

/// A resolved program has every loop target inside it.
pub proof fn lemma_resolved_in_range(toks: Seq<Token>, res: Seq<Token>)
    requires
        resolved(toks, res),
    ensures
        forall|i: int|
            0 <= i < res.len() ==> match #[trigger] res[i] {
                Token::JumpZero(j) => j < res.len(),
                Token::JumpNonZero(j) => j < res.len(),
                _ => true,
            },
{
    assert forall|i: int| 0 <= i < res.len() implies match #[trigger] res[i] {
        Token::JumpZero(j) => j < res.len(),
        Token::JumpNonZero(j) => j < res.len(),
        _ => true,
    } by {
        assert(resolved_at(toks, res[i], i));
    }
}

/// Which way resolution ends is fixed by the nesting depths alone: a prefix that
/// closes more loops than it opens gives `UnmatchedLoopEnd`, loops left open give
/// `UnmatchedLoopStart`, and a balanced sequence resolves.
pub proof fn lemma_resolution_outcome(
    toks: Seq<Token>,
    res: Seq<Token>,
    r: Result<(), TokenizeError>,
)
    requires
        resolution(toks, res, r),
    ensures
        !never_negative(toks) ==> r is Err && r->Err_0 is UnmatchedLoopEnd,
        never_negative(toks) && depth(toks, toks.len() as int) > 0 ==> r is Err
            && r->Err_0 is UnmatchedLoopStart,
        balanced(toks) ==> r is Ok,
{
}

/// A loop start has at most one partner, and so has a loop end.
pub proof fn lemma_matched_unique(toks: Seq<Token>, i: int, j: int, k: int)
    ensures
        matched(toks, i, j) && matched(toks, i, k) ==> j == k,
        matched(toks, j, i) && matched(toks, k, i) ==> j == k,
{
    if matched(toks, i, j) && matched(toks, i, k) && j != k {
        if j < k {
            assert(depth(toks, j + 1) > depth(toks, i));
        } else {
            assert(depth(toks, k + 1) > depth(toks, i));
        }
    }
    if matched(toks, j, i) && matched(toks, k, i) && j != k {
        assert(depth(toks, i + 1) == depth(toks, j));
        assert(depth(toks, i + 1) == depth(toks, k));
        if j < k {
            assert(depth(toks, k) > depth(toks, j));
        } else {
            assert(depth(toks, j) > depth(toks, k));
        }
    }
}

/// Run-length folding: a maximal run of `n` copies of a foldable operator becomes
/// exactly one instruction with count `n` (taken modulo 256 for cell changes),
/// and building goes on after the run.
pub proof fn lemma_run_folds(c: u8, n: nat, rest: Seq<u8>)
    requires
        is_foldable(c),
        n >= 1,
        rest.len() == 0 || rest[0] != c,
    ensures
        build(Seq::new(n, |i: int| c) + rest) == seq![fold_token(c, n)] + build(rest),
{
    let s = Seq::new(n, |i: int| c) + rest;
    lemma_run_len_of_run(c, n, rest);
    assert(s.skip(n as int) =~= rest);
}

proof fn lemma_run_len_of_run(c: u8, n: nat, rest: Seq<u8>)
    requires
        rest.len() == 0 || rest[0] != c,
    ensures
        run_len(Seq::new(n, |i: int| c) + rest, c) == n,
    decreases n,
{
    let s = Seq::new(n, |i: int| c) + rest;
    if n > 0 {
        lemma_run_len_of_run(c, (n - 1) as nat, rest);
        assert(s.drop_first() =~= Seq::new((n - 1) as nat, |i: int| c) + rest);
    } else {
        assert(s =~= rest);
    }
}

/// An ordered sequence of instructions.
pub struct Program {
    pub instr: Vec<Token>,
}

impl Program {
    /// Every loop target lies inside the program.
    pub open spec fn wf(&self) -> bool {
        forall|i: int|
            0 <= i < self.instr@.len() ==> match #[trigger] self.instr@[i] {
                Token::JumpZero(j) => j < self.instr@.len(),
                Token::JumpNonZero(j) => j < self.instr@.len(),
                _ => true,
            }
    }

    pub fn new() -> (r: Self)
        ensures
            r.instr@ == Seq::<Token>::empty(),
    {
        Self { instr: Vec::new() }
    }

    /// Counts the run of `instr` of which the lexer has just handed out the first
    /// byte, and leaves in `next_token` the first byte after the run.
    pub fn count_instr(&self, next_token: &mut Option<u8>, lexer: &mut Lexer, instr: u8) -> (count:
        usize)
        requires
            old(lexer).wf(),
            old(lexer).pending().len() < usize::MAX,
        ensures
            final(lexer).wf(),
            final(lexer).content@ == old(lexer).content@,
            count == 1 + run_len(old(lexer).pending(), instr),
            stream(*final(next_token), final(lexer).pending()) == old(lexer).pending().skip(
                run_len(old(lexer).pending(), instr) as int,
            ),
            final(next_token).is_none() ==> final(lexer).pending().len() == 0,
    {
        let ghost p0 = lexer.pending();
        let mut count: usize = 1;
        *next_token = lexer.next();
        assert(p0.skip(0) =~= p0);
        loop
            invariant
                lexer.wf(),
                lexer.content@ == old(lexer).content@,
                p0.len() < usize::MAX,
                1 <= count <= p0.len() + 1,
                stream(*next_token, lexer.pending()) == p0.skip(count - 1),
                run_len(p0, instr) == (count - 1) + run_len(p0.skip(count - 1), instr),
                next_token.is_none() ==> lexer.pending().len() == 0,
            ensures
                run_len(p0.skip(count - 1), instr) == 0,
            decreases p0.len() + 1 - count,
        {
            let more = match *next_token {
                Some(b) => b == instr,
                None => false,
            };
            if !more {
                assert(run_len(p0.skip(count - 1), instr) == 0);
                break ;
            }
            let ghost q = p0.skip(count - 1);
            assert(q.drop_first() =~= p0.skip(count as int));
            *next_token = lexer.next();
            count = count + 1;
        }
        count
    }

    /// Appends the instructions of the lexer's remaining source and resolves the loops
    /// of the whole program.
    pub fn tokenize(&mut self, lexer: &mut Lexer) -> (r: Result<(), TokenizeError>)
        requires
            old(lexer).wf(),
        ensures
            final(lexer).wf(),
            final(lexer).content@ == old(lexer).content@,
            final(lexer).pending().len() == 0,
            resolution(old(self).instr@ + build(old(lexer).pending()), final(self).instr@, r),
            r is Ok ==> final(self).wf(),
    {
        let ghost p0 = lexer.pending();
        let ghost start = self.instr@;
        proof {
            lemma_instrs_props(
                lexer.content@.subrange(lexer.cursor as int, lexer.content@.len() as int),
            );
        }
        let src_len = lexer.content.len();
        let mut next_token = lexer.next();
        assert(stream(next_token, lexer.pending()) =~= p0);
        while next_token.is_some()
            invariant
                lexer.wf(),
                lexer.content@ == old(lexer).content@,
                src_len == lexer.content@.len(),
                p0.len() <= src_len,
                stream(next_token, lexer.pending()).len() <= p0.len(),
                next_token.is_none() ==> lexer.pending().len() == 0,
                self.instr@ + build(stream(next_token, lexer.pending())) == start + build(p0),
            decreases stream(next_token, lexer.pending()).len(),
        {
            let c = next_token.unwrap();
            let ghost s = stream(next_token, lexer.pending());
            let ghost before = self.instr@;
            if c == OP_RIGHT || c == OP_LEFT || c == OP_INC || c == OP_DEC {
                let ghost rest = lexer.pending();
                let count = self.count_instr(&mut next_token, lexer, c);
                proof {
                    assert(s.drop_first() =~= rest);
                    assert(run_len(s, c) == count);
                    lemma_run_len_bound(rest, c);
                    assert(s.skip(count as int) =~= rest.skip(count - 1));
                }
                if c == OP_RIGHT {
                    self.instr.push(Token::IncPtr(count));
                } else if c == OP_LEFT {
                    self.instr.push(Token::DecPtr(count));
                } else if c == OP_INC {
                    self.instr.push(Token::IncByte((count % 256) as u8));
                } else {
                    self.instr.push(Token::DecByte((count % 256) as u8));
                }
                proof {
                    assert(build(s) == seq![fold_token(c, count as nat)] + build(
                        s.skip(count as int),
                    ));
                    assert(self.instr@ =~= before + seq![fold_token(c, count as nat)]);
                    assert(before + build(s) =~= self.instr@ + build(s.skip(count as int)));
                }
            } else {
                let t = if c == OP_OUTPUT {
                    Token::Output
                } else if c == OP_INPUT {
                    Token::Input
                } else if c == OP_LOOP_START {
                    Token::JumpZero(INVALID_JUMP_ADDR)
                } else {
                    Token::JumpNonZero(INVALID_JUMP_ADDR)
                };
                let ghost rest = lexer.pending();
                if lexer.is_instr(c) {
                    self.instr.push(t);
                }
                next_token = lexer.next();
                proof {
                    assert(s.drop_first() =~= rest);
                    assert(rest == stream(next_token, lexer.pending()));
                    if is_instr_byte(c) {
                        assert(self.instr@ =~= before + seq![single_token(c)]);
                        assert(before + build(s) =~= self.instr@ + build(rest));
                    }
                }
            }
        }
        self.backpatch_jump_addr()
    }

    /// Points every loop start at its matching loop end and every loop end at its
    /// matching loop start, pairing them by nesting.
    pub fn backpatch_jump_addr(&mut self) -> (r: Result<(), TokenizeError>)
        ensures
            resolution(old(self).instr@, final(self).instr@, r),
            r is Ok ==> final(self).wf(),
    {
        let ghost toks = self.instr@;
        let len = self.instr.len();
        let mut stack: Vec<usize> = Vec::new();
        let mut idx: usize = 0;
        while idx < len
            invariant
                len == toks.len(),
                toks == old(self).instr@,
                self.instr@.len() == len,
                idx <= len,
                forall|m: int| 0 <= m <= idx ==> #[trigger] depth(toks, m) >= 0,
                stack@.len() == depth(toks, idx as int),
                forall|k: int|
                    0 <= k < stack@.len() ==> {
                        &&& #[trigger] stack@[k] < idx
                        &&& toks[stack@[k] as int] is JumpZero
                        &&& depth(toks, stack@[k] as int) == k
                        &&& self.instr@[stack@[k] as int] == toks[stack@[k] as int]
                    },
                forall|k: int, m: int|
                    #![trigger stack@[k], depth(toks, m)]
                    0 <= k < stack@.len() && stack@[k] < m <= idx ==> depth(toks, m) > k,
                forall|i: int| idx <= i < len ==> #[trigger] self.instr@[i] == toks[i],
                forall|i: int|
                    0 <= i < idx ==> resolved_at(toks, #[trigger] self.instr@[i], i) || exists|
                        k: int,
                    |
                        0 <= k < stack@.len() && #[trigger] stack@[k] == i,
            decreases len - idx,
        {
            assert(depth(toks, idx + 1) == depth(toks, idx as int) + delta(toks[idx as int]));
            match self.instr[idx] {
                Token::JumpZero(_) => {
                    let ghost old_stack = stack@;
                    stack.push(idx);
                    proof {
                        assert(stack@[stack@.len() - 1] == idx);
                        assert forall|i: int| 0 <= i < idx + 1 implies resolved_at(
                            toks,
                            #[trigger] self.instr@[i],
                            i,
                        ) || exists|k: int|
                            0 <= k < stack@.len() && #[trigger] stack@[k] == i by {
                            if i == idx {
                                assert(stack@[stack@.len() - 1] == i);
                            } else if !resolved_at(toks, self.instr@[i], i) {
                                let k = choose|k: int|
                                    0 <= k < old_stack.len() && #[trigger] old_stack[k] == i;
                                assert(stack@[k] == i);
                            }
                        }
                    }
                },
                Token::JumpNonZero(_) => {
                    if stack.len() == 0 {
                        assert(self.instr@[idx as int] == toks[idx as int]);
                        assert(depth(toks, idx + 1) == -1);
                        return Err(TokenizeError::UnmatchedLoopEnd(idx));
                    }
                    let ghost old_stack = stack@;
                    let ghost old_instr = self.instr@;
                    let top = stack[stack.len() - 1];
                    stack.pop();
                    assert(stack@ =~= old_stack.drop_last());
                    proof {
                        let last = old_stack.len() - 1;
                        assert(old_stack[last] == top);
                        assert(matched(toks, top as int, idx as int));
                    }
                    self.instr.set(idx, Token::JumpNonZero(top));
                    self.instr.set(top, Token::JumpZero(idx));
                    proof {
                        let last = old_stack.len() - 1;
                        assert forall|k: int| 0 <= k < stack@.len() implies stack@[k] != top by {
                            assert(depth(toks, old_stack[k] as int) == k);
                            assert(depth(toks, old_stack[last] as int) == last);
                        }
                        assert forall|i: int| 0 <= i < idx + 1 implies resolved_at(
                            toks,
                            #[trigger] self.instr@[i],
                            i,
                        ) || exists|k: int|
                            0 <= k < stack@.len() && #[trigger] stack@[k] == i by {
                            if i == idx {
                                assert(self.instr@[i] == Token::JumpNonZero(top));
                            } else if i == top {
                                assert(self.instr@[i] == Token::JumpZero(idx));
                            } else {
                                assert(self.instr@[i] == old_instr[i]);
                                if !resolved_at(toks, old_instr[i], i) {
                                    let k = choose|k: int|
                                        0 <= k < old_stack.len() && #[trigger] old_stack[k] == i;
                                    assert(k != last);
                                    assert(stack@[k] == i);
                                }
                            }
                        }
                        assert forall|k: int, m: int|
                            #![trigger stack@[k], depth(toks, m)]
                            0 <= k < stack@.len() && stack@[k] < m <= idx + 1 implies depth(toks, m)
                                > k by {
                            assert(old_stack[k] == stack@[k]);
                        }
                    }
                },
                _ => {},
            }
            idx = idx + 1;
        }
        if stack.len() > 0 {
            return Err(TokenizeError::UnmatchedLoopStart(stack.len()));
        }
        proof {
            assert forall|i: int| 0 <= i < len implies #[trigger] resolved_at(
                toks,
                self.instr@[i],
                i,
            ) by {
                if !resolved_at(toks, self.instr@[i], i) {
                    let k = choose|k: int| 0 <= k < stack@.len() && #[trigger] stack@[k] == i;
                }
            }
            lemma_resolved_in_range(toks, self.instr@);
        }
        Ok(())
    }
}

} // verus!
