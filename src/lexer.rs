use vstd::prelude::*;

verus! {

/// `>`: move the data pointer right.
pub const OP_RIGHT: u8 = 0x3e;
/// `<`: move the data pointer left.
pub const OP_LEFT: u8 = 0x3c;
/// `+`: increment the current cell.
pub const OP_INC: u8 = 0x2b;
/// `-`: decrement the current cell.
pub const OP_DEC: u8 = 0x2d;
/// `.`: output the current cell.
pub const OP_OUTPUT: u8 = 0x2e;
/// `,`: read one byte into the current cell.
pub const OP_INPUT: u8 = 0x2c;
/// `[`: loop start.
pub const OP_LOOP_START: u8 = 0x5b;
/// `]`: loop end.
pub const OP_LOOP_END: u8 = 0x5d;

/// Whether a byte is one of the eight operator characters `> < + - . , [ ]`.
pub open spec fn is_instr_byte(b: u8) -> bool {
    b == OP_RIGHT || b == OP_LEFT || b == OP_INC || b == OP_DEC || b == OP_OUTPUT || b
        == OP_INPUT || b == OP_LOOP_START || b == OP_LOOP_END
}

/// The operator bytes of `s`, in their original order; every other byte is a comment.
pub open spec fn instrs(s: Seq<u8>) -> Seq<u8>
    decreases s.len(),
{
    if s.len() == 0 {
        seq![]
    } else if is_instr_byte(s[0]) {
        seq![s[0]] + instrs(s.drop_first())
    } else {
        instrs(s.drop_first())
    }
}

/// Filtering never makes a sequence longer, and keeps only operator bytes.
pub proof fn lemma_instrs_props(s: Seq<u8>)
    ensures
        instrs(s).len() <= s.len(),
        forall|i: int| 0 <= i < instrs(s).len() ==> is_instr_byte(#[trigger] instrs(s)[i]),
    decreases s.len(),
{
    if s.len() > 0 {
        lemma_instrs_props(s.drop_first());
        if is_instr_byte(s[0]) {
            let r = instrs(s.drop_first());
            assert forall|i: int| 0 <= i < instrs(s).len() implies is_instr_byte(
                #[trigger] instrs(s)[i],
            ) by {
                if i > 0 {
                    assert(instrs(s)[i] == r[i - 1]);
                }
            }
        }
    }
}

/// A single-pass cursor over raw source bytes that yields only operator bytes.
pub struct Lexer {
    pub content: Vec<u8>,
    pub cursor: usize,
}

impl Lexer {
    pub open spec fn wf(&self) -> bool {
        self.cursor <= self.content@.len()
    }

    /// The operator bytes that are still to be yielded.
    pub open spec fn pending(&self) -> Seq<u8> {
        instrs(self.content@.subrange(self.cursor as int, self.content@.len() as int))
    }

    pub fn new(content: Vec<u8>) -> (r: Self)
        ensures
            r.wf(),
            r.content@ == content@,
            r.cursor == 0,
            r.pending() == instrs(content@),
    {
        let r = Self { content, cursor: 0 };
        assert(r.content@.subrange(0, r.content@.len() as int) =~= content@);
        r
    }

    pub fn is_instr(&self, code: u8) -> (r: bool)
        ensures
            r == is_instr_byte(code),
    {
        code == OP_RIGHT || code == OP_LEFT || code == OP_INC || code == OP_DEC || code
            == OP_OUTPUT || code == OP_INPUT || code == OP_LOOP_START || code == OP_LOOP_END
    }

    /// Yields the next operator byte, skipping comment bytes, or `None` at the end of input.
    pub fn next(&mut self) -> (r: Option<u8>)
        requires
            old(self).wf(),
        ensures
            final(self).wf(),
            final(self).content@ == old(self).content@,
            match r {
                None => old(self).pending().len() == 0 && final(self).pending().len() == 0,
                Some(b) => old(self).pending().len() > 0 && b == old(self).pending()[0]
                    && final(self).pending() == old(self).pending().drop_first(),
            },
    {
        let ghost start = self.pending();
        let len = self.content.len();
        while self.cursor < len && !self.is_instr(self.content[self.cursor])
            invariant
                self.wf(),
                len == self.content@.len(),
                self.content@ == old(self).content@,
                self.pending() == start,
            decreases len - self.cursor,
        {
            let ghost rest = self.content@.subrange(self.cursor as int, len as int);
            assert(rest.drop_first() =~= self.content@.subrange(
                self.cursor + 1,
                len as int,
            ));
            self.cursor = self.cursor + 1;
        }
        if self.cursor >= len {
            assert(self.content@.subrange(self.cursor as int, len as int) =~= Seq::<u8>::empty());
            return None;
        }
        let ghost rest = self.content@.subrange(self.cursor as int, len as int);
        assert(rest.drop_first() =~= self.content@.subrange(self.cursor + 1, len as int));
        let res = Some(self.content[self.cursor]);
        self.cursor = self.cursor + 1;
        res
    }
}

} // verus!
