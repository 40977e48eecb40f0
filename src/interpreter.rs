use vstd::prelude::*;

use crate::lexer::instrs;
use crate::tokenizer::{build, resolution, Program, Token, TokenizeError};

verus! {

/// Number of cells on the tape; the generated module uses the same tape.
pub const TAPE_LEN: usize = 30000;

/// The cell value after adding `n` to `v`, modulo 256.
pub open spec fn add_wrap(v: u8, n: u8) -> u8 {
    ((v + n) % 256) as u8
}

/// The cell value after subtracting `n` from `v`, modulo 256.
pub open spec fn sub_wrap(v: u8, n: u8) -> u8 {
    ((v - n + 256) % 256) as u8
}

/// The abstract state of an interpreter: the tape, the data pointer and the
/// index of the next instruction.
pub struct Machine {
    pub cells: Seq<u8>,
    pub data_ptr: int,
    pub instr_ptr: int,
}

/// What one step of execution did, or why it did nothing.
#[derive(Debug, Clone, Copy, PartialEq, Eq, Structural)]
pub enum Event {
    /// An instruction ran and wrote nothing.
    Continue,
    /// An output instruction ran and wrote this byte.
    Output(u8),
    /// The next instruction reads a byte: supply it with `feed`.
    NeedInput,
    /// The instruction pointer is past the end of the program.
    Halted,
    /// The next instruction would move the data pointer off the tape; nothing ran.
    TapeOutOfBounds,
}

/// How a run ended.
#[derive(Debug, Clone, Copy, PartialEq, Eq, Structural)]
pub enum Outcome {
    /// The program ran to its end.
    Halted,
    /// The instruction at this index would have moved the data pointer off the tape.
    TapeOutOfBounds(usize),
    /// The input instruction at this index found no byte left.
    InputExhausted(usize),
    /// The step budget ran out before the program ended.
    OutOfFuel,
}

/// One step from `m`, for any instruction but an input: the next state and what
/// happened.
pub open spec fn step_spec(prog: Seq<Token>, m: Machine) -> (Machine, Event) {
    if m.instr_ptr >= prog.len() {
        (m, Event::Halted)
    } else {
        let v = m.cells[m.data_ptr];
        let next = Machine { instr_ptr: m.instr_ptr + 1, ..m };
        match prog[m.instr_ptr] {
            Token::IncPtr(n) => if m.data_ptr + n < m.cells.len() {
                (Machine { data_ptr: m.data_ptr + n, ..next }, Event::Continue)
            } else {
                (m, Event::TapeOutOfBounds)
            },
            Token::DecPtr(n) => if m.data_ptr >= n {
                (Machine { data_ptr: m.data_ptr - n, ..next }, Event::Continue)
            } else {
                (m, Event::TapeOutOfBounds)
            },
            Token::IncByte(n) => (
                Machine { cells: m.cells.update(m.data_ptr, add_wrap(v, n)), ..next },
                Event::Continue,
            ),
            Token::DecByte(n) => (
                Machine { cells: m.cells.update(m.data_ptr, sub_wrap(v, n)), ..next },
                Event::Continue,
            ),
            Token::Output => (next, Event::Output(v)),
            Token::Input => (m, Event::NeedInput),
            Token::JumpZero(t) => if v == 0 {
                (Machine { instr_ptr: t + 1, ..m }, Event::Continue)
            } else {
                (next, Event::Continue)
            },
            Token::JumpNonZero(t) => if v != 0 {
                (Machine { instr_ptr: t + 1, ..m }, Event::Continue)
            } else {
                (next, Event::Continue)
            },
        }
    }
}

/// The state after an input instruction has read `b`.
pub open spec fn feed_spec(m: Machine, b: u8) -> Machine {
    Machine { cells: m.cells.update(m.data_ptr, b), instr_ptr: m.instr_ptr + 1, ..m }
}

/// Runs `prog` from `m` on `input` for at most `fuel` instructions: the final state,
/// the bytes written and how the run ended.
pub open spec fn run_spec(prog: Seq<Token>, m: Machine, input: Seq<u8>, fuel: nat) -> (
    Machine,
    Seq<u8>,
    Outcome,
)
    decreases fuel,
{
    if m.instr_ptr >= prog.len() {
        (m, seq![], Outcome::Halted)
    } else if fuel == 0 {
        (m, seq![], Outcome::OutOfFuel)
    } else {
        let (m2, ev) = step_spec(prog, m);
        match ev {
            Event::TapeOutOfBounds => (m, seq![], Outcome::TapeOutOfBounds(m.instr_ptr as usize)),
            Event::NeedInput => if input.len() == 0 {
                (m, seq![], Outcome::InputExhausted(m.instr_ptr as usize))
            } else {
                run_spec(prog, feed_spec(m, input[0]), input.drop_first(), (fuel - 1) as nat)
            },
            Event::Output(b) => {
                let r = run_spec(prog, m2, input, (fuel - 1) as nat);
                (r.0, seq![b] + r.1, r.2)
            },
            _ => run_spec(prog, m2, input, (fuel - 1) as nat),
        }
    }
}

/// Cells wrap around: adding one to 255 gives 0, and subtracting one from 0 gives 255.
pub proof fn lemma_wraparound(prog: Seq<Token>, m: Machine)
    requires
        0 <= m.data_ptr < m.cells.len(),
        0 <= m.instr_ptr < prog.len(),
    ensures
        prog[m.instr_ptr] == Token::IncByte(1) && m.cells[m.data_ptr] == 255 ==> step_spec(
            prog,
            m,
        ).0.cells[m.data_ptr] == 0,
        prog[m.instr_ptr] == Token::DecByte(1) && m.cells[m.data_ptr] == 0 ==> step_spec(
            prog,
            m,
        ).0.cells[m.data_ptr] == 255,
{
}

/// A source without operator bytes gives an empty program that resolves without
/// error and, from any state, ends at once with no output.
pub proof fn lemma_comment_only_source(
    src: Seq<u8>,
    res: Seq<Token>,
    r: Result<(), TokenizeError>,
    m: Machine,
    input: Seq<u8>,
    fuel: nat,
)
    requires
        instrs(src).len() == 0,
        resolution(build(instrs(src)), res, r),
        m.instr_ptr >= 0,
    ensures
        r is Ok,
        res.len() == 0,
        run_spec(res, m, input, fuel) == (m, Seq::<u8>::empty(), Outcome::Halted),
{
    assert(build(instrs(src)) =~= Seq::<Token>::empty());
}

/// A tape of byte cells, a data pointer into it and an instruction pointer.
pub struct Interpreter {
    pub cells: Vec<u8>,
    pub data_ptr: usize,
    pub instr_ptr: usize,
}

impl View for Interpreter {
    type V = Machine;

    open spec fn view(&self) -> Machine {
        Machine {
            cells: self.cells@,
            data_ptr: self.data_ptr as int,
            instr_ptr: self.instr_ptr as int,
        }
    }
}

impl Interpreter {
    /// The data pointer is on the tape.
    pub open spec fn wf(&self) -> bool {
        self.data_ptr < self.cells@.len()
    }

    /// A zeroed tape of `TAPE_LEN` cells, both pointers at 0.
    pub fn new() -> (r: Self)
        ensures
            r.wf(),
            r.cells@ == Seq::new(TAPE_LEN as nat, |i: int| 0u8),
            r.data_ptr == 0,
            r.instr_ptr == 0,
    {
        let r = Self { cells: vec![0; TAPE_LEN], data_ptr: 0, instr_ptr: 0 };
        assert(r.cells@ =~= Seq::new(TAPE_LEN as nat, |i: int| 0u8));
        r
    }

    /// Runs the next instruction unless it is an input, which waits for `feed`.
    pub fn step(&mut self, prog: &Program) -> (ev: Event)
        requires
            old(self).wf(),
            prog.wf(),
            old(self).instr_ptr <= prog.instr@.len(),
        ensures
            final(self).wf(),
            final(self).instr_ptr <= prog.instr@.len(),
            (final(self)@, ev) == step_spec(prog.instr@, old(self)@),
    {
        if self.instr_ptr >= prog.instr.len() {
            return Event::Halted;
        }
        let dp = self.data_ptr;
        match prog.instr[self.instr_ptr] {
            Token::IncPtr(count) => {
                if count >= self.cells.len() - dp {
                    return Event::TapeOutOfBounds;
                }
                self.data_ptr = dp + count;
            },
            Token::DecPtr(count) => {
                if dp < count {
                    return Event::TapeOutOfBounds;
                }
                self.data_ptr = dp - count;
            },
            Token::IncByte(count) => {
                let v = self.cells[dp].wrapping_add(count);
                self.cells.set(dp, v);
            },
            Token::DecByte(count) => {
                let v = self.cells[dp].wrapping_sub(count);
                self.cells.set(dp, v);
            },
            Token::Output => {
                let v = self.cells[dp];
                self.instr_ptr = self.instr_ptr + 1;
                return Event::Output(v);
            },
            Token::Input => {
                return Event::NeedInput;
            },
            Token::JumpZero(jump_addr) => {
                if self.cells[dp] == 0 {
                    self.instr_ptr = jump_addr;
                }
            },
            Token::JumpNonZero(jump_addr) => {
                if self.cells[dp] != 0 {
                    self.instr_ptr = jump_addr;
                }
            },
        }
        self.instr_ptr = self.instr_ptr + 1;
        assert(self.cells@ =~= step_spec(prog.instr@, old(self)@).0.cells);
        Event::Continue
    }

    /// Stores the byte read by the input instruction under the instruction pointer,
    /// and moves past it.
    pub fn feed(&mut self, prog: &Program, byte: u8)
        requires
            old(self).wf(),
            old(self).instr_ptr < prog.instr@.len(),
            prog.instr@[old(self).instr_ptr as int] == Token::Input,
        ensures
            final(self).wf(),
            final(self)@ == feed_spec(old(self)@, byte),
    {
        if self.instr_ptr < prog.instr.len() {
            self.cells.set(self.data_ptr, byte);
            self.instr_ptr = self.instr_ptr + 1;
        }
    }

    /// Runs `prog` from the current state for at most `fuel` instructions, reading
    /// from `input` and appending what it writes to `output`.
    pub fn run(&mut self, prog: &Program, input: &Vec<u8>, output: &mut Vec<u8>, fuel: usize) -> (r:
        Outcome)
        requires
            old(self).wf(),
            prog.wf(),
            old(self).instr_ptr <= prog.instr@.len(),
        ensures
            final(self).wf(),
            ({
                let (m, out, outcome) = run_spec(prog.instr@, old(self)@, input@, fuel as nat);
                &&& final(self)@ == m
                &&& final(output)@ == old(output)@ + out
                &&& r == outcome
            }),
    {
        let ghost goal = run_spec(prog.instr@, self@, input@, fuel as nat);
        let ghost emitted: Seq<u8> = seq![];
        let mut fuel_left = fuel;
        let mut pos: usize = 0;
        assert(input@.skip(0) =~= input@);
        assert(output@ =~= old(output)@ + emitted);
        loop
            invariant
                self.wf(),
                prog.wf(),
                self.instr_ptr <= prog.instr@.len(),
                pos <= input@.len(),
                output@ == old(output)@ + emitted,
                goal == run_spec(prog.instr@, old(self)@, input@, fuel as nat),
                goal == ({
                    let r = run_spec(prog.instr@, self@, input@.skip(pos as int), fuel_left as nat);
                    (r.0, emitted + r.1, r.2)
                }),
            decreases fuel_left,
        {
            let ghost m0 = self@;
            let ghost rest = input@.skip(pos as int);
            let ghost now = run_spec(prog.instr@, m0, rest, fuel_left as nat);
            if self.instr_ptr >= prog.instr.len() {
                assert(emitted + now.1 =~= emitted);
                return Outcome::Halted;
            }
            if fuel_left == 0 {
                assert(emitted + now.1 =~= emitted);
                return Outcome::OutOfFuel;
            }
            let ip = self.instr_ptr;
            let ev = self.step(prog);
            match ev {
                Event::TapeOutOfBounds => {
                    assert(emitted + now.1 =~= emitted);
                    return Outcome::TapeOutOfBounds(ip);
                },
                Event::NeedInput => {
                    if pos >= input.len() {
                        assert(emitted + now.1 =~= emitted);
                        return Outcome::InputExhausted(ip);
                    }
                    self.feed(prog, input[pos]);
                    assert(rest.drop_first() =~= input@.skip(pos + 1));
                    pos = pos + 1;
                },
                Event::Output(b) => {
                    output.push(b);
                    proof {
                        let later = run_spec(prog.instr@, self@, rest, (fuel_left - 1) as nat);
                        assert(now.1 == seq![b] + later.1);
                        assert(emitted + now.1 =~= (emitted + seq![b]) + later.1);
                        emitted = emitted + seq![b];
                    }
                },
                _ => {},
            }
            fuel_left = fuel_left - 1;
        }
    }
}

} // verus!
