use vstd::prelude::*;

use crate::interpreter::TAPE_LEN;
use crate::tokenizer::{Program, Token};

verus! {

/// The decimal digit `d`.
pub open spec fn digit_char(d: nat) -> char {
    seq!['0', '1', '2', '3', '4', '5', '6', '7', '8', '9'][d as int]
}

/// `n` written in decimal, without leading zeros.
pub open spec fn decimal(n: nat) -> Seq<char>
    decreases n,
{
    if n < 10 {
        seq![digit_char(n)]
    } else {
        decimal(n / 10) + seq![digit_char(n % 10)]
    }
}

/// `x` if `b`, else `y`.
pub open spec fn pick(b: bool, x: Seq<char>, y: Seq<char>) -> Seq<char> {
    if b {
        x
    } else {
        y
    }
}

fn pick_str(b: bool, x: &'static str, y: &'static str) -> (r: &'static str)
    ensures
        r@ == pick(b, x@, y@),
{
    if b {
        x
    } else {
        y
    }
}

fn digit_str(d: u64) -> (r: &'static str)
    requires
        d < 10,
    ensures
        r@ == seq![digit_char(d as nat)],
{
    proof {
        reveal_strlit("0");
        reveal_strlit("1");
        reveal_strlit("2");
        reveal_strlit("3");
        reveal_strlit("4");
        reveal_strlit("5");
        reveal_strlit("6");
        reveal_strlit("7");
        reveal_strlit("8");
        reveal_strlit("9");
    }
    let r = if d == 0 {
        "0"
    } else if d == 1 {
        "1"
    } else if d == 2 {
        "2"
    } else if d == 3 {
        "3"
    } else if d == 4 {
        "4"
    } else if d == 5 {
        "5"
    } else if d == 6 {
        "6"
    } else if d == 7 {
        "7"
    } else if d == 8 {
        "8"
    } else {
        "9"
    };
    assert(r@ =~= seq![digit_char(d as nat)]);
    r
}

/// Appends `n` in decimal.
fn push_decimal(out: &mut String, n: u64)
    ensures
        final(out)@ == old(out)@ + decimal(n as nat),
    decreases n,
{
    if n >= 10 {
        push_decimal(out, n / 10);
        out.append(digit_str(n % 10));
        assert(final(out)@ =~= old(out)@ + decimal(n as nat));
    } else {
        out.append(digit_str(n));
    }
}

/// Moves the data pointer by `n` cells, backwards if `backward`; uses registers `v` and `v + 1`.
pub open spec fn ptr_move_text(n: nat, backward: bool, v: nat) -> Seq<char> {
    "  ; Advance %data_ptr by "@
        + pick(backward, "-"@, ""@)
        + decimal(n)
        + "\n  %"@
        + decimal(v)
        + " = load ptr, ptr %data_ptr, align 8\n  %"@
        + decimal(v + 1)
        + " = getelementptr inbounds i8, ptr %"@
        + decimal(v)
        + ", i64 "@
        + pick(backward, "-"@, ""@)
        + decimal(n)
        + "\n  store ptr %"@
        + decimal(v + 1)
        + ", ptr %data_ptr, align 8\n\n"@
}

/// Adds `n` to the current cell, or subtracts it if `decrement`; uses registers `v` to `v + 2`.
pub open spec fn value_change_text(n: nat, decrement: bool, v: nat) -> Seq<char> {
    "  ; "@
        + pick(decrement, "Decrement"@, "Increment"@)
        + " value at %data_ptr by "@
        + decimal(n)
        + "\n  %"@
        + decimal(v)
        + " = load ptr, ptr %data_ptr, align 8\n  %"@
        + decimal(v + 1)
        + " = load i8, ptr %"@
        + decimal(v)
        + ", align 1\n  %"@
        + decimal(v + 2)
        + " = "@
        + pick(decrement, "sub"@, "add"@)
        + " i8 %"@
        + decimal(v + 1)
        + ", "@
        + decimal(n)
        + "\n  store i8 %"@
        + decimal(v + 2)
        + ", ptr %"@
        + decimal(v)
        + ", align 1\n\n"@
}

/// Writes the current cell to the output stream; uses registers `v` to `v + 4`.
pub open spec fn output_text(v: nat) -> Seq<char> {
    "  ; Print value at %data_ptr\n  %"@
        + decimal(v)
        + " = load ptr, ptr %data_ptr, align 8\n  %"@
        + decimal(v + 1)
        + " = load i8, ptr %"@
        + decimal(v)
        + ", align 1\n  %"@
        + decimal(v + 2)
        + " = zext i8 %"@
        + decimal(v + 1)
        + " to i32\n  %"@
        + decimal(v + 3)
        + " = load ptr, ptr @__stdoutp, align 8\n  %"@
        + decimal(v + 4)
        + " = call i32 @putc(i32 %"@
        + decimal(v + 2)
        + ", ptr %"@
        + decimal(v + 3)
        + ")\n\n"@
}

/// Reads one unit from the input stream into the current cell; uses registers `v` to `v + 3`.
pub open spec fn input_text(v: nat) -> Seq<char> {
    "  ; Read value from stdin into %data_ptr\n  %"@
        + decimal(v)
        + " = load ptr, ptr @__stdinp, align 8\n  %"@
        + decimal(v + 1)
        + " = call i32 @getc(ptr %"@
        + decimal(v)
        + ")\n  %"@
        + decimal(v + 2)
        + " = trunc i32 %"@
        + decimal(v + 1)
        + " to i8\n  %"@
        + decimal(v + 3)
        + " = load ptr, ptr %data_ptr, align 8\n  store i8 %"@
        + decimal(v + 2)
        + ", ptr %"@
        + decimal(v + 3)
        + ", align 1\n\n"@
}

/// Branches to label `target` when the current cell is zero (`eq_zero`) or non-zero, else falls
/// through to the label of position `at`; uses registers `v` to `v + 2`.
pub open spec fn jump_text(eq_zero: bool, target: nat, at: nat, v: nat) -> Seq<char> {
    "  ; Jump to l"@
        + decimal(target)
        + " if value at %data_ptr is "@
        + pick(eq_zero, "zero"@, "non-zero"@)
        + "\n  %"@
        + decimal(v)
        + " = load ptr, ptr %data_ptr, align 8\n  %"@
        + decimal(v + 1)
        + " = load i8, ptr %"@
        + decimal(v)
        + ", align 1\n  %"@
        + decimal(v + 2)
        + " = icmp "@
        + pick(eq_zero, "eq"@, "ne"@)
        + " i8 %"@
        + decimal(v + 1)
        + ", 0\n  br i1 %"@
        + decimal(v + 2)
        + ", label %l"@
        + decimal(target)
        + ", label %l"@
        + decimal(at)
        + "\nl"@
        + decimal(at)
        + ":\n\n"@
}

/// Appends the code that moves the data pointer; returns the next free register.
fn increment_data_pointer(out: &mut String, count: u64, backward: bool, var_counter: u64) -> (next: u64)
    requires
        var_counter + 2 <= u64::MAX,
    ensures
        final(out)@ == old(out)@ + ptr_move_text(count as nat, backward, var_counter as nat),
        next == var_counter + 2,
{
    let mut s = String::from_str("  ; Advance %data_ptr by ");
    s.append(pick_str(backward, "-", ""));
    push_decimal(&mut s, count);
    s.append("\n  %");
    push_decimal(&mut s, var_counter);
    s.append(" = load ptr, ptr %data_ptr, align 8\n  %");
    push_decimal(&mut s, var_counter + 1);
    s.append(" = getelementptr inbounds i8, ptr %");
    push_decimal(&mut s, var_counter);
    s.append(", i64 ");
    s.append(pick_str(backward, "-", ""));
    push_decimal(&mut s, count);
    s.append("\n  store ptr %");
    push_decimal(&mut s, var_counter + 1);
    s.append(", ptr %data_ptr, align 8\n\n");
    out.append(s.as_str());
    var_counter + 2
}

/// Appends the code that changes the current cell; returns the next free register.
fn increment_value(out: &mut String, count: u64, decrement: bool, var_counter: u64) -> (next: u64)
    requires
        var_counter + 3 <= u64::MAX,
    ensures
        final(out)@ == old(out)@ + value_change_text(count as nat, decrement, var_counter as nat),
        next == var_counter + 3,
{
    let mut s = String::from_str("  ; ");
    s.append(pick_str(decrement, "Decrement", "Increment"));
    s.append(" value at %data_ptr by ");
    push_decimal(&mut s, count);
    s.append("\n  %");
    push_decimal(&mut s, var_counter);
    s.append(" = load ptr, ptr %data_ptr, align 8\n  %");
    push_decimal(&mut s, var_counter + 1);
    s.append(" = load i8, ptr %");
    push_decimal(&mut s, var_counter);
    s.append(", align 1\n  %");
    push_decimal(&mut s, var_counter + 2);
    s.append(" = ");
    s.append(pick_str(decrement, "sub", "add"));
    s.append(" i8 %");
    push_decimal(&mut s, var_counter + 1);
    s.append(", ");
    push_decimal(&mut s, count);
    s.append("\n  store i8 %");
    push_decimal(&mut s, var_counter + 2);
    s.append(", ptr %");
    push_decimal(&mut s, var_counter);
    s.append(", align 1\n\n");
    out.append(s.as_str());
    var_counter + 3
}

/// Appends the code that writes the current cell; returns the next free register.
fn print_value(out: &mut String, var_counter: u64) -> (next: u64)
    requires
        var_counter + 5 <= u64::MAX,
    ensures
        final(out)@ == old(out)@ + output_text(var_counter as nat),
        next == var_counter + 5,
{
    let mut s = String::from_str("  ; Print value at %data_ptr\n  %");
    push_decimal(&mut s, var_counter);
    s.append(" = load ptr, ptr %data_ptr, align 8\n  %");
    push_decimal(&mut s, var_counter + 1);
    s.append(" = load i8, ptr %");
    push_decimal(&mut s, var_counter);
    s.append(", align 1\n  %");
    push_decimal(&mut s, var_counter + 2);
    s.append(" = zext i8 %");
    push_decimal(&mut s, var_counter + 1);
    s.append(" to i32\n  %");
    push_decimal(&mut s, var_counter + 3);
    s.append(" = load ptr, ptr @__stdoutp, align 8\n  %");
    push_decimal(&mut s, var_counter + 4);
    s.append(" = call i32 @putc(i32 %");
    push_decimal(&mut s, var_counter + 2);
    s.append(", ptr %");
    push_decimal(&mut s, var_counter + 3);
    s.append(")\n\n");
    out.append(s.as_str());
    var_counter + 5
}

/// Appends the code that reads into the current cell; returns the next free register.
fn read_value(out: &mut String, var_counter: u64) -> (next: u64)
    requires
        var_counter + 4 <= u64::MAX,
    ensures
        final(out)@ == old(out)@ + input_text(var_counter as nat),
        next == var_counter + 4,
{
    let mut s = String::from_str("  ; Read value from stdin into %data_ptr\n  %");
    push_decimal(&mut s, var_counter);
    s.append(" = load ptr, ptr @__stdinp, align 8\n  %");
    push_decimal(&mut s, var_counter + 1);
    s.append(" = call i32 @getc(ptr %");
    push_decimal(&mut s, var_counter);
    s.append(")\n  %");
    push_decimal(&mut s, var_counter + 2);
    s.append(" = trunc i32 %");
    push_decimal(&mut s, var_counter + 1);
    s.append(" to i8\n  %");
    push_decimal(&mut s, var_counter + 3);
    s.append(" = load ptr, ptr %data_ptr, align 8\n  store i8 %");
    push_decimal(&mut s, var_counter + 2);
    s.append(", ptr %");
    push_decimal(&mut s, var_counter + 3);
    s.append(", align 1\n\n");
    out.append(s.as_str());
    var_counter + 4
}

/// Appends a conditional branch and the label of this position; returns the next free register.
fn conditional_jump(out: &mut String, eq_zero: bool, jump_addr: u64, this_addr: u64, var_counter: u64) -> (next: u64)
    requires
        var_counter + 3 <= u64::MAX,
    ensures
        final(out)@ == old(out)@ + jump_text(eq_zero, jump_addr as nat, this_addr as nat, var_counter as nat),
        next == var_counter + 3,
{
    let mut s = String::from_str("  ; Jump to l");
    push_decimal(&mut s, jump_addr);
    s.append(" if value at %data_ptr is ");
    s.append(pick_str(eq_zero, "zero", "non-zero"));
    s.append("\n  %");
    push_decimal(&mut s, var_counter);
    s.append(" = load ptr, ptr %data_ptr, align 8\n  %");
    push_decimal(&mut s, var_counter + 1);
    s.append(" = load i8, ptr %");
    push_decimal(&mut s, var_counter);
    s.append(", align 1\n  %");
    push_decimal(&mut s, var_counter + 2);
    s.append(" = icmp ");
    s.append(pick_str(eq_zero, "eq", "ne"));
    s.append(" i8 %");
    push_decimal(&mut s, var_counter + 1);
    s.append(", 0\n  br i1 %");
    push_decimal(&mut s, var_counter + 2);
    s.append(", label %l");
    push_decimal(&mut s, jump_addr);
    s.append(", label %l");
    push_decimal(&mut s, this_addr);
    s.append("\nl");
    push_decimal(&mut s, this_addr);
    s.append(":\n\n");
    out.append(s.as_str());
    var_counter + 3
}

/// The code for one instruction at position `at`, whose first register is `v`.
pub open spec fn token_text(t: Token, at: nat, v: nat) -> Seq<char> {
    match t {
        Token::IncPtr(n) => ptr_move_text(n as nat, false, v),
        Token::DecPtr(n) => ptr_move_text(n as nat, true, v),
        Token::IncByte(n) => value_change_text(n as nat, false, v),
        Token::DecByte(n) => value_change_text(n as nat, true, v),
        Token::Output => output_text(v),
        Token::Input => input_text(v),
        Token::JumpZero(target) => jump_text(true, target as nat, at, v),
        Token::JumpNonZero(target) => jump_text(false, target as nat, at, v),
    }
}

/// How many registers the code for `t` defines.
pub open spec fn reg_width(t: Token) -> nat {
    match t {
        Token::IncPtr(_) | Token::DecPtr(_) => 2,
        Token::IncByte(_) | Token::DecByte(_) => 3,
        Token::Output => 5,
        Token::Input => 4,
        Token::JumpZero(_) | Token::JumpNonZero(_) => 3,
    }
}

/// The first register of the code for instruction `k`; numbering starts at 1.
pub open spec fn first_reg(toks: Seq<Token>, k: int) -> nat
    decreases k,
{
    if k <= 0 {
        1
    } else {
        first_reg(toks, k - 1) + reg_width(toks[k - 1])
    }
}

/// The code for the first `k` instructions.
pub open spec fn body_text(toks: Seq<Token>, k: int) -> Seq<char>
    decreases k,
{
    if k <= 0 {
        seq![]
    } else {
        body_text(toks, k - 1) + token_text(toks[k - 1], (k - 1) as nat, first_reg(toks, k - 1))
    }
}

/// The tape buffer, the two stream handles and the prologue of `main`.
pub open spec fn preamble_text() -> Seq<char> {
    "@buffer = internal global ["@ + decimal(TAPE_LEN as nat)
        + " x i8] zeroinitializer, align 1\n\n@__stdoutp = external global ptr, align 8\n@__stdinp = external global ptr, align 8\n\ndefine i32 @main() {\n  ; Get address of buffer and save it to ptr\n  %data_ptr = alloca ptr, align 8\n  store ptr @buffer, ptr %data_ptr, align 8\n\n"@
}

/// The return from `main` and the declarations of the two stream primitives.
pub open spec fn trailer_text() -> Seq<char> {
    "  ret i32 0\n}\n\ndeclare i32 @putc(i32, ptr)\ndeclare i32 @getc(ptr)\n"@
}

/// The whole module generated for `toks`.
pub open spec fn module_text(toks: Seq<Token>) -> Seq<char> {
    preamble_text() + body_text(toks, toks.len() as int) + trailer_text()
}

proof fn lemma_first_reg_bound(toks: Seq<Token>, k: int)
    requires
        0 <= k <= toks.len(),
    ensures
        first_reg(toks, k) <= 1 + 5 * k,
    decreases k,
{
    if k > 0 {
        lemma_first_reg_bound(toks, k - 1);
    }
}

/// The number of instructions above which register numbers would not fit in `u64`.
pub const MAX_PROGRAM_LEN: u64 = 0x1000_0000_0000_0000;

/// The intermediate-representation module for `prog`, with one block per loop
/// instruction; the same program always gives the same text.
pub fn transpile(prog: &Program) -> (text: String)
    requires
        prog.instr@.len() <= MAX_PROGRAM_LEN,
    ensures
        text@ == module_text(prog.instr@),
{
    let ghost toks = prog.instr@;
    let mut out = String::from_str("@buffer = internal global [");
    push_decimal(&mut out, TAPE_LEN as u64);
    out.append(
        " x i8] zeroinitializer, align 1\n\n@__stdoutp = external global ptr, align 8\n@__stdinp = external global ptr, align 8\n\ndefine i32 @main() {\n  ; Get address of buffer and save it to ptr\n  %data_ptr = alloca ptr, align 8\n  store ptr @buffer, ptr %data_ptr, align 8\n\n",
    );
    assert(out@ =~= preamble_text() + body_text(toks, 0));
    let len = prog.instr.len();
    let mut var_counter: u64 = 1;
    let mut this_addr: usize = 0;
    while this_addr < len
        invariant
            toks == prog.instr@,
            len == toks.len(),
            len <= MAX_PROGRAM_LEN,
            this_addr <= len,
            var_counter == first_reg(toks, this_addr as int),
            out@ == preamble_text() + body_text(toks, this_addr as int),
        decreases len - this_addr,
    {
        proof {
            lemma_first_reg_bound(toks, this_addr as int);
        }
        let ghost before = out@;
        let at = this_addr as u64;
        var_counter = match prog.instr[this_addr] {
            Token::IncPtr(count) => increment_data_pointer(&mut out, count as u64, false, var_counter),
            Token::DecPtr(count) => increment_data_pointer(&mut out, count as u64, true, var_counter),
            Token::IncByte(count) => increment_value(&mut out, count as u64, false, var_counter),
            Token::DecByte(count) => increment_value(&mut out, count as u64, true, var_counter),
            Token::Output => print_value(&mut out, var_counter),
            Token::Input => read_value(&mut out, var_counter),
            Token::JumpZero(jump_addr) => conditional_jump(
                &mut out,
                true,
                jump_addr as u64,
                at,
                var_counter,
            ),
            Token::JumpNonZero(jump_addr) => conditional_jump(
                &mut out,
                false,
                jump_addr as u64,
                at,
                var_counter,
            ),
        };
        assert(out@ =~= preamble_text() + body_text(toks, this_addr + 1));
        this_addr = this_addr + 1;
    }
    out.append("  ret i32 0\n}\n\ndeclare i32 @putc(i32, ptr)\ndeclare i32 @getc(ptr)\n");
    out
}

} // verus!
