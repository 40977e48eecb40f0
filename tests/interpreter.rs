use rust_bf::interpreter::{Event, Interpreter, Outcome, TAPE_LEN};
use rust_bf::lexer::Lexer;
use rust_bf::tokenizer::Program;

fn compile(src: &str) -> Program {
    let mut lexer = Lexer::new(src.as_bytes().to_vec());
    let mut prog = Program::new();
    prog.tokenize(&mut lexer).unwrap();
    prog
}

fn run_src(src: &str, input: &[u8], fuel: usize) -> (Vec<u8>, Outcome) {
    let prog = compile(src);
    let mut inter = Interpreter::new();
    let mut output = Vec::new();
    let outcome = inter.run(&prog, &input.to_vec(), &mut output, fuel);
    (output, outcome)
}

#[test]
fn three_increments_then_output() {
    assert_eq!(run_src("+++.", &[], 1000), (vec![3], Outcome::Halted));
}

#[test]
fn eight_times_eight() {
    assert_eq!(
        run_src("++++++++[>++++++++<-]>.", &[], 10_000),
        (vec![64], Outcome::Halted)
    );
}

#[test]
fn three_hundred_increments_output_44() {
    let src = "+".repeat(300) + ".";
    assert_eq!(run_src(&src, &[], 10), (vec![44], Outcome::Halted));
}

#[test]
fn increment_past_255_wraps_to_zero() {
    let src = "+".repeat(255) + ".+.";
    assert_eq!(run_src(&src, &[], 10), (vec![255, 0], Outcome::Halted));
}

#[test]
fn decrement_below_zero_wraps_to_255() {
    assert_eq!(run_src("-.", &[], 10), (vec![255], Outcome::Halted));
}

#[test]
fn empty_program_halts_without_output() {
    assert_eq!(run_src("", &[], 0), (vec![], Outcome::Halted));
}

#[test]
fn comment_only_program_halts_without_output() {
    assert_eq!(run_src("nothing to see here", &[], 5), (vec![], Outcome::Halted));
}

#[test]
fn hello_world() {
    let src = "++++++++[>++++[>++>+++>+++>+<<<<-]>+>+>->>+[<]<-]>>.>---.+++++++..+++.>>.<-.<.+++.------.--------.>>+.>++.";
    assert_eq!(
        run_src(src, &[], 100_000),
        (b"Hello World!\n".to_vec(), Outcome::Halted)
    );
}

#[test]
fn echo_reads_input() {
    assert_eq!(run_src(",.,.", b"hi", 10), (b"hi".to_vec(), Outcome::Halted));
}

#[test]
fn input_overwrites_cell() {
    assert_eq!(run_src("+++,.", &[7], 10), (vec![7], Outcome::Halted));
}

#[test]
fn missing_input_is_reported() {
    assert_eq!(run_src("+.,.", &[], 10), (vec![1], Outcome::InputExhausted(2)));
}

#[test]
fn moving_left_of_the_tape_is_reported() {
    assert_eq!(run_src("+<.", &[], 10), (vec![], Outcome::TapeOutOfBounds(1)));
}

#[test]
fn moving_right_of_the_tape_is_reported() {
    let src = ">".repeat(TAPE_LEN);
    assert_eq!(run_src(&src, &[], 10), (vec![], Outcome::TapeOutOfBounds(0)));
    let src = ">".repeat(TAPE_LEN - 1) + "+.";
    assert_eq!(run_src(&src, &[], 10), (vec![1], Outcome::Halted));
}

#[test]
fn endless_loop_runs_out_of_fuel() {
    assert_eq!(run_src("+[]", &[], 50), (vec![], Outcome::OutOfFuel));
}

#[test]
fn zero_cell_skips_loop() {
    assert_eq!(run_src("[.]+.", &[], 10), (vec![1], Outcome::Halted));
}

#[test]
fn new_interpreter_is_zeroed() {
    let inter = Interpreter::new();
    assert_eq!(inter.cells.len(), TAPE_LEN);
    assert!(inter.cells.iter().all(|c| *c == 0));
    assert_eq!(inter.data_ptr, 0);
    assert_eq!(inter.instr_ptr, 0);
}

#[test]
fn step_and_feed_drive_a_program() {
    let prog = compile(",+.");
    let mut inter = Interpreter::new();
    assert_eq!(inter.step(&prog), Event::NeedInput);
    assert_eq!(inter.instr_ptr, 0);
    inter.feed(&prog, 41);
    assert_eq!(inter.step(&prog), Event::Continue);
    assert_eq!(inter.step(&prog), Event::Output(42));
    assert_eq!(inter.step(&prog), Event::Halted);
}

#[test]
fn step_refuses_to_leave_the_tape() {
    let prog = compile("<");
    let mut inter = Interpreter::new();
    assert_eq!(inter.step(&prog), Event::TapeOutOfBounds);
    assert_eq!(inter.data_ptr, 0);
    assert_eq!(inter.instr_ptr, 0);
}
