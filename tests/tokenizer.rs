use rust_bf::lexer::Lexer;
use rust_bf::tokenizer::{Program, Token, TokenizeError};

fn compile(src: &str) -> Result<Program, TokenizeError> {
    let mut lexer = Lexer::new(src.as_bytes().to_vec());
    let mut prog = Program::new();
    prog.tokenize(&mut lexer)?;
    Ok(prog)
}

#[test]
fn lexer_skips_comments() {
    let mut lexer = Lexer::new(b"a+b[c]d.,<>-e".to_vec());
    let mut seen = Vec::new();
    while let Some(b) = lexer.next() {
        seen.push(b);
    }
    assert_eq!(seen, b"+[].,<>-".to_vec());
    assert_eq!(lexer.next(), None);
}

#[test]
fn lexer_is_instr_accepts_only_operators() {
    let lexer = Lexer::new(Vec::new());
    for b in 0..=255u8 {
        let expected = b"><+-.,[]".contains(&b);
        assert_eq!(lexer.is_instr(b), expected, "byte {}", b);
    }
}

#[test]
fn runs_are_folded() {
    let prog = compile(">>><<+++--.,").unwrap();
    assert_eq!(
        prog.instr,
        vec![
            Token::IncPtr(3),
            Token::DecPtr(2),
            Token::IncByte(3),
            Token::DecByte(2),
            Token::Output,
            Token::Input,
        ]
    );
}

#[test]
fn runs_fold_across_comments() {
    let prog = compile("+ + comment +\n>x>").unwrap();
    assert_eq!(prog.instr, vec![Token::IncByte(3), Token::IncPtr(2)]);
}

#[test]
fn output_and_input_are_not_folded() {
    let prog = compile("..,,").unwrap();
    assert_eq!(prog.instr, vec![Token::Output, Token::Output, Token::Input, Token::Input]);
}

#[test]
fn three_hundred_increments_wrap_to_44() {
    let src = "+".repeat(300);
    let prog = compile(&src).unwrap();
    assert_eq!(prog.instr, vec![Token::IncByte(44)]);
}

#[test]
fn two_hundred_fifty_seven_decrements_wrap_to_1() {
    let src = "-".repeat(257);
    let prog = compile(&src).unwrap();
    assert_eq!(prog.instr, vec![Token::DecByte(1)]);
}

#[test]
fn long_pointer_runs_keep_full_count() {
    let src = ">".repeat(1000);
    let prog = compile(&src).unwrap();
    assert_eq!(prog.instr, vec![Token::IncPtr(1000)]);
}

#[test]
fn brackets_are_resolved_by_nesting() {
    let prog = compile("+[>[-]<-]").unwrap();
    assert_eq!(
        prog.instr,
        vec![
            Token::IncByte(1),
            Token::JumpZero(8),
            Token::IncPtr(1),
            Token::JumpZero(5),
            Token::DecByte(1),
            Token::JumpNonZero(3),
            Token::DecPtr(1),
            Token::DecByte(1),
            Token::JumpNonZero(1),
        ]
    );
}

#[test]
fn sibling_loops_are_resolved() {
    let prog = compile("[][]").unwrap();
    assert_eq!(
        prog.instr,
        vec![
            Token::JumpZero(1),
            Token::JumpNonZero(0),
            Token::JumpZero(3),
            Token::JumpNonZero(2),
        ]
    );
}

#[test]
fn lone_loop_start_is_unmatched() {
    assert_eq!(compile("[").err(), Some(TokenizeError::UnmatchedLoopStart(1)));
}

#[test]
fn lone_loop_end_is_unmatched() {
    assert_eq!(compile("]").err(), Some(TokenizeError::UnmatchedLoopEnd(0)));
}

#[test]
fn excess_loop_end_reports_its_index() {
    assert_eq!(compile("+[-]]").err(), Some(TokenizeError::UnmatchedLoopEnd(4)));
}

#[test]
fn excess_loop_starts_are_counted() {
    assert_eq!(compile("[[[]").err(), Some(TokenizeError::UnmatchedLoopStart(2)));
}

#[test]
fn first_unmatched_end_wins_over_open_starts() {
    assert_eq!(compile("][").err(), Some(TokenizeError::UnmatchedLoopEnd(0)));
}

#[test]
fn empty_and_comment_only_sources_give_empty_programs() {
    assert_eq!(compile("").unwrap().instr, Vec::<Token>::new());
    assert_eq!(compile("just a comment\n").unwrap().instr, Vec::<Token>::new());
}

#[test]
fn backpatch_alone_resolves_placeholders() {
    let mut prog = Program::new();
    prog.instr = vec![
        Token::JumpZero(usize::MAX),
        Token::Output,
        Token::JumpNonZero(usize::MAX),
    ];
    assert_eq!(prog.backpatch_jump_addr(), Ok(()));
    assert_eq!(
        prog.instr,
        vec![Token::JumpZero(2), Token::Output, Token::JumpNonZero(0)]
    );
}

#[test]
fn count_instr_counts_the_run() {
    let prog = Program::new();
    let mut lexer = Lexer::new(b"+++>".to_vec());
    let first = lexer.next();
    assert_eq!(first, Some(b'+'));
    let mut next = first;
    let count = prog.count_instr(&mut next, &mut lexer, b'+');
    assert_eq!(count, 3);
    assert_eq!(next, Some(b'>'));
}
