use rust_bf::lexer::Lexer;
use rust_bf::tokenizer::Program;
use rust_bf::transpiler::transpile;

fn compile(src: &str) -> Program {
    let mut lexer = Lexer::new(src.as_bytes().to_vec());
    let mut prog = Program::new();
    prog.tokenize(&mut lexer).unwrap();
    prog
}

const PREAMBLE: &str = "@buffer = internal global [30000 x i8] zeroinitializer, align 1

@__stdoutp = external global ptr, align 8
@__stdinp = external global ptr, align 8

define i32 @main() {
  ; Get address of buffer and save it to ptr
  %data_ptr = alloca ptr, align 8
  store ptr @buffer, ptr %data_ptr, align 8

";

const TRAILER: &str = "  ret i32 0
}

declare i32 @putc(i32, ptr)
declare i32 @getc(ptr)
";

#[test]
fn empty_program_module() {
    assert_eq!(transpile(&compile("")), format!("{}{}", PREAMBLE, TRAILER));
}

#[test]
fn increment_and_print_module() {
    let body = "  ; Increment value at %data_ptr by 1
  %1 = load ptr, ptr %data_ptr, align 8
  %2 = load i8, ptr %1, align 1
  %3 = add i8 %2, 1
  store i8 %3, ptr %1, align 1

  ; Print value at %data_ptr
  %4 = load ptr, ptr %data_ptr, align 8
  %5 = load i8, ptr %4, align 1
  %6 = zext i8 %5 to i32
  %7 = load ptr, ptr @__stdoutp, align 8
  %8 = call i32 @putc(i32 %6, ptr %7)

";
    assert_eq!(transpile(&compile("+.")), format!("{}{}{}", PREAMBLE, body, TRAILER));
}

#[test]
fn pointer_moves_and_input_module() {
    let body = "  ; Advance %data_ptr by 12
  %1 = load ptr, ptr %data_ptr, align 8
  %2 = getelementptr inbounds i8, ptr %1, i64 12
  store ptr %2, ptr %data_ptr, align 8

  ; Advance %data_ptr by -3
  %3 = load ptr, ptr %data_ptr, align 8
  %4 = getelementptr inbounds i8, ptr %3, i64 -3
  store ptr %4, ptr %data_ptr, align 8

  ; Read value from stdin into %data_ptr
  %5 = load ptr, ptr @__stdinp, align 8
  %6 = call i32 @getc(ptr %5)
  %7 = trunc i32 %6 to i8
  %8 = load ptr, ptr %data_ptr, align 8
  store i8 %7, ptr %8, align 1

  ; Decrement value at %data_ptr by 44
  %9 = load ptr, ptr %data_ptr, align 8
  %10 = load i8, ptr %9, align 1
  %11 = sub i8 %10, 44
  store i8 %11, ptr %9, align 1

";
    let src = ">".repeat(12) + "<<<," + &"-".repeat(300);
    assert_eq!(transpile(&compile(&src)), format!("{}{}{}", PREAMBLE, body, TRAILER));
}

#[test]
fn loop_module_has_labels_per_branch() {
    let body = "  ; Jump to l2 if value at %data_ptr is zero
  %1 = load ptr, ptr %data_ptr, align 8
  %2 = load i8, ptr %1, align 1
  %3 = icmp eq i8 %2, 0
  br i1 %3, label %l2, label %l0
l0:

  ; Decrement value at %data_ptr by 1
  %4 = load ptr, ptr %data_ptr, align 8
  %5 = load i8, ptr %4, align 1
  %6 = sub i8 %5, 1
  store i8 %6, ptr %4, align 1

  ; Jump to l0 if value at %data_ptr is non-zero
  %7 = load ptr, ptr %data_ptr, align 8
  %8 = load i8, ptr %7, align 1
  %9 = icmp ne i8 %8, 0
  br i1 %9, label %l0, label %l2
l2:

";
    assert_eq!(transpile(&compile("[-]")), format!("{}{}{}", PREAMBLE, body, TRAILER));
}

#[test]
fn transpile_is_deterministic() {
    let prog = compile("++++++++[>++++++++<-]>.");
    assert_eq!(transpile(&prog), transpile(&prog));
}
