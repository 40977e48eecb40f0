pub mod interpreter;
pub mod lexer;
pub mod tokenizer;
pub mod transpiler;
