pub mod lexer_token;
pub mod lexer;
pub mod opcode;
pub mod expr;
pub mod stmt;
pub mod precedence;
pub mod parser;
pub mod value;
pub mod chunk;
pub mod compiler;
pub mod repl;
pub mod vm;
pub mod pipeline;
