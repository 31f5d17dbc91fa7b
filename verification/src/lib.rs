pub mod text;
pub mod errors;
pub mod ast_types;
pub mod asm_generator;
pub mod ast_parser;
pub mod code_generator;
