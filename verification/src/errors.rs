pub mod compiler_errors;
