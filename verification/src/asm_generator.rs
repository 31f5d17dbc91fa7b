pub mod asm_helpers;
pub mod calling_convention_imp;
pub mod code_generator;
