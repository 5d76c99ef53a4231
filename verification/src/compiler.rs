//! A small, self-contained translator from binary expression trees to a
//! textual stack-command list.

pub mod intermediate_code_generator;
