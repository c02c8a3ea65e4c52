//! A stack-based bytecode machine: decoding of program text into instructions, and an
//! interpreter whose steps are stated over a mathematical model of the stack.

pub mod laws;
pub mod machine;
pub mod number;
pub mod op;
