//! Assembler core for small ReCOP-class instruction sets.
//!
//! Source text is lexed into token lines and a label table, each line is
//! matched against an opcode table, and every instruction is packed into a
//! 32-bit word `[addr_mode:2][opcode:6][reg_z:4][reg_x:4][operand:16]`.

pub mod assemble;
pub mod error;
pub mod inst;
pub mod label;
pub mod lexer;
pub mod opcode;
pub mod output;
pub mod parser;
pub mod text;
pub mod token;
