//! A small two-pass assembler: source text to instructions, instructions to
//! fixed-width hexadecimal groups.
pub mod error;
pub mod instruction;
pub mod laws;
pub mod operand;
pub mod overroot;
pub mod symbols;
pub mod text;

pub use error::AsmError;
pub use instruction::Instruction;
pub use operand::{Immediate, MemoryAddress, Radix, Register};
pub use overroot::Overroot;
pub use symbols::SymbolTable;
