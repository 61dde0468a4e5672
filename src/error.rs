//! The errors of assembly, each carrying the offending input.
use vstd::prelude::*;

use crate::instruction::Instruction;
use crate::operand::Radix;

verus! {

/// Why a line could not be assembled or an instruction encoded.
#[derive(Debug, PartialEq, Eq)]
pub enum AsmError {
    /// The mnemonic is not in the opcode table.
    InvalidOperation { token: String },
    /// The token names no register.
    InvalidRegister { token: String },
    /// The token is no 8-bit literal in the base it was read in.
    InvalidImmediate { token: String, radix: Radix },
    /// The token is no 8-bit address.
    InvalidMemoryAddress { token: String },
    /// The instruction line does not hold exactly three tokens.
    InvalidInstructionFormat { line: String },
    /// The constant line does not split into a name and a value.
    InvalidConstantFormat { line: String },
    /// The instruction has no opcode yet.
    UnimplementedOperation { instruction: Instruction },
    /// The label was defined before.
    AmbiguousLabel { name: String },
    /// No label of that name was defined.
    UnknownLabel { name: String },
}

/// An error, with its strings seen as character sequences.
pub enum Fault {
    InvalidOperation(Seq<char>),
    InvalidRegister(Seq<char>),
    InvalidImmediate(Seq<char>, Radix),
    InvalidMemoryAddress(Seq<char>),
    InvalidInstructionFormat(Seq<char>),
    InvalidConstantFormat(Seq<char>),
    UnimplementedOperation(Instruction),
    AmbiguousLabel(Seq<char>),
    UnknownLabel(Seq<char>),
}

impl View for AsmError {
    type V = Fault;

    open spec fn view(&self) -> Fault {
        match self {
            AsmError::InvalidOperation { token } => Fault::InvalidOperation(token@),
            AsmError::InvalidRegister { token } => Fault::InvalidRegister(token@),
            AsmError::InvalidImmediate { token, radix } => Fault::InvalidImmediate(token@, *radix),
            AsmError::InvalidMemoryAddress { token } => Fault::InvalidMemoryAddress(token@),
            AsmError::InvalidInstructionFormat { line } => Fault::InvalidInstructionFormat(line@),
            AsmError::InvalidConstantFormat { line } => Fault::InvalidConstantFormat(line@),
            AsmError::UnimplementedOperation { instruction } => Fault::UnimplementedOperation(
                *instruction,
            ),
            AsmError::AmbiguousLabel { name } => Fault::AmbiguousLabel(name@),
            AsmError::UnknownLabel { name } => Fault::UnknownLabel(name@),
        }
    }
}

/// A string result, with the string and the error seen through their views.
pub open spec fn text_view(r: Result<String, AsmError>) -> Result<Seq<char>, Fault> {
    match r {
        Ok(s) => Ok(s@),
        Err(e) => Err(e@),
    }
}

} // verus!
