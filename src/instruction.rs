//! Instructions: building them from a line, encoding them as hexadecimal.
use vstd::prelude::*;

use crate::error::{text_view, AsmError, Fault};
use crate::operand::{
    address_operand, immediate_operand, register_operand, result_view, Immediate, MemoryAddress,
    Register,
};
use crate::text::{push_char, same_text, split_tokens, tokens};

verus! {

/// One instruction, with the operands its mnemonic takes.
#[derive(Clone, Copy, Debug, PartialEq, Eq, Structural)]
pub enum Instruction {
    /// Add, copying.
    Adcp(Register, Register),
    /// Add, loading.
    Adl(Register, MemoryAddress),
    /// Assign.
    Asn(MemoryAddress, Immediate),
    /// Copy.
    Copy(Register, Register),
    /// Initialise.
    Init(Register, Immediate),
    /// Load.
    Load(Register, MemoryAddress),
    /// Store.
    Str(MemoryAddress, Register),
}

/// Two register operands.
pub open spec fn two_registers(p1: Seq<char>, p2: Seq<char>) -> Result<(Register, Register), Fault> {
    match register_operand(p1) {
        Err(e) => Err(e),
        Ok(a) => match register_operand(p2) {
            Err(e) => Err(e),
            Ok(b) => Ok((a, b)),
        },
    }
}

/// A register operand, then an immediate one.
pub open spec fn register_immediate(p1: Seq<char>, p2: Seq<char>) -> Result<
    (Register, Immediate),
    Fault,
> {
    match register_operand(p1) {
        Err(e) => Err(e),
        Ok(a) => match immediate_operand(p2) {
            Err(e) => Err(e),
            Ok(b) => Ok((a, b)),
        },
    }
}

/// A register operand, then an address.
pub open spec fn register_address(p1: Seq<char>, p2: Seq<char>) -> Result<
    (Register, MemoryAddress),
    Fault,
> {
    match register_operand(p1) {
        Err(e) => Err(e),
        Ok(a) => match address_operand(p2) {
            Err(e) => Err(e),
            Ok(b) => Ok((a, b)),
        },
    }
}

/// An address, then a register operand.
pub open spec fn address_register(p1: Seq<char>, p2: Seq<char>) -> Result<
    (MemoryAddress, Register),
    Fault,
> {
    match address_operand(p1) {
        Err(e) => Err(e),
        Ok(a) => match register_operand(p2) {
            Err(e) => Err(e),
            Ok(b) => Ok((a, b)),
        },
    }
}

/// An address, then an immediate operand.
pub open spec fn address_immediate(p1: Seq<char>, p2: Seq<char>) -> Result<
    (MemoryAddress, Immediate),
    Fault,
> {
    match address_operand(p1) {
        Err(e) => Err(e),
        Ok(a) => match immediate_operand(p2) {
            Err(e) => Err(e),
            Ok(b) => Ok((a, b)),
        },
    }
}

/// The instruction that a mnemonic and two operand tokens write.
pub open spec fn instruction_of(op: Seq<char>, p1: Seq<char>, p2: Seq<char>) -> Result<
    Instruction,
    Fault,
> {
    if op == "init"@ {
        match register_immediate(p1, p2) {
            Ok((a, b)) => Ok(Instruction::Init(a, b)),
            Err(e) => Err(e),
        }
    } else if op == "copy"@ {
        match two_registers(p1, p2) {
            Ok((a, b)) => Ok(Instruction::Copy(a, b)),
            Err(e) => Err(e),
        }
    } else if op == "adcp"@ {
        match two_registers(p1, p2) {
            Ok((a, b)) => Ok(Instruction::Adcp(a, b)),
            Err(e) => Err(e),
        }
    } else if op == "str"@ {
        match address_register(p1, p2) {
            Ok((a, b)) => Ok(Instruction::Str(a, b)),
            Err(e) => Err(e),
        }
    } else if op == "adl"@ {
        match register_address(p1, p2) {
            Ok((a, b)) => Ok(Instruction::Adl(a, b)),
            Err(e) => Err(e),
        }
    } else if op == "asn"@ {
        match address_immediate(p1, p2) {
            Ok((a, b)) => Ok(Instruction::Asn(a, b)),
            Err(e) => Err(e),
        }
    } else if op == "load"@ {
        match register_address(p1, p2) {
            Ok((a, b)) => Ok(Instruction::Load(a, b)),
            Err(e) => Err(e),
        }
    } else {
        Err(Fault::InvalidOperation(op))
    }
}

/// The instruction that a line writes: exactly three tokens, a mnemonic and
/// its two operands.
pub open spec fn instruction_of_line(line: Seq<char>) -> Result<Instruction, Fault> {
    let t = tokens(line);
    if t.len() != 3 {
        Err(Fault::InvalidInstructionFormat(line))
    } else {
        instruction_of(t[0], t[1], t[2])
    }
}

/// The three bytes of an instruction that has an opcode: the opcode, then
/// the raw values of its two operands.
pub open spec fn encoding(i: Instruction) -> Option<Seq<u8>> {
    match i {
        Instruction::Init(r, v) => Some(seq![0x05u8, r.reg_id, v.literal]),
        Instruction::Copy(a, b) => Some(seq![0x0Au8, a.reg_id, b.reg_id]),
        Instruction::Adcp(a, b) => Some(seq![0x0Bu8, a.reg_id, b.reg_id]),
        Instruction::Str(m, r) => Some(seq![0x07u8, m.address, r.reg_id]),
        _ => None,
    }
}

/// The upper-case hexadecimal digit of `d`, below 16.
pub open spec fn hex_digit(d: u8) -> char {
    if d < 10 {
        (d + 48) as u8 as char
    } else {
        (d + 55) as u8 as char
    }
}

/// Two upper-case hexadecimal digits for each byte, in order.
pub open spec fn hex_text(bytes: Seq<u8>) -> Seq<char>
    decreases bytes.len(),
{
    if bytes.len() == 0 {
        seq![]
    } else {
        let b = bytes.last();
        hex_text(bytes.drop_last()) + seq![hex_digit(b / 16), hex_digit(b % 16)]
    }
}

/// What encoding an instruction gives.
pub open spec fn encoded(i: Instruction) -> Result<Seq<char>, Fault> {
    match encoding(i) {
        Some(bytes) => Ok(hex_text(bytes)),
        None => Err(Fault::UnimplementedOperation(i)),
    }
}

fn digit_char(d: u8) -> (c: char)
    requires
        d < 16,
    ensures
        c == hex_digit(d),
{
    if d < 10 {
        (d + 48) as char
    } else {
        (d + 55) as char
    }
}

fn push_hex_byte(s: &mut String, b: u8, Ghost(bytes): Ghost<Seq<u8>>)
    requires
        old(s)@ == hex_text(bytes),
    ensures
        final(s)@ == hex_text(bytes.push(b)),
{
    push_char(s, digit_char(b / 16));
    push_char(s, digit_char(b % 16));
    assert(bytes.push(b).drop_last() =~= bytes);
    assert(final(s)@ =~= hex_text(bytes.push(b)));
}

impl Instruction {
    /// Builds the instruction that a line writes: the mnemonic selects the
    /// operand kinds, and the first operand that fails stops the build.
    pub fn build(line: &str) -> (r: Result<Instruction, AsmError>)
        ensures
            result_view(r) == instruction_of_line(line@),
    {
        let toks = split_tokens(line);
        if toks.len() != 3 {
            return Err(AsmError::InvalidInstructionFormat { line: line.to_owned() });
        }
        assert(toks@[0]@ == tokens(line@)[0]);
        assert(toks@[1]@ == tokens(line@)[1]);
        assert(toks@[2]@ == tokens(line@)[2]);
        let op = toks[0].as_str();
        let p1 = toks[1].as_str();
        let p2 = toks[2].as_str();
        if same_text(op, "init") {
            match Register::build(p1) {
                Err(e) => Err(e),
                Ok(a) => match Immediate::build(p2) {
                    Err(e) => Err(e),
                    Ok(b) => Ok(Instruction::Init(a, b)),
                },
            }
        } else if same_text(op, "copy") {
            match Register::build(p1) {
                Err(e) => Err(e),
                Ok(a) => match Register::build(p2) {
                    Err(e) => Err(e),
                    Ok(b) => Ok(Instruction::Copy(a, b)),
                },
            }
        } else if same_text(op, "adcp") {
            match Register::build(p1) {
                Err(e) => Err(e),
                Ok(a) => match Register::build(p2) {
                    Err(e) => Err(e),
                    Ok(b) => Ok(Instruction::Adcp(a, b)),
                },
            }
        } else if same_text(op, "str") {
            match MemoryAddress::build(p1) {
                Err(e) => Err(e),
                Ok(a) => match Register::build(p2) {
                    Err(e) => Err(e),
                    Ok(b) => Ok(Instruction::Str(a, b)),
                },
            }
        } else if same_text(op, "adl") {
            match Register::build(p1) {
                Err(e) => Err(e),
                Ok(a) => match MemoryAddress::build(p2) {
                    Err(e) => Err(e),
                    Ok(b) => Ok(Instruction::Adl(a, b)),
                },
            }
        } else if same_text(op, "asn") {
            match MemoryAddress::build(p1) {
                Err(e) => Err(e),
                Ok(a) => match Immediate::build(p2) {
                    Err(e) => Err(e),
                    Ok(b) => Ok(Instruction::Asn(a, b)),
                },
            }
        } else if same_text(op, "load") {
            match Register::build(p1) {
                Err(e) => Err(e),
                Ok(a) => match MemoryAddress::build(p2) {
                    Err(e) => Err(e),
                    Ok(b) => Ok(Instruction::Load(a, b)),
                },
            }
        } else {
            Err(AsmError::InvalidOperation { token: toks[0].clone() })
        }
    }

    /// The three bytes of the instruction, if its mnemonic has an opcode.
    pub fn code_bytes(&self) -> (r: Option<(u8, u8, u8)>)
        ensures
            match r {
                Some((a, b, c)) => encoding(*self) == Some(seq![a, b, c]),
                None => encoding(*self) is None,
            },
    {
        match self {
            Instruction::Init(a, b) => Some((0x05, a.reg_id, b.literal)),
            Instruction::Copy(a, b) => Some((0x0A, a.reg_id, b.reg_id)),
            Instruction::Adcp(a, b) => Some((0x0B, a.reg_id, b.reg_id)),
            Instruction::Str(a, b) => Some((0x07, a.address, b.reg_id)),
            _ => None,
        }
    }

    /// Encodes the instruction as six upper-case hexadecimal digits: opcode,
    /// first operand, second operand. Fails for a mnemonic with no opcode.
    pub fn encode(&self) -> (r: Result<String, AsmError>)
        ensures
            text_view(r) == encoded(*self),
    {
        let (code, x, y) = match self.code_bytes() {
            Some(bytes) => bytes,
            None => {
                return Err(AsmError::UnimplementedOperation { instruction: *self });
            },
        };
        let ghost bytes = seq![code, x, y];
        assert(bytes == encoding(*self)->0);
        let mut s = String::new();
        assert(Seq::<u8>::empty().push(code) =~= seq![code]);
        assert(seq![code].push(x) =~= seq![code, x]);
        assert(seq![code, x].push(y) =~= bytes);
        assert(s@ == hex_text(Seq::<u8>::empty()));
        let ghost b0 = Seq::<u8>::empty();
        let ghost b1 = seq![code];
        let ghost b2 = seq![code, x];
        push_hex_byte(&mut s, code, Ghost(b0));
        push_hex_byte(&mut s, x, Ghost(b1));
        push_hex_byte(&mut s, y, Ghost(b2));
        Ok(s)
    }
}

} // verus!
