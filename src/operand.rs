//! Operands: registers, immediate literals and memory addresses, and the
//! parsers that read them from tokens.
use vstd::prelude::*;

use crate::error::{AsmError, Fault};
use crate::text::{chars_of, same_text};

verus! {

/// One of the eight hardware registers, by number.
#[derive(Clone, Copy, Debug, PartialEq, Eq, Structural)]
pub struct Register {
    pub reg_id: u8,
}

/// An 8-bit literal value.
#[derive(Clone, Copy, Debug, PartialEq, Eq, Structural)]
pub struct Immediate {
    pub literal: u8,
}

/// An 8-bit memory address.
#[derive(Clone, Copy, Debug, PartialEq, Eq, Structural)]
pub struct MemoryAddress {
    pub address: u8,
}

/// The base in which an immediate token was read.
#[derive(Clone, Copy, Debug, PartialEq, Eq, Structural)]
pub enum Radix {
    Decimal,
    Hexadecimal,
}

/// The register number that a mnemonic names, if it names one.
pub open spec fn register_number(t: Seq<char>) -> Option<u8> {
    if t == "Acc"@ || t == "A"@ {
        Some(0)
    } else if t == "Bacc"@ || t == "B"@ {
        Some(1)
    } else if t == "Carr"@ || t == "C"@ {
        Some(2)
    } else if t == "Datt"@ || t == "D"@ {
        Some(3)
    } else if t == "E"@ {
        Some(4)
    } else if t == "F"@ {
        Some(5)
    } else if t == "G"@ {
        Some(6)
    } else if t == "H"@ {
        Some(7)
    } else {
        None
    }
}

/// The value of the digit `c` in base `radix`, as `char::to_digit` reads it.
pub open spec fn digit_of(c: char, radix: nat) -> Option<nat> {
    let u = c as u32;
    if 0x30 <= u <= 0x39 && u - 0x30 < radix {
        Some((u - 0x30) as nat)
    } else if 0x61 <= u <= 0x7a && u - 0x61 + 10 < radix {
        Some((u - 0x61 + 10) as nat)
    } else if 0x41 <= u <= 0x5a && u - 0x41 + 10 < radix {
        Some((u - 0x41 + 10) as nat)
    } else {
        None
    }
}

/// Whether every character of `s` is a digit in base `radix`.
pub open spec fn all_digits(s: Seq<char>, radix: nat) -> bool {
    forall|i: int| 0 <= i < s.len() ==> (#[trigger] digit_of(s[i], radix)) is Some
}

/// The number that the digits `s` write in base `radix`.
pub open spec fn digits_value(s: Seq<char>, radix: nat) -> nat
    decreases s.len(),
{
    if s.len() == 0 {
        0
    } else {
        digits_value(s.drop_last(), radix) * radix + digit_of(s.last(), radix).unwrap_or(0)
    }
}

/// `s` without one leading plus sign.
pub open spec fn unsigned_body(s: Seq<char>) -> Seq<char> {
    if s.len() > 0 && s[0] == '+' {
        s.drop_first()
    } else {
        s
    }
}

/// The byte that `s` writes in base `radix`, as `u8::from_str_radix` reads it:
/// an optional `+`, then one digit or more, of value below 256.
pub open spec fn byte_in_radix(s: Seq<char>, radix: nat) -> Option<u8> {
    let b = unsigned_body(s);
    if b.len() > 0 && all_digits(b, radix) && digits_value(b, radix) < 256 {
        Some(digits_value(b, radix) as u8)
    } else {
        None
    }
}

/// Whether a token is written in hexadecimal: it ends in `h`.
pub open spec fn is_hex_token(t: Seq<char>) -> bool {
    t.len() > 0 && t.last() == 'h'
}

/// The base in which a token is read.
pub open spec fn radix_of(t: Seq<char>) -> Radix {
    if is_hex_token(t) {
        Radix::Hexadecimal
    } else {
        Radix::Decimal
    }
}

/// The value of an immediate token: hexadecimal digits before a final `h`,
/// else decimal digits.
pub open spec fn immediate_value(t: Seq<char>) -> Option<u8> {
    if is_hex_token(t) {
        byte_in_radix(t.drop_last(), 16)
    } else {
        byte_in_radix(t, 10)
    }
}

/// What parsing a register token gives.
pub open spec fn register_operand(t: Seq<char>) -> Result<Register, Fault> {
    match register_number(t) {
        Some(n) => Ok(Register { reg_id: n }),
        None => Err(Fault::InvalidRegister(t)),
    }
}

/// What parsing an immediate token gives.
pub open spec fn immediate_operand(t: Seq<char>) -> Result<Immediate, Fault> {
    match immediate_value(t) {
        Some(v) => Ok(Immediate { literal: v }),
        None => Err(Fault::InvalidImmediate(t, radix_of(t))),
    }
}

/// What parsing a memory address token gives.
pub open spec fn address_operand(t: Seq<char>) -> Result<MemoryAddress, Fault> {
    match immediate_value(t) {
        Some(v) => Ok(MemoryAddress { address: v }),
        None => Err(Fault::InvalidMemoryAddress(t)),
    }
}

/// A result whose error is seen through its view.
pub open spec fn result_view<T>(r: Result<T, AsmError>) -> Result<T, Fault> {
    match r {
        Ok(x) => Ok(x),
        Err(e) => Err(e@),
    }
}

/// The value of a digit character in base `radix`.
pub fn digit_value(c: char, radix: u32) -> (r: Option<u32>)
    requires
        radix <= 36,
    ensures
        match r {
            Some(d) => digit_of(c, radix as nat) == Some(d as nat),
            None => digit_of(c, radix as nat) is None,
        },
{
    let u = c as u32;
    if 0x30 <= u && u <= 0x39 && u - 0x30 < radix {
        Some(u - 0x30)
    } else if 0x61 <= u && u <= 0x7a && u - 0x61 + 10 < radix {
        Some(u - 0x61 + 10)
    } else if 0x41 <= u && u <= 0x5a && u - 0x41 + 10 < radix {
        Some(u - 0x41 + 10)
    } else {
        None
    }
}

proof fn lemma_digits_grow(s: Seq<char>, radix: nat)
    requires
        s.len() > 0,
        radix >= 1,
    ensures
        digits_value(s, radix) >= digits_value(s.drop_last(), radix),
{
    let v = digits_value(s.drop_last(), radix);
    assert(v * radix >= v) by (nonlinear_arith)
        requires
            radix >= 1,
    ;
}

/// Reads `cs[lo..hi]` as a byte in base `radix`.
pub fn parse_byte(cs: &Vec<char>, lo: usize, hi: usize, radix: u32) -> (r: Option<u8>)
    requires
        lo <= hi <= cs@.len(),
        2 <= radix <= 36,
    ensures
        r == byte_in_radix(cs@.subrange(lo as int, hi as int), radix as nat),
{
    let ghost s = cs@.subrange(lo as int, hi as int);
    let mut start = lo;
    if lo < hi && cs[lo] == '+' {
        start = lo + 1;
        assert(s.drop_first() =~= cs@.subrange(start as int, hi as int));
    }
    let ghost body = cs@.subrange(start as int, hi as int);
    assert(body == unsigned_body(s));
    if start == hi {
        return None;
    }
    let mut value: u32 = 0;
    let mut i: usize = start;
    assert(cs@.subrange(start as int, start as int) =~= Seq::<char>::empty());
    while i < hi
        invariant
            lo <= start <= i <= hi <= cs@.len(),
            2 <= radix <= 36,
            body == cs@.subrange(start as int, hi as int),
            s == cs@.subrange(lo as int, hi as int),
            body == unsigned_body(s),
            all_digits(cs@.subrange(start as int, i as int), radix as nat),
            value <= 256,
            value == 256 ==> digits_value(cs@.subrange(start as int, i as int), radix as nat) >= 256,
            value < 256 ==> value == digits_value(cs@.subrange(start as int, i as int), radix as nat),
        decreases hi - i,
    {
        let ghost pre = cs@.subrange(start as int, i as int);
        let ghost next = cs@.subrange(start as int, i + 1);
        assert(next.drop_last() =~= pre);
        assert(next.last() == cs@[i as int]);
        match digit_value(cs[i], radix) {
            None => {
                assert(!all_digits(body, radix as nat)) by {
                    assert(body[i - start] == cs@[i as int]);
                    assert(digit_of(body[i - start], radix as nat) is None);
                }
                assert(byte_in_radix(s, radix as nat) is None);
                return None;
            },
            Some(d) => {
                proof {
                    lemma_digits_grow(next, radix as nat);
                }
                assert forall|k: int| 0 <= k < next.len() implies (#[trigger] digit_of(
                    next[k],
                    radix as nat,
                )) is Some by {
                    if k < pre.len() {
                        assert(next[k] == pre[k]);
                    }
                }
                if value < 256 {
                    assert(d < radix);
                    assert(value * radix + d <= 255 * 36 + 36) by (nonlinear_arith)
                        requires
                            value < 256,
                            radix <= 36,
                            d < radix,
                    ;
                    let w = value * radix + d;
                    if w > 255 {
                        value = 256;
                    } else {
                        value = w;
                    }
                }
            },
        }
        i += 1;
    }
    assert(body =~= cs@.subrange(start as int, i as int));
    if value < 256 {
        Some(value as u8)
    } else {
        None
    }
}

/// The value of an immediate token, or `None` where it writes no byte.
pub fn immediate_of(param: &str) -> (r: Option<u8>)
    ensures
        r == immediate_value(param@),
{
    let cs = chars_of(param);
    let n = cs.len();
    assert(cs@.subrange(0, n as int) =~= param@);
    if n > 0 && cs[n - 1] == 'h' {
        assert(cs@.subrange(0, n - 1) =~= param@.drop_last());
        parse_byte(&cs, 0, n - 1, 16)
    } else {
        parse_byte(&cs, 0, n, 10)
    }
}

impl Register {
    /// Reads a register mnemonic; the long and the short name of a register
    /// give the same number.
    pub fn build(param: &str) -> (r: Result<Register, AsmError>)
        ensures
            result_view(r) == register_operand(param@),
    {
        let reg_id: u8 = if same_text(param, "Acc") || same_text(param, "A") {
            0
        } else if same_text(param, "Bacc") || same_text(param, "B") {
            1
        } else if same_text(param, "Carr") || same_text(param, "C") {
            2
        } else if same_text(param, "Datt") || same_text(param, "D") {
            3
        } else if same_text(param, "E") {
            4
        } else if same_text(param, "F") {
            5
        } else if same_text(param, "G") {
            6
        } else if same_text(param, "H") {
            7
        } else {
            return Err(AsmError::InvalidRegister { token: param.to_owned() });
        };
        Ok(Register { reg_id })
    }

    /// The register's number, in `0..8`.
    pub fn reg_id(&self) -> (r: u8)
        ensures
            r == self.reg_id,
    {
        self.reg_id
    }
}

impl Immediate {
    /// Reads an immediate literal: hexadecimal digits before a final `h`,
    /// else decimal digits, of value below 256.
    pub fn build(param: &str) -> (r: Result<Immediate, AsmError>)
        ensures
            result_view(r) == immediate_operand(param@),
    {
        match immediate_of(param) {
            Some(literal) => Ok(Immediate { literal }),
            None => {
                let radix = if param.unicode_len() > 0 && param.get_char(param.unicode_len() - 1)
                    == 'h' {
                    Radix::Hexadecimal
                } else {
                    Radix::Decimal
                };
                Err(AsmError::InvalidImmediate { token: param.to_owned(), radix })
            },
        }
    }

    /// The literal's value.
    pub fn literal(&self) -> (r: u8)
        ensures
            r == self.literal,
    {
        self.literal
    }
}

impl MemoryAddress {
    /// Reads a memory address, written as an immediate literal is.
    pub fn build(param: &str) -> (r: Result<MemoryAddress, AsmError>)
        ensures
            result_view(r) == address_operand(param@),
    {
        match immediate_of(param) {
            Some(address) => Ok(MemoryAddress { address }),
            None => Err(AsmError::InvalidMemoryAddress { token: param.to_owned() }),
        }
    }

    /// The address's value.
    pub fn address(&self) -> (r: u8)
        ensures
            r == self.address,
    {
        self.address
    }
}

} // verus!
