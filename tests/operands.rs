use rasm::{AsmError, Immediate, MemoryAddress, Radix, Register};

#[test]
fn register_mnemonics_give_documented_numbers() {
    let table = [
        ("Acc", 0u8),
        ("A", 0),
        ("Bacc", 1),
        ("B", 1),
        ("Carr", 2),
        ("C", 2),
        ("Datt", 3),
        ("D", 3),
        ("E", 4),
        ("F", 5),
        ("G", 6),
        ("H", 7),
    ];
    for (name, id) in table {
        let r = Register::build(name).unwrap();
        assert_eq!(r.reg_id(), id, "{name}");
    }
}

#[test]
fn register_aliases_are_identical() {
    for (long, short) in [("Acc", "A"), ("Bacc", "B"), ("Carr", "C"), ("Datt", "D")] {
        assert_eq!(Register::build(long).unwrap(), Register::build(short).unwrap());
    }
}

#[test]
fn register_rejects_unknown_names() {
    for bad in ["acc", "a", "I", "", "Accc", "AB"] {
        assert_eq!(
            Register::build(bad),
            Err(AsmError::InvalidRegister { token: bad.to_string() })
        );
    }
}

#[test]
fn immediate_decimal_round_trip() {
    for n in 0u16..=255 {
        let imm = Immediate::build(&format!("{n}")).unwrap();
        assert_eq!(imm.literal() as u16, n);
    }
}

#[test]
fn immediate_hex_round_trip() {
    for n in 0u16..=255 {
        let imm = Immediate::build(&format!("{n:X}h")).unwrap();
        assert_eq!(imm.literal() as u16, n);
        let lower = Immediate::build(&format!("{n:x}h")).unwrap();
        assert_eq!(lower.literal() as u16, n);
    }
}

#[test]
fn immediate_range_and_radix() {
    assert_eq!(
        Immediate::build("256"),
        Err(AsmError::InvalidImmediate { token: "256".to_string(), radix: Radix::Decimal })
    );
    assert_eq!(
        Immediate::build("-1"),
        Err(AsmError::InvalidImmediate { token: "-1".to_string(), radix: Radix::Decimal })
    );
    assert_eq!(Immediate::build("FFh").unwrap().literal(), 255);
    assert_eq!(
        Immediate::build("100h"),
        Err(AsmError::InvalidImmediate { token: "100h".to_string(), radix: Radix::Hexadecimal })
    );
    assert_eq!(
        Immediate::build("xyz"),
        Err(AsmError::InvalidImmediate { token: "xyz".to_string(), radix: Radix::Decimal })
    );
}

#[test]
fn immediate_edge_tokens() {
    assert_eq!(Immediate::build("05h").unwrap().literal(), 5);
    assert_eq!(Immediate::build("0255").unwrap().literal(), 255);
    assert_eq!(Immediate::build("+7").unwrap().literal(), 7);
    assert_eq!(Immediate::build("0").unwrap().literal(), 0);
    for bad in ["", "h", "+", "+h", "1000", "GGh", "12H", "1 2"] {
        assert!(Immediate::build(bad).is_err(), "{bad:?}");
    }
    assert_eq!(
        Immediate::build("h"),
        Err(AsmError::InvalidImmediate { token: "h".to_string(), radix: Radix::Hexadecimal })
    );
}

#[test]
fn memory_address_reads_like_immediate() {
    assert_eq!(MemoryAddress::build("10h").unwrap().address(), 16);
    assert_eq!(MemoryAddress::build("200").unwrap().address(), 200);
    assert_eq!(
        MemoryAddress::build("300"),
        Err(AsmError::InvalidMemoryAddress { token: "300".to_string() })
    );
    assert_eq!(
        MemoryAddress::build("A"),
        Err(AsmError::InvalidMemoryAddress { token: "A".to_string() })
    );
}
