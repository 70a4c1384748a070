use hack_assembler::code::{comp, dest, jump};
use hack_assembler::errors::AssemblyError;

fn dest_code(s: &str) -> u8 {
    dest(Some(s)).expect("dest mnemonic should encode")
}

fn jump_code(s: &str) -> u8 {
    jump(Some(s)).expect("jump mnemonic should encode")
}

fn comp_code(s: &str) -> u16 {
    comp(Some(s)).expect("comp mnemonic should encode")
}

#[test]
fn dest_absent_encodes_zero() {
    assert!(matches!(dest(None), Ok(0)));
}

#[test]
fn dest_positions() {
    let table = ["M", "D", "MD", "A", "AM", "AD", "AMD"];
    for (n, m) in table.iter().enumerate() {
        assert_eq!(dest_code(m), n as u8 + 1);
    }
}

#[test]
fn dest_unknown_fails() {
    match dest(Some("X")) {
        Err(AssemblyError::InvalidDestMnemonic(m)) => assert_eq!(m, "X"),
        other => panic!("expected InvalidDestMnemonic, got {:?}", other),
    }
    match dest(Some("md")) {
        Err(AssemblyError::InvalidDestMnemonic(m)) => assert_eq!(m, "md"),
        other => panic!("expected InvalidDestMnemonic, got {:?}", other),
    }
}

#[test]
fn jump_absent_encodes_zero() {
    assert!(matches!(jump(None), Ok(0)));
}

#[test]
fn jump_positions() {
    let table = ["JGT", "JEQ", "JGE", "JLT", "JNE", "JLE", "JMP"];
    for (n, m) in table.iter().enumerate() {
        assert_eq!(jump_code(m), n as u8 + 1);
    }
}

#[test]
fn jump_unknown_fails() {
    match jump(Some("JXX")) {
        Err(AssemblyError::InvalidJumpMnemonic(m)) => assert_eq!(m, "JXX"),
        other => panic!("expected InvalidJumpMnemonic, got {:?}", other),
    }
}

#[test]
fn comp_absent_fails() {
    match comp(None) {
        Err(AssemblyError::InvalidCompMnemonic(m)) => assert_eq!(m, ""),
        other => panic!("expected InvalidCompMnemonic, got {:?}", other),
    }
}

#[test]
fn comp_unknown_fails() {
    match comp(Some("FOO")) {
        Err(AssemblyError::InvalidCompMnemonic(m)) => assert_eq!(m, "FOO"),
        other => panic!("expected InvalidCompMnemonic, got {:?}", other),
    }
}

#[test]
fn comp_codes_without_memory_operand() {
    assert_eq!(comp_code("0"), 0b0101010);
    assert_eq!(comp_code("1"), 0b0111111);
    assert_eq!(comp_code("-1"), 0b0111010);
    assert_eq!(comp_code("D"), 0b0001100);
    assert_eq!(comp_code("A"), 0b0110000);
    assert_eq!(comp_code("!D"), 0b0001101);
    assert_eq!(comp_code("!A"), 0b0110001);
    assert_eq!(comp_code("-D"), 0b0001111);
    assert_eq!(comp_code("-A"), 0b0110011);
    assert_eq!(comp_code("D+1"), 0b0011111);
    assert_eq!(comp_code("A+1"), 0b0110111);
    assert_eq!(comp_code("D-1"), 0b0001110);
    assert_eq!(comp_code("A-1"), 0b0110010);
    assert_eq!(comp_code("D+A"), 0b0000010);
    assert_eq!(comp_code("D-A"), 0b0010011);
    assert_eq!(comp_code("A-D"), 0b0000111);
    assert_eq!(comp_code("D&A"), 0b0000000);
    assert_eq!(comp_code("D|A"), 0b0010101);
}

#[test]
fn comp_codes_with_memory_operand() {
    assert_eq!(comp_code("M"), 0b1110000);
    assert_eq!(comp_code("!M"), 0b1110001);
    assert_eq!(comp_code("-M"), 0b1110011);
    assert_eq!(comp_code("M+1"), 0b1110111);
    assert_eq!(comp_code("M-1"), 0b1110010);
    assert_eq!(comp_code("D+M"), 0b1000010);
    assert_eq!(comp_code("D-M"), 0b1010011);
    assert_eq!(comp_code("M-D"), 0b1000111);
    assert_eq!(comp_code("D&M"), 0b1000000);
    assert_eq!(comp_code("D|M"), 0b1010101);
}
