use hack_assembler::errors::AssemblyError;
use hack_assembler::instruction_enum::Instruction;
use hack_assembler::parser::Parser;
use hack_assembler::symbol_table::SymbolTable;

fn lines(src: &[&str]) -> Vec<String> {
    src.iter().map(|s| s.to_string()).collect()
}

#[test]
fn advance_counts_consumed_lines() {
    let mut p = Parser::new(lines(&["", "// only a comment", "@1", "D=A"]));
    assert_eq!(p.advance().unwrap(), 3);
    assert_eq!(p.instruction_type(), Instruction::A);
    assert_eq!(p.advance().unwrap(), 1);
    assert_eq!(p.instruction_type(), Instruction::C);
    assert_eq!(p.advance().unwrap(), 0);
}

#[test]
fn advance_strips_comments_and_whitespace() {
    let mut p = Parser::new(lines(&["   @2   // load two"]));
    assert_eq!(p.advance().unwrap(), 1);
    assert_eq!(p.symbol().unwrap(), "2");
}

#[test]
fn classification_by_leading_and_trailing_characters() {
    let mut p = Parser::new(lines(&["@sum", "(LOOP)", "D=M"]));
    p.advance().unwrap();
    assert_eq!(p.instruction_type(), Instruction::A);
    p.advance().unwrap();
    assert_eq!(p.instruction_type(), Instruction::L);
    p.advance().unwrap();
    assert_eq!(p.instruction_type(), Instruction::C);
}

#[test]
fn symbol_of_address_and_label() {
    let mut p = Parser::new(lines(&["@sum", "(LOOP)"]));
    p.advance().unwrap();
    assert_eq!(p.symbol().unwrap(), "sum");
    p.advance().unwrap();
    assert_eq!(p.symbol().unwrap(), "LOOP");
}

#[test]
fn symbol_of_compute_is_an_error() {
    let mut p = Parser::new(lines(&["D=A"]));
    p.advance().unwrap();
    match p.symbol() {
        Err(AssemblyError::SymbolError(m, n)) => {
            assert_eq!(m, "D=A is not an A or L instruction");
            assert_eq!(n, 1);
        },
        other => panic!("expected SymbolError, got {:?}", other),
    }
}

#[test]
fn fields_of_a_full_compute_instruction() {
    let mut p = Parser::new(lines(&["MD=D+1;JGT"]));
    p.advance().unwrap();
    assert_eq!(p.dest().unwrap(), 3);
    assert_eq!(p.comp().unwrap(), 0b0011111);
    assert_eq!(p.jump().unwrap(), 1);
}

#[test]
fn fields_default_when_separators_are_absent() {
    let mut p = Parser::new(lines(&["0;JMP"]));
    p.advance().unwrap();
    assert_eq!(p.dest().unwrap(), 0);
    assert_eq!(p.comp().unwrap(), 0b0101010);
    assert_eq!(p.jump().unwrap(), 7);
    let mut q = Parser::new(lines(&["M=1"]));
    q.advance().unwrap();
    assert_eq!(q.dest().unwrap(), 1);
    assert_eq!(q.comp().unwrap(), 0b0111111);
    assert_eq!(q.jump().unwrap(), 0);
}

#[test]
fn field_of_non_compute_is_an_error() {
    let mut p = Parser::new(lines(&["@5"]));
    p.advance().unwrap();
    match p.dest() {
        Err(AssemblyError::CodeError(m, n)) => {
            assert_eq!(m, "@5 is not a C instruction");
            assert_eq!(n, 1);
        },
        other => panic!("expected CodeError, got {:?}", other),
    }
}

#[test]
fn binary_string_of_compute_instructions() {
    let mut p = Parser::new(lines(&["D=A", "M=D", "0;JMP", "AMD=D|M;JLE"]));
    p.advance().unwrap();
    assert_eq!(p.binary_string().unwrap(), "1110110000010000");
    p.advance().unwrap();
    assert_eq!(p.binary_string().unwrap(), "1110001100001000");
    p.advance().unwrap();
    assert_eq!(p.binary_string().unwrap(), "1110101010000111");
    p.advance().unwrap();
    assert_eq!(p.binary_string().unwrap(), "1111010101111110");
}

#[test]
fn binary_string_collects_every_field_error() {
    let mut p = Parser::new(lines(&["X=FOO;JXX"]));
    p.advance().unwrap();
    match p.binary_string() {
        Err(AssemblyError::CombinedErrors(errs)) => {
            assert_eq!(errs.len(), 3);
            assert!(matches!(&errs[0], AssemblyError::CodeError(m, 1)
                if m.as_str() == "X=FOO;JXX does not contain a valid dest mnemonic"));
            assert!(matches!(&errs[1], AssemblyError::CodeError(m, 1)
                if m.as_str() == "X=FOO;JXX does not contain a valid comp mnemonic"));
            assert!(matches!(&errs[2], AssemblyError::CodeError(m, 1)
                if m.as_str() == "X=FOO;JXX does not contain a valid jump mnemonic"));
        },
        other => panic!("expected CombinedErrors, got {:?}", other),
    }
}

#[test]
fn reset_rewinds_to_the_start() {
    let mut p = Parser::new(lines(&["@1", "@2"]));
    p.advance().unwrap();
    p.advance().unwrap();
    assert_eq!(p.advance().unwrap(), 0);
    p.reset();
    assert_eq!(p.advance().unwrap(), 1);
    assert_eq!(p.symbol().unwrap(), "1");
}

#[test]
fn symbol_table_binds_and_looks_up() {
    let mut t = SymbolTable::new();
    assert!(!t.contains("x"));
    assert_eq!(t.get_address("x"), None);
    t.add_entry("x".to_string(), 16);
    assert!(t.contains("x"));
    assert_eq!(t.get_address("x"), Some(16));
    t.add_entry("y".to_string(), 17);
    assert_eq!(t.get_address("x"), Some(16));
    assert_eq!(t.get_address("y"), Some(17));
}

#[test]
fn symbol_table_overwrites_an_existing_binding() {
    let mut t = SymbolTable::new();
    t.add_entry("x".to_string(), 1);
    t.add_entry("x".to_string(), 2);
    assert_eq!(t.get_address("x"), Some(2));
}
