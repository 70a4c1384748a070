use hack_assembler::driver::{assemble, source_within_limits};
use hack_assembler::errors::AssemblyError;

fn lines(src: &[&str]) -> Vec<String> {
    src.iter().map(|s| s.to_string()).collect()
}

fn run(src: &[&str]) -> Vec<String> {
    let program = lines(src);
    assert!(source_within_limits(&program));
    assemble(program).expect("source should assemble")
}

#[test]
fn empty_source_emits_nothing() {
    assert_eq!(run(&[]), Vec::<String>::new());
    assert_eq!(run(&["", "// nothing here", "   "]), Vec::<String>::new());
}

#[test]
fn add_two_and_three() {
    let out = run(&["@2", "D=A", "@3", "D=D+A", "@0", "M=D"]);
    assert_eq!(out, vec![
        "0000000000000010",
        "1110110000010000",
        "0000000000000011",
        "1110000010010000",
        "0000000000000000",
        "1110001100001000",
    ]);
}

#[test]
fn label_emits_nothing_and_resolves_backward() {
    let out = run(&["(LOOP)", "@LOOP", "0;JMP"]);
    assert_eq!(out, vec!["0000000000000000", "1110101010000111"]);
}

#[test]
fn forward_label_reference_resolves_to_following_address() {
    let out = run(&["@END", "D=A", "0;JMP", "(END)", "@END"]);
    assert_eq!(out, vec![
        "0000000000000011",
        "1110110000010000",
        "1110101010000111",
        "0000000000000011",
    ]);
}

#[test]
fn variables_allocate_from_sixteen_upward() {
    let out = run(&["@first", "D=A", "@second", "D=A", "@first"]);
    assert_eq!(out, vec![
        "0000000000010000",
        "1110110000010000",
        "0000000000010001",
        "1110110000010000",
        "0000000000010000",
    ]);
}

#[test]
fn predefined_symbols_resolve_to_fixed_addresses() {
    let out = run(&["@R3", "@SP", "@LCL", "@ARG", "@THIS", "@R15", "@SCREEN", "@KBD"]);
    assert_eq!(out, vec![
        "0000000000000011",
        "0000000000000000",
        "0000000000000001",
        "0000000000000010",
        "0000000000000011",
        "0000000000001111",
        "0100000000000000",
        "0110000000000000",
    ]);
}

#[test]
fn label_defined_twice_keeps_the_first_binding() {
    let out = run(&["(DUP)", "D=A", "(DUP)", "@DUP"]);
    assert_eq!(out, vec!["1110110000010000", "0000000000000000"]);
}

#[test]
fn comments_and_blank_lines_produce_no_output() {
    let out = run(&["// header", "", "  @1  // one", "   // indented comment", "@2"]);
    assert_eq!(out, vec!["0000000000000001", "0000000000000010"]);
}

#[test]
fn numeric_literal_boundary() {
    let out = run(&["@0", "@65535"]);
    assert_eq!(out, vec!["0000000000000000", "1111111111111111"]);
}

#[test]
fn assembling_twice_is_byte_identical() {
    let src = &["@x", "D=A", "(L)", "@L", "D;JNE", "@42"];
    let first = run(src);
    let second = run(src);
    assert_eq!(first, second);
}

#[test]
fn invalid_comp_mnemonic_stops_the_run() {
    let program = lines(&["@1", "D=FOO;JMP"]);
    assert!(source_within_limits(&program));
    match assemble(program) {
        Err(AssemblyError::CombinedErrors(errs)) => {
            assert_eq!(errs.len(), 1);
            assert!(matches!(&errs[0], AssemblyError::CodeError(m, 2)
                if m.as_str() == "D=FOO;JMP does not contain a valid comp mnemonic"));
        },
        other => panic!("expected CombinedErrors, got {:?}", other),
    }
}

#[test]
fn every_bad_field_of_one_instruction_is_reported() {
    let program = lines(&["X=FOO;JXX"]);
    match assemble(program) {
        Err(AssemblyError::CombinedErrors(errs)) => assert_eq!(errs.len(), 3),
        other => panic!("expected CombinedErrors, got {:?}", other),
    }
}

#[test]
fn oversized_numeric_literal_is_out_of_limits() {
    assert!(!source_within_limits(&lines(&["@65536"])));
    assert!(!source_within_limits(&lines(&["@1", "@99999", "D=A"])));
    assert!(source_within_limits(&lines(&["@65535", "D=A"])));
}

#[test]
fn symbol_declared_as_label_after_use_is_not_a_variable() {
    let out = run(&["@X", "D=A", "(X)"]);
    assert_eq!(out, vec!["0000000000000010", "1110110000010000"]);
}

#[test]
fn predefined_name_declared_as_label_keeps_its_address() {
    let out = run(&["(R0)", "@R0"]);
    assert_eq!(out, vec!["0000000000000000"]);
}
