use hack_backend::assembler::{AsmErrorKind, assemble, build_symbol_table, comp_table, jump_table, preprocess};
use hack_backend::SymbolTable;

fn lines(v: &[&str]) -> Vec<String> {
    v.iter().map(|s| s.to_string()).collect()
}

#[test]
fn test_assemble_basic_program() {
    let code = preprocess(lines(&["@2", "D=A", "@3", "M=D"]));
    let table = build_symbol_table(&code);
    let binary = assemble(&code, &table).unwrap();
    assert_eq!(
        binary,
        vec![
            "0000000000000010".to_string(),
            "1110110000010000".to_string(),
            "0000000000000011".to_string(),
            "1110001100001000".to_string(),
        ]
    );
}

#[test]
fn test_preprocess_strips_comments_and_blanks() {
    let code = preprocess(lines(&[
        "// full line comment",
        "",
        "   @2  // trailing comment",
        "\tD=A\t",
        "   ",
    ]));
    assert_eq!(code, vec!["@2".to_string(), "D=A".to_string()]);
}

#[test]
fn test_label_resolves_to_next_instruction() {
    let code = preprocess(lines(&["(LOOP)", "@LOOP", "0;JMP"]));
    let table = build_symbol_table(&code);
    let binary = assemble(&code, &table).unwrap();
    assert_eq!(binary[0], "0000000000000000");
    assert_eq!(binary[1], "1110101010000111");
}

#[test]
fn test_forward_label_reference() {
    let code = preprocess(lines(&["@END", "0;JMP", "D=A", "(END)", "@END", "0;JMP"]));
    let table = build_symbol_table(&code);
    let binary = assemble(&code, &table).unwrap();
    // The label stands at instruction 3; both references resolve to it.
    assert_eq!(binary[0], "0000000000000011");
    assert_eq!(binary[3], "0000000000000011");
}

#[test]
fn test_variables_start_at_sixteen() {
    let code = preprocess(lines(&["@first", "@second", "@first"]));
    let table = build_symbol_table(&code);
    let binary = assemble(&code, &table).unwrap();
    assert_eq!(binary[0], "0000000000010000"); // 16
    assert_eq!(binary[1], "0000000000010001"); // 17
    assert_eq!(binary[2], "0000000000010000"); // 16 again
}

#[test]
fn test_predefined_symbols() {
    let code = preprocess(lines(&["@SP", "@LCL", "@ARG", "@THIS", "@THAT", "@R13", "@SCREEN", "@KBD"]));
    let table = build_symbol_table(&code);
    let binary = assemble(&code, &table).unwrap();
    assert_eq!(binary[0], "0000000000000000");
    assert_eq!(binary[1], "0000000000000001");
    assert_eq!(binary[2], "0000000000000010");
    assert_eq!(binary[3], "0000000000000011");
    assert_eq!(binary[4], "0000000000000100");
    assert_eq!(binary[5], "0000000000001101");
    assert_eq!(binary[6], "0100000000000000");
    assert_eq!(binary[7], "0110000000000000");
}

#[test]
fn test_address_bounds() {
    let table = SymbolTable::new();
    let binary = assemble(&lines(&["@0", "@1", "@32767"]), &table).unwrap();
    assert_eq!(binary[0], "0000000000000000");
    assert_eq!(binary[1], "0000000000000001");
    assert_eq!(binary[2], "0111111111111111");
}

#[test]
fn test_numeric_operand_with_plus_sign() {
    let table = SymbolTable::new();
    let binary = assemble(&lines(&["@+5"]), &table).unwrap();
    assert_eq!(binary[0], "0000000000000101");
}

#[test]
fn test_operand_out_of_range() {
    let table = SymbolTable::new();
    let err = assemble(&lines(&["@0", "@40000"]), &table).unwrap_err();
    assert_eq!(err.kind, AsmErrorKind::OperandOutOfRange);
    assert_eq!(err.index, 2);
}

#[test]
fn test_undefined_symbol() {
    let table = SymbolTable::new();
    let err = assemble(&lines(&["@nowhere"]), &table).unwrap_err();
    assert_eq!(err.kind, AsmErrorKind::UndefinedSymbol);
    assert_eq!(err.index, 1);
}

#[test]
fn test_invalid_computation() {
    let code = preprocess(lines(&["D=A", "X=Y"]));
    let table = build_symbol_table(&code);
    let err = assemble(&code, &table).unwrap_err();
    assert_eq!(err.kind, AsmErrorKind::InvalidComputation);
    assert_eq!(err.index, 2);
}

#[test]
fn test_jump_mnemonics() {
    assert_eq!(jump_table("JGT"), 0b001);
    assert_eq!(jump_table("JEQ"), 0b010);
    assert_eq!(jump_table("JGE"), 0b011);
    assert_eq!(jump_table("JLT"), 0b100);
    assert_eq!(jump_table("JNE"), 0b101);
    assert_eq!(jump_table("JLE"), 0b110);
    assert_eq!(jump_table("JMP"), 0b111);
}

#[test]
fn test_unrecognized_jump_defaults_to_no_jump() {
    // The permissive fallback: an unknown jump mnemonic means "no jump".
    let table = SymbolTable::new();
    let binary = assemble(&lines(&["D;XYZ"]), &table).unwrap();
    assert_eq!(binary[0], "1110001100000000");
}

#[test]
fn test_comp_codes_exact() {
    assert_eq!(comp_table("0"), Some(0b0101010));
    assert_eq!(comp_table("1"), Some(0b0111111));
    assert_eq!(comp_table("-1"), Some(0b0111010));
    assert_eq!(comp_table("D"), Some(0b0001100));
    assert_eq!(comp_table("A"), Some(0b0110000));
    assert_eq!(comp_table("!D"), Some(0b0001101));
    assert_eq!(comp_table("!A"), Some(0b0110001));
    assert_eq!(comp_table("-D"), Some(0b0001111));
    assert_eq!(comp_table("-A"), Some(0b0110011));
    assert_eq!(comp_table("D+1"), Some(0b0011111));
    assert_eq!(comp_table("A+1"), Some(0b0110111));
    assert_eq!(comp_table("D-1"), Some(0b0001110));
    assert_eq!(comp_table("A-1"), Some(0b0110010));
    assert_eq!(comp_table("D+A"), Some(0b0000010));
    assert_eq!(comp_table("D-A"), Some(0b0010011));
    assert_eq!(comp_table("A-D"), Some(0b0000111));
    assert_eq!(comp_table("D&A"), Some(0b0000000));
    assert_eq!(comp_table("D|A"), Some(0b0010101));
    assert_eq!(comp_table("M"), Some(0b1110000));
    assert_eq!(comp_table("!M"), Some(0b1110001));
    assert_eq!(comp_table("-M"), Some(0b1110011));
    assert_eq!(comp_table("M+1"), Some(0b1110111));
    assert_eq!(comp_table("M-1"), Some(0b1110010));
    assert_eq!(comp_table("D+M"), Some(0b1000010));
    assert_eq!(comp_table("D-M"), Some(0b1010011));
    assert_eq!(comp_table("M-D"), Some(0b1000111));
    assert_eq!(comp_table("D&M"), Some(0b1000000));
    assert_eq!(comp_table("D|M"), Some(0b1010101));
    assert_eq!(comp_table("Q"), None);
}

#[test]
fn test_comp_codes_pairwise_distinct() {
    let mnemonics = [
        "0", "1", "-1", "D", "A", "!D", "!A", "-D", "-A", "D+1", "A+1", "D-1", "A-1", "D+A",
        "D-A", "A-D", "D&A", "D|A", "M", "!M", "-M", "M+1", "M-1", "D+M", "D-M", "M-D", "D&M",
        "D|M",
    ];
    let mut codes: Vec<u8> = mnemonics.iter().map(|m| comp_table(m).unwrap()).collect();
    codes.sort();
    codes.dedup();
    assert_eq!(codes.len(), 28);
}

#[test]
fn test_dest_is_containment_not_enumeration() {
    let table = SymbolTable::new();
    let a = assemble(&lines(&["MD=1"]), &table).unwrap();
    let b = assemble(&lines(&["DM=1"]), &table).unwrap();
    assert_eq!(a, b);
    let c = assemble(&lines(&["AMD=1"]), &table).unwrap();
    assert_eq!(c[0], "1110111111111000");
}

#[test]
fn test_binary_lines_are_sixteen_bits() {
    let code = preprocess(lines(&["@7", "D=A", "@8", "D=D+A", "@R13", "M=D"]));
    let table = build_symbol_table(&code);
    let binary = assemble(&code, &table).unwrap();
    assert_eq!(binary.len(), 6);
    for line in &binary {
        assert_eq!(line.len(), 16);
        assert!(line.chars().all(|c| c == '0' || c == '1'));
    }
}

#[test]
fn test_label_redeclaration_overwrites() {
    // The permissive policy: a redeclared label takes its later address.
    let code = preprocess(lines(&["(X)", "D=A", "(X)", "@X"]));
    let table = build_symbol_table(&code);
    let binary = assemble(&code, &table).unwrap();
    assert_eq!(binary[1], "0000000000000001");
}
