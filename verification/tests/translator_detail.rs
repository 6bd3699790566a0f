use hack_backend::assembler::{assemble, build_symbol_table, preprocess};
use hack_backend::parser::{ArithOp, Parser, Segment, VmCommand, VmErrorKind, validate_label};
use hack_backend::VMTranslator;

#[test]
fn test_push_add_exact_translation() {
    let result = VMTranslator::translate("push constant 7\npush constant 8\nadd", "test").unwrap();
    let expected = "@7\nD=A\n@SP\nA=M\nM=D\n@SP\nM=M+1\n\
                    @8\nD=A\n@SP\nA=M\nM=D\n@SP\nM=M+1\n\
                    @SP\nM=M-1\nA=M\nD=M\n@SP\nM=M-1\nA=M\nM=D+M\n@SP\nM=M+1";
    assert_eq!(result, expected);
}

#[test]
fn test_comparison_labels_are_fresh() {
    let input = "push constant 1\npush constant 2\neq\npush constant 3\npush constant 4\neq";
    let result = VMTranslator::translate(input, "test").unwrap();
    assert_eq!(result.matches("(TRUE_0)").count(), 1);
    assert_eq!(result.matches("(TRUE_1)").count(), 1);
    assert_eq!(result.matches("(END_0)").count(), 1);
    assert_eq!(result.matches("(END_1)").count(), 1);
}

#[test]
fn test_static_qualified_by_unit() {
    let result = VMTranslator::translate("push static 5\npop static 2", "Foo").unwrap();
    assert!(result.contains("@Foo.5"));
    assert!(result.contains("@Foo.2"));
}

#[test]
fn test_temp_segment_offsets_by_five() {
    let result = VMTranslator::translate("push temp 3", "test").unwrap();
    assert!(result.contains("@8"));
}

#[test]
fn test_pointer_aliases_this_and_that() {
    let push0 = VMTranslator::translate("push pointer 0", "test").unwrap();
    let push1 = VMTranslator::translate("push pointer 1", "test").unwrap();
    assert!(push0.contains("@THIS"));
    assert!(push1.contains("@THAT"));
}

#[test]
fn test_call_emits_frame_and_unique_return_label() {
    let result = VMTranslator::translate("call Main.fib 2\ncall Main.fib 2", "test").unwrap();
    assert!(result.contains("@Main.fib$ret.0"));
    assert!(result.contains("(Main.fib$ret.0)"));
    assert!(result.contains("@Main.fib$ret.1"));
    assert!(result.contains("(Main.fib$ret.1)"));
    assert!(result.contains("@Main.fib"));
    assert!(result.contains("0;JMP"));
}

#[test]
fn test_function_zeroes_locals() {
    let result = VMTranslator::translate("function Main.fib 2", "test").unwrap();
    assert!(result.contains("(Main.fib)"));
    assert_eq!(result.matches("@0\nD=A").count(), 2);
}

#[test]
fn test_return_reads_frame_before_moving_stack_pointer() {
    let result = VMTranslator::translate("return", "test").unwrap();
    let r13 = result.find("@R13").unwrap();
    let r14 = result.find("@R14").unwrap();
    assert!(result.contains("D=M+1"));
    assert!(r13 < r14);
    // The return address is extracted before the return value is copied.
    let ret_extract = result.find("A=D-A").unwrap();
    let arg_store = result.find("@ARG").unwrap();
    assert!(ret_extract < arg_store);
}

#[test]
fn test_call_function_return_assembles() {
    let vm = "call Main.run 1\nfunction Main.run 0\npush constant 9\nreturn";
    let assembly = VMTranslator::translate(vm, "Main").unwrap();
    let code = preprocess(assembly.lines().map(|l| l.to_string()).collect());
    let table = build_symbol_table(&code);
    let binary = assemble(&code, &table).unwrap();
    for line in &binary {
        assert_eq!(line.len(), 16);
        assert!(line.chars().all(|c| c == '0' || c == '1'));
    }
}

#[test]
fn test_push_pop_round_trip_assembles() {
    let vm = "push constant 7\npop local 0";
    let assembly = VMTranslator::translate(vm, "test").unwrap();
    let code = preprocess(assembly.lines().map(|l| l.to_string()).collect());
    assert_eq!(code.len(), 20);
    let table = build_symbol_table(&code);
    let binary = assemble(&code, &table).unwrap();
    assert_eq!(binary.len(), 20);
}

#[test]
fn test_missing_argument() {
    let err = VMTranslator::translate("push constant", "test").unwrap_err();
    assert_eq!(err.kind, VmErrorKind::MissingArgument);
    assert_eq!(err.index, 1);
}

#[test]
fn test_invalid_integer() {
    let err = VMTranslator::translate("push constant x", "test").unwrap_err();
    assert_eq!(err.kind, VmErrorKind::InvalidInteger);
    let err = VMTranslator::translate("push constant -1", "test").unwrap_err();
    assert_eq!(err.kind, VmErrorKind::InvalidInteger);
    let err = VMTranslator::translate("push constant 70000", "test").unwrap_err();
    assert_eq!(err.kind, VmErrorKind::InvalidInteger);
}

#[test]
fn test_unknown_segment() {
    let err = VMTranslator::translate("push bogus 1", "test").unwrap_err();
    assert_eq!(err.kind, VmErrorKind::UnknownSegment);
    let err = VMTranslator::translate("pop constant 1", "test").unwrap_err();
    assert_eq!(err.kind, VmErrorKind::UnknownSegment);
}

#[test]
fn test_unknown_command() {
    let err = VMTranslator::translate("frobnicate", "test").unwrap_err();
    assert_eq!(err.kind, VmErrorKind::UnknownCommand);
}

#[test]
fn test_invalid_label_kind_stops_generation() {
    let err = VMTranslator::translate("label 1bad", "test").unwrap_err();
    assert_eq!(err.kind, VmErrorKind::InvalidLabelName);
    assert_eq!(err.index, 1);
}

#[test]
fn test_error_reports_command_index_not_line_index() {
    // Blank lines and comments take no command slot.
    let input = "\n// comment\nadd\n\nbogus cmd\n";
    let err = VMTranslator::translate(input, "test").unwrap_err();
    assert_eq!(err.index, 2);
    assert_eq!(err.kind, VmErrorKind::UnknownCommand);
}

#[test]
fn test_push_local_needs_no_prior_definition() {
    // The generator only emits address arithmetic over the local base
    // pointer; it never inspects segment contents.
    let result = VMTranslator::translate("push local 0", "test").unwrap();
    assert!(result.contains("@LCL"));
    assert!(result.contains("A=D+M"));
}

#[test]
fn test_parser_walks_commands() {
    let mut p = Parser::new("push constant 1\n\n// note\nadd");
    assert!(p.has_more_commands());
    assert_eq!(p.current_line_number(), 1);
    let cmd = p.parse().unwrap();
    assert!(matches!(cmd, VmCommand::Push(Segment::Constant, 1)));
    p.advance();
    assert!(p.has_more_commands());
    assert_eq!(p.current_line_number(), 2);
    let cmd = p.parse().unwrap();
    assert!(matches!(cmd, VmCommand::Arithmetic(ArithOp::Add)));
    p.advance();
    assert!(!p.has_more_commands());
}

#[test]
fn test_label_grammar() {
    assert!(validate_label("loop_start"));
    assert!(validate_label("LOOP.END"));
    assert!(validate_label("test:1"));
    assert!(validate_label("_private"));
    assert!(!validate_label(""));
    assert!(!validate_label("1bad"));
    assert!(!validate_label("has space"));
    assert!(!validate_label("dash-bad"));
}

#[test]
fn test_comments_and_blank_lines_ignored() {
    let input = "// header\n\n   push constant 3   // inline\n";
    let result = VMTranslator::translate(input, "test").unwrap();
    assert_eq!(result, "@3\nD=A\n@SP\nA=M\nM=D\n@SP\nM=M+1");
}

#[test]
fn test_empty_input_translates_to_nothing() {
    let result = VMTranslator::translate("", "test").unwrap();
    assert_eq!(result, "");
}
