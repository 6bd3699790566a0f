use hack_backend::VMTranslator;

#[test]
fn test_arithmetic_add() {
    let input = "push constant 7\npush constant 8\nadd";
    let result = VMTranslator::translate(input, "test").unwrap();
    assert!(result.contains("D=A"));
    assert!(result.contains("M=D+M"));
}

#[test]
fn test_push_constant() {
    let input = "push constant 17";
    let result = VMTranslator::translate(input, "test").unwrap();
    assert!(result.contains("@17"));
    assert!(result.contains("D=A"));
}

#[test]
fn test_pop_local() {
    let input = "pop local 0";
    let result = VMTranslator::translate(input, "test").unwrap();
    assert!(result.contains("@LCL"));
    assert!(result.contains("D=D+M"));
}

#[test]
fn test_label() {
    let input = "label LOOP_START";
    let result = VMTranslator::translate(input, "test").unwrap();
    assert!(result.contains("(LOOP_START)"));
}

#[test]
fn test_goto() {
    let input = "goto END";
    let result = VMTranslator::translate(input, "test").unwrap();
    assert!(result.contains("@END"));
    assert!(result.contains("0;JMP"));
}

#[test]
fn test_if_goto() {
    let input = "if-goto LOOP";
    let result = VMTranslator::translate(input, "test").unwrap();
    assert!(result.contains("@LOOP"));
    assert!(result.contains("D;JNE"));
}

#[test]
fn test_simple_loop() {
    let input = r#"
push constant 0
pop local 0
label LOOP_START
push local 0
push constant 10
lt
if-goto LOOP_BODY
goto LOOP_END
label LOOP_BODY
push local 0
push constant 1
add
pop local 0
goto LOOP_START
label LOOP_END
"#;
    let result = VMTranslator::translate(input, "test").unwrap();
    assert!(result.contains("(LOOP_START)"));
    assert!(result.contains("(LOOP_BODY)"));
    assert!(result.contains("(LOOP_END)"));
    assert!(result.contains("@LOOP_START"));
    assert!(result.contains("@LOOP_BODY"));
    assert!(result.contains("@LOOP_END"));
}

#[test]
fn test_conditional_branch() {
    let input = r#"
push constant 5
push constant 3
gt
if-goto TRUE_BRANCH
push constant 0
goto END
label TRUE_BRANCH
push constant 1
label END
"#;
    let result = VMTranslator::translate(input, "test").unwrap();
    assert!(result.contains("(TRUE_BRANCH)"));
    assert!(result.contains("(END)"));
    assert!(result.contains("D;JNE"));
}

#[test]
fn test_nested_labels() {
    let input = r#"
label OUTER
push constant 5
label INNER
push constant 10
goto OUTER
"#;
    let result = VMTranslator::translate(input, "test").unwrap();
    assert!(result.contains("(OUTER)"));
    assert!(result.contains("(INNER)"));
}

#[test]
fn test_label_with_valid_characters() {
    let input = r#"
label loop_start
label LOOP.END
label test:1
label _private
"#;
    let result = VMTranslator::translate(input, "test").unwrap();
    assert!(result.contains("(loop_start)"));
    assert!(result.contains("(LOOP.END)"));
    assert!(result.contains("(test:1)"));
    assert!(result.contains("(_private)"));
}

#[test]
fn test_invalid_label_starts_with_digit() {
    let input = "label 123invalid";
    let result = VMTranslator::translate(input, "test");
    assert!(result.is_err());
}

#[test]
fn test_invalid_label_empty() {
    let input = "label";
    let result = VMTranslator::translate(input, "test");
    assert!(result.is_err());
}

#[test]
fn test_multiple_arithmetic_operations() {
    let input = r#"
push constant 10
push constant 5
sub
push constant 2
add
neg
"#;
    let result = VMTranslator::translate(input, "test").unwrap();
    assert!(result.contains("M=M-D"));
    assert!(result.contains("M=D+M"));
    assert!(result.contains("M=-M"));
}

#[test]
fn test_comparison_operations() {
    let input = r#"
push constant 5
push constant 3
eq
push constant 10
push constant 10
gt
push constant 2
push constant 8
lt
"#;
    let result = VMTranslator::translate(input, "test").unwrap();
    assert!(result.contains("D;JEQ"));
    assert!(result.contains("D;JGT"));
    assert!(result.contains("D;JLT"));
}

#[test]
fn test_logical_operations() {
    let input = r#"
push constant 5
push constant 3
and
push constant 5
push constant 3
or
push constant 1
not
"#;
    let result = VMTranslator::translate(input, "test").unwrap();
    assert!(result.contains("M=D&M"));
    assert!(result.contains("M=D|M"));
    assert!(result.contains("M=!M"));
}

#[test]
fn test_all_segments() {
    let input = r#"
push constant 10
push local 0
push argument 1
push this 2
push that 3
push temp 5
push pointer 0
push pointer 1
pop local 0
pop argument 1
pop this 2
pop that 3
pop temp 5
pop pointer 0
pop pointer 1
"#;
    let result = VMTranslator::translate(input, "test").unwrap();
    assert!(result.contains("@LCL"));
    assert!(result.contains("@ARG"));
    assert!(result.contains("@THIS"));
    assert!(result.contains("@THAT"));
}
