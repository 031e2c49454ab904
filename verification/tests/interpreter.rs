use lox_rc::vm::VM;
use lox_rc::InterpretError;

fn run_ok(source: &str) -> Vec<Vec<u8>> {
    let mut vm = VM::new();
    let r = vm.interpret(source);
    assert!(r.is_ok(), "expected success");
    vm.output().clone()
}

fn run_err(source: &str) -> (InterpretError, VM) {
    let mut vm = VM::new();
    match vm.interpret(source) {
        Ok(()) => panic!("expected an error"),
        Err(e) => (e, vm),
    }
}

fn has_diagnostic(vm: &VM, message: &[u8]) -> bool {
    vm.compile_diagnostics().iter().any(|d| d.message == message)
}

#[test]
fn precedence_binds_factor_tighter() {
    let out = run_ok("print 1 + 2 * 3;");
    assert_eq!(out, vec![b"7".to_vec()]);
}

#[test]
fn grouping_overrides_precedence() {
    let out = run_ok("print (1 + 2) * 3;");
    assert_eq!(out, vec![b"9".to_vec()]);
}

#[test]
fn string_concatenation() {
    let out = run_ok("print \"foo\" + \"bar\";");
    assert_eq!(out, vec![b"foobar".to_vec()]);
}

#[test]
fn global_define_and_assign() {
    let out = run_ok("var a = 1; a = a + 41; print a;");
    assert_eq!(out, vec![b"42".to_vec()]);
}

#[test]
fn shadowing_read_in_own_initializer_is_reported() {
    // The compiler's name resolution scans all locals from the top, so the
    // inner x's initializer sees the still-uninitialized inner x.
    let (e, vm) = run_err("{ var x = 10; { var x = x + 1; print x; } print x; }");
    assert_eq!(e, InterpretError::CompileError);
    assert!(has_diagnostic(&vm, b"Can't read local variable in its own initializer."));
    assert_eq!(vm.compile_diagnostics()[0].line, 1);
    // No bytecode ran: nothing was printed.
    assert!(vm.output().is_empty());
}

#[test]
fn if_else_takes_then_branch() {
    let out = run_ok("if (1 < 2) print \"y\"; else print \"n\";");
    assert_eq!(out, vec![b"y".to_vec()]);
}

#[test]
fn if_else_takes_else_branch() {
    let out = run_ok("if (2 < 1) print \"y\"; else print \"n\";");
    assert_eq!(out, vec![b"n".to_vec()]);
}

#[test]
fn nested_if_patches_jumps() {
    let out = run_ok("if (1 < 2) { if (2 < 3) print 1; else print 2; } else print 3;");
    assert_eq!(out, vec![b"1".to_vec()]);
}

#[test]
fn double_negation() {
    let out = run_ok("print -(-5);");
    assert_eq!(out, vec![b"5".to_vec()]);
}

#[test]
fn adding_string_and_number_is_a_runtime_error() {
    let (e, vm) = run_err("\"a\" + 1;");
    assert_eq!(e, InterpretError::RuntimeError);
    assert_eq!(vm.runtime_error_line(), Some(1));
    assert!(vm.output().is_empty());
}

#[test]
fn uninitialized_variable_is_nil() {
    let out = run_ok("var a; print a;");
    assert_eq!(out, vec![b"nil".to_vec()]);
}

#[test]
fn local_slots_and_scopes() {
    let out = run_ok("{ var x = 10; { var y = x + 1; print y; } print x; }");
    assert_eq!(out, vec![b"11".to_vec(), b"10".to_vec()]);
}

#[test]
fn locals_shadow_by_scope() {
    let out = run_ok("var x = 1; { var x = 2; print x; } print x;");
    assert_eq!(out, vec![b"2".to_vec(), b"1".to_vec()]);
}

#[test]
fn truthiness_of_nil_and_false() {
    let out = run_ok("print !nil; print !false; print !0; print !\"\";");
    assert_eq!(
        out,
        vec![b"true".to_vec(), b"true".to_vec(), b"false".to_vec(), b"false".to_vec()]
    );
}

#[test]
fn zero_is_truthy_in_conditions() {
    let out = run_ok("if (0) print 1; else print 2;");
    assert_eq!(out, vec![b"1".to_vec()]);
}

#[test]
fn nil_condition_is_falsey() {
    let out = run_ok("if (nil) print 1; else print 2;");
    assert_eq!(out, vec![b"2".to_vec()]);
}

#[test]
fn equality_within_and_across_kinds() {
    let out = run_ok(
        "print 1 == 1; print 1 == 2; print 1 == \"1\"; print \"a\" == \"a\"; print nil == nil; print true == true;",
    );
    assert_eq!(
        out,
        vec![
            b"true".to_vec(),
            b"false".to_vec(),
            b"false".to_vec(),
            b"true".to_vec(),
            b"true".to_vec(),
            b"true".to_vec()
        ]
    );
}

#[test]
fn inequality_is_negated_equality() {
    let out = run_ok("print 1 != 2; print 1 != 1;");
    assert_eq!(out, vec![b"true".to_vec(), b"false".to_vec()]);
}

#[test]
fn comparisons() {
    let out = run_ok("print 1 < 2; print 2 < 1; print 2 > 1; print 2 >= 2; print 1 <= 0;");
    assert_eq!(
        out,
        vec![
            b"true".to_vec(),
            b"false".to_vec(),
            b"true".to_vec(),
            b"true".to_vec(),
            b"false".to_vec()
        ]
    );
}

#[test]
fn comparing_strings_is_a_runtime_error() {
    let (e, _) = run_err("print \"a\" < \"b\";");
    assert_eq!(e, InterpretError::RuntimeError);
}

#[test]
fn arithmetic_on_doubles() {
    let out = run_ok("print 5 - 2; print 2 * 3; print 10 / 4; print 1.5 + 1;");
    assert_eq!(
        out,
        vec![b"3".to_vec(), b"6".to_vec(), b"2.5".to_vec(), b"2.5".to_vec()]
    );
}

#[test]
fn fractional_literal_round_trips() {
    let out = run_ok("print 1.25;");
    assert_eq!(out, vec![b"1.25".to_vec()]);
}

#[test]
fn negating_a_string_is_a_runtime_error() {
    let (e, _) = run_err("print -\"a\";");
    assert_eq!(e, InterpretError::RuntimeError);
}

#[test]
fn reading_an_undefined_global_fails() {
    let (e, vm) = run_err("print a;");
    assert_eq!(e, InterpretError::RuntimeError);
    assert_eq!(vm.runtime_error_line(), Some(1));
}

#[test]
fn assigning_an_undefined_global_fails() {
    let (e, _) = run_err("a = 1;");
    assert_eq!(e, InterpretError::RuntimeError);
}

#[test]
fn redeclaration_in_same_scope_is_reported() {
    let (e, vm) = run_err("{ var a = 1; var a = 2; }");
    assert_eq!(e, InterpretError::CompileError);
    assert!(has_diagnostic(&vm, b"Already a variable with this name in this scope."));
}

#[test]
fn unterminated_string_is_reported() {
    let (e, vm) = run_err("print \"abc");
    assert_eq!(e, InterpretError::CompileError);
    assert!(has_diagnostic(&vm, b"Unterminated string"));
}

#[test]
fn unexpected_character_is_reported() {
    let (e, vm) = run_err("print 1 @ 2;");
    assert_eq!(e, InterpretError::CompileError);
    assert!(has_diagnostic(&vm, b"Unexpected character."));
}

#[test]
fn invalid_assignment_target_is_reported() {
    let (e, vm) = run_err("1 + 2 = 3;");
    assert_eq!(e, InterpretError::CompileError);
    assert!(has_diagnostic(&vm, b"Invalid assignment target."));
}

#[test]
fn missing_expression_is_reported() {
    let (e, vm) = run_err("print ;");
    assert_eq!(e, InterpretError::CompileError);
    assert!(has_diagnostic(&vm, b"Expect expression"));
}

#[test]
fn missing_semicolon_is_reported() {
    let (e, vm) = run_err("print 1");
    assert_eq!(e, InterpretError::CompileError);
    assert!(has_diagnostic(&vm, b"Expect ';' after value."));
}

#[test]
fn missing_close_brace_is_reported() {
    let (e, vm) = run_err("{ print 1;");
    assert_eq!(e, InterpretError::CompileError);
    assert!(has_diagnostic(&vm, b"Expect '}' after block."));
}

#[test]
fn too_many_constants_in_one_chunk() {
    // Every global declaration interns its name and its number: past 256
    // pool entries the compiler must report the overflow.
    let mut source = String::new();
    for i in 0..200 {
        source.push_str(&format!("var v{} = {};", i, i));
    }
    let (e, vm) = run_err(&source);
    assert_eq!(e, InterpretError::CompileError);
    assert!(has_diagnostic(&vm, b"Too many constants in one chunk."));
}

#[test]
fn panic_mode_recovers_at_statement_boundary() {
    // The first statement is bad; after the ';' the compiler resumes and
    // still reports only real errors.
    let (e, vm) = run_err("print ; var a = 1;");
    assert_eq!(e, InterpretError::CompileError);
    assert!(has_diagnostic(&vm, b"Expect expression"));
}

#[test]
fn comments_and_whitespace_are_skipped() {
    let out = run_ok("print 1; // trailing words\nprint 2;");
    assert_eq!(out, vec![b"1".to_vec(), b"2".to_vec()]);
}

#[test]
fn comment_only_program_prints_nothing() {
    let out = run_ok("// nothing here\n");
    assert!(out.is_empty());
}

#[test]
fn empty_program_prints_nothing() {
    let out = run_ok("");
    assert!(out.is_empty());
}

#[test]
fn string_with_newline_keeps_content_and_counts_lines() {
    let out = run_ok("var s = \"a\nb\"; print s;");
    assert_eq!(out, vec![b"a\nb".to_vec()]);
}

#[test]
fn error_line_numbers_follow_newlines() {
    let (e, vm) = run_err("print 1;\nprint 2;\nprint ;\n");
    assert_eq!(e, InterpretError::CompileError);
    assert_eq!(vm.compile_diagnostics()[0].line, 3);
}

#[test]
fn runtime_error_reports_the_failing_line() {
    let (e, vm) = run_err("print 1;\n\"a\" + 1;\n");
    assert_eq!(e, InterpretError::RuntimeError);
    assert_eq!(vm.runtime_error_line(), Some(2));
    assert_eq!(vm.output().clone(), vec![b"1".to_vec()]);
}

#[test]
fn assignment_is_an_expression_with_its_value() {
    let out = run_ok("var a = 1; var b = 2; a = b = 7; print a; print b;");
    assert_eq!(out, vec![b"7".to_vec(), b"7".to_vec()]);
}

#[test]
fn expression_statements_leave_no_residue() {
    // Each expression statement nets zero stack entries, so later locals
    // still land in their slots.
    let out = run_ok("1 + 2; \"a\" == \"a\"; { var x = 5; x; print x; }");
    assert_eq!(out, vec![b"5".to_vec()]);
}

#[test]
fn print_after_if_without_else() {
    let out = run_ok("if (1 < 2) print 1; print 2;");
    assert_eq!(out, vec![b"1".to_vec(), b"2".to_vec()]);
}

#[test]
fn var_at_end_of_source_is_an_error_and_terminates() {
    let (e, vm) = run_err("var");
    assert_eq!(e, InterpretError::CompileError);
    assert!(has_diagnostic(&vm, b"Expect variable name."));
}

#[test]
fn var_with_number_name_is_an_error() {
    let (e, vm) = run_err("var 123 = 4;");
    assert_eq!(e, InterpretError::CompileError);
    assert!(has_diagnostic(&vm, b"Expect variable name."));
}

#[test]
fn comment_at_end_without_newline() {
    let out = run_ok("print 1; // no newline after this");
    assert_eq!(out, vec![b"1".to_vec()]);
}

#[test]
fn deeply_nested_blocks() {
    let out = run_ok("{{{{ print 1; }}}}");
    assert_eq!(out, vec![b"1".to_vec()]);
}

#[test]
fn too_many_locals_in_one_scope() {
    let mut source = String::from("{");
    for i in 0..260 {
        source.push_str(&format!("var a{} = 1;", i));
    }
    source.push('}');
    let (e, vm) = run_err(&source);
    assert_eq!(e, InterpretError::CompileError);
    assert!(has_diagnostic(&vm, b"Too many local variables in function."));
}

#[test]
fn jump_longer_than_two_bytes_is_an_error() {
    // A then-branch of tens of thousands of instructions overflows the
    // sixteen-bit jump operand.
    let mut source = String::from("if (1) {");
    for _ in 0..23000 {
        source.push_str("print 1;");
    }
    source.push('}');
    let (e, vm) = run_err(&source);
    assert_eq!(e, InterpretError::CompileError);
    assert!(has_diagnostic(&vm, b"Too much code to jump over."));
}

#[test]
fn nan_equals_nothing_not_even_itself() {
    let out = run_ok("var n = 0 / 0; print n == n; print n != n;");
    assert_eq!(out, vec![b"false".to_vec(), b"true".to_vec()]);
}

#[test]
fn the_two_zeros_are_equal() {
    let out = run_ok("print 0 == -0;");
    assert_eq!(out, vec![b"true".to_vec()]);
}
