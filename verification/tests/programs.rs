use rascal::compile;
use rascal::rvm::{End, RvmError, RvmMachine};

/// Compiles the source and runs the code; returns what the program wrote.
fn output_of(source: &str) -> Vec<u32> {
    let code = compile(source.as_bytes().to_vec()).expect("the source compiles");
    let mut machine = RvmMachine::new(code);
    let outcome = machine.run(1_000_000);
    assert_eq!(outcome.end, End::Halted);
    outcome.output
}

/// Compiles the source and returns the diagnostic.
fn error_of(source: &str) -> String {
    match compile(source.as_bytes().to_vec()) {
        Ok(code) => panic!("compiled to {:?}", code),
        Err(e) => e,
    }
}

#[test]
fn writes_a_sum() {
    assert_eq!(output_of("begin write(2+3); end.\n"), vec![5]);
}

#[test]
fn sum_compiles_to_push_push_add_write_exit() {
    let code = compile(b"begin write(2+3); end.\n".to_vec()).unwrap();
    assert_eq!(
        code,
        vec![0x01, 0, 0, 0, 2, 0x01, 0, 0, 0, 3, 0x10, 0x20, 0x00]
    );
}

#[test]
fn assigns_a_product() {
    assert_eq!(
        output_of("var x: integer; begin x := 2 * (3+4); write(x); end.\n"),
        vec![14]
    );
}

#[test]
fn assignment_pushes_address_then_value_then_stores() {
    let code = compile(b"var x: integer; begin x := 7; end.\n".to_vec()).unwrap();
    assert_eq!(
        code,
        vec![0x01, 0, 0, 0, 0, 0x01, 0, 0, 0, 7, 0x03, 0x00]
    );
}

#[test]
fn punctuation_that_touches_is_one_lexeme() {
    assert_eq!(
        error_of("var x: integer; begin x := 2*(3+4); write(x); end.\n"),
        "Scanner Error: Invalid operator or symbol [ *( ] (1:29)"
    );
    assert_eq!(
        error_of("var a: array[1..3] of integer; begin a[1]:=10; end.\n"),
        "Scanner Error: Invalid operator or symbol [ ]:= ] (1:41)"
    );
    assert_eq!(
        error_of("var a: array[1..3] of integer; begin write(a[2]); end.\n"),
        "Scanner Error: Invalid operator or symbol [ ]) ] (1:47)"
    );
    assert_eq!(
        error_of("begin write(-1); end.\n"),
        "Scanner Error: Invalid operator or symbol [ (- ] (1:12)"
    );
}

#[test]
fn counts_with_while() {
    assert_eq!(
        output_of(
            "var i: integer; begin i := 0; while i<5 do begin i := i+1; write(i); end; end.\n"
        ),
        vec![1, 2, 3, 4, 5]
    );
}

#[test]
fn while_compiles_with_patched_exit_and_back_jump() {
    let code = compile(b"begin while 1 do begin end; end.\n".to_vec()).unwrap();
    assert_eq!(
        code,
        vec![
            0x01, 0, 0, 0, 1, // the condition, at 0
            0x01, 0, 0, 0, 17, 0x31, // leave for 17 when it fails
            0x01, 0, 0, 0, 0, 0x32, // back to the condition
            0x00,
        ]
    );
}

#[test]
fn reads_and_writes_array_elements() {
    assert_eq!(
        output_of(
            "var a: array[1..3] of integer; begin a[1] := 10; a[2] := 20; a[3] := 30; write(a[2] ); end.\n"
        ),
        vec![20]
    );
}

#[test]
fn array_element_address_subtracts_the_lower_bound() {
    let code = compile(b"var a: array[1..3] of integer; begin write(a[2] ); end.\n".to_vec()).unwrap();
    assert_eq!(
        code,
        vec![
            0x01, 0, 0, 0, 2, // the index
            0x01, 0, 0, 0, 1, 0x11, // less the lower bound
            0x01, 0, 0, 0, 4, 0x12, // times the size of an element
            0x01, 0, 0, 0, 0, 0x10, // plus the base
            0x04, 0x20, 0x00,
        ]
    );
}

#[test]
fn array_from_zero_needs_no_subtraction() {
    let code = compile(b"var a: array[0..3] of integer; begin write(a[2] ); end.\n".to_vec()).unwrap();
    assert_eq!(
        code,
        vec![
            0x01, 0, 0, 0, 2, 0x01, 0, 0, 0, 4, 0x12, 0x01, 0, 0, 0, 0, 0x10, 0x04, 0x20, 0x00,
        ]
    );
}

#[test]
fn takes_the_then_branch() {
    assert_eq!(
        output_of(
            "var x: integer; begin x := 7; if x>3 then begin write(1); end else begin write(0); end; end.\n"
        ),
        vec![1]
    );
}

#[test]
fn takes_the_else_branch() {
    assert_eq!(
        output_of(
            "var x: integer; begin x := 2; if x>3 then begin write(1); end else begin write(0); end; end.\n"
        ),
        vec![0]
    );
}

#[test]
fn if_without_else_skips_the_block() {
    assert_eq!(
        output_of("begin if 1=0 then begin write(1); end; write(2); end.\n"),
        vec![2]
    );
}

#[test]
fn if_else_compiles_with_both_holes_patched() {
    let code =
        compile(b"begin if 1 then begin write(2); end else begin write(3); end; end.\n".to_vec())
            .unwrap();
    assert_eq!(
        code,
        vec![
            0x01, 0, 0, 0, 1, // the condition
            0x01, 0, 0, 0, 23, 0x31, // to the alternative at 23 when it fails
            0x01, 0, 0, 0, 2, 0x20, // the block
            0x01, 0, 0, 0, 29, 0x32, // behind the statement
            0x01, 0, 0, 0, 3, 0x20, // the alternative
            0x00,
        ]
    );
}

#[test]
fn repeats_until_the_condition_holds() {
    assert_eq!(
        output_of("var x: integer; begin x := 0; repeat x := x+1; until x=3; write(x); end.\n"),
        vec![3]
    );
}

#[test]
fn repeat_until_true_runs_once() {
    assert_eq!(
        output_of("begin repeat write(9); until 1=1; end.\n"),
        vec![9]
    );
}

#[test]
fn while_false_runs_never() {
    assert_eq!(
        output_of("begin while 1=0 do begin write(9); end; write(1); end.\n"),
        vec![1]
    );
}

#[test]
fn nested_conditionals_leave_no_dangling_branch() {
    let program = |x: u32| {
        format!(
            "var x: integer; begin x := {}; if x>3 then begin if x>5 then begin write(2); end else begin write(1); end; end else begin if x>1 then begin write(0); end else begin write(9); end; end; write(7); end.\n",
            x
        )
    };
    assert_eq!(output_of(&program(7)), vec![2, 7]);
    assert_eq!(output_of(&program(4)), vec![1, 7]);
    assert_eq!(output_of(&program(2)), vec![0, 7]);
    assert_eq!(output_of(&program(1)), vec![9, 7]);
}

#[test]
fn empty_body_compiles_to_exit() {
    assert_eq!(compile(b"begin end.\n".to_vec()).unwrap(), vec![0x00]);
}

#[test]
fn unassigned_variable_reads_zero() {
    assert_eq!(
        output_of("var x, y: integer; begin x := 5; write(y); end.\n"),
        vec![0]
    );
}

#[test]
fn sum_commutes_and_difference_does_not() {
    assert_eq!(output_of("begin write(2+3); end.\n"), output_of("begin write(3+2); end.\n"));
    assert_eq!(output_of("begin write(7-2); end.\n"), vec![5]);
    assert_eq!(output_of("begin write(2-7); end.\n"), vec![4294967291]);
    assert_eq!(output_of("begin write(7/2); end.\n"), vec![3]);
    assert_eq!(output_of("begin write(2/7); end.\n"), vec![0]);
}

#[test]
fn parentheses_compile_to_nothing() {
    let plain = compile(b"begin write(2+3); end.\n".to_vec()).unwrap();
    let wrapped = compile(b"begin write( (2+3) ); end.\n".to_vec()).unwrap();
    assert_eq!(plain, wrapped);
}

#[test]
fn operators_associate_to_the_left() {
    assert_eq!(output_of("begin write(10-3-2); end.\n"), vec![5]);
    assert_eq!(output_of("begin write(2+3*4); end.\n"), vec![14]);
    assert_eq!(output_of("begin write(24/4/2); end.\n"), vec![3]);
}

#[test]
fn comparisons_bind_like_multiplication() {
    // 1 + (2 < 3) and not (1 + 2) < 3
    assert_eq!(output_of("begin write(1+2<3); end.\n"), vec![2]);
}

#[test]
fn comparisons_and_connectives() {
    assert_eq!(output_of("begin write(2<3); write(3<2); write(2<2); end.\n"), vec![1, 0, 0]);
    assert_eq!(output_of("begin write(2<=3); write(3<=2); write(2<=2); end.\n"), vec![1, 0, 1]);
    assert_eq!(output_of("begin write(2>3); write(3>2); write(2>2); end.\n"), vec![0, 1, 0]);
    assert_eq!(output_of("begin write(2>=3); write(3>=2); write(2>=2); end.\n"), vec![0, 1, 1]);
    assert_eq!(output_of("begin write(2=2); write(2<>2); write(2<>3); end.\n"), vec![1, 0, 1]);
    assert_eq!(output_of("begin write(1 and 0); write(2 and 3); end.\n"), vec![0, 1]);
    assert_eq!(output_of("begin write(0 or 0); write(0 or 3); end.\n"), vec![0, 1]);
}

#[test]
fn unary_minus_negates_modulo_two_to_the_32() {
    assert_eq!(output_of("begin write( -1); write( - 0); write(5 + -2); end.\n"), vec![4294967295, 0, 3]);
    let code = compile(b"begin write( -1); end.\n".to_vec()).unwrap();
    assert_eq!(code, vec![0x01, 0, 0, 0, 1, 0x14, 0x20, 0x00]);
}

#[test]
fn arithmetic_wraps() {
    assert_eq!(output_of("begin write(4294967295+2); end.\n"), vec![1]);
    assert_eq!(output_of("begin write(65536*65537); end.\n"), vec![65536]);
}

#[test]
fn variables_are_allocated_in_declaration_order() {
    let code = compile(
        b"var a, b: integer; var c: array[2..4] of integer; var d: integer; begin a := 1; b := 2; c[2] := 3; d := 4; end.\n"
            .to_vec(),
    )
    .unwrap();
    // a at 0, b at 4, c at 8 (12 bytes), d at 20
    assert_eq!(&code[0..5], &[0x01, 0, 0, 0, 0]);
    assert_eq!(&code[11..16], &[0x01, 0, 0, 0, 4]);
    assert_eq!(&code[39..44], &[0x01, 0, 0, 0, 8]);
    assert_eq!(&code[51..56], &[0x01, 0, 0, 0, 20]);
}

#[test]
fn arrays_declared_together_do_not_overlap() {
    assert_eq!(
        output_of(
            "var a, b: array[1..2] of integer; var c: integer; begin a[2] := 1; b[1] := 2; c := 3; write(a[2] ); write(b[1] ); write(c); end.\n"
        ),
        vec![1, 2, 3]
    );
}

#[test]
fn reports_an_unexpected_token() {
    assert_eq!(
        error_of("begin write(2+3) end.\n"),
        "Parser Error: Expected TK_SEMICOL but found TK_END (1:18)"
    );
    assert_eq!(
        error_of("begin\n  write 2;\nend.\n"),
        "Parser Error: Expected TK_LPAREN but found TK_INTLIT (2:9)"
    );
    assert_eq!(error_of("end.\n"), "Parser Error: Expected TK_BEGIN but found TK_END (1:1)");
    assert_eq!(error_of("begin end\n"), "Parser Error: Expected TK_DOT but found TK_EOF (1:10)");
    assert_eq!(
        error_of("begin end. begin\n"),
        "Parser Error: Expected TK_EOF but found TK_BEGIN (1:12)"
    );
}

#[test]
fn reports_what_cannot_begin_a_factor() {
    assert_eq!(
        error_of("begin write( ; ); end.\n"),
        "Parser Error: Expected TK_INTLIT, TK_IDENT, TK_MINUS, or TK_LPAREN but found TK_SEMICOL (1:14)"
    );
    assert_eq!(
        error_of("begin write(1.5); end.\n"),
        "Parser Error: Expected TK_INTLIT, TK_IDENT, TK_MINUS, or TK_LPAREN but found TK_REALLIT (1:13)"
    );
}

#[test]
fn undeclared_name_is_no_statement() {
    assert_eq!(
        error_of("begin x := 1; end.\n"),
        "Parser Error: Expected TK_END but found TK_IDENT (1:7)"
    );
}

#[test]
fn declared_name_cannot_be_declared_again() {
    // the table's token is returned, with the place where the name was first seen
    assert_eq!(
        error_of("var x: integer; var x: integer; begin end.\n"),
        "Parser Error: Expected TK_IDENT but found TK_AVAR (1:5)"
    );
}

#[test]
fn declaration_needs_a_type() {
    assert_eq!(
        error_of("var x: begin end.\n"),
        "Parser Error: Expected TK_INTEGER but found TK_BEGIN (1:8)"
    );
}

#[test]
fn declarations_are_separated_by_semicolons() {
    assert_eq!(
        error_of("var x: integer var y: integer; begin end.\n"),
        "Parser Error: Expected TK_BEGIN but found TK_VAR (1:16)"
    );
}

#[test]
fn literal_must_fit_in_a_word() {
    assert_eq!(output_of("begin write(4294967295); end.\n"), vec![4294967295]);
    assert_eq!(
        error_of("begin write(4294967296); end.\n"),
        "Parser Error: Expected TK_INTLIT below 4294967296 but found TK_INTLIT (1:13)"
    );
}

#[test]
fn array_bounds_must_ascend() {
    assert_eq!(
        error_of("var a: array[3..1] of integer; begin end.\n"),
        "Parser Error: Expected TK_INTLIT not below the lower bound but found TK_INTLIT (1:17)"
    );
    assert_eq!(
        error_of("var a: array[x..1] of integer; begin end.\n"),
        "Parser Error: Expected TK_INTLIT but found TK_IDENT (1:14)"
    );
}

#[test]
fn storage_must_fit_in_the_address_space() {
    assert_eq!(
        error_of("var a: array[0..1073741823] of integer; begin end.\n"),
        "Parser Error: Expected storage within 4294967296 bytes but found TK_INTEGER (1:32)"
    );
    assert_eq!(
        error_of("var a, b: array[1..536870912] of integer; begin end.\n"),
        "Parser Error: Expected storage within 4294967296 bytes but found TK_INTEGER (1:34)"
    );
}

#[test]
fn scanner_errors_come_through_unchanged() {
    assert_eq!(error_of("begin write(2 ? 3); end.\n"), "Scanner Error: Illegal character [ ? ] (1:15)");
    assert_eq!(error_of(""), "Err: Empty source file.");
}

#[test]
fn index_outside_the_segment_stops_the_machine() {
    let code = compile(
        b"var a: array[1..3] of integer; begin a[100] := 1; end.\n".to_vec(),
    )
    .unwrap();
    let mut machine = RvmMachine::new(code);
    let outcome = machine.exec();
    assert_eq!(outcome.end, End::Failed(RvmError::DataOutOfRange));
}

#[test]
fn division_by_zero_stops_the_machine() {
    let code = compile(b"begin write(1); write(1/0); end.\n".to_vec()).unwrap();
    let mut machine = RvmMachine::new(code);
    let outcome = machine.exec();
    assert_eq!(outcome.output, vec![1]);
    assert_eq!(outcome.end, End::Failed(RvmError::DivisionByZero));
}

#[test]
fn endless_loop_runs_out_of_fuel() {
    let code = compile(b"begin repeat write(1); until 1=0; end.\n".to_vec()).unwrap();
    let mut machine = RvmMachine::new(code);
    let outcome = machine.run(100);
    assert_eq!(outcome.end, End::OutOfFuel);
    assert!(outcome.output.len() > 5);
}
