// End-to-end runs of the pipeline: source text in, printed lines out.

use lox_rs::interp::{run, Interpreter, RunOutcome};

fn run_src(src: &str) -> RunOutcome {
    let mut interp = Interpreter::new();
    run(src, &mut interp, false)
}

fn lines(src: &str) -> Vec<String> {
    let r = run_src(src);
    assert!(r.parse_error.is_none(), "parse error: {:?}", r.parse_error);
    assert!(r.runtime_error.is_none(), "runtime error in {:?}", src);
    r.output
}

fn runtime_message(src: &str) -> String {
    let r = run_src(src);
    assert!(r.parse_error.is_none(), "parse error: {:?}", r.parse_error);
    r.runtime_error.expect("expected a runtime error").1
}

#[test]
fn precedence_scenario() {
    assert_eq!(lines("print 1 + 2 * 3;"), vec!["7"]);
}

#[test]
fn concat_scenario() {
    assert_eq!(lines("var a = \"hi\"; var b = \" there\"; print a + b;"), vec!["hi there"]);
}

#[test]
fn while_scenario() {
    assert_eq!(lines("var i = 0; while (i < 3) { print i; i = i + 1; }"), vec!["0", "1", "2"]);
}

#[test]
fn shadowing_scenario() {
    assert_eq!(lines("var x = 1; { var x = 2; print x; } print x;"), vec!["2", "1"]);
}

#[test]
fn function_scenario() {
    assert_eq!(lines("fn add(a, b) { return a + b; } print add(2, 40);"), vec!["42"]);
}

#[test]
fn if_else_scenario() {
    assert_eq!(lines("if (1 < 2) print \"yes\"; else print \"no\";"), vec!["yes"]);
}

#[test]
fn undefined_variable_error() {
    assert_eq!(runtime_message("print x;"), "Undefined variable 'x'.");
}

#[test]
fn operand_type_error() {
    assert_eq!(runtime_message("\"a\" - 1;"), "Operand must be numbers.");
}

#[test]
fn call_non_callable_error() {
    assert_eq!(runtime_message("1();"), "Can only call functions and classes.");
}

#[test]
fn top_level_return_error() {
    assert_eq!(runtime_message("return 1;"), "Only functions can return values.");
}

#[test]
fn unary_operators() {
    assert_eq!(lines("print -5; print !true; print !false;"), vec!["-5", "false", "true"]);
}

#[test]
fn division_and_modulo() {
    assert_eq!(lines("print 10 / 4; print 7 % 3;"), vec!["2.5", "1"]);
}

#[test]
fn fractional_literal() {
    assert_eq!(lines("print 1.5 + 0.25;"), vec!["1.75"]);
}

#[test]
fn comparison_operators() {
    assert_eq!(
        lines("print 1 < 2; print 2 <= 2; print 3 > 4; print 4 >= 4;"),
        vec!["true", "true", "false", "true"],
    );
}

#[test]
fn equality_rules() {
    assert_eq!(
        lines("print 1 == 1; print 1 == 2; print \"a\" == \"a\"; print nil == nil; print 1 == \"1\"; print 1 != 2;"),
        vec!["true", "false", "true", "true", "false", "true"],
    );
}

#[test]
fn print_nil_is_silent() {
    assert_eq!(lines("print nil;"), Vec::<String>::new());
}

#[test]
fn logical_short_circuit() {
    // The falsy left side of `or` gives way; the truthy one is kept.
    assert_eq!(lines("print 0 or 5; print 2 or 3;"), vec!["5", "2"]);
    // `and` keeps the falsy left side.
    assert_eq!(lines("print 0 and 5; print 2 and 3;"), vec!["0", "3"]);
}

#[test]
fn short_circuit_skips_effects() {
    // The right side would fault; short-circuiting must never reach it.
    assert_eq!(lines("print 1 or x;"), vec!["1"]);
    assert_eq!(lines("print 0 and x;"), vec!["0"]);
}

#[test]
fn for_loop_desugars() {
    assert_eq!(lines("for var i = 0; i < 3; i = i + 1 print i;"), vec!["0", "1", "2"]);
}

#[test]
fn for_loop_scope_is_private() {
    assert_eq!(
        runtime_message("for var i = 0; i < 1; i = i + 1 print i; print i;"),
        "Undefined variable 'i'.",
    );
}

#[test]
fn closure_captures_defining_scope() {
    let program = "\
fn makeCounter() {
    var i = 0;
    fn count() {
        i = i + 1;
        print i;
    }
    return count;
}
var counter = makeCounter();
counter();
counter();
";
    assert_eq!(lines(program), vec!["1", "2"]);
}

#[test]
fn arity_mismatch_is_an_error() {
    assert_eq!(runtime_message("fn f(a) { return a; } f(1, 2);"), "Arity mismatch.");
    assert_eq!(runtime_message("clock(1);"), "Arity mismatch.");
}

#[test]
fn clock_returns_a_number() {
    // The reading is whatever the wall clock says; it must print as a
    // non-empty decimal number.
    let out = lines("print clock();");
    assert_eq!(out.len(), 1);
    let seconds: f64 = out[0].parse().expect("a decimal number");
    assert!(seconds > 1.0e9);
    assert!(seconds < 1.0e11);
}

#[test]
fn native_clock_displays_as_native() {
    assert_eq!(lines("print clock;"), vec!["<native fn>"]);
}

#[test]
fn function_displays_with_name() {
    assert_eq!(lines("fn greet() { return nil; } print greet;"), vec!["<fn greet>"]);
}

#[test]
fn comments_are_skipped() {
    assert_eq!(
        lines("// nothing here\nprint 1; /* not\nthis either */ print 2;"),
        vec!["1", "2"],
    );
}

#[test]
fn truthiness_rule() {
    // Zero and the empty string are falsy; a normal number and a non-empty
    // string are truthy.
    assert_eq!(
        lines("if (0) print \"a\"; else print \"b\"; if (\"\") print \"c\"; else print \"d\"; if (7) print \"e\"; if (\"x\") print \"f\";"),
        vec!["b", "d", "e", "f"],
    );
}

#[test]
fn repl_prints_bare_expression() {
    let mut interp = Interpreter::new();
    let r = run("1 + 2", &mut interp, true);
    assert!(r.parse_error.is_none());
    assert!(r.runtime_error.is_none());
    assert_eq!(r.output, vec!["3"]);
}

#[test]
fn repl_state_persists_across_lines() {
    let mut interp = Interpreter::new();
    let first = run("var a = 40;", &mut interp, true);
    assert!(first.parse_error.is_none() && first.runtime_error.is_none());
    let second = run("print a + 2;", &mut interp, true);
    assert!(second.parse_error.is_none() && second.runtime_error.is_none());
    assert_eq!(second.output, vec!["42"]);
}

#[test]
fn runtime_error_stops_the_run() {
    let r = run_src("print 1; print x; print 2;");
    assert_eq!(r.output, vec!["1"]);
    assert_eq!(r.runtime_error.expect("error expected").1, "Undefined variable 'x'.");
}

#[test]
fn parse_error_messages_are_collected() {
    let r = run_src("print 1");
    assert_eq!(r.parse_error.as_deref(), Some("Expect ';' after value."));
    assert!(r.output.is_empty());

    let r2 = run_src("1 = 2;");
    assert_eq!(r2.parse_error.as_deref(), Some("Invalid assignment target."));

    let r3 = run_src("var = 3; print (1;");
    let msg = r3.parse_error.expect("parse errors expected");
    assert!(msg.contains("Expect variable name."));
    assert!(msg.contains("Expect ')' after expression."));
}

#[test]
fn assignment_is_an_expression() {
    assert_eq!(lines("var a = 1; print a = 5; print a;"), vec!["5", "5"]);
}

#[test]
fn assignment_updates_enclosing_scope() {
    assert_eq!(lines("var a = 1; { a = 2; } print a;"), vec!["2"]);
}

#[test]
fn parameter_cap_is_enforced() {
    let mut src = String::from("fn big(p0");
    for i in 1..=255 {
        src.push_str(&format!(", p{}", i));
    }
    src.push_str(") { return nil; }");
    let r = run_src(&src);
    let msg = r.parse_error.expect("parse error expected");
    assert!(msg.contains("Can't have more than 255 parameters."));
}

#[test]
fn nan_is_not_equal_to_itself() {
    assert_eq!(lines("print 0 / 0 == 0 / 0;"), vec!["false"]);
}

#[test]
fn negative_zero_equals_zero() {
    assert_eq!(lines("print -0 == 0;"), vec!["true"]);
}

#[test]
fn unary_operand_errors() {
    assert_eq!(runtime_message("-\"a\";"), "Operand must be a number.");
    assert_eq!(runtime_message("!1;"), "Operand must be a Boolean.");
}

#[test]
fn plus_wants_matching_operands() {
    assert_eq!(runtime_message("1 + \"a\";"), "Operand must be both numbers or both strings.");
}

#[test]
fn missing_expression_is_a_parse_error() {
    let r = run_src("print ;");
    assert_eq!(r.parse_error.as_deref(), Some("Expect expression."));
}
