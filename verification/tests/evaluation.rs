use paijorot::environment::{Environment, Value};
use paijorot::interpreter::{Interpreter, RuntimeError};
use paijorot::lexer::Lexer;
use paijorot::parser::Parser;
use paijorot::token::Literal;
use paijorot::number::Num;
use paijorot::Error;

/// Run a program against a fresh environment and collect what it
/// printed, with the error (if any) after the lines printed so far.
fn run_collect(src: &str) -> (Vec<String>, Option<RuntimeError>) {
    let mut environment = Environment::new();
    run_collect_with(src, &mut environment)
}

fn run_collect_with(src: &str, environment: &mut Environment) -> (Vec<String>, Option<RuntimeError>) {
    let mut lexer = Lexer::new(String::from(src));
    let tokens = lexer.scan_tokens().expect("expected the source to lex");
    let mut parser = Parser::new(tokens);
    let statements = parser.parse().expect("expected the source to parse");
    let mut taken = Environment::new();
    std::mem::swap(environment, &mut taken);
    let mut interpreter = Interpreter::new(taken);
    let result = interpreter.interpret(&statements);
    std::mem::swap(environment, &mut interpreter.environment);
    (interpreter.output, result.err())
}

fn outputs(src: &str) -> Vec<String> {
    let (out, err) = run_collect(src);
    assert!(err.is_none(), "unexpected runtime error: {:?}", err.map(|e| e.message()));
    out
}

fn runtime_error(src: &str) -> RuntimeError {
    let (_, err) = run_collect(src);
    err.expect("expected a runtime error")
}

#[test]
fn numeric_addition_prints_two() {
    assert_eq!(outputs("yap 1 + 1;"), vec!["2"]);
}

#[test]
fn string_plus_number_stringifies_the_number() {
    assert_eq!(outputs("yap \"a\" + 1;"), vec!["a1"]);
}

#[test]
fn number_plus_string_stringifies_the_number() {
    assert_eq!(outputs("yap 1 + \"a\";"), vec!["1a"]);
}

#[test]
fn string_concatenation() {
    assert_eq!(outputs("yap \"a\" + \"b\";"), vec!["ab"]);
}

#[test]
fn declaration_then_reassignment_prints_six() {
    assert_eq!(outputs("ts x pmo 5; x pmo x + 1; yap x;"), vec!["6"]);
}

#[test]
fn assignment_to_undeclared_name_is_undefined_variable() {
    let err = runtime_error("y pmo 1;");
    assert_eq!(err.message(), "Undefined variable 'y'.");
}

#[test]
fn reading_an_undeclared_name_is_undefined_variable() {
    let err = runtime_error("yap nope;");
    assert_eq!(err.message(), "Undefined variable 'nope'.");
}

#[test]
fn counted_loop_runs_exactly_three_times() {
    assert_eq!(outputs("goon(3) yap 1; edge"), vec!["1", "1", "1"]);
}

#[test]
fn break_stops_the_counted_loop_after_one_pass() {
    assert_eq!(outputs("goon(3) yap 1; sybau; edge"), vec!["1"]);
}

#[test]
fn break_in_unbounded_loop_stops_it() {
    assert_eq!(
        outputs("ts x pmo 0; goon x pmo x + 1; yo x > 2 sybau; edge yap x;"),
        vec!["3"]
    );
}

#[test]
fn nested_loops_break_only_the_inner_one() {
    assert_eq!(
        outputs("goon(2) goon(3) yap 1; sybau; edge yap 2; edge"),
        vec!["1", "2", "1", "2"]
    );
}

#[test]
fn break_outside_a_loop_is_a_runtime_error() {
    let err = runtime_error("sybau;");
    assert_eq!(err.message(), "'sybau' statement outside of a loop.");
}

#[test]
fn break_inside_if_at_top_level_is_still_an_error() {
    let err = runtime_error("yo 1 sybau;");
    assert_eq!(err.message(), "'sybau' statement outside of a loop.");
}

#[test]
fn loop_count_truncates_toward_zero() {
    assert_eq!(outputs("goon(2.9) yap 1; edge"), vec!["1", "1"]);
    assert_eq!(outputs("goon(0) yap 1; edge"), Vec::<String>::new());
}

#[test]
fn loop_count_must_be_a_number() {
    let err = runtime_error("goon(\"x\") yap 1; edge");
    assert_eq!(err.message(), "Loop condition must evaluate to a number.");
}

#[test]
fn function_call_binds_parameters() {
    assert_eq!(outputs("hawk add(a, b) tuah a + b; yap add(2, 3);"), vec!["5"]);
}

#[test]
fn wrong_argument_count_is_reported() {
    let err = runtime_error("hawk add(a, b) tuah a + b; yap add(2);");
    assert_eq!(err.message(), "Expected 2 arguments but got 1.");
}

#[test]
fn calls_see_only_their_parameters() {
    let err = runtime_error("ts x pmo 1; hawk f(a) tuah a + x; yap f(2);");
    assert_eq!(err.message(), "Undefined variable 'x'.");
}

#[test]
fn chained_calls_evaluate() {
    assert_eq!(outputs("hawk f(x) tuah x; yap f(f)(2);"), vec!["2"]);
}

#[test]
fn calling_a_non_function_is_an_error() {
    let err = runtime_error("ts x pmo 1; x(1);");
    assert_eq!(err.message(), "Can only call functions.");
}

#[test]
fn self_application_hits_the_call_depth_limit() {
    let err = runtime_error("hawk f(g) tuah g(g); f(f);");
    assert_eq!(err.message(), "Call depth limit exceeded.");
}

#[test]
fn division_by_zero_is_an_error() {
    let err = runtime_error("yap 1 / 0;");
    assert_eq!(err.message(), "Division by zero.");
}

#[test]
fn modulo_by_zero_is_an_error() {
    let err = runtime_error("yap 1 % 0;");
    assert_eq!(err.message(), "Modulo by zero.");
}

#[test]
fn cross_kind_equality_is_false_not_an_error() {
    assert_eq!(outputs("yap 1 == \"1\";"), vec!["false"]);
}

#[test]
fn same_kind_equality_compares_values() {
    assert_eq!(
        outputs("yap 1 == 1; yap \"a\" == \"a\"; yap 1 == 2; yap 1 != 2;"),
        vec!["true", "true", "false", "true"]
    );
}

#[test]
fn comparisons_need_numbers() {
    let err = runtime_error("yap 1 < \"a\";");
    assert_eq!(err.message(), "Operands must be numbers.");
    assert_eq!(outputs("yap 2 > 1; yap 1 >= 1; yap 0 < 1; yap 2 <= 1;"),
        vec!["true", "true", "true", "false"]);
}

#[test]
fn arithmetic_on_non_numbers_is_an_error() {
    let err = runtime_error("yap \"a\" - 1;");
    assert_eq!(err.message(), "Operands must be numbers.");
}

#[test]
fn fractional_arithmetic_truncates_like_the_display_shows() {
    assert_eq!(outputs("yap 1.5 + 1.25;"), vec!["2.75"]);
    assert_eq!(outputs("yap 1 / 3;"), vec!["0.333333"]);
    assert_eq!(outputs("yap 7 % 3;"), vec!["1"]);
    assert_eq!(outputs("yap (0 - 7) % 3;"), vec!["-1"]);
    assert_eq!(outputs("yap 2 * 2.5;"), vec!["5"]);
}

#[test]
fn unary_minus_evaluates() {
    assert_eq!(outputs("yap -4; yap -(1 + 2);"), vec!["-4", "-3"]);
}

#[test]
fn uninitialized_variable_is_nil() {
    assert_eq!(outputs("ts x; yap x;"), vec!["nil"]);
}

#[test]
fn truthiness_drives_if() {
    assert_eq!(outputs("yo 1 yap 1; gurt yap 2;"), vec!["1"]);
    assert_eq!(outputs("yo 0 - 0 yap 1; gurt yap 2;"), vec!["1"]);
    assert_eq!(outputs("ts x; yo x yap 1; gurt yap 2;"), vec!["2"]);
    assert_eq!(outputs("yo 1 == 2 yap 1; gurt yap 2;"), vec!["2"]);
    assert_eq!(outputs("yo \"\" yap 1; gurt yap 2;"), vec!["1"]);
}

#[test]
fn array_literal_prints_and_declares_its_name() {
    assert_eq!(outputs("gyat a { 1, 2 }; yap a;"), vec!["[1, 2]"]);
    assert_eq!(outputs("yap gyat b { 1 + 1, \"x\" };"), vec!["[2, x]"]);
    assert_eq!(outputs("gyat empty {}; yap empty;"), vec!["[]"]);
}

#[test]
fn function_values_display_their_name() {
    assert_eq!(outputs("hawk f(x) tuah x; yap f;"), vec!["<function f>"]);
}

#[test]
fn assignment_expression_yields_the_assigned_value() {
    assert_eq!(outputs("ts x pmo 1; yap x pmo 5;"), vec!["5"]);
}

#[test]
fn a_fault_stops_the_remaining_statements() {
    let (out, err) = run_collect("yap 1; yap 1 / 0; yap 2;");
    assert_eq!(out, vec!["1"]);
    assert!(err.is_some());
}

#[test]
fn environment_persists_across_runs() {
    let mut environment = Environment::new();
    let (out1, err1) = run_collect_with("ts x pmo 1;", &mut environment);
    assert!(out1.is_empty() && err1.is_none());
    let (out2, err2) = run_collect_with("yap x;", &mut environment);
    assert!(err2.is_none());
    assert_eq!(out2, vec!["1"]);
}

#[test]
fn environment_define_get_assign() {
    let mut env = Environment::new();
    assert!(env.get(&String::from("x")).is_none());
    env.define(String::from("x"), Value::Literal(Literal::Number(Num { m: 7 })));
    match env.get(&String::from("x")) {
        Some(Value::Literal(Literal::Number(n))) => assert_eq!(n.m, 7),
        _ => panic!("expected the bound number"),
    }
    assert!(env.assign(&String::from("x"), Value::Literal(Literal::Nil)).is_ok());
    assert!(env.assign(&String::from("y"), Value::Literal(Literal::Nil)).is_err());
    // Redefinition overwrites rather than duplicating.
    env.define(String::from("x"), Value::Literal(Literal::Boolean(true)));
    match env.get(&String::from("x")) {
        Some(Value::Literal(Literal::Boolean(b))) => assert!(b),
        _ => panic!("expected the overwritten boolean"),
    }
}

#[test]
fn number_display_strips_trailing_zeros() {
    assert_eq!(outputs("yap 2.0; yap 1.5; yap 1.50; yap 0.000001;"),
        vec!["2", "1.5", "1.5", "0.000001"]);
}

#[test]
fn value_to_string_forms() {
    assert_eq!(Value::Literal(Literal::Nil).to_string(), "nil");
    assert_eq!(Value::Literal(Literal::Boolean(false)).to_string(), "false");
    assert_eq!(Value::Literal(Literal::Number(Num { m: -1_500_000 })).to_string(), "-1.5");
    assert_eq!(Value::Literal(Literal::String(String::from("raw"))).to_string(), "raw");
    assert_eq!(
        Value::Array(vec![
            Value::Literal(Literal::Number(Num { m: 1_000_000 })),
            Value::Array(vec![]),
        ])
        .to_string(),
        "[1, []]"
    );
}

#[test]
fn run_reports_each_fault_class() {
    match paijorot::run(String::from("@")) {
        Err(Error::Lex(e)) => assert_eq!(e.message(), "Unexpected character '@' at line 1"),
        _ => panic!("expected a lexical error"),
    }
    match paijorot::run(String::from("yap 1")) {
        Err(Error::Parse(e)) => {
            assert_eq!(e.message(), "Expected ';' after value. Got '' at line 1.")
        }
        _ => panic!("expected a parse error"),
    }
    match paijorot::run(String::from("sybau;")) {
        Err(Error::Runtime(e)) => {
            assert_eq!(e.message(), "'sybau' statement outside of a loop.")
        }
        _ => panic!("expected a runtime error"),
    }
    assert!(paijorot::run(String::from("yap 1 + 1;")).is_ok());
}

#[test]
fn run_with_env_keeps_bindings() {
    let mut environment = Environment::new();
    assert!(paijorot::run_with_env(String::from("ts n pmo 41;"), &mut environment).is_ok());
    assert!(paijorot::run_with_env(String::from("n pmo n + 1;"), &mut environment).is_ok());
    match environment.get(&String::from("n")) {
        Some(Value::Literal(Literal::Number(v))) => assert_eq!(v.m, 42_000_000),
        _ => panic!("expected the counter to persist"),
    }
}

#[test]
fn number_overflow_is_reported_not_wrapped() {
    let err = runtime_error("ts x pmo 9000000000000; yap x * x;");
    assert_eq!(err.message(), "Number out of range.");
}
