use paijorot::lexer::{Lexer, LexErrorKind};
use paijorot::ast::{Expr, Stmt};
use paijorot::interpreter::{parse_input_number, trim_chars};
use paijorot::parser::{Parser, ParseWhat};
use paijorot::token::{Token, TokenType, Literal};
use paijorot::number::{Num, SCALE};

fn lex(src: &str) -> Result<Vec<Token>, paijorot::lexer::LexError> {
    let mut lexer = Lexer::new(String::from(src));
    lexer.scan_tokens()
}

fn lex_ok(src: &str) -> Vec<Token> {
    lex(src).expect("expected the source to lex")
}

fn token_summary(tokens: &[Token]) -> Vec<(TokenType, String, usize, Option<String>)> {
    tokens
        .iter()
        .map(|t| {
            let lit = match &t.literal {
                None => None,
                Some(Literal::String(s)) => Some(format!("s:{}", s)),
                Some(Literal::Number(n)) => Some(format!("n:{}", n.m)),
                Some(Literal::Boolean(b)) => Some(format!("b:{}", b)),
                Some(Literal::Nil) => Some(String::from("nil")),
            };
            (t.token_type, t.lexeme.clone(), t.line, lit)
        })
        .collect()
}

#[test]
fn empty_source_gives_only_end_of_input() {
    let tokens = lex_ok("");
    assert_eq!(tokens.len(), 1);
    assert_eq!(tokens[0].token_type, TokenType::EOF);
    assert_eq!(tokens[0].lexeme, "");
    assert_eq!(tokens[0].line, 1);
}

#[test]
fn whole_number_literal_round_trips_exactly() {
    let tokens = lex_ok("123");
    assert_eq!(tokens.len(), 2);
    assert_eq!(tokens[0].token_type, TokenType::Number);
    assert_eq!(tokens[0].lexeme, "123");
    match tokens[0].literal {
        Some(Literal::Number(n)) => assert_eq!(n.m, 123 * SCALE),
        _ => panic!("expected a number payload"),
    }
    // Lexing the lexeme again gives the same numeric value.
    let again = lex_ok(&tokens[0].lexeme);
    match again[0].literal {
        Some(Literal::Number(n)) => assert_eq!(n.m, 123 * SCALE),
        _ => panic!("expected a number payload"),
    }
}

#[test]
fn fractional_literal_round_trips_exactly() {
    let tokens = lex_ok("123.45");
    assert_eq!(tokens[0].lexeme, "123.45");
    match tokens[0].literal {
        Some(Literal::Number(n)) => assert_eq!(n.m, 123_450_000),
        _ => panic!("expected a number payload"),
    }
    let again = lex_ok(&tokens[0].lexeme);
    match again[0].literal {
        Some(Literal::Number(n)) => assert_eq!(n.m, 123_450_000),
        _ => panic!("expected a number payload"),
    }
}

#[test]
fn number_followed_by_dot_without_digit_leaves_the_dot_unconsumed() {
    // "7." is the number 7, then an unexpected '.' character.
    let err = lex("7.").unwrap_err();
    assert_eq!(err.kind, LexErrorKind::UnexpectedChar('.'));
    assert_eq!(err.line, 1);
}

#[test]
fn lexing_twice_yields_identical_token_sequences() {
    let src = "ts x pmo 5; goon(3) yap \"hi\\n\"; edge // done";
    let a = token_summary(&lex_ok(src));
    let b = token_summary(&lex_ok(src));
    assert_eq!(a, b);
}

#[test]
fn keywords_and_alias_are_classified() {
    let tokens = lex_ok("yap ts pmo gyat gyatt hawk tuah goon edge yeet sybau yo gurt other");
    let kinds: Vec<TokenType> = tokens.iter().map(|t| t.token_type).collect();
    assert_eq!(
        kinds,
        vec![
            TokenType::Yap,
            TokenType::Ts,
            TokenType::Pmo,
            TokenType::Gyat,
            TokenType::Gyat,
            TokenType::Hawk,
            TokenType::Tuah,
            TokenType::Goon,
            TokenType::Edge,
            TokenType::Yeet,
            TokenType::Sybau,
            TokenType::Yo,
            TokenType::Gurt,
            TokenType::Identifier,
            TokenType::EOF,
        ]
    );
}

#[test]
fn string_escapes_are_resolved() {
    let tokens = lex_ok("\"a\\n\\t\\r\\\\b\"");
    assert_eq!(tokens[0].token_type, TokenType::String);
    match &tokens[0].literal {
        Some(Literal::String(s)) => assert_eq!(s, "a\n\t\r\\b"),
        _ => panic!("expected a string payload"),
    }
    // The lexeme keeps the raw text with quotes.
    assert_eq!(tokens[0].lexeme, "\"a\\n\\t\\r\\\\b\"");
}

#[test]
fn invalid_escape_is_a_lexical_error() {
    let err = lex("\"a\\qb\"").unwrap_err();
    assert_eq!(err.kind, LexErrorKind::InvalidEscape('q'));
    assert_eq!(err.message(), "Invalid escape sequence \\q at line 1");
}

#[test]
fn unterminated_string_is_a_lexical_error() {
    let err = lex("\"abc").unwrap_err();
    assert_eq!(err.kind, LexErrorKind::UnterminatedString);
    assert_eq!(err.message(), "Unterminated string at line 1");
}

#[test]
fn unexpected_character_reports_the_line() {
    let err = lex("yap 1;\n@").unwrap_err();
    assert_eq!(err.kind, LexErrorKind::UnexpectedChar('@'));
    assert_eq!(err.line, 2);
    assert_eq!(err.message(), "Unexpected character '@' at line 2");
}

#[test]
fn comments_run_to_end_of_line() {
    let tokens = lex_ok("1 // two three\n2");
    let kinds: Vec<TokenType> = tokens.iter().map(|t| t.token_type).collect();
    assert_eq!(kinds, vec![TokenType::Number, TokenType::Number, TokenType::EOF]);
    assert_eq!(tokens[1].line, 2);
}

#[test]
fn oversized_number_literal_is_a_lexical_error() {
    let err = lex("99999999999999999999").unwrap_err();
    assert_eq!(err.kind, LexErrorKind::NumberTooLarge);
    assert_eq!(err.message(), "Failed to parse number at line 1");
}

#[test]
fn two_character_operators_lex() {
    let tokens = lex_ok("== != >= <= > <");
    let kinds: Vec<TokenType> = tokens.iter().map(|t| t.token_type).collect();
    assert_eq!(
        kinds,
        vec![
            TokenType::Equal,
            TokenType::NotEqual,
            TokenType::GreaterEqual,
            TokenType::LessEqual,
            TokenType::Greater,
            TokenType::Less,
            TokenType::EOF,
        ]
    );
}

#[test]
fn lone_equal_sign_is_a_lexical_error() {
    let err = lex("x = 1;").unwrap_err();
    assert_eq!(err.kind, LexErrorKind::UnexpectedChar('='));
}

fn parse(src: &str) -> Result<Vec<paijorot::ast::Stmt>, paijorot::parser::ParseError> {
    let tokens = lex_ok(src);
    let mut parser = Parser::new(tokens);
    parser.parse()
}

fn expr_shape(e: &Expr) -> String {
        match e {
            Expr::Binary(l, op, r) => {
                format!("({} {:?} {})", expr_shape(l), op.token_type, expr_shape(r))
            }
            Expr::Grouping(i) => format!("g{}", expr_shape(i)),
            Expr::Literal(Literal::Number(n)) => format!("{}", n.m),
            Expr::Literal(Literal::String(s)) => format!("{:?}", s),
            Expr::Literal(Literal::Boolean(b)) => format!("{}", b),
            Expr::Literal(Literal::Nil) => String::from("nil"),
            Expr::Variable(t) => t.lexeme.clone(),
            Expr::Array(n, es) => {
                let parts: Vec<String> = es.iter().map(expr_shape).collect();
                format!("arr {}{{{}}}", n.lexeme, parts.join(","))
            }
            Expr::Call(c, _, args) => {
                let parts: Vec<String> = args.iter().map(expr_shape).collect();
                format!("{}({})", expr_shape(c), parts.join(","))
            }
            Expr::Input => String::from("input"),
    }
}

fn stmt_shape(s: &paijorot::ast::Stmt) -> String {
    match s {
        Stmt::Expression(e) => format!("expr {}", expr_shape(e)),
        Stmt::Print(e) => format!("print {}", expr_shape(e)),
        Stmt::Var(n, i) => match i {
            Some(e) => format!("var {} = {}", n.lexeme, expr_shape(e)),
            None => format!("var {}", n.lexeme),
        },
        Stmt::If(c, t, e) => match e {
            Some(es) => format!("if {} {} else {}", expr_shape(c), stmt_shape(t), stmt_shape(es)),
            None => format!("if {} {}", expr_shape(c), stmt_shape(t)),
        },
        Stmt::Loop(c, body) => {
            let parts: Vec<String> = body.iter().map(stmt_shape).collect();
            match c {
                Some(e) => format!("loop({}) [{}]", expr_shape(e), parts.join(";")),
                None => format!("loop [{}]", parts.join(";")),
            }
        }
        Stmt::Break => String::from("break"),
        Stmt::Function(n, ps, b) => {
            let parts: Vec<String> = ps.iter().map(|p| p.lexeme.clone()).collect();
            format!("fn {}({}) = {}", n.lexeme, parts.join(","), expr_shape(b))
        }
    }
}

#[test]
fn parsing_twice_yields_identical_trees() {
    let src = "ts x pmo 1 + 2 * 3; yo x > 5 yap x; gurt yap 0 - x; goon(2) x pmo x + 1; edge";
    let a: Vec<String> = parse(src).unwrap().iter().map(stmt_shape).collect();
    let b: Vec<String> = parse(src).unwrap().iter().map(stmt_shape).collect();
    assert_eq!(a, b);
    assert!(!a.is_empty());
}

#[test]
fn precedence_climbs_factor_over_term() {
    let stmts = parse("yap 1 + 2 * 3;").unwrap();
    assert_eq!(stmts.len(), 1);
    assert_eq!(stmt_shape(&stmts[0]), "print (1000000 Plus (2000000 Star 3000000))");
}

#[test]
fn unary_minus_desugars_to_zero_minus() {
    let stmts = parse("yap -4;").unwrap();
    assert_eq!(stmt_shape(&stmts[0]), "print (0 Minus 4000000)");
}

#[test]
fn assignment_is_right_associative_with_variable_target() {
    let stmts = parse("x pmo y pmo 1;").unwrap();
    assert_eq!(stmt_shape(&stmts[0]), "expr (x Pmo (y Pmo 1000000))");
}

#[test]
fn invalid_assignment_target_is_a_parse_error() {
    let err = parse("1 pmo 2;").unwrap_err();
    assert_eq!(err.what, ParseWhat::InvalidAssignmentTarget);
    assert_eq!(err.message(), "Invalid assignment target.");
}

#[test]
fn missing_semicolon_is_reported_with_the_found_token() {
    let err = parse("yap 1").unwrap_err();
    assert_eq!(err.what, ParseWhat::SemiAfterValue);
    assert_eq!(err.message(), "Expected ';' after value. Got '' at line 1.");
}

#[test]
fn var_declaration_needs_a_name() {
    let err = parse("ts ;").unwrap_err();
    assert_eq!(err.what, ParseWhat::VarName);
}

#[test]
fn loop_body_needs_the_end_keyword() {
    let err = parse("goon yap 1;").unwrap_err();
    assert_eq!(err.what, ParseWhat::EdgeAfterLoopBody);
}

#[test]
fn function_declaration_parses_parameters_and_body() {
    let stmts = parse("hawk add(a, b) tuah a + b;").unwrap();
    assert_eq!(stmt_shape(&stmts[0]), "fn add(a,b) = (a Plus b)");
}

#[test]
fn chained_calls_parse() {
    let stmts = parse("f(x)(y);").unwrap();
    assert_eq!(stmt_shape(&stmts[0]), "expr f(x)(y)");
}

#[test]
fn array_literal_parses_with_name_and_elements() {
    let stmts = parse("gyat a { 1, 2 };").unwrap();
    assert_eq!(stmt_shape(&stmts[0]), "expr arr a{1000000,2000000}");
}

#[test]
fn input_expression_parses() {
    let stmts = parse("ts x pmo yeet;").unwrap();
    assert_eq!(stmt_shape(&stmts[0]), "var x = input");
}

#[test]
fn number_helpers_parse_input_text() {
    let chars: Vec<char> = "3.5".chars().collect();
    assert_eq!(parse_input_number(&chars), Some(Num { m: 3_500_000 }));
    let neg: Vec<char> = "-2".chars().collect();
    assert_eq!(parse_input_number(&neg), Some(Num { m: -2_000_000 }));
    let trailing: Vec<char> = "3.".chars().collect();
    assert_eq!(parse_input_number(&trailing), Some(Num { m: 3_000_000 }));
    let frac_only: Vec<char> = ".5".chars().collect();
    assert_eq!(parse_input_number(&frac_only), Some(Num { m: 500_000 }));
    let word: Vec<char> = "hello".chars().collect();
    assert_eq!(parse_input_number(&word), None);
    let lone_dot: Vec<char> = ".".chars().collect();
    assert_eq!(parse_input_number(&lone_dot), None);
}

#[test]
fn trim_strips_surrounding_whitespace() {
    let chars: Vec<char> = "  hi there \n".chars().collect();
    let trimmed: String = trim_chars(&chars).into_iter().collect();
    assert_eq!(trimmed, "hi there");
}
