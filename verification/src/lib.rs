#![verifier::loop_isolation(false)]
//! A small dynamically-typed scripting language: lexer, recursive-
//! descent parser, and tree-walking evaluator, with the pipeline's
//! behaviour verified against mathematical models of each stage.
use vstd::prelude::*;

pub mod number;
pub mod text;
pub mod token;
pub mod ast;
pub mod environment;
pub mod lexer;
pub mod parser;
pub mod host;
pub mod interpreter;

use crate::token::TokenType;
use crate::number::dec_str;
use crate::environment::{Environment, SpecValue};
use crate::lexer::{Lexer, LexError, SpecLexError, LexErrorKind, spec_lex_from, lemma_lex_shape};
use crate::parser::{Parser, ParseError, SpecParseError, ParseWhat, sp_program};
use crate::interpreter::{Interpreter, RuntimeError, SpecRuntimeError, env_grows, env_input_free,
    stmts_input_free, sp_exec_stmts, outputs_view};
use crate::text::{char_string, chars_to_string};
use crate::number::dec_string;

verus! {

pub open spec fn token_type_name(t: TokenType) -> Seq<char> {
    match t {
        TokenType::LeftParen => "LeftParen"@,
        TokenType::RightParen => "RightParen"@,
        TokenType::LeftBrace => "LeftBrace"@,
        TokenType::RightBrace => "RightBrace"@,
        TokenType::Comma => "Comma"@,
        TokenType::Semicolon => "Semicolon"@,
        TokenType::Plus => "Plus"@,
        TokenType::Minus => "Minus"@,
        TokenType::Star => "Star"@,
        TokenType::Slash => "Slash"@,
        TokenType::Modulo => "Modulo"@,
        TokenType::Equal => "Equal"@,
        TokenType::NotEqual => "NotEqual"@,
        TokenType::Greater => "Greater"@,
        TokenType::GreaterEqual => "GreaterEqual"@,
        TokenType::Less => "Less"@,
        TokenType::LessEqual => "LessEqual"@,
        TokenType::Identifier => "Identifier"@,
        TokenType::String => "String"@,
        TokenType::Number => "Number"@,
        TokenType::Boolean => "Boolean"@,
        TokenType::Yap => "Yap"@,
        TokenType::Ts => "Ts"@,
        TokenType::Pmo => "Pmo"@,
        TokenType::Gyat => "Gyat"@,
        TokenType::Hawk => "Hawk"@,
        TokenType::Tuah => "Tuah"@,
        TokenType::Goon => "Goon"@,
        TokenType::Edge => "Edge"@,
        TokenType::Yeet => "Yeet"@,
        TokenType::Sybau => "Sybau"@,
        TokenType::Yo => "Yo"@,
        TokenType::Gurt => "Gurt"@,
        TokenType::EOF => "EOF"@,
    }
}

pub fn token_type_name_string(t: TokenType) -> (s: String)
    ensures
        s@ == token_type_name(t),
{
    match t {
        TokenType::LeftParen => String::from_str("LeftParen"),
        TokenType::RightParen => String::from_str("RightParen"),
        TokenType::LeftBrace => String::from_str("LeftBrace"),
        TokenType::RightBrace => String::from_str("RightBrace"),
        TokenType::Comma => String::from_str("Comma"),
        TokenType::Semicolon => String::from_str("Semicolon"),
        TokenType::Plus => String::from_str("Plus"),
        TokenType::Minus => String::from_str("Minus"),
        TokenType::Star => String::from_str("Star"),
        TokenType::Slash => String::from_str("Slash"),
        TokenType::Modulo => String::from_str("Modulo"),
        TokenType::Equal => String::from_str("Equal"),
        TokenType::NotEqual => String::from_str("NotEqual"),
        TokenType::Greater => String::from_str("Greater"),
        TokenType::GreaterEqual => String::from_str("GreaterEqual"),
        TokenType::Less => String::from_str("Less"),
        TokenType::LessEqual => String::from_str("LessEqual"),
        TokenType::Identifier => String::from_str("Identifier"),
        TokenType::String => String::from_str("String"),
        TokenType::Number => String::from_str("Number"),
        TokenType::Boolean => String::from_str("Boolean"),
        TokenType::Yap => String::from_str("Yap"),
        TokenType::Ts => String::from_str("Ts"),
        TokenType::Pmo => String::from_str("Pmo"),
        TokenType::Gyat => String::from_str("Gyat"),
        TokenType::Hawk => String::from_str("Hawk"),
        TokenType::Tuah => String::from_str("Tuah"),
        TokenType::Goon => String::from_str("Goon"),
        TokenType::Edge => String::from_str("Edge"),
        TokenType::Yeet => String::from_str("Yeet"),
        TokenType::Sybau => String::from_str("Sybau"),
        TokenType::Yo => String::from_str("Yo"),
        TokenType::Gurt => String::from_str("Gurt"),
        TokenType::EOF => String::from_str("EOF"),
    }
}

pub open spec fn spec_lex_message(e: SpecLexError) -> Seq<char> {
    let tail = " at line "@ + dec_str(e.line as nat);
    match e.kind {
        LexErrorKind::UnexpectedChar(c) => "Unexpected character '"@ + seq![c] + "'"@ + tail,
        LexErrorKind::UnterminatedString => "Unterminated string"@ + tail,
        LexErrorKind::InvalidEscape(c) => "Invalid escape sequence \\"@ + seq![c] + tail,
        LexErrorKind::NumberTooLarge => "Failed to parse number"@ + tail,
    }
}

impl LexError {
    /// The report text for this fault.
    pub fn message(&self) -> (s: String)
        ensures
            s@ == spec_lex_message(self@),
    {
        let mut s: String;
        match self.kind {
            LexErrorKind::UnexpectedChar(c) => {
                s = String::from_str("Unexpected character '");
                let cs = char_string(c);
                s.append(cs.as_str());
                s.append("'");
            },
            LexErrorKind::UnterminatedString => {
                s = String::from_str("Unterminated string");
            },
            LexErrorKind::InvalidEscape(c) => {
                s = String::from_str("Invalid escape sequence \\");
                let cs = char_string(c);
                s.append(cs.as_str());
            },
            LexErrorKind::NumberTooLarge => {
                s = String::from_str("Failed to parse number");
            },
        }
        s.append(" at line ");
        let line = dec_string(self.line as u64);
        s.append(line.as_str());
        s
    }
}

pub open spec fn parse_what_message(w: ParseWhat) -> Seq<char> {
    match w {
        ParseWhat::VarName => "Expected variable name."@,
        ParseWhat::SemiAfterVarDecl => "Expected ';' after variable declaration."@,
        ParseWhat::FnName => "Expected function name."@,
        ParseWhat::LParenAfterFnName => "Expected '(' after function name."@,
        ParseWhat::ParamName => "Expected parameter name."@,
        ParseWhat::RParenAfterParams => "Expected ')' after parameters."@,
        ParseWhat::TuahAfterParams => "Expected 'tuah' after function parameters."@,
        ParseWhat::SemiAfterFnBody => "Expected ';' after function body."@,
        ParseWhat::SemiAfterValue => "Expected ';' after value."@,
        ParseWhat::SemiAfterExpr => "Expected ';' after expression."@,
        ParseWhat::SemiAfterBreak => "Expected ';' after 'sybau'."@,
        ParseWhat::RParenAfterLoopCond => "Expected ')' after loop condition."@,
        ParseWhat::EdgeAfterLoopBody => "Expected 'edge' after loop body."@,
        ParseWhat::RParenAfterExpr => "Expected ')' after expression."@,
        ParseWhat::RParenAfterArgs => "Expected ')' after arguments."@,
        ParseWhat::ArrayName => "Expected array name after 'gyat'."@,
        ParseWhat::LBraceAfterArrayName => "Expected '{' after array name."@,
        ParseWhat::RBraceAfterElements => "Expected '}' after array elements."@,
        ParseWhat::InvalidAssignmentTarget => "Invalid assignment target."@,
        ParseWhat::ExpectedExpression => "Expected expression."@,
    }
}

fn parse_what_message_string(w: ParseWhat) -> (s: String)
    ensures
        s@ == parse_what_message(w),
{
    match w {
        ParseWhat::VarName => String::from_str("Expected variable name."),
        ParseWhat::SemiAfterVarDecl => String::from_str("Expected ';' after variable declaration."),
        ParseWhat::FnName => String::from_str("Expected function name."),
        ParseWhat::LParenAfterFnName => String::from_str("Expected '(' after function name."),
        ParseWhat::ParamName => String::from_str("Expected parameter name."),
        ParseWhat::RParenAfterParams => String::from_str("Expected ')' after parameters."),
        ParseWhat::TuahAfterParams => String::from_str("Expected 'tuah' after function parameters."),
        ParseWhat::SemiAfterFnBody => String::from_str("Expected ';' after function body."),
        ParseWhat::SemiAfterValue => String::from_str("Expected ';' after value."),
        ParseWhat::SemiAfterExpr => String::from_str("Expected ';' after expression."),
        ParseWhat::SemiAfterBreak => String::from_str("Expected ';' after 'sybau'."),
        ParseWhat::RParenAfterLoopCond => String::from_str("Expected ')' after loop condition."),
        ParseWhat::EdgeAfterLoopBody => String::from_str("Expected 'edge' after loop body."),
        ParseWhat::RParenAfterExpr => String::from_str("Expected ')' after expression."),
        ParseWhat::RParenAfterArgs => String::from_str("Expected ')' after arguments."),
        ParseWhat::ArrayName => String::from_str("Expected array name after 'gyat'."),
        ParseWhat::LBraceAfterArrayName => String::from_str("Expected '{' after array name."),
        ParseWhat::RBraceAfterElements => String::from_str("Expected '}' after array elements."),
        ParseWhat::InvalidAssignmentTarget => String::from_str("Invalid assignment target."),
        ParseWhat::ExpectedExpression => String::from_str("Expected expression."),
    }
}

pub open spec fn spec_parse_message(e: SpecParseError) -> Seq<char> {
    match e.found {
        Some(t) => parse_what_message(e.what) + " Got '"@ + t.lexeme + "' at line "@ + dec_str(
            t.line as nat,
        ) + "."@,
        None => parse_what_message(e.what),
    }
}

impl ParseError {
    /// The report text for this fault: what was expected and what
    /// stood there instead.
    pub fn message(&self) -> (s: String)
        ensures
            s@ == spec_parse_message(self@),
    {
        let mut s = parse_what_message_string(self.what);
        match &self.found {
            Some(t) => {
                s.append(" Got '");
                s.append(t.lexeme.as_str());
                s.append("' at line ");
                let line = dec_string(t.line as u64);
                s.append(line.as_str());
                s.append(".");
            },
            None => {},
        }
        s
    }
}

pub open spec fn spec_runtime_message(e: SpecRuntimeError) -> Seq<char> {
    match e {
        SpecRuntimeError::UndefinedVariable(n) => "Undefined variable '"@ + n + "'."@,
        SpecRuntimeError::OperandsMustBeNumbers => "Operands must be numbers."@,
        SpecRuntimeError::OperandsMustBeNumbersOrStrings =>
            "Operands must be numbers or strings."@,
        SpecRuntimeError::DivisionByZero => "Division by zero."@,
        SpecRuntimeError::ModuloByZero => "Modulo by zero."@,
        SpecRuntimeError::NumberOverflow => "Number out of range."@,
        SpecRuntimeError::LoopCountNotNumber => "Loop condition must evaluate to a number."@,
        SpecRuntimeError::BreakOutsideLoop => "'sybau' statement outside of a loop."@,
        SpecRuntimeError::ArgumentCount(exp, got) => "Expected "@ + dec_str(exp as nat)
            + " arguments but got "@ + dec_str(got as nat) + "."@,
        SpecRuntimeError::NotCallable => "Can only call functions."@,
        SpecRuntimeError::UnsupportedBinary(t) => "Unsupported binary operation: "@
            + token_type_name(t),
        SpecRuntimeError::InvalidAssignmentTarget => "Invalid assignment target."@,
        SpecRuntimeError::CallDepthExceeded => "Call depth limit exceeded."@,
        SpecRuntimeError::LoopLimitExceeded => "Loop iteration limit exceeded."@,
        SpecRuntimeError::InputFailed => "Failed to read input."@,
    }
}

impl RuntimeError {
    /// The report text for this fault.
    pub fn message(&self) -> (s: String)
        ensures
            s@ == spec_runtime_message(self@),
    {
        match self {
            RuntimeError::UndefinedVariable(n) => {
                let mut s = String::from_str("Undefined variable '");
                s.append(n.as_str());
                s.append("'.");
                s
            },
            RuntimeError::OperandsMustBeNumbers => String::from_str("Operands must be numbers."),
            RuntimeError::OperandsMustBeNumbersOrStrings => String::from_str(
                "Operands must be numbers or strings.",
            ),
            RuntimeError::DivisionByZero => String::from_str("Division by zero."),
            RuntimeError::ModuloByZero => String::from_str("Modulo by zero."),
            RuntimeError::NumberOverflow => String::from_str("Number out of range."),
            RuntimeError::LoopCountNotNumber => String::from_str(
                "Loop condition must evaluate to a number.",
            ),
            RuntimeError::BreakOutsideLoop => String::from_str(
                "'sybau' statement outside of a loop.",
            ),
            RuntimeError::ArgumentCount(exp, got) => {
                let mut s = String::from_str("Expected ");
                let e = dec_string(*exp as u64);
                s.append(e.as_str());
                s.append(" arguments but got ");
                let g = dec_string(*got as u64);
                s.append(g.as_str());
                s.append(".");
                s
            },
            RuntimeError::NotCallable => String::from_str("Can only call functions."),
            RuntimeError::UnsupportedBinary(t) => {
                let mut s = String::from_str("Unsupported binary operation: ");
                let n = token_type_name_string(*t);
                s.append(n.as_str());
                s
            },
            RuntimeError::InvalidAssignmentTarget => String::from_str("Invalid assignment target."),
            RuntimeError::CallDepthExceeded => String::from_str("Call depth limit exceeded."),
            RuntimeError::LoopLimitExceeded => String::from_str("Loop iteration limit exceeded."),
            RuntimeError::InputFailed => String::from_str("Failed to read input."),
        }
    }
}

/// A fault from any stage of a run.
pub enum Error {
    Lex(LexError),
    Parse(ParseError),
    Runtime(RuntimeError),
}

#[verifier::ext_equal]
pub enum SpecError {
    Lex(SpecLexError),
    Parse(SpecParseError),
    Runtime(SpecRuntimeError),
}

impl View for Error {
    type V = SpecError;

    open spec fn view(&self) -> SpecError {
        match self {
            Error::Lex(e) => SpecError::Lex(e@),
            Error::Parse(e) => SpecError::Parse(e@),
            Error::Runtime(e) => SpecError::Runtime(e@),
        }
    }
}

pub open spec fn spec_error_message(e: SpecError) -> Seq<char> {
    match e {
        SpecError::Lex(le) => spec_lex_message(le),
        SpecError::Parse(pe) => spec_parse_message(pe),
        SpecError::Runtime(re) => spec_runtime_message(re),
    }
}

impl Error {
    /// The report text for this fault.
    pub fn message(&self) -> (s: String)
        ensures
            s@ == spec_error_message(self@),
    {
        match self {
            Error::Lex(e) => e.message(),
            Error::Parse(e) => e.message(),
            Error::Runtime(e) => e.message(),
        }
    }
}

/// Lex, parse and evaluate one source text against the given
/// environment (which persists across calls, as an interactive
/// session needs). A lexical fault is reported exactly when the
/// mathematical tokenizer rejects the text, a parse fault exactly
/// when the mathematical parser rejects the tokens; and for an
/// input-free program in an input-free environment, the outcome and
/// the final environment are exactly what the mathematical executor
/// gives (the lines it prints are stated on `Interpreter::interpret`,
/// which this calls on a fresh interpreter). Bindings are never
/// dropped.
pub fn run_with_env(source: String, environment: &mut Environment) -> (r: Result<(), Error>)
    requires
        old(environment).wf(),
    ensures
        final(environment).wf(),
        env_grows(final(environment)@, old(environment)@),
        (spec_lex_from(source@, 0, 1) matches Err(le) ==> (r matches Err(e) && e@ == SpecError::Lex(
            le,
        ))),
        (spec_lex_from(source@, 0, 1) matches Ok(toks) ==> ((sp_program(toks, 0) matches Err(pe)
            ==> (r matches Err(e) && e@ == SpecError::Parse(pe))) && (sp_program(toks, 0) is Ok
            ==> (r is Ok || (r matches Err(e) && e@ is Runtime))))),
        (spec_lex_from(source@, 0, 1) matches Ok(toks) ==> (sp_program(toks, 0) matches Ok(prog)
            ==> ((stmts_input_free(prog) && env_input_free(old(environment)@)) ==> ({
            let o = sp_exec_stmts(prog, old(environment)@, Seq::empty());
            &&& o.env == final(environment)@
            &&& env_input_free(final(environment)@)
            &&& match o.result {
                Ok(u) => r is Ok,
                Err(re) => r matches Err(e) && e@ == SpecError::Runtime(re),
            }
        })))),
{
    let mut lexer = Lexer::new(source);
    let tokens = match lexer.scan_tokens() {
        Ok(t) => t,
        Err(e) => {
            return Err(Error::Lex(e));
        },
    };
    proof {
        lemma_lex_shape(source@, 0, 1);
    }
    let mut parser = Parser::new(tokens);
    let statements = match parser.parse() {
        Ok(s) => s,
        Err(e) => {
            return Err(Error::Parse(e));
        },
    };
    let mut taken = Environment::new();
    core::mem::swap(environment, &mut taken);
    let mut interpreter = Interpreter::new(taken);
    proof {
        assert(outputs_view(interpreter.output@) =~= Seq::<Seq<char>>::empty());
    }
    let result = interpreter.interpret(&statements);
    core::mem::swap(environment, &mut interpreter.environment);
    match result {
        Ok(()) => Ok(()),
        Err(e) => Err(Error::Runtime(e)),
    }
}

/// Run one source text against a fresh, empty environment, whose
/// bindings are discarded when the run ends; for an input-free
/// program the outcome is exactly the mathematical executor's from
/// the empty environment, making this observably `run_with_env` on a
/// fresh environment.
pub fn run(source: String) -> (r: Result<(), Error>)
    ensures
        (spec_lex_from(source@, 0, 1) matches Err(le) ==> (r matches Err(e) && e@ == SpecError::Lex(
            le,
        ))),
        (spec_lex_from(source@, 0, 1) matches Ok(toks) ==> ((sp_program(toks, 0) matches Err(pe)
            ==> (r matches Err(e) && e@ == SpecError::Parse(pe))) && (sp_program(toks, 0) is Ok
            ==> (r is Ok || (r matches Err(e) && e@ is Runtime))))),
        (spec_lex_from(source@, 0, 1) matches Ok(toks) ==> (sp_program(toks, 0) matches Ok(prog)
            ==> (stmts_input_free(prog) ==> match sp_exec_stmts(
            prog,
            Map::empty(),
            Seq::empty(),
        ).result {
            Ok(u) => r is Ok,
            Err(re) => r matches Err(e) && e@ == SpecError::Runtime(re),
        }))),
{
    let mut environment = Environment::new();
    proof {
        assert(env_input_free(Map::<Seq<char>, SpecValue>::empty()));
    }
    run_with_env(source, &mut environment)
}

} // verus!
