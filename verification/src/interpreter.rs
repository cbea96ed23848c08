//! Evaluation: statements and expressions against an environment.
//!
//! Statement execution returns an explicit outcome (`Flow`), so a
//! break unwinds exactly one loop level and never crosses a function
//! call. Each operator has an exact contract over the value images.
use vstd::prelude::*;
use crate::token::{Token, TokenType, Literal, SpecLiteral, SpecToken, tokens_view};
use crate::ast::{Expr, Stmt, SpecExpr, SpecStmt, expr_view, stmt_view, exprs_view, stmts_view,
    lemma_exprs_view, lemma_stmts_view};
use crate::environment::{Environment, Value, Function, SpecValue, SpecFunction, value_view,
    values_view, lemma_values_view, strings_view, value_chars};
use crate::number::{Num, SCALE, trunc_div, trunc_rem, in_mantissa_range, spec_abs, digits_val,
    literal_mant, all_digits, mantissa_of_literal, is_digit_char};
use crate::lexer::digits_end;
use crate::host::{print_line, read_input_line};

verus! {

/// Runtime faults; each carries what its report needs.
#[derive(Debug)]
pub enum RuntimeError {
    UndefinedVariable(String),
    OperandsMustBeNumbers,
    OperandsMustBeNumbersOrStrings,
    DivisionByZero,
    ModuloByZero,
    /// A result left the numeric range.
    NumberOverflow,
    LoopCountNotNumber,
    BreakOutsideLoop,
    /// Expected and actual argument counts.
    ArgumentCount(usize, usize),
    NotCallable,
    UnsupportedBinary(TokenType),
    InvalidAssignmentTarget,
    /// The call nesting limit was reached.
    CallDepthExceeded,
    /// An uncounted loop ran through its whole iteration bound.
    LoopLimitExceeded,
    InputFailed,
}

#[verifier::ext_equal]
pub enum SpecRuntimeError {
    UndefinedVariable(Seq<char>),
    OperandsMustBeNumbers,
    OperandsMustBeNumbersOrStrings,
    DivisionByZero,
    ModuloByZero,
    NumberOverflow,
    LoopCountNotNumber,
    BreakOutsideLoop,
    ArgumentCount(int, int),
    NotCallable,
    UnsupportedBinary(TokenType),
    InvalidAssignmentTarget,
    CallDepthExceeded,
    LoopLimitExceeded,
    InputFailed,
}

impl View for RuntimeError {
    type V = SpecRuntimeError;

    open spec fn view(&self) -> SpecRuntimeError {
        match self {
            RuntimeError::UndefinedVariable(n) => SpecRuntimeError::UndefinedVariable(n@),
            RuntimeError::OperandsMustBeNumbers => SpecRuntimeError::OperandsMustBeNumbers,
            RuntimeError::OperandsMustBeNumbersOrStrings =>
                SpecRuntimeError::OperandsMustBeNumbersOrStrings,
            RuntimeError::DivisionByZero => SpecRuntimeError::DivisionByZero,
            RuntimeError::ModuloByZero => SpecRuntimeError::ModuloByZero,
            RuntimeError::NumberOverflow => SpecRuntimeError::NumberOverflow,
            RuntimeError::LoopCountNotNumber => SpecRuntimeError::LoopCountNotNumber,
            RuntimeError::BreakOutsideLoop => SpecRuntimeError::BreakOutsideLoop,
            RuntimeError::ArgumentCount(e, g) => SpecRuntimeError::ArgumentCount(
                *e as int,
                *g as int,
            ),
            RuntimeError::NotCallable => SpecRuntimeError::NotCallable,
            RuntimeError::UnsupportedBinary(t) => SpecRuntimeError::UnsupportedBinary(*t),
            RuntimeError::InvalidAssignmentTarget => SpecRuntimeError::InvalidAssignmentTarget,
            RuntimeError::CallDepthExceeded => SpecRuntimeError::CallDepthExceeded,
            RuntimeError::LoopLimitExceeded => SpecRuntimeError::LoopLimitExceeded,
            RuntimeError::InputFailed => SpecRuntimeError::InputFailed,
        }
    }
}

/// Truthiness: nil is false, a boolean is itself, all else is true.
pub open spec fn sp_truthy(v: SpecValue) -> bool {
    match v {
        SpecValue::Literal(SpecLiteral::Nil) => false,
        SpecValue::Literal(SpecLiteral::Boolean(b)) => b,
        _ => true,
    }
}

pub fn is_truthy(v: &Value) -> (b: bool)
    ensures
        b == sp_truthy(v@),
{
    match v {
        Value::Literal(Literal::Nil) => false,
        Value::Literal(Literal::Boolean(b)) => *b,
        _ => true,
    }
}

/// `+`: numeric sum, string concatenation, or concatenation with the
/// display form of the non-string side.
pub open spec fn sp_add(a: SpecValue, b: SpecValue) -> Result<SpecValue, SpecRuntimeError> {
    match (a, b) {
        (SpecValue::Literal(SpecLiteral::Number(x)), SpecValue::Literal(SpecLiteral::Number(y))) =>
            if in_mantissa_range(x + y) {
            Ok(SpecValue::Literal(SpecLiteral::Number(x + y)))
        } else {
            Err(SpecRuntimeError::NumberOverflow)
        },
        (SpecValue::Literal(SpecLiteral::String(s)), SpecValue::Literal(SpecLiteral::String(t))) =>
            Ok(SpecValue::Literal(SpecLiteral::String(s + t))),
        (SpecValue::Literal(SpecLiteral::String(s)), other) => Ok(
            SpecValue::Literal(SpecLiteral::String(s + value_chars(other))),
        ),
        (other, SpecValue::Literal(SpecLiteral::String(t))) => Ok(
            SpecValue::Literal(SpecLiteral::String(value_chars(other) + t)),
        ),
        _ => Err(SpecRuntimeError::OperandsMustBeNumbersOrStrings),
    }
}

pub fn add_values(left: &Value, right: &Value) -> (r: Result<Value, RuntimeError>)
    ensures
        match r {
            Ok(v) => sp_add(left@, right@) == Ok::<SpecValue, SpecRuntimeError>(v@),
            Err(e) => sp_add(left@, right@) == Err::<SpecValue, SpecRuntimeError>(e@),
        },
{
    match (left, right) {
        (Value::Literal(Literal::Number(a)), Value::Literal(Literal::Number(b))) => {
            match a.checked_add(*b) {
                Some(n) => Ok(Value::Literal(Literal::Number(n))),
                None => Err(RuntimeError::NumberOverflow),
            }
        },
        (Value::Literal(Literal::String(a)), Value::Literal(Literal::String(b))) => {
            Ok(Value::Literal(Literal::String(a.clone().concat(b.as_str()))))
        },
        (Value::Literal(Literal::String(a)), other) => {
            let shown = other.to_string();
            Ok(Value::Literal(Literal::String(a.clone().concat(shown.as_str()))))
        },
        (other, Value::Literal(Literal::String(b))) => {
            let shown = other.to_string();
            Ok(Value::Literal(Literal::String(shown.concat(b.as_str()))))
        },
        _ => Err(RuntimeError::OperandsMustBeNumbersOrStrings),
    }
}

/// `-`: numeric difference.
pub open spec fn sp_subtract(a: SpecValue, b: SpecValue) -> Result<SpecValue, SpecRuntimeError> {
    match (a, b) {
        (SpecValue::Literal(SpecLiteral::Number(x)), SpecValue::Literal(SpecLiteral::Number(y))) =>
            if in_mantissa_range(x - y) {
            Ok(SpecValue::Literal(SpecLiteral::Number(x - y)))
        } else {
            Err(SpecRuntimeError::NumberOverflow)
        },
        _ => Err(SpecRuntimeError::OperandsMustBeNumbers),
    }
}

pub fn subtract(left: &Value, right: &Value) -> (r: Result<Value, RuntimeError>)
    ensures
        match r {
            Ok(v) => sp_subtract(left@, right@) == Ok::<SpecValue, SpecRuntimeError>(v@),
            Err(e) => sp_subtract(left@, right@) == Err::<SpecValue, SpecRuntimeError>(e@),
        },
{
    match (left, right) {
        (Value::Literal(Literal::Number(a)), Value::Literal(Literal::Number(b))) => {
            match a.checked_sub(*b) {
                Some(n) => Ok(Value::Literal(Literal::Number(n))),
                None => Err(RuntimeError::NumberOverflow),
            }
        },
        _ => Err(RuntimeError::OperandsMustBeNumbers),
    }
}

/// `*`: numeric product (mantissas multiply and rescale, truncating
/// toward zero).
pub open spec fn sp_multiply(a: SpecValue, b: SpecValue) -> Result<SpecValue, SpecRuntimeError> {
    match (a, b) {
        (SpecValue::Literal(SpecLiteral::Number(x)), SpecValue::Literal(SpecLiteral::Number(y))) => {
            let m = trunc_div(x * y, SCALE as int);
            if in_mantissa_range(m) {
                Ok(SpecValue::Literal(SpecLiteral::Number(m)))
            } else {
                Err(SpecRuntimeError::NumberOverflow)
            }
        },
        _ => Err(SpecRuntimeError::OperandsMustBeNumbers),
    }
}

pub fn multiply(left: &Value, right: &Value) -> (r: Result<Value, RuntimeError>)
    ensures
        match r {
            Ok(v) => sp_multiply(left@, right@) == Ok::<SpecValue, SpecRuntimeError>(v@),
            Err(e) => sp_multiply(left@, right@) == Err::<SpecValue, SpecRuntimeError>(e@),
        },
{
    match (left, right) {
        (Value::Literal(Literal::Number(a)), Value::Literal(Literal::Number(b))) => {
            match a.checked_mul(*b) {
                Some(n) => Ok(Value::Literal(Literal::Number(n))),
                None => Err(RuntimeError::NumberOverflow),
            }
        },
        _ => Err(RuntimeError::OperandsMustBeNumbers),
    }
}

/// `/`: numeric quotient, truncating toward zero; a zero divisor is an
/// error.
pub open spec fn sp_divide(a: SpecValue, b: SpecValue) -> Result<SpecValue, SpecRuntimeError> {
    match (a, b) {
        (SpecValue::Literal(SpecLiteral::Number(x)), SpecValue::Literal(SpecLiteral::Number(y))) =>
            if y == 0 {
            Err(SpecRuntimeError::DivisionByZero)
        } else {
            let m = trunc_div(x * (SCALE as int), y);
            if in_mantissa_range(m) {
                Ok(SpecValue::Literal(SpecLiteral::Number(m)))
            } else {
                Err(SpecRuntimeError::NumberOverflow)
            }
        },
        _ => Err(SpecRuntimeError::OperandsMustBeNumbers),
    }
}

pub fn divide(left: &Value, right: &Value) -> (r: Result<Value, RuntimeError>)
    ensures
        match r {
            Ok(v) => sp_divide(left@, right@) == Ok::<SpecValue, SpecRuntimeError>(v@),
            Err(e) => sp_divide(left@, right@) == Err::<SpecValue, SpecRuntimeError>(e@),
        },
{
    match (left, right) {
        (Value::Literal(Literal::Number(a)), Value::Literal(Literal::Number(b))) => {
            if b.m == 0 {
                Err(RuntimeError::DivisionByZero)
            } else {
                match a.checked_div(*b) {
                    Some(n) => Ok(Value::Literal(Literal::Number(n))),
                    None => Err(RuntimeError::NumberOverflow),
                }
            }
        },
        _ => Err(RuntimeError::OperandsMustBeNumbers),
    }
}

/// `%`: remainder with the dividend's sign; a zero divisor is an error.
pub open spec fn sp_modulo(a: SpecValue, b: SpecValue) -> Result<SpecValue, SpecRuntimeError> {
    match (a, b) {
        (SpecValue::Literal(SpecLiteral::Number(x)), SpecValue::Literal(SpecLiteral::Number(y))) =>
            if y == 0 {
            Err(SpecRuntimeError::ModuloByZero)
        } else {
            Ok(SpecValue::Literal(SpecLiteral::Number(trunc_rem(x, y))))
        },
        _ => Err(SpecRuntimeError::OperandsMustBeNumbers),
    }
}

pub fn modulo(left: &Value, right: &Value) -> (r: Result<Value, RuntimeError>)
    ensures
        match r {
            Ok(v) => sp_modulo(left@, right@) == Ok::<SpecValue, SpecRuntimeError>(v@),
            Err(e) => sp_modulo(left@, right@) == Err::<SpecValue, SpecRuntimeError>(e@),
        },
{
    match (left, right) {
        (Value::Literal(Literal::Number(a)), Value::Literal(Literal::Number(b))) => {
            if b.m == 0 {
                Err(RuntimeError::ModuloByZero)
            } else {
                Ok(Value::Literal(Literal::Number(a.rem(*b))))
            }
        },
        _ => Err(RuntimeError::OperandsMustBeNumbers),
    }
}

/// A numeric comparison; `cmp` is the comparison relation itself.
pub open spec fn sp_compare(a: SpecValue, b: SpecValue, cmp: spec_fn(int, int) -> bool) -> Result<
    SpecValue,
    SpecRuntimeError,
> {
    match (a, b) {
        (SpecValue::Literal(SpecLiteral::Number(x)), SpecValue::Literal(SpecLiteral::Number(y))) =>
            Ok(SpecValue::Literal(SpecLiteral::Boolean(cmp(x, y)))),
        _ => Err(SpecRuntimeError::OperandsMustBeNumbers),
    }
}

pub fn greater(left: &Value, right: &Value) -> (r: Result<Value, RuntimeError>)
    ensures
        match r {
            Ok(v) => sp_compare(left@, right@, |x: int, y: int| x > y) == Ok::<
                SpecValue,
                SpecRuntimeError,
            >(v@),
            Err(e) => sp_compare(left@, right@, |x: int, y: int| x > y) == Err::<
                SpecValue,
                SpecRuntimeError,
            >(e@),
        },
{
    match (left, right) {
        (Value::Literal(Literal::Number(a)), Value::Literal(Literal::Number(b))) => Ok(
            Value::Literal(Literal::Boolean(a.m > b.m)),
        ),
        _ => Err(RuntimeError::OperandsMustBeNumbers),
    }
}

pub fn greater_equal(left: &Value, right: &Value) -> (r: Result<Value, RuntimeError>)
    ensures
        match r {
            Ok(v) => sp_compare(left@, right@, |x: int, y: int| x >= y) == Ok::<
                SpecValue,
                SpecRuntimeError,
            >(v@),
            Err(e) => sp_compare(left@, right@, |x: int, y: int| x >= y) == Err::<
                SpecValue,
                SpecRuntimeError,
            >(e@),
        },
{
    match (left, right) {
        (Value::Literal(Literal::Number(a)), Value::Literal(Literal::Number(b))) => Ok(
            Value::Literal(Literal::Boolean(a.m >= b.m)),
        ),
        _ => Err(RuntimeError::OperandsMustBeNumbers),
    }
}

pub fn less(left: &Value, right: &Value) -> (r: Result<Value, RuntimeError>)
    ensures
        match r {
            Ok(v) => sp_compare(left@, right@, |x: int, y: int| x < y) == Ok::<
                SpecValue,
                SpecRuntimeError,
            >(v@),
            Err(e) => sp_compare(left@, right@, |x: int, y: int| x < y) == Err::<
                SpecValue,
                SpecRuntimeError,
            >(e@),
        },
{
    match (left, right) {
        (Value::Literal(Literal::Number(a)), Value::Literal(Literal::Number(b))) => Ok(
            Value::Literal(Literal::Boolean(a.m < b.m)),
        ),
        _ => Err(RuntimeError::OperandsMustBeNumbers),
    }
}

pub fn less_equal(left: &Value, right: &Value) -> (r: Result<Value, RuntimeError>)
    ensures
        match r {
            Ok(v) => sp_compare(left@, right@, |x: int, y: int| x <= y) == Ok::<
                SpecValue,
                SpecRuntimeError,
            >(v@),
            Err(e) => sp_compare(left@, right@, |x: int, y: int| x <= y) == Err::<
                SpecValue,
                SpecRuntimeError,
            >(e@),
        },
{
    match (left, right) {
        (Value::Literal(Literal::Number(a)), Value::Literal(Literal::Number(b))) => Ok(
            Value::Literal(Literal::Boolean(a.m <= b.m)),
        ),
        _ => Err(RuntimeError::OperandsMustBeNumbers),
    }
}

/// `==`: scalar literals of one kind compare by value; any other pair
/// (mixed kinds, arrays, functions) is simply unequal, never an error.
pub open spec fn sp_equal(a: SpecValue, b: SpecValue) -> bool {
    match (a, b) {
        (SpecValue::Literal(SpecLiteral::Number(x)), SpecValue::Literal(SpecLiteral::Number(y))) =>
            x == y,
        (SpecValue::Literal(SpecLiteral::String(s)), SpecValue::Literal(SpecLiteral::String(t))) =>
            s == t,
        (
            SpecValue::Literal(SpecLiteral::Boolean(x)),
            SpecValue::Literal(SpecLiteral::Boolean(y)),
        ) => x == y,
        (SpecValue::Literal(SpecLiteral::Nil), SpecValue::Literal(SpecLiteral::Nil)) => true,
        _ => false,
    }
}

pub fn equal(left: &Value, right: &Value) -> (r: Result<Value, RuntimeError>)
    ensures
        match r {
            Ok(v) => v@ == SpecValue::Literal(SpecLiteral::Boolean(sp_equal(left@, right@))),
            Err(_) => false,
        },
{
    match (left, right) {
        (Value::Literal(Literal::Number(a)), Value::Literal(Literal::Number(b))) => Ok(
            Value::Literal(Literal::Boolean(a.m == b.m)),
        ),
        (Value::Literal(Literal::String(a)), Value::Literal(Literal::String(b))) => Ok(
            Value::Literal(Literal::Boolean(*a == *b)),
        ),
        (Value::Literal(Literal::Boolean(a)), Value::Literal(Literal::Boolean(b))) => Ok(
            Value::Literal(Literal::Boolean(*a == *b)),
        ),
        (Value::Literal(Literal::Nil), Value::Literal(Literal::Nil)) => Ok(
            Value::Literal(Literal::Boolean(true)),
        ),
        _ => Ok(Value::Literal(Literal::Boolean(false))),
    }
}

pub fn not_equal(left: &Value, right: &Value) -> (r: Result<Value, RuntimeError>)
    ensures
        match r {
            Ok(v) => v@ == SpecValue::Literal(SpecLiteral::Boolean(!sp_equal(left@, right@))),
            Err(_) => false,
        },
{
    match equal(left, right) {
        Ok(Value::Literal(Literal::Boolean(b))) => Ok(Value::Literal(Literal::Boolean(!b))),
        _ => Err(RuntimeError::OperandsMustBeNumbers),
    }
}

pub open spec fn is_space_char(c: char) -> bool {
    c == ' ' || c == '\t' || c == '\n' || c == '\r'
}

pub open spec fn trim_front(s: Seq<char>) -> Seq<char>
    decreases s.len(),
{
    if s.len() > 0 && is_space_char(s[0]) {
        trim_front(s.skip(1))
    } else {
        s
    }
}

pub open spec fn trim_back(s: Seq<char>) -> Seq<char>
    decreases s.len(),
{
    if s.len() > 0 && is_space_char(s.last()) {
        trim_back(s.drop_last())
    } else {
        s
    }
}

/// Leading and trailing whitespace removed.
pub open spec fn spec_trim(s: Seq<char>) -> Seq<char> {
    trim_back(trim_front(s))
}

fn is_space(c: char) -> (b: bool)
    ensures
        b == is_space_char(c),
{
    c == ' ' || c == '\t' || c == '\n' || c == '\r'
}

pub fn trim_chars(v: &Vec<char>) -> (r: Vec<char>)
    ensures
        r@ == spec_trim(v@),
{
    let n = v.len();
    let mut a: usize = 0;
    proof {
        assert(v@.skip(0) =~= v@);
    }
    while a < n && is_space(v[a])
        invariant
            a <= n,
            n == v@.len(),
            trim_front(v@) == trim_front(v@.skip(a as int)),
        decreases n - a,
    {
        proof {
            assert(v@.skip(a as int)[0] == v@[a as int]);
            assert(v@.skip(a as int).skip(1) =~= v@.skip(a + 1));
        }
        a = a + 1;
    }
    proof {
        if a < n {
            assert(v@.skip(a as int)[0] == v@[a as int]);
        } else {
            assert(v@.skip(a as int) =~= Seq::<char>::empty());
        }
        assert(trim_front(v@) == v@.skip(a as int));
    }
    let mut b: usize = n;
    while b > a && is_space(v[b - 1])
        invariant
            a <= b <= n,
            n == v@.len(),
            trim_front(v@) == v@.skip(a as int),
            trim_back(v@.skip(a as int)) == trim_back(v@.subrange(a as int, b as int)),
        decreases b,
    {
        proof {
            let t = v@.subrange(a as int, b as int);
            assert(t.last() == v@[b - 1]);
            assert(t.drop_last() =~= v@.subrange(a as int, b - 1));
        }
        b = b - 1;
    }
    proof {
        let t = v@.subrange(a as int, b as int);
        if b > a {
            assert(t.last() == v@[b - 1]);
        }
        assert(v@.skip(a as int) =~= v@.subrange(a as int, n as int));
        assert(trim_back(t) == t);
        assert(spec_trim(v@) == t);
    }
    let mut out: Vec<char> = Vec::new();
    let mut i: usize = a;
    while i < b
        invariant
            a <= i <= b <= n,
            n == v@.len(),
            out@ == v@.subrange(a as int, i as int),
        decreases b - i,
    {
        out.push(v[i]);
        proof {
            assert(v@.subrange(a as int, i + 1) =~= v@.subrange(a as int, i as int).push(
                v@[i as int],
            ));
        }
        i = i + 1;
    }
    out
}

/// A line of input read as a number: an optional sign, digits, an
/// optional fraction, nothing else, and the value in range.
pub open spec fn sp_parse_input_number(s: Seq<char>) -> Option<int> {
    let neg = s.len() > 0 && s[0] == '-';
    let b = if s.len() > 0 && (s[0] == '+' || s[0] == '-') {
        s.skip(1)
    } else {
        s
    };
    let e1 = digits_end(b, 0);
    if b.len() == 0 {
        None
    } else if e1 == b.len() {
        if e1 == 0 {
            None
        } else {
            let m = literal_mant(b, Seq::empty());
            if in_mantissa_range(m) {
                Some(
                    if neg {
                        -m
                    } else {
                        m
                    },
                )
            } else {
                None
            }
        }
    } else if b[e1] == '.' {
        let e2 = digits_end(b, e1 + 1);
        if e2 == b.len() && (e1 > 0 || e2 > e1 + 1) {
            let m = literal_mant(b.take(e1), b.subrange(e1 + 1, e2));
            if in_mantissa_range(m) {
                Some(
                    if neg {
                        -m
                    } else {
                        m
                    },
                )
            } else {
                None
            }
        } else {
            None
        }
    } else {
        None
    }
}

fn is_digit(c: char) -> (b: bool)
    ensures
        b == is_digit_char(c),
{
    '0' <= c && c <= '9'
}

#[verifier::spinoff_prover]
#[verifier::rlimit(100)]
pub fn parse_input_number(v: &Vec<char>) -> (r: Option<Num>)
    ensures
        match r {
            Some(x) => sp_parse_input_number(v@) == Some(x@),
            None => sp_parse_input_number(v@) == Option::<int>::None,
        },
{
    let n = v.len();
    let neg: bool;
    let start: usize;
    if n > 0 && (v[0] == '+' || v[0] == '-') {
        neg = v[0] == '-';
        start = 1;
    } else {
        neg = false;
        start = 0;
    }
    let ghost b = v@.skip(start as int);
    proof {
        assert(v@.skip(0) =~= v@);
    }
    let mut i: usize = start;
    while i < n && is_digit(v[i])
        invariant
            start <= i <= n,
            n == v@.len(),
            b == v@.skip(start as int),
            digits_end(b, 0) == digits_end(b, i - start),
        decreases n - i,
    {
        proof {
            assert(b[i - start] == v@[i as int]);
        }
        i = i + 1;
    }
    proof {
        if i < n {
            assert(b[i - start] == v@[i as int]);
        }
        assert(digits_end(b, 0) == i - start);
    }
    let e1 = i;
    if n == start {
        return None;
    }
    if e1 == n {
        // digits only
        proof {
            crate::lexer::lemma_digits_end(b, 0);
            assert(b =~= v@.subrange(start as int, e1 as int));
            assert(v@.subrange(e1 as int, e1 as int) =~= Seq::<char>::empty());
            assert(all_digits(b)) by {
                assert(forall|k: int| 0 <= k < b.len() ==> is_digit_char(#[trigger] b[k]));
            };
            assert(all_digits(v@.subrange(e1 as int, e1 as int)));
            assert(literal_mant(b, Seq::<char>::empty()) == literal_mant(
                v@.subrange(start as int, e1 as int),
                v@.subrange(e1 as int, e1 as int),
            ));
        }
        match mantissa_of_literal(v, start, e1, e1, e1) {
            Some(m) => {
                proof {
                    crate::number::lemma_literal_mant_nonneg(
                        v@.subrange(start as int, e1 as int),
                        v@.subrange(e1 as int, e1 as int),
                    );
                }
                Some(negate_if(neg, m))
            },
            None => None,
        }
    } else if v[e1] == '.' {
        let mut j: usize = e1 + 1;
        while j < n && is_digit(v[j])
            invariant
                e1 + 1 <= j <= n,
                n == v@.len(),
                b == v@.skip(start as int),
                digits_end(b, e1 + 1 - start) == digits_end(b, j - start),
            decreases n - j,
        {
            proof {
                assert(b[j - start] == v@[j as int]);
            }
            j = j + 1;
        }
        proof {
            if j < n {
                assert(b[j - start] == v@[j as int]);
            }
            assert(digits_end(b, e1 + 1 - start) == j - start);
        }
        if j == n && (e1 > start || j > e1 + 1) {
            proof {
                crate::lexer::lemma_digits_end(b, 0);
                crate::lexer::lemma_digits_end(b, e1 + 1 - start);
                assert(b.take(e1 - start) =~= v@.subrange(start as int, e1 as int));
                assert(b.subrange(e1 + 1 - start, j - start) =~= v@.subrange(e1 + 1, j as int));
                assert(all_digits(v@.subrange(start as int, e1 as int))) by {
                    assert(forall|k: int| 0 <= k < e1 - start ==> is_digit_char(
                        #[trigger] b.take(e1 - start)[k]));
                };
                assert(all_digits(v@.subrange(e1 + 1, j as int))) by {
                    assert(forall|k: int| 0 <= k < j - e1 - 1 ==> is_digit_char(
                        #[trigger] b.subrange(e1 + 1 - start, j - start)[k]));
                };
                assert(literal_mant(b.take(e1 - start), b.subrange(e1 + 1 - start, j - start))
                    == literal_mant(
                    v@.subrange(start as int, e1 as int),
                    v@.subrange(e1 + 1, j as int),
                ));
            }
            match mantissa_of_literal(v, start, e1, e1 + 1, j) {
                Some(m) => {
                    proof {
                        crate::number::lemma_literal_mant_nonneg(
                            v@.subrange(start as int, e1 as int),
                            v@.subrange(e1 + 1, j as int),
                        );
                    }
                    Some(negate_if(neg, m))
                },
                None => None,
            }
        } else {
            None
        }
    } else {
        None
    }
}

/// Mantissas parsed from digit text are non-negative, so negation
/// always stays in range.
fn negate_if(neg: bool, m: Num) -> (r: Num)
    requires
        m@ >= 0,
    ensures
        r@ == if neg {
            -m@
        } else {
            m@
        },
{
    if neg {
        Num { m: -m.m }
    } else {
        m
    }
}

/// Prompt for and read one line; a number if the trimmed text parses
/// as one, otherwise the trimmed text itself.
pub fn handle_input() -> (r: Result<Value, RuntimeError>)
    ensures
        match r {
            Ok(v) => v@ matches SpecValue::Literal(l) && ((l is Number) || (l is String)),
            Err(e) => e@ == SpecRuntimeError::InputFailed,
        },
{
    match read_input_line() {
        Some(chars) => {
            let trimmed = trim_chars(&chars);
            match parse_input_number(&trimmed) {
                Some(n) => Ok(Value::Literal(Literal::Number(n))),
                None => Ok(Value::Literal(Literal::String(crate::text::chars_to_string(&trimmed)))),
            }
        },
        None => Err(RuntimeError::InputFailed),
    }
}

/// No binding is ever removed by evaluation.
pub open spec fn env_grows(
    new: Map<Seq<char>, SpecValue>,
    old: Map<Seq<char>, SpecValue>,
) -> bool {
    forall|k: Seq<char>| old.contains_key(k) ==> new.contains_key(k)
}

/// Bound on nested calls. Verified code proves termination, so the
/// unbounded recursion a self-applying function can build must stop
/// somewhere; past this depth a call reports `CallDepthExceeded`
/// instead of exhausting the machine stack. The spec evaluator below
/// threads the same bound, so the limit is part of the stated
/// semantics, not a hidden cut-off.
pub const CALL_DEPTH_LIMIT: u64 = 1024;

/// An expression that contains no read-input node: its evaluation
/// depends on the environment alone, so the mathematical evaluator
/// below describes it exactly.
pub open spec fn input_free(e: SpecExpr) -> bool
    decreases e,
{
    match e {
        SpecExpr::Binary(l, _op, r) => input_free(*l) && input_free(*r),
        SpecExpr::Grouping(i) => input_free(*i),
        SpecExpr::Literal(_) => true,
        SpecExpr::Variable(_) => true,
        SpecExpr::Array(_, es) => exprs_input_free(es),
        SpecExpr::Call(c, _, args) => input_free(*c) && exprs_input_free(args),
        SpecExpr::Input => false,
    }
}

pub open spec fn exprs_input_free(es: Seq<SpecExpr>) -> bool
    decreases es,
{
    if es.len() == 0 {
        true
    } else {
        input_free(es[0]) && exprs_input_free(es.subrange(1, es.len() as int))
    }
}

pub proof fn lemma_exprs_input_free_index(es: Seq<SpecExpr>)
    requires
        exprs_input_free(es),
    ensures
        forall|i: int| 0 <= i < es.len() ==> input_free(#[trigger] es[i]),
    decreases es,
{
    if es.len() > 0 {
        lemma_exprs_input_free_index(es.subrange(1, es.len() as int));
        assert forall|i: int| 0 <= i < es.len() implies input_free(#[trigger] es[i]) by {
            if i > 0 {
                assert(es.subrange(1, es.len() as int)[i - 1] == es[i]);
            }
        }
    }
}

/// A value whose later use can never read input: a function value is
/// input-free exactly when its body is.
pub open spec fn value_input_free(v: SpecValue) -> bool
    decreases v,
{
    match v {
        SpecValue::Literal(_) => true,
        SpecValue::Function(f) => input_free(f.body),
        SpecValue::Array(es) => values_input_free(es),
    }
}

pub open spec fn values_input_free(vs: Seq<SpecValue>) -> bool
    decreases vs,
{
    if vs.len() == 0 {
        true
    } else {
        value_input_free(vs[0]) && values_input_free(vs.subrange(1, vs.len() as int))
    }
}

pub proof fn lemma_values_input_free_index(vs: Seq<SpecValue>)
    requires
        values_input_free(vs),
    ensures
        forall|i: int| 0 <= i < vs.len() ==> value_input_free(#[trigger] vs[i]),
    decreases vs,
{
    if vs.len() > 0 {
        lemma_values_input_free_index(vs.subrange(1, vs.len() as int));
        assert forall|i: int| 0 <= i < vs.len() implies value_input_free(#[trigger] vs[i]) by {
            if i > 0 {
                assert(vs.subrange(1, vs.len() as int)[i - 1] == vs[i]);
            }
        }
    }
}

pub proof fn lemma_values_input_free_push(vs: Seq<SpecValue>, v: SpecValue)
    requires
        values_input_free(vs),
        value_input_free(v),
    ensures
        values_input_free(vs.push(v)),
    decreases vs,
{
    if vs.len() == 0 {
        assert(vs.push(v)[0] == v);
        assert(vs.push(v).subrange(1, 1) =~= Seq::<SpecValue>::empty());
        assert(values_input_free(Seq::<SpecValue>::empty()));
    } else {
        lemma_values_input_free_push(vs.subrange(1, vs.len() as int), v);
        assert(vs.push(v)[0] == vs[0]);
        assert(vs.push(v).subrange(1, vs.len() as int + 1) =~= vs.subrange(
            1,
            vs.len() as int,
        ).push(v));
        assert(values_input_free(vs.subrange(1, vs.len() as int).push(v)));
    }
}

/// Every bound value is input-free.
pub open spec fn env_input_free(env: Map<Seq<char>, SpecValue>) -> bool {
    forall|k: Seq<char>| #[trigger] env.contains_key(k) ==> value_input_free(env[k])
}

pub proof fn lemma_env_input_free_insert(
    env: Map<Seq<char>, SpecValue>,
    k: Seq<char>,
    v: SpecValue,
)
    requires
        env_input_free(env),
        value_input_free(v),
    ensures
        env_input_free(env.insert(k, v)),
{
    assert forall|k2: Seq<char>| #[trigger] env.insert(k, v).contains_key(k2)
        implies value_input_free(env.insert(k, v)[k2]) by {
        if k2 != k {
            assert(env.contains_key(k2));
        }
    }
}

pub open spec fn stmt_input_free(s: SpecStmt) -> bool
    decreases s,
{
    match s {
        SpecStmt::Expression(e) => input_free(e),
        SpecStmt::Print(e) => input_free(e),
        SpecStmt::Var(_, init) => match init {
            Some(e) => input_free(e),
            None => true,
        },
        SpecStmt::If(c, t, els) => input_free(c) && stmt_input_free(*t) && (match els {
            Some(b) => stmt_input_free(*b),
            None => true,
        }),
        SpecStmt::Loop(count, body) => (match count {
            Some(e) => input_free(e),
            None => true,
        }) && stmts_input_free(body),
        SpecStmt::Break => true,
        // Declaring a function whose body reads input puts an
        // input-dependent value into the environment.
        SpecStmt::Function(_, _, body) => input_free(body),
    }
}

pub open spec fn stmts_input_free(ss: Seq<SpecStmt>) -> bool
    decreases ss,
{
    if ss.len() == 0 {
        true
    } else {
        stmt_input_free(ss[0]) && stmts_input_free(ss.subrange(1, ss.len() as int))
    }
}

pub proof fn lemma_stmts_input_free_index(ss: Seq<SpecStmt>)
    requires
        stmts_input_free(ss),
    ensures
        forall|i: int| 0 <= i < ss.len() ==> stmt_input_free(#[trigger] ss[i]),
    decreases ss,
{
    if ss.len() > 0 {
        lemma_stmts_input_free_index(ss.subrange(1, ss.len() as int));
        assert forall|i: int| 0 <= i < ss.len() implies stmt_input_free(#[trigger] ss[i]) by {
            if i > 0 {
                assert(ss.subrange(1, ss.len() as int)[i - 1] == ss[i]);
            }
        }
    }
}

/// Result and final environment of evaluating one expression.
#[verifier::ext_equal]
pub struct EvalOut {
    pub result: Result<SpecValue, SpecRuntimeError>,
    pub env: Map<Seq<char>, SpecValue>,
}

/// Result and final environment of evaluating an element list.
#[verifier::ext_equal]
pub struct EvalListOut {
    pub result: Result<Seq<SpecValue>, SpecRuntimeError>,
    pub env: Map<Seq<char>, SpecValue>,
}

pub open spec fn eval_res_view(r: Result<Value, RuntimeError>) -> Result<
    SpecValue,
    SpecRuntimeError,
> {
    match r {
        Ok(v) => Ok(v@),
        Err(e) => Err(e@),
    }
}

/// What a binary operator makes of its two evaluated operands;
/// `left_node` is the unevaluated left side, which assignment
/// inspects (it must be a bare variable reference).
pub open spec fn sp_binary_op(
    op: SpecToken,
    left_node: SpecExpr,
    lv: SpecValue,
    rv: SpecValue,
    env: Map<Seq<char>, SpecValue>,
) -> EvalOut {
    match op.token_type {
        TokenType::Plus => EvalOut { result: sp_add(lv, rv), env },
        TokenType::Minus => EvalOut { result: sp_subtract(lv, rv), env },
        TokenType::Star => EvalOut { result: sp_multiply(lv, rv), env },
        TokenType::Slash => EvalOut { result: sp_divide(lv, rv), env },
        TokenType::Modulo => EvalOut { result: sp_modulo(lv, rv), env },
        TokenType::Greater => EvalOut {
            result: match (lv, rv) {
                (
                    SpecValue::Literal(SpecLiteral::Number(x)),
                    SpecValue::Literal(SpecLiteral::Number(y)),
                ) => Ok(SpecValue::Literal(SpecLiteral::Boolean(x > y))),
                _ => Err(SpecRuntimeError::OperandsMustBeNumbers),
            },
            env,
        },
        TokenType::GreaterEqual => EvalOut {
            result: match (lv, rv) {
                (
                    SpecValue::Literal(SpecLiteral::Number(x)),
                    SpecValue::Literal(SpecLiteral::Number(y)),
                ) => Ok(SpecValue::Literal(SpecLiteral::Boolean(x >= y))),
                _ => Err(SpecRuntimeError::OperandsMustBeNumbers),
            },
            env,
        },
        TokenType::Less => EvalOut {
            result: match (lv, rv) {
                (
                    SpecValue::Literal(SpecLiteral::Number(x)),
                    SpecValue::Literal(SpecLiteral::Number(y)),
                ) => Ok(SpecValue::Literal(SpecLiteral::Boolean(x < y))),
                _ => Err(SpecRuntimeError::OperandsMustBeNumbers),
            },
            env,
        },
        TokenType::LessEqual => EvalOut {
            result: match (lv, rv) {
                (
                    SpecValue::Literal(SpecLiteral::Number(x)),
                    SpecValue::Literal(SpecLiteral::Number(y)),
                ) => Ok(SpecValue::Literal(SpecLiteral::Boolean(x <= y))),
                _ => Err(SpecRuntimeError::OperandsMustBeNumbers),
            },
            env,
        },
        TokenType::Equal => EvalOut {
            result: Ok(SpecValue::Literal(SpecLiteral::Boolean(sp_equal(lv, rv)))),
            env,
        },
        TokenType::NotEqual => EvalOut {
            result: Ok(SpecValue::Literal(SpecLiteral::Boolean(!sp_equal(lv, rv)))),
            env,
        },
        TokenType::Pmo => match left_node {
            SpecExpr::Variable(vn) => if env.contains_key(vn.lexeme) {
                EvalOut { result: Ok(rv), env: env.insert(vn.lexeme, rv) }
            } else {
                EvalOut { result: Err(SpecRuntimeError::UndefinedVariable(vn.lexeme)), env }
            },
            _ => EvalOut { result: Err(SpecRuntimeError::InvalidAssignmentTarget), env },
        },
        _ => EvalOut { result: Err(SpecRuntimeError::UnsupportedBinary(op.token_type)), env },
    }
}

/// The fresh environment a call runs in: exactly the parameters bound
/// to the arguments, in order (a repeated name keeps its last value).
pub open spec fn params_env(params: Seq<Seq<char>>, args: Seq<SpecValue>) -> Map<
    Seq<char>,
    SpecValue,
>
    decreases params.len(),
{
    if params.len() == 0 {
        Map::empty()
    } else {
        params_env(params.drop_last(), args.drop_last()).insert(params.last(), args.last())
    }
}

/// The mathematical evaluator for input-free expressions. `depth` is
/// the remaining call budget; every clause mirrors the language's
/// left-to-right, depth-first order. On a read-input node it reports
/// the input fault; no contract appeals to it there.
pub open spec fn sp_eval_expr(e: SpecExpr, env: Map<Seq<char>, SpecValue>, depth: int) -> EvalOut
    decreases depth, 0int, e, 1int,
{
    match e {
        SpecExpr::Literal(l) => EvalOut { result: Ok(SpecValue::Literal(l)), env },
        SpecExpr::Variable(t) => if env.contains_key(t.lexeme) {
            EvalOut { result: Ok(env[t.lexeme]), env }
        } else {
            EvalOut { result: Err(SpecRuntimeError::UndefinedVariable(t.lexeme)), env }
        },
        SpecExpr::Grouping(i) => sp_eval_expr(*i, env, depth),
        SpecExpr::Input => EvalOut { result: Err(SpecRuntimeError::InputFailed), env },
        SpecExpr::Binary(l, op, r) => {
            let lo = sp_eval_expr(*l, env, depth);
            match lo.result {
                Err(er) => EvalOut { result: Err(er), env: lo.env },
                Ok(lv) => {
                    let ro = sp_eval_expr(*r, lo.env, depth);
                    match ro.result {
                        Err(er) => EvalOut { result: Err(er), env: ro.env },
                        Ok(rv) => sp_binary_op(op, *l, lv, rv, ro.env),
                    }
                },
            }
        },
        SpecExpr::Array(name, es) => {
            let lo = sp_eval_list(es, env, depth);
            match lo.result {
                Err(er) => EvalOut { result: Err(er), env: lo.env },
                Ok(vs) => EvalOut {
                    result: Ok(SpecValue::Array(vs)),
                    env: lo.env.insert(name.lexeme, SpecValue::Array(vs)),
                },
            }
        },
        SpecExpr::Call(c, _paren, args) => {
            let co = sp_eval_expr(*c, env, depth);
            match co.result {
                Err(er) => EvalOut { result: Err(er), env: co.env },
                Ok(cv) => {
                    let ao = sp_eval_list(args, co.env, depth);
                    match ao.result {
                        Err(er) => EvalOut { result: Err(er), env: ao.env },
                        Ok(avs) => if depth <= 0 {
                            EvalOut {
                                result: Err(SpecRuntimeError::CallDepthExceeded),
                                env: ao.env,
                            }
                        } else {
                            EvalOut { result: sp_call_value(cv, avs, depth - 1), env: ao.env }
                        },
                    }
                },
            }
        },
    }
}

/// Element expressions evaluated left to right, threading the
/// environment; the first fault stops the list.
pub open spec fn sp_eval_list(
    es: Seq<SpecExpr>,
    env: Map<Seq<char>, SpecValue>,
    depth: int,
) -> EvalListOut
    decreases depth, 0int, es, 0int,
{
    if es.len() == 0 {
        EvalListOut { result: Ok(Seq::empty()), env }
    } else {
        let fo = sp_eval_expr(es[0], env, depth);
        match fo.result {
            Err(er) => EvalListOut { result: Err(er), env: fo.env },
            Ok(v) => {
                let ro = sp_eval_list(es.subrange(1, es.len() as int), fo.env, depth);
                match ro.result {
                    Err(er) => EvalListOut { result: Err(er), env: ro.env },
                    Ok(rest) => EvalListOut { result: Ok(seq![v] + rest), env: ro.env },
                }
            },
        }
    }
}

/// Calling a value: only a function with exactly matching arity runs;
/// its body is evaluated against the parameter environment alone
/// (non-lexical scoping), and the caller's environment is untouched.
pub open spec fn sp_call_value(cv: SpecValue, args: Seq<SpecValue>, depth: int) -> Result<
    SpecValue,
    SpecRuntimeError,
>
    decreases depth, 1int, cv, 0int,
{
    match cv {
        SpecValue::Function(f) => if f.params.len() != args.len() {
            Err(
                SpecRuntimeError::ArgumentCount(f.params.len() as int, args.len() as int),
            )
        } else {
            sp_eval_expr(f.body, params_env(f.params, args), depth).result
        },
        _ => Err(SpecRuntimeError::NotCallable),
    }
}

/// Result, final environment and printed lines of one statement.
#[verifier::ext_equal]
pub struct ExecOut {
    pub result: Result<Flow, SpecRuntimeError>,
    pub env: Map<Seq<char>, SpecValue>,
    pub output: Seq<Seq<char>>,
}

/// Result, final environment and printed lines of a whole run.
#[verifier::ext_equal]
pub struct RunOut {
    pub result: Result<(), SpecRuntimeError>,
    pub env: Map<Seq<char>, SpecValue>,
    pub output: Seq<Seq<char>>,
}

pub open spec fn flow_res_view(r: Result<Flow, RuntimeError>) -> Result<Flow, SpecRuntimeError> {
    match r {
        Ok(f) => Ok(f),
        Err(e) => Err(e@),
    }
}

pub open spec fn unit_res_view(r: Result<(), RuntimeError>) -> Result<(), SpecRuntimeError> {
    match r {
        Ok(u) => Ok(u),
        Err(e) => Err(e@),
    }
}

pub open spec fn outputs_view(o: Seq<String>) -> Seq<Seq<char>> {
    Seq::new(o.len(), |i: int| o[i]@)
}

pub open spec fn spec_param_names(params: Seq<SpecToken>) -> Seq<Seq<char>> {
    Seq::new(params.len(), |i: int| params[i].lexeme)
}

/// The mathematical executor for input-free statements: what one
/// statement does to the environment and the printed lines.
pub open spec fn sp_exec_stmt(
    s: SpecStmt,
    env: Map<Seq<char>, SpecValue>,
    out: Seq<Seq<char>>,
    in_loop: bool,
) -> ExecOut
    decreases s, 0int, 2int,
{
    match s {
        SpecStmt::Expression(e) => {
            let eo = sp_eval_expr(e, env, CALL_DEPTH_LIMIT as int);
            match eo.result {
                Ok(_) => ExecOut { result: Ok(Flow::Normal), env: eo.env, output: out },
                Err(er) => ExecOut { result: Err(er), env: eo.env, output: out },
            }
        },
        SpecStmt::Print(e) => {
            let eo = sp_eval_expr(e, env, CALL_DEPTH_LIMIT as int);
            match eo.result {
                Ok(v) => ExecOut {
                    result: Ok(Flow::Normal),
                    env: eo.env,
                    output: out.push(value_chars(v)),
                },
                Err(er) => ExecOut { result: Err(er), env: eo.env, output: out },
            }
        },
        SpecStmt::Var(name, init) => match init {
            Some(e) => {
                let eo = sp_eval_expr(e, env, CALL_DEPTH_LIMIT as int);
                match eo.result {
                    Ok(v) => ExecOut {
                        result: Ok(Flow::Normal),
                        env: eo.env.insert(name.lexeme, v),
                        output: out,
                    },
                    Err(er) => ExecOut { result: Err(er), env: eo.env, output: out },
                }
            },
            None => ExecOut {
                result: Ok(Flow::Normal),
                env: env.insert(name.lexeme, SpecValue::Literal(SpecLiteral::Nil)),
                output: out,
            },
        },
        SpecStmt::If(c, t, els) => {
            let eo = sp_eval_expr(c, env, CALL_DEPTH_LIMIT as int);
            match eo.result {
                Err(er) => ExecOut { result: Err(er), env: eo.env, output: out },
                Ok(v) => if sp_truthy(v) {
                    sp_exec_stmt(*t, eo.env, out, in_loop)
                } else {
                    match els {
                        Some(b) => sp_exec_stmt(*b, eo.env, out, in_loop),
                        None => ExecOut { result: Ok(Flow::Normal), env: eo.env, output: out },
                    }
                },
            }
        },
        SpecStmt::Loop(count, body) => match count {
            Some(ce) => {
                let eo = sp_eval_expr(ce, env, CALL_DEPTH_LIMIT as int);
                match eo.result {
                    Err(er) => ExecOut { result: Err(er), env: eo.env, output: out },
                    Ok(v) => match v {
                        SpecValue::Literal(SpecLiteral::Number(m)) => sp_loop_iter(
                            body,
                            trunc_div(m, SCALE as int),
                            false,
                            eo.env,
                            out,
                        ),
                        _ => ExecOut {
                            result: Err(SpecRuntimeError::LoopCountNotNumber),
                            env: eo.env,
                            output: out,
                        },
                    },
                }
            },
            None => sp_loop_iter(body, 18446744073709551615u64 as int, true, env, out),
        },
        SpecStmt::Break => if in_loop {
            ExecOut { result: Ok(Flow::Break), env, output: out }
        } else {
            ExecOut { result: Err(SpecRuntimeError::BreakOutsideLoop), env, output: out }
        },
        SpecStmt::Function(name, params, body) => ExecOut {
            result: Ok(Flow::Normal),
            env: env.insert(
                name.lexeme,
                SpecValue::Function(
                    SpecFunction { name: name.lexeme, params: spec_param_names(params), body },
                ),
            ),
            output: out,
        },
    }
}

/// One pass over a loop body: statements in order, a break outcome
/// stopping the pass.
pub open spec fn sp_run_block(
    body: Seq<SpecStmt>,
    env: Map<Seq<char>, SpecValue>,
    out: Seq<Seq<char>>,
) -> ExecOut
    decreases body, 0int, 0int,
{
    if body.len() == 0 {
        ExecOut { result: Ok(Flow::Normal), env, output: out }
    } else {
        let so = sp_exec_stmt(body[0], env, out, true);
        match so.result {
            Err(_) => so,
            Ok(Flow::Break) => so,
            Ok(Flow::Normal) => sp_run_block(body.subrange(1, body.len() as int), so.env, so.output),
        }
    }
}

/// Up to `k` passes over a loop body: a break ends the loop normally;
/// exhausting the budget is the loop-limit fault for an uncounted
/// loop and normal completion for a counted one.
pub open spec fn sp_loop_iter(
    body: Seq<SpecStmt>,
    k: int,
    err_on_exhaust: bool,
    env: Map<Seq<char>, SpecValue>,
    out: Seq<Seq<char>>,
) -> ExecOut
    decreases body, k, 1int,
{
    if k <= 0 {
        if err_on_exhaust {
            ExecOut { result: Err(SpecRuntimeError::LoopLimitExceeded), env, output: out }
        } else {
            ExecOut { result: Ok(Flow::Normal), env, output: out }
        }
    } else {
        let bo = sp_run_block(body, env, out);
        match bo.result {
            Err(_) => bo,
            Ok(Flow::Break) => ExecOut { result: Ok(Flow::Normal), env: bo.env, output: bo.output },
            Ok(Flow::Normal) => sp_loop_iter(body, k - 1, err_on_exhaust, bo.env, bo.output),
        }
    }
}

/// A whole program: statements in order outside any loop, stopping at
/// the first fault, whose completed effects persist.
pub open spec fn sp_exec_stmts(
    ss: Seq<SpecStmt>,
    env: Map<Seq<char>, SpecValue>,
    out: Seq<Seq<char>>,
) -> RunOut
    decreases ss, 0int, 3int,
{
    if ss.len() == 0 {
        RunOut { result: Ok(()), env, output: out }
    } else {
        let so = sp_exec_stmt(ss[0], env, out, false);
        match so.result {
            Err(er) => RunOut { result: Err(er), env: so.env, output: so.output },
            Ok(Flow::Break) => RunOut {
                result: Err(SpecRuntimeError::BreakOutsideLoop),
                env: so.env,
                output: so.output,
            },
            Ok(Flow::Normal) => sp_exec_stmts(ss.subrange(1, ss.len() as int), so.env, so.output),
        }
    }
}

/// Evaluate the elements of an `Array` or `Call` node, left to right;
/// `owner` is the node itself, passed so termination can follow the
/// tree. For input-free elements the result and final environment are
/// exactly `sp_eval_list`'s.
#[verifier::spinoff_prover]
#[verifier::rlimit(60)]
fn eval_values(env: &mut Environment, owner: &Expr, es: &Vec<Expr>, depth: u64) -> (r: Result<
    Vec<Value>,
    RuntimeError,
>)
    requires
        old(env).wf(),
        (owner matches Expr::Array(_, v) && v@ == es@) || (owner matches Expr::Call(_, _, v) && v@
            == es@),
    ensures
        final(env).wf(),
        env_grows(final(env)@, old(env)@),
        match r {
            Ok(vs) => vs@.len() == es@.len(),
            Err(_) => true,
        },
        (exprs_input_free(exprs_view(es@)) && env_input_free(old(env)@) ==> ({
            let o = sp_eval_list(exprs_view(es@), old(env)@, depth as int);
            &&& o.env == final(env)@
            &&& env_input_free(final(env)@)
            &&& match r {
                Ok(vs) => o.result == Ok::<Seq<SpecValue>, SpecRuntimeError>(values_view(vs@))
                    && values_input_free(values_view(vs@)),
                Err(e) => o.result == Err::<Seq<SpecValue>, SpecRuntimeError>(e@),
            }
        })),
    decreases depth, 0int, *owner, 0int,
{
    let ghost evs = exprs_view(es@);
    let ghost g = exprs_input_free(evs) && env_input_free(old(env)@);
    proof {
        lemma_exprs_view(es@);
        if g {
            lemma_exprs_input_free_index(evs);
        }
    }
    let mut out: Vec<Value> = Vec::new();
    let n = es.len();
    let mut i: usize = 0;
    proof {
        lemma_values_view(out@);
        if g {
            assert(evs.subrange(0, n as int) =~= evs);
            let full = sp_eval_list(evs, old(env)@, depth as int);
            if full.result is Ok {
                assert(values_view(out@) + full.result->Ok_0 =~= full.result->Ok_0);
            }
        }
    }
    while i < n
        invariant
            i <= n,
            n == es@.len(),
            out@.len() == i as int,
            env.wf(),
            env_grows(env@, old(env)@),
            (owner matches Expr::Array(_, v) && v@ == es@) || (owner matches Expr::Call(_, _, v)
                && v@ == es@),
            g ==> (env_input_free(env@) && values_input_free(values_view(out@)) && ({
                let full = sp_eval_list(evs, old(env)@, depth as int);
                let rest = sp_eval_list(
                    evs.subrange(i as int, n as int),
                    env@,
                    depth as int,
                );
                full.env == rest.env && full.result == (match rest.result {
                    Ok(rr) => Ok::<Seq<SpecValue>, SpecRuntimeError>(values_view(out@) + rr),
                    Err(e2) => Err::<Seq<SpecValue>, SpecRuntimeError>(e2),
                })
            })),
        decreases n - i,
    {
        proof {
            let ghost this = *owner;
            if this matches Expr::Array(_, _) {
                let ghost kids = this->Array_1;
                assert(this == Expr::Array(this->Array_0, kids));
                assert(decreases_to!(this => kids));
                assert(decreases_to!(kids => kids@));
                assert(decreases_to!(kids@ => kids@[i as int]));
            } else {
                let ghost kids = this->Call_2;
                assert(this == Expr::Call(this->Call_0, this->Call_1, kids));
                assert(decreases_to!(this => kids));
                assert(decreases_to!(kids => kids@));
                assert(decreases_to!(kids@ => kids@[i as int]));
            }
            if g {
                assert(evs.subrange(i as int, n as int)[0] == evs[i as int]);
                assert(evs.subrange(i as int, n as int).subrange(1, (n - i) as int) =~= evs.subrange(
                    i + 1,
                    n as int,
                ));
            }
        }
        let v = eval_expr(env, &es[i], depth)?;
        proof {
            if g {
                let pre = values_view(out@);
                assert(values_view(out@.push(v)) =~= pre.push(value_view(v))) by {
                    assert(out@.push(v).drop_last() =~= out@);
                };
                lemma_values_input_free_push(pre, value_view(v));
                let rest2 = sp_eval_list(evs.subrange(i + 1, n as int), env@, depth as int);
                if rest2.result is Ok {
                    assert(pre.push(value_view(v)) + rest2.result->Ok_0 =~= pre + (seq![
                        value_view(v),
                    ] + rest2.result->Ok_0));
                }
            }
        }
        out.push(v);
        i = i + 1;
    }
    proof {
        if g {
            assert(evs.subrange(n as int, n as int) =~= Seq::<SpecExpr>::empty());
            assert(values_view(out@) + Seq::<SpecValue>::empty() =~= values_view(out@));
        }
    }
    Ok(out)
}

/// Evaluate one expression against the environment. Literals evaluate
/// to themselves; a variable reads its binding or is the undefined-
/// variable error; both leave the environment unchanged. For an
/// input-free expression in an input-free environment, the result and
/// the final environment are exactly what the mathematical evaluator
/// `sp_eval_expr` gives for the same call budget.
#[verifier::spinoff_prover]
#[verifier::rlimit(100)]
pub fn eval_expr(env: &mut Environment, expr: &Expr, depth: u64) -> (r: Result<
    Value,
    RuntimeError,
>)
    requires
        old(env).wf(),
    ensures
        final(env).wf(),
        env_grows(final(env)@, old(env)@),
        (expr@ matches SpecExpr::Literal(l) ==> final(env)@ == old(env)@ && (r matches Ok(v)
            && v@ == SpecValue::Literal(l))),
        (expr@ matches SpecExpr::Variable(t) ==> final(env)@ == old(env)@ && (match r {
            Ok(v) => old(env)@.contains_key(t.lexeme) && v@ == old(env)@[t.lexeme],
            Err(e) => !old(env)@.contains_key(t.lexeme) && e@ == SpecRuntimeError::UndefinedVariable(
                t.lexeme,
            ),
        })),
        (input_free(expr@) && env_input_free(old(env)@) ==> ({
            let o = sp_eval_expr(expr@, old(env)@, depth as int);
            &&& o.result == eval_res_view(r)
            &&& o.env == final(env)@
            &&& env_input_free(final(env)@)
            &&& (r matches Ok(v) ==> value_input_free(v@))
        })),
    decreases depth, 0int, *expr, 1int,
{
    match expr {
        Expr::Literal(l) => Ok(Value::Literal(l.clone())),
        Expr::Input => handle_input(),
        Expr::Grouping(inner) => eval_expr(env, inner, depth),
        Expr::Variable(name) => {
            match env.get(&name.lexeme) {
                Some(value) => Ok(value),
                None => Err(RuntimeError::UndefinedVariable(name.lexeme.clone())),
            }
        },
        Expr::Binary(left, op, right) => {
            let left_val = eval_expr(env, left, depth)?;
            let right_val = eval_expr(env, right, depth)?;
            match op.token_type {
                TokenType::Plus => add_values(&left_val, &right_val),
                TokenType::Minus => subtract(&left_val, &right_val),
                TokenType::Star => multiply(&left_val, &right_val),
                TokenType::Slash => divide(&left_val, &right_val),
                TokenType::Modulo => modulo(&left_val, &right_val),
                TokenType::Greater => greater(&left_val, &right_val),
                TokenType::GreaterEqual => greater_equal(&left_val, &right_val),
                TokenType::Less => less(&left_val, &right_val),
                TokenType::LessEqual => less_equal(&left_val, &right_val),
                TokenType::Equal => equal(&left_val, &right_val),
                TokenType::NotEqual => not_equal(&left_val, &right_val),
                TokenType::Pmo => {
                    match &**left {
                        Expr::Variable(var_name) => {
                            let stored = right_val.clone();
                            match env.assign(&var_name.lexeme, stored) {
                                Ok(()) => Ok(right_val),
                                Err(()) => Err(
                                    RuntimeError::UndefinedVariable(var_name.lexeme.clone()),
                                ),
                            }
                        },
                        _ => Err(RuntimeError::InvalidAssignmentTarget),
                    }
                },
                _ => Err(RuntimeError::UnsupportedBinary(op.token_type)),
            }
        },
        Expr::Array(name, elements) => {
            let values = eval_values(env, expr, elements, depth)?;
            let array_value = Value::Array(values);
            let stored = array_value.clone();
            env.define(name.lexeme.clone(), stored);
            Ok(array_value)
        },
        Expr::Call(callee, _paren, arguments) => {
            let callee_val = eval_expr(env, callee, depth)?;
            let arg_values = eval_values(env, expr, arguments, depth)?;
            if depth == 0 {
                Err(RuntimeError::CallDepthExceeded)
            } else {
                call_function(&callee_val, arg_values, depth - 1)
            }
        },
    }
}

fn param_names(params: &Vec<Token>) -> (r: Vec<String>)
    ensures
        r@.len() == params@.len(),
        forall|i: int| 0 <= i < params@.len() ==> (#[trigger] r@[i])@ == params@[i]@.lexeme,
{
    let mut out: Vec<String> = Vec::new();
    let n = params.len();
    let mut i: usize = 0;
    while i < n
        invariant
            i <= n,
            n == params@.len(),
            out@.len() == i as int,
            forall|j: int| 0 <= j < i ==> (#[trigger] out@[j])@ == params@[j]@.lexeme,
        decreases n - i,
    {
        out.push(params[i].lexeme.clone());
        i = i + 1;
    }
    out
}

/// Call a value: it must be a function and the argument count must
/// match its parameter count exactly. The call sees a fresh
/// environment binding exactly the parameters to the arguments and
/// nothing else; for an input-free function value and input-free
/// arguments the result is exactly `sp_call_value`'s.
#[verifier::spinoff_prover]
#[verifier::rlimit(60)]
pub fn call_function(callee: &Value, arguments: Vec<Value>, depth: u64) -> (r: Result<
    Value,
    RuntimeError,
>)
    ensures
        (!(callee@ is Function) ==> (r matches Err(e) && e@ == SpecRuntimeError::NotCallable)),
        (callee@ matches SpecValue::Function(f) ==> (f.params.len() != arguments@.len() ==> (
        r matches Err(e) && e@ == SpecRuntimeError::ArgumentCount(
            f.params.len() as int,
            arguments@.len() as int,
        )))),
        (value_input_free(callee@) && values_input_free(values_view(arguments@)) ==> ({
            &&& eval_res_view(r) == sp_call_value(callee@, values_view(arguments@), depth as int)
            &&& (r matches Ok(v) ==> value_input_free(v@))
        })),
    decreases depth, 1int, *callee, 0int,
{
    let ghost avs = values_view(arguments@);
    proof {
        lemma_values_view(arguments@);
        if values_input_free(avs) {
            lemma_values_input_free_index(avs);
        }
    }
    match callee {
        Value::Function(function) => {
            if function.params.len() != arguments.len() {
                return Err(RuntimeError::ArgumentCount(function.params.len(), arguments.len()));
            }
            let ghost fv = function@;
            let mut temp_env = Environment::new();
            let n = function.params.len();
            let mut i: usize = 0;
            proof {
                assert(fv.params.take(0) =~= Seq::<Seq<char>>::empty());
                assert(avs.take(0) =~= Seq::<SpecValue>::empty());
            }
            while i < n
                invariant
                    i <= n,
                    n == function.params@.len(),
                    n == arguments@.len(),
                    avs.len() == n,
                    fv == function@,
                    fv.params.len() == n,
                    temp_env.wf(),
                    temp_env@ == params_env(fv.params.take(i as int), avs.take(i as int)),
                    values_input_free(avs) ==> env_input_free(temp_env@),
                decreases n - i,
            {
                proof {
                    assert(fv.params.take(i + 1).drop_last() =~= fv.params.take(i as int));
                    assert(avs.take(i + 1).drop_last() =~= avs.take(i as int));
                    assert(fv.params.take(i + 1).last() == fv.params[i as int]);
                    assert(avs.take(i + 1).last() == avs[i as int]);
                    assert(fv.params[i as int] == function.params@[i as int]@);
                }
                let arg = arguments[i].clone();
                proof {
                    if values_input_free(avs) {
                        lemma_env_input_free_insert(
                            temp_env@,
                            function.params@[i as int]@,
                            value_view(arg),
                        );
                    }
                }
                temp_env.define(function.params[i].clone(), arg);
                i = i + 1;
            }
            proof {
                assert(fv.params.take(n as int) =~= fv.params);
                assert(avs.take(n as int) =~= avs);
            }
            eval_expr(&mut temp_env, &function.body, depth)
        },
        _ => Err(RuntimeError::NotCallable),
    }
}

/// Outcome of executing one statement: fall through, or unwind the
/// innermost loop.
#[derive(Clone, Copy, PartialEq, Eq, Structural, Debug)]
pub enum Flow {
    Normal,
    Break,
}

pub open spec fn output_extends(new: Seq<String>, old: Seq<String>) -> bool {
    old.len() <= new.len() && forall|i: int| 0 <= i < old.len() ==> new[i] == old[i]
}

/// Walks statements against one owned environment, collecting every
/// printed line (which is also written to the host as it appears).
pub struct Interpreter {
    pub environment: Environment,
    pub output: Vec<String>,
}

impl Interpreter {
    pub open spec fn wf(&self) -> bool {
        self.environment.wf()
    }

    pub fn new(environment: Environment) -> (r: Interpreter)
        ensures
            r.environment == environment,
            r.output@.len() == 0,
    {
        Interpreter { environment, output: Vec::new() }
    }

    /// Run the body statements once, inside a loop; a break outcome
    /// stops the pass and is handed to the loop. `owner` is the loop
    /// statement, passed so termination can follow the tree. For an
    /// input-free body the effect is exactly `sp_run_block`'s.
    #[verifier::spinoff_prover]
    #[verifier::rlimit(90)]
    fn run_block(&mut self, owner: &Stmt, body: &Vec<Stmt>) -> (r: Result<Flow, RuntimeError>)
        requires
            old(self).wf(),
            owner matches Stmt::Loop(_, b) && b@ == body@,
        ensures
            final(self).wf(),
            output_extends(final(self).output@, old(self).output@),
            env_grows(final(self).environment@, old(self).environment@),
            (stmts_input_free(stmts_view(body@)) && env_input_free(old(self).environment@) ==> ({
                let o = sp_run_block(
                    stmts_view(body@),
                    old(self).environment@,
                    outputs_view(old(self).output@),
                );
                &&& o.result == flow_res_view(r)
                &&& o.env == final(self).environment@
                &&& o.output == outputs_view(final(self).output@)
                &&& env_input_free(final(self).environment@)
            })),
        decreases *owner, 0int,
    {
        let ghost bodyv = stmts_view(body@);
        let ghost g = stmts_input_free(bodyv) && env_input_free(old(self).environment@);
        proof {
            lemma_stmts_view(body@);
            if g {
                lemma_stmts_input_free_index(bodyv);
                assert(bodyv.subrange(0, bodyv.len() as int) =~= bodyv);
            }
        }
        let n = body.len();
        let mut i: usize = 0;
        while i < n
            invariant
                i <= n,
                n == body@.len(),
                self.wf(),
                output_extends(self.output@, old(self).output@),
                env_grows(self.environment@, old(self).environment@),
                owner matches Stmt::Loop(_, b) && b@ == body@,
                g ==> (env_input_free(self.environment@) && sp_run_block(
                    bodyv,
                    old(self).environment@,
                    outputs_view(old(self).output@),
                ) == sp_run_block(
                    bodyv.subrange(i as int, n as int),
                    self.environment@,
                    outputs_view(self.output@),
                )),
            decreases n - i,
        {
            proof {
                let ghost this = *owner;
                let ghost kids = this->Loop_1;
                assert(this == Stmt::Loop(this->Loop_0, kids));
                assert(decreases_to!(this => kids));
                assert(decreases_to!(kids => kids@));
                assert(decreases_to!(kids@ => kids@[i as int]));
                if g {
                    assert(bodyv.subrange(i as int, n as int)[0] == bodyv[i as int]);
                    assert(bodyv[i as int] == stmt_view(body@[i as int]));
                    assert(bodyv.subrange(i as int, n as int).subrange(1, (n - i) as int)
                        =~= bodyv.subrange(i + 1, n as int));
                }
            }
            let fl = self.execute(&body[i], true)?;
            if fl == Flow::Break {
                return Ok(Flow::Break);
            }
            i = i + 1;
        }
        proof {
            if g {
                assert(bodyv.subrange(n as int, n as int) =~= Seq::<SpecStmt>::empty());
            }
        }
        Ok(Flow::Normal)
    }

    /// Execute one statement. A break statement unwinds exactly when
    /// inside a loop and is an error otherwise; outside a loop a
    /// successful statement always falls through. Output only grows.
    /// For an input-free statement in an input-free environment the
    /// outcome, the final environment and the printed lines are
    /// exactly what the mathematical executor `sp_exec_stmt` gives.
    #[verifier::spinoff_prover]
    #[verifier::rlimit(100)]
    pub fn execute(&mut self, stmt: &Stmt, in_loop: bool) -> (r: Result<Flow, RuntimeError>)
        requires
            old(self).wf(),
        ensures
            final(self).wf(),
            output_extends(final(self).output@, old(self).output@),
            env_grows(final(self).environment@, old(self).environment@),
            (stmt@ is Break ==> *final(self) == *old(self) && (if in_loop {
                r == Ok::<Flow, RuntimeError>(Flow::Break)
            } else {
                r matches Err(e) && e@ == SpecRuntimeError::BreakOutsideLoop
            })),
            (!in_loop && r is Ok ==> r == Ok::<Flow, RuntimeError>(Flow::Normal)),
            (stmt@ is Print && r is Ok ==> final(self).output@.len() > old(self).output@.len()),
            (stmt_input_free(stmt@) && env_input_free(old(self).environment@) ==> ({
                let o = sp_exec_stmt(
                    stmt@,
                    old(self).environment@,
                    outputs_view(old(self).output@),
                    in_loop,
                );
                &&& o.result == flow_res_view(r)
                &&& o.env == final(self).environment@
                &&& o.output == outputs_view(final(self).output@)
                &&& env_input_free(final(self).environment@)
            })),
        decreases *stmt, 1int,
    {
        let ghost g = stmt_input_free(stmt@) && env_input_free(old(self).environment@);
        match stmt {
            Stmt::Expression(e) => {
                eval_expr(&mut self.environment, e, CALL_DEPTH_LIMIT)?;
                Ok(Flow::Normal)
            },
            Stmt::Print(e) => {
                let value = eval_expr(&mut self.environment, e, CALL_DEPTH_LIMIT)?;
                let shown = value.to_string();
                print_line(&shown);
                proof {
                    assert(outputs_view(self.output@.push(shown)) =~= outputs_view(
                        self.output@,
                    ).push(shown@));
                }
                self.output.push(shown);
                Ok(Flow::Normal)
            },
            Stmt::Var(name, initializer) => {
                let value = match initializer {
                    Some(e) => eval_expr(&mut self.environment, e, CALL_DEPTH_LIMIT)?,
                    None => Value::Literal(Literal::Nil),
                };
                proof {
                    if g {
                        lemma_env_input_free_insert(
                            self.environment@,
                            name.lexeme@,
                            value_view(value),
                        );
                    }
                }
                self.environment.define(name.lexeme.clone(), value);
                Ok(Flow::Normal)
            },
            Stmt::If(condition, then_branch, else_branch) => {
                let condition_value = eval_expr(&mut self.environment, condition, CALL_DEPTH_LIMIT)?;
                if is_truthy(&condition_value) {
                    self.execute(then_branch, in_loop)
                } else {
                    match else_branch {
                        Some(else_stmt) => self.execute(else_stmt, in_loop),
                        None => Ok(Flow::Normal),
                    }
                }
            },
            Stmt::Loop(count, body) => {
                let ghost bodyv = stmts_view(body@);
                match count {
                    Some(count_expr) => {
                        let count_value = eval_expr(
                            &mut self.environment,
                            count_expr,
                            CALL_DEPTH_LIMIT,
                        )?;
                        match count_value {
                            Value::Literal(Literal::Number(n)) => {
                                let iterations = n.whole_part();
                                let ghost k0 = iterations as int;
                                let ghost env1 = self.environment@;
                                let ghost out1 = outputs_view(self.output@);
                                let mut it: i64 = 0;
                                while it < iterations
                                    invariant
                                        self.wf(),
                                        0 <= it,
                                        it <= iterations || iterations < 0,
                                        output_extends(self.output@, old(self).output@),
                                        env_grows(self.environment@, old(self).environment@),
                                        g ==> (env_input_free(self.environment@) && sp_loop_iter(
                                            bodyv,
                                            k0,
                                            false,
                                            env1,
                                            out1,
                                        ) == sp_loop_iter(
                                            bodyv,
                                            k0 - it,
                                            false,
                                            self.environment@,
                                            outputs_view(self.output@),
                                        )),
                                    decreases iterations - it,
                                {
                                    let fl = self.run_block(stmt, body)?;
                                    if fl == Flow::Break {
                                        return Ok(Flow::Normal);
                                    }
                                    it = it + 1;
                                }
                                Ok(Flow::Normal)
                            },
                            _ => Err(RuntimeError::LoopCountNotNumber),
                        }
                    },
                    None => {
                        // No count: iterate until a break. Every loop
                        // here must carry a decreasing measure, so the
                        // iterations are counted against a bound no
                        // host could ever reach.
                        let ghost env1 = self.environment@;
                        let ghost out1 = outputs_view(self.output@);
                        let ghost kmax = 18446744073709551615u64 as int;
                        let mut it: u64 = 0;
                        while it < 18446744073709551615u64
                            invariant
                                self.wf(),
                                output_extends(self.output@, old(self).output@),
                                env_grows(self.environment@, old(self).environment@),
                                g ==> (env_input_free(self.environment@) && sp_loop_iter(
                                    bodyv,
                                    kmax,
                                    true,
                                    env1,
                                    out1,
                                ) == sp_loop_iter(
                                    bodyv,
                                    kmax - it,
                                    true,
                                    self.environment@,
                                    outputs_view(self.output@),
                                )),
                            decreases 18446744073709551615u64 - it,
                        {
                            let fl = self.run_block(stmt, body)?;
                            if fl == Flow::Break {
                                return Ok(Flow::Normal);
                            }
                            it = it + 1;
                        }
                        Err(RuntimeError::LoopLimitExceeded)
                    },
                }
            },
            Stmt::Break => {
                if in_loop {
                    Ok(Flow::Break)
                } else {
                    Err(RuntimeError::BreakOutsideLoop)
                }
            },
            Stmt::Function(name, params, body) => {
                let function = Function {
                    name: name.lexeme.clone(),
                    params: param_names(params),
                    body: Box::new(body.clone()),
                };
                proof {
                    assert(strings_view(function.params@) =~= spec_param_names(
                        tokens_view(params@),
                    ));
                    if g {
                        lemma_env_input_free_insert(
                            self.environment@,
                            name.lexeme@,
                            value_view(Value::Function(function)),
                        );
                    }
                }
                self.environment.define(name.lexeme.clone(), Value::Function(function));
                Ok(Flow::Normal)
            },
        }
    }

    /// Execute the statements in order, outside any loop; the first
    /// fault stops the run and the completed statements' effects
    /// persist. For an input-free program in an input-free environment
    /// the outcome, the final environment and the printed lines are
    /// exactly what the mathematical executor `sp_exec_stmts` gives.
    #[verifier::spinoff_prover]
    #[verifier::rlimit(90)]
    pub fn interpret(&mut self, statements: &Vec<Stmt>) -> (r: Result<(), RuntimeError>)
        requires
            old(self).wf(),
        ensures
            final(self).wf(),
            output_extends(final(self).output@, old(self).output@),
            env_grows(final(self).environment@, old(self).environment@),
            (stmts_input_free(stmts_view(statements@)) && env_input_free(
                old(self).environment@,
            ) ==> ({
                let o = sp_exec_stmts(
                    stmts_view(statements@),
                    old(self).environment@,
                    outputs_view(old(self).output@),
                );
                &&& o.result == unit_res_view(r)
                &&& o.env == final(self).environment@
                &&& o.output == outputs_view(final(self).output@)
                &&& env_input_free(final(self).environment@)
            })),
    {
        let ghost sv = stmts_view(statements@);
        let ghost g = stmts_input_free(sv) && env_input_free(old(self).environment@);
        proof {
            lemma_stmts_view(statements@);
            if g {
                lemma_stmts_input_free_index(sv);
                assert(sv.subrange(0, sv.len() as int) =~= sv);
            }
        }
        let n = statements.len();
        let mut i: usize = 0;
        while i < n
            invariant
                i <= n,
                n == statements@.len(),
                self.wf(),
                output_extends(self.output@, old(self).output@),
                env_grows(self.environment@, old(self).environment@),
                g ==> (env_input_free(self.environment@) && sp_exec_stmts(
                    sv,
                    old(self).environment@,
                    outputs_view(old(self).output@),
                ) == sp_exec_stmts(
                    sv.subrange(i as int, n as int),
                    self.environment@,
                    outputs_view(self.output@),
                )),
            decreases n - i,
        {
            proof {
                if g {
                    assert(sv.subrange(i as int, n as int)[0] == sv[i as int]);
                    assert(sv[i as int] == stmt_view(statements@[i as int]));
                    assert(sv.subrange(i as int, n as int).subrange(1, (n - i) as int)
                        =~= sv.subrange(i + 1, n as int));
                }
            }
            let fl = self.execute(&statements[i], false)?;
            match fl {
                Flow::Normal => {},
                Flow::Break => {
                    return Err(RuntimeError::BreakOutsideLoop);
                },
            }
            i = i + 1;
        }
        proof {
            if g {
                assert(sv.subrange(n as int, n as int) =~= Seq::<SpecStmt>::empty());
            }
        }
        Ok(())
    }
}

} // verus!
