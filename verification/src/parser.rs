//! Recursive-descent parsing: tokens to statements.
//!
//! The `sp_*` functions are the mathematical parser, one per grammar
//! level; `Parser::parse` is proved to return exactly their result, so
//! parsing is a function of the token sequence alone. Each `sp_*`
//! returns the parsed node with the position after it, or the first
//! error.
use vstd::prelude::*;
use crate::token::{Token, TokenType, Literal, SpecToken, SpecLiteral, tokens_view};
use crate::ast::{Expr, Stmt, SpecExpr, SpecStmt, expr_view, stmt_view, exprs_view, stmts_view,
    lemma_exprs_view, lemma_stmts_view, lemma_exprs_view_concat};
use crate::number::Num;

verus! {

/// What a failed expectation was looking for; each variant is one
/// reporting site of the parser.
#[derive(Clone, Copy, PartialEq, Eq, Structural, Debug)]
pub enum ParseWhat {
    VarName,
    SemiAfterVarDecl,
    FnName,
    LParenAfterFnName,
    ParamName,
    RParenAfterParams,
    TuahAfterParams,
    SemiAfterFnBody,
    SemiAfterValue,
    SemiAfterExpr,
    SemiAfterBreak,
    RParenAfterLoopCond,
    EdgeAfterLoopBody,
    RParenAfterExpr,
    RParenAfterArgs,
    ArrayName,
    LBraceAfterArrayName,
    RBraceAfterElements,
    InvalidAssignmentTarget,
    ExpectedExpression,
}

#[derive(Debug)]
pub struct ParseError {
    pub what: ParseWhat,
    pub found: Option<Token>,
}

#[verifier::ext_equal]
pub struct SpecParseError {
    pub what: ParseWhat,
    pub found: Option<SpecToken>,
}

impl View for ParseError {
    type V = SpecParseError;

    open spec fn view(&self) -> SpecParseError {
        SpecParseError {
            what: self.what,
            found: match self.found {
                Some(t) => Some(t@),
                None => None,
            },
        }
    }
}

pub open spec fn is_kind(toks: Seq<SpecToken>, p: int, tt: TokenType) -> bool {
    0 <= p < toks.len() && toks[p].token_type == tt
}

pub open spec fn err_at(toks: Seq<SpecToken>, p: int, what: ParseWhat) -> SpecParseError {
    SpecParseError { what, found: Some(toks[p]) }
}

/// Guard value for the termination measure of the mathematical parser.
/// Every successful parse moves forward, so this error is never the
/// result; the implementation's proofs rule it out at every call.
pub open spec fn stuck() -> SpecParseError {
    SpecParseError { what: ParseWhat::ExpectedExpression, found: None }
}

pub open spec fn sp_primary(toks: Seq<SpecToken>, pos: int) -> Result<
    (SpecExpr, int),
    SpecParseError,
>
    decreases toks.len() - pos, 4int,
{
    if is_kind(toks, pos, TokenType::String) || is_kind(toks, pos, TokenType::Number) {
        match toks[pos].literal {
            Some(l) => Ok((SpecExpr::Literal(l), pos + 1)),
            None => Err(err_at(toks, pos + 1, ParseWhat::ExpectedExpression)),
        }
    } else if is_kind(toks, pos, TokenType::Identifier) {
        Ok((SpecExpr::Variable(toks[pos]), pos + 1))
    } else if is_kind(toks, pos, TokenType::LeftParen) {
        match sp_expression(toks, pos + 1) {
            Ok((e, p)) => if is_kind(toks, p, TokenType::RightParen) {
                Ok((SpecExpr::Grouping(Box::new(e)), p + 1))
            } else {
                Err(err_at(toks, p, ParseWhat::RParenAfterExpr))
            },
            Err(e) => Err(e),
        }
    } else if is_kind(toks, pos, TokenType::Gyat) {
        sp_array(toks, pos + 1)
    } else if is_kind(toks, pos, TokenType::Yeet) {
        Ok((SpecExpr::Input, pos + 1))
    } else {
        Err(err_at(toks, pos, ParseWhat::ExpectedExpression))
    }
}

/// Array literal, after the array keyword: a name, then braced
/// comma-separated elements.
pub open spec fn sp_array(toks: Seq<SpecToken>, pos: int) -> Result<(SpecExpr, int), SpecParseError>
    decreases toks.len() - pos, 14int,
{
    if !is_kind(toks, pos, TokenType::Identifier) {
        Err(err_at(toks, pos, ParseWhat::ArrayName))
    } else if !is_kind(toks, pos + 1, TokenType::LeftBrace) {
        Err(err_at(toks, pos + 1, ParseWhat::LBraceAfterArrayName))
    } else if is_kind(toks, pos + 2, TokenType::RightBrace) {
        Ok((SpecExpr::Array(toks[pos], Seq::empty()), pos + 3))
    } else {
        match sp_elements(toks, pos + 2) {
            Ok((es, p)) => if is_kind(toks, p, TokenType::RightBrace) {
                Ok((SpecExpr::Array(toks[pos], es), p + 1))
            } else {
                Err(err_at(toks, p, ParseWhat::RBraceAfterElements))
            },
            Err(e) => Err(e),
        }
    }
}

/// One or more comma-separated expressions.
pub open spec fn sp_elements(toks: Seq<SpecToken>, pos: int) -> Result<
    (Seq<SpecExpr>, int),
    SpecParseError,
>
    decreases toks.len() - pos, 13int,
{
    match sp_expression(toks, pos) {
        Ok((e, p)) => if is_kind(toks, p, TokenType::Comma) {
            if p + 1 > pos {
                match sp_elements(toks, p + 1) {
                    Ok((rest, p2)) => Ok((seq![e] + rest, p2)),
                    Err(er) => Err(er),
                }
            } else {
                Err(stuck())
            }
        } else {
            Ok((seq![e], p))
        },
        Err(er) => Err(er),
    }
}

/// Chained calls on a parsed callee: `f(x)(y)`.
pub open spec fn sp_call_rest(toks: Seq<SpecToken>, pos: int, callee: SpecExpr) -> Result<
    (SpecExpr, int),
    SpecParseError,
>
    decreases toks.len() - pos, 15int,
{
    if is_kind(toks, pos, TokenType::LeftParen) {
        let after = if is_kind(toks, pos + 1, TokenType::RightParen) {
            Ok((Seq::<SpecExpr>::empty(), pos + 1))
        } else {
            sp_elements(toks, pos + 1)
        };
        match after {
            Ok((args, p)) => if is_kind(toks, p, TokenType::RightParen) {
                let c = SpecExpr::Call(Box::new(callee), toks[p], args);
                if p + 1 > pos {
                    sp_call_rest(toks, p + 1, c)
                } else {
                    Err(stuck())
                }
            } else {
                Err(err_at(toks, p, ParseWhat::RParenAfterArgs))
            },
            Err(e) => Err(e),
        }
    } else {
        Ok((callee, pos))
    }
}

pub open spec fn sp_call(toks: Seq<SpecToken>, pos: int) -> Result<(SpecExpr, int), SpecParseError>
    decreases toks.len() - pos, 5int,
{
    match sp_primary(toks, pos) {
        Ok((e, p)) => if p > pos && p <= toks.len() {
            sp_call_rest(toks, p, e)
        } else {
            Err(stuck())
        },
        Err(e) => Err(e),
    }
}

/// Unary minus becomes subtraction from numeric zero.
pub open spec fn sp_unary(toks: Seq<SpecToken>, pos: int) -> Result<(SpecExpr, int), SpecParseError>
    decreases toks.len() - pos, 6int,
{
    if is_kind(toks, pos, TokenType::Minus) {
        match sp_unary(toks, pos + 1) {
            Ok((r, p)) => Ok(
                (
                    SpecExpr::Binary(
                        Box::new(SpecExpr::Literal(SpecLiteral::Number(0))),
                        toks[pos],
                        Box::new(r),
                    ),
                    p,
                ),
            ),
            Err(e) => Err(e),
        }
    } else {
        sp_call(toks, pos)
    }
}

pub open spec fn sp_factor_rest(toks: Seq<SpecToken>, pos: int, left: SpecExpr) -> Result<
    (SpecExpr, int),
    SpecParseError,
>
    decreases toks.len() - pos, 16int,
{
    if is_kind(toks, pos, TokenType::Star) || is_kind(toks, pos, TokenType::Slash) || is_kind(
        toks,
        pos,
        TokenType::Modulo,
    ) {
        match sp_unary(toks, pos + 1) {
            Ok((r, p)) => {
                let e = SpecExpr::Binary(Box::new(left), toks[pos], Box::new(r));
                if p > pos && p <= toks.len() {
                    sp_factor_rest(toks, p, e)
                } else {
                    Err(stuck())
                }
            },
            Err(e) => Err(e),
        }
    } else {
        Ok((left, pos))
    }
}

pub open spec fn sp_factor(toks: Seq<SpecToken>, pos: int) -> Result<
    (SpecExpr, int),
    SpecParseError,
>
    decreases toks.len() - pos, 7int,
{
    match sp_unary(toks, pos) {
        Ok((e, p)) => if p > pos && p <= toks.len() {
            sp_factor_rest(toks, p, e)
        } else {
            Err(stuck())
        },
        Err(e) => Err(e),
    }
}

pub open spec fn sp_term_rest(toks: Seq<SpecToken>, pos: int, left: SpecExpr) -> Result<
    (SpecExpr, int),
    SpecParseError,
>
    decreases toks.len() - pos, 17int,
{
    if is_kind(toks, pos, TokenType::Plus) || is_kind(toks, pos, TokenType::Minus) {
        match sp_factor(toks, pos + 1) {
            Ok((r, p)) => {
                let e = SpecExpr::Binary(Box::new(left), toks[pos], Box::new(r));
                if p > pos && p <= toks.len() {
                    sp_term_rest(toks, p, e)
                } else {
                    Err(stuck())
                }
            },
            Err(e) => Err(e),
        }
    } else {
        Ok((left, pos))
    }
}

pub open spec fn sp_term(toks: Seq<SpecToken>, pos: int) -> Result<(SpecExpr, int), SpecParseError>
    decreases toks.len() - pos, 8int,
{
    match sp_factor(toks, pos) {
        Ok((e, p)) => if p > pos && p <= toks.len() {
            sp_term_rest(toks, p, e)
        } else {
            Err(stuck())
        },
        Err(e) => Err(e),
    }
}

pub open spec fn sp_comparison_rest(toks: Seq<SpecToken>, pos: int, left: SpecExpr) -> Result<
    (SpecExpr, int),
    SpecParseError,
>
    decreases toks.len() - pos, 18int,
{
    if is_kind(toks, pos, TokenType::Greater) || is_kind(toks, pos, TokenType::GreaterEqual)
        || is_kind(toks, pos, TokenType::Less) || is_kind(toks, pos, TokenType::LessEqual) {
        match sp_term(toks, pos + 1) {
            Ok((r, p)) => {
                let e = SpecExpr::Binary(Box::new(left), toks[pos], Box::new(r));
                if p > pos && p <= toks.len() {
                    sp_comparison_rest(toks, p, e)
                } else {
                    Err(stuck())
                }
            },
            Err(e) => Err(e),
        }
    } else {
        Ok((left, pos))
    }
}

pub open spec fn sp_comparison(toks: Seq<SpecToken>, pos: int) -> Result<
    (SpecExpr, int),
    SpecParseError,
>
    decreases toks.len() - pos, 9int,
{
    match sp_term(toks, pos) {
        Ok((e, p)) => if p > pos && p <= toks.len() {
            sp_comparison_rest(toks, p, e)
        } else {
            Err(stuck())
        },
        Err(e) => Err(e),
    }
}

pub open spec fn sp_equality_rest(toks: Seq<SpecToken>, pos: int, left: SpecExpr) -> Result<
    (SpecExpr, int),
    SpecParseError,
>
    decreases toks.len() - pos, 19int,
{
    if is_kind(toks, pos, TokenType::Equal) || is_kind(toks, pos, TokenType::NotEqual) {
        match sp_comparison(toks, pos + 1) {
            Ok((r, p)) => {
                let e = SpecExpr::Binary(Box::new(left), toks[pos], Box::new(r));
                if p > pos && p <= toks.len() {
                    sp_equality_rest(toks, p, e)
                } else {
                    Err(stuck())
                }
            },
            Err(e) => Err(e),
        }
    } else {
        Ok((left, pos))
    }
}

pub open spec fn sp_equality(toks: Seq<SpecToken>, pos: int) -> Result<
    (SpecExpr, int),
    SpecParseError,
>
    decreases toks.len() - pos, 10int,
{
    match sp_comparison(toks, pos) {
        Ok((e, p)) => if p > pos && p <= toks.len() {
            sp_equality_rest(toks, p, e)
        } else {
            Err(stuck())
        },
        Err(e) => Err(e),
    }
}

/// Assignment is right-associative and only a bare variable reference
/// may stand on the left; the node keeps the assignment token as its
/// operator.
pub open spec fn sp_assignment(toks: Seq<SpecToken>, pos: int) -> Result<
    (SpecExpr, int),
    SpecParseError,
>
    decreases toks.len() - pos, 11int,
{
    match sp_equality(toks, pos) {
        Ok((e, p)) => if is_kind(toks, p, TokenType::Pmo) {
            if p + 1 > pos {
                match sp_assignment(toks, p + 1) {
                    Ok((value, p2)) => match e {
                        SpecExpr::Variable(name) => Ok(
                            (
                                SpecExpr::Binary(
                                    Box::new(SpecExpr::Variable(name)),
                                    toks[p],
                                    Box::new(value),
                                ),
                                p2,
                            ),
                        ),
                        _ => Err(
                            SpecParseError { what: ParseWhat::InvalidAssignmentTarget, found: None },
                        ),
                    },
                    Err(er) => Err(er),
                }
            } else {
                Err(stuck())
            }
        } else {
            Ok((e, p))
        },
        Err(er) => Err(er),
    }
}

pub open spec fn sp_expression(toks: Seq<SpecToken>, pos: int) -> Result<
    (SpecExpr, int),
    SpecParseError,
>
    decreases toks.len() - pos, 12int,
{
    sp_assignment(toks, pos)
}

/// Variable declaration, after the declaration keyword.
pub open spec fn sp_var_decl(toks: Seq<SpecToken>, pos: int) -> Result<
    (SpecStmt, int),
    SpecParseError,
>
    decreases toks.len() - pos, 29int,
{
    if !is_kind(toks, pos, TokenType::Identifier) {
        Err(err_at(toks, pos, ParseWhat::VarName))
    } else {
        let name = toks[pos];
        if is_kind(toks, pos + 1, TokenType::Pmo) {
            match sp_expression(toks, pos + 2) {
                Ok((init, p)) => if is_kind(toks, p, TokenType::Semicolon) {
                    Ok((SpecStmt::Var(name, Some(init)), p + 1))
                } else {
                    Err(err_at(toks, p, ParseWhat::SemiAfterVarDecl))
                },
                Err(e) => Err(e),
            }
        } else {
            if is_kind(toks, pos + 1, TokenType::Semicolon) {
                Ok((SpecStmt::Var(name, None), pos + 2))
            } else {
                Err(err_at(toks, pos + 1, ParseWhat::SemiAfterVarDecl))
            }
        }
    }
}

/// One or more comma-separated parameter names.
pub open spec fn sp_params(toks: Seq<SpecToken>, pos: int) -> Result<
    (Seq<SpecToken>, int),
    SpecParseError,
>
    decreases toks.len() - pos, 13int,
{
    if !is_kind(toks, pos, TokenType::Identifier) {
        Err(err_at(toks, pos, ParseWhat::ParamName))
    } else {
        let name = toks[pos];
        if is_kind(toks, pos + 1, TokenType::Comma) {
            match sp_params(toks, pos + 2) {
                Ok((rest, p)) => Ok((seq![name] + rest, p)),
                Err(e) => Err(e),
            }
        } else {
            Ok((seq![name], pos + 1))
        }
    }
}

/// Function declaration, after the function keyword: a name, a
/// parenthesized parameter list, the body marker, one body expression.
pub open spec fn sp_function_decl(toks: Seq<SpecToken>, pos: int) -> Result<
    (SpecStmt, int),
    SpecParseError,
>
    decreases toks.len() - pos, 29int,
{
    if !is_kind(toks, pos, TokenType::Identifier) {
        Err(err_at(toks, pos, ParseWhat::FnName))
    } else if !is_kind(toks, pos + 1, TokenType::LeftParen) {
        Err(err_at(toks, pos + 1, ParseWhat::LParenAfterFnName))
    } else {
        let name = toks[pos];
        let after_params: Result<(Seq<SpecToken>, int), SpecParseError> = if is_kind(
            toks,
            pos + 2,
            TokenType::RightParen,
        ) {
            Ok((Seq::empty(), pos + 2))
        } else {
            sp_params(toks, pos + 2)
        };
        match after_params {
            Ok((params, p)) => if !is_kind(toks, p, TokenType::RightParen) {
                Err(err_at(toks, p, ParseWhat::RParenAfterParams))
            } else if !is_kind(toks, p + 1, TokenType::Tuah) {
                Err(err_at(toks, p + 1, ParseWhat::TuahAfterParams))
            } else {
                if p + 2 > pos {
                    match sp_expression(toks, p + 2) {
                        Ok((body, p2)) => if is_kind(toks, p2, TokenType::Semicolon) {
                            Ok((SpecStmt::Function(name, params, body), p2 + 1))
                        } else {
                            Err(err_at(toks, p2, ParseWhat::SemiAfterFnBody))
                        },
                        Err(e) => Err(e),
                    }
                } else {
                    Err(stuck())
                }
            },
            Err(e) => Err(e),
        }
    }
}

pub open spec fn sp_print(toks: Seq<SpecToken>, pos: int) -> Result<(SpecStmt, int), SpecParseError>
    decreases toks.len() - pos, 24int,
{
    match sp_expression(toks, pos) {
        Ok((e, p)) => if is_kind(toks, p, TokenType::Semicolon) {
            Ok((SpecStmt::Print(e), p + 1))
        } else {
            Err(err_at(toks, p, ParseWhat::SemiAfterValue))
        },
        Err(e) => Err(e),
    }
}

pub open spec fn sp_if(toks: Seq<SpecToken>, pos: int) -> Result<(SpecStmt, int), SpecParseError>
    decreases toks.len() - pos, 24int,
{
    match sp_expression(toks, pos) {
        Ok((c, p)) => if p > pos && p <= toks.len() {
            match sp_statement(toks, p) {
                Ok((thn, p2)) => if is_kind(toks, p2, TokenType::Gurt) {
                    if p2 + 1 > pos {
                        match sp_statement(toks, p2 + 1) {
                            Ok((els, p3)) => Ok(
                                (SpecStmt::If(c, Box::new(thn), Some(Box::new(els))), p3),
                            ),
                            Err(e) => Err(e),
                        }
                    } else {
                        Err(stuck())
                    }
                } else {
                    Ok((SpecStmt::If(c, Box::new(thn), None), p2))
                },
                Err(e) => Err(e),
            }
        } else {
            Err(stuck())
        },
        Err(e) => Err(e),
    }
}

/// Loop body: declarations until the end-of-loop keyword.
pub open spec fn sp_loop_body(toks: Seq<SpecToken>, pos: int) -> Result<
    (Seq<SpecStmt>, int),
    SpecParseError,
>
    decreases toks.len() - pos, 39int,
{
    if is_kind(toks, pos, TokenType::Edge) || !(0 <= pos < toks.len()) || toks[pos].token_type
        == TokenType::EOF {
        Ok((Seq::empty(), pos))
    } else {
        match sp_declaration(toks, pos) {
            Ok((s, p)) => if p > pos && p <= toks.len() {
                match sp_loop_body(toks, p) {
                    Ok((rest, p2)) => Ok((seq![s] + rest, p2)),
                    Err(e) => Err(e),
                }
            } else {
                Err(stuck())
            },
            Err(e) => Err(e),
        }
    }
}

/// Loop, after the loop keyword: an optional parenthesized count, the
/// body, the end-of-loop keyword.
pub open spec fn sp_loop(toks: Seq<SpecToken>, pos: int) -> Result<(SpecStmt, int), SpecParseError>
    decreases toks.len() - pos, 40int,
{
    if is_kind(toks, pos, TokenType::LeftParen) {
        match sp_expression(toks, pos + 1) {
            Ok((c, p)) => if !is_kind(toks, p, TokenType::RightParen) {
                Err(err_at(toks, p, ParseWhat::RParenAfterLoopCond))
            } else {
                if p + 1 > pos {
                    match sp_loop_body(toks, p + 1) {
                        Ok((body, p2)) => if is_kind(toks, p2, TokenType::Edge) {
                            Ok((SpecStmt::Loop(Some(c), body), p2 + 1))
                        } else {
                            Err(err_at(toks, p2, ParseWhat::EdgeAfterLoopBody))
                        },
                        Err(e) => Err(e),
                    }
                } else {
                    Err(stuck())
                }
            },
            Err(e) => Err(e),
        }
    } else {
        match sp_loop_body(toks, pos) {
            Ok((body, p2)) => if is_kind(toks, p2, TokenType::Edge) {
                Ok((SpecStmt::Loop(None, body), p2 + 1))
            } else {
                Err(err_at(toks, p2, ParseWhat::EdgeAfterLoopBody))
            },
            Err(e) => Err(e),
        }
    }
}

pub open spec fn sp_break(toks: Seq<SpecToken>, pos: int) -> Result<(SpecStmt, int), SpecParseError>
    decreases toks.len() - pos, 24int,
{
    if is_kind(toks, pos, TokenType::Semicolon) {
        Ok((SpecStmt::Break, pos + 1))
    } else {
        Err(err_at(toks, pos, ParseWhat::SemiAfterBreak))
    }
}

pub open spec fn sp_expr_statement(toks: Seq<SpecToken>, pos: int) -> Result<
    (SpecStmt, int),
    SpecParseError,
>
    decreases toks.len() - pos, 20int,
{
    match sp_expression(toks, pos) {
        Ok((e, p)) => if is_kind(toks, p, TokenType::Semicolon) {
            Ok((SpecStmt::Expression(e), p + 1))
        } else {
            Err(err_at(toks, p, ParseWhat::SemiAfterExpr))
        },
        Err(e) => Err(e),
    }
}

pub open spec fn sp_statement(toks: Seq<SpecToken>, pos: int) -> Result<
    (SpecStmt, int),
    SpecParseError,
>
    decreases toks.len() - pos, 25int,
{
    if is_kind(toks, pos, TokenType::Yap) {
        sp_print(toks, pos + 1)
    } else if is_kind(toks, pos, TokenType::Yo) {
        sp_if(toks, pos + 1)
    } else if is_kind(toks, pos, TokenType::Goon) {
        sp_loop(toks, pos + 1)
    } else if is_kind(toks, pos, TokenType::Sybau) {
        sp_break(toks, pos + 1)
    } else {
        sp_expr_statement(toks, pos)
    }
}

pub open spec fn sp_declaration(toks: Seq<SpecToken>, pos: int) -> Result<
    (SpecStmt, int),
    SpecParseError,
>
    decreases toks.len() - pos, 30int,
{
    if is_kind(toks, pos, TokenType::Ts) {
        sp_var_decl(toks, pos + 1)
    } else if is_kind(toks, pos, TokenType::Hawk) {
        sp_function_decl(toks, pos + 1)
    } else {
        sp_statement(toks, pos)
    }
}

/// The whole program: declarations until end of input.
pub open spec fn sp_program(toks: Seq<SpecToken>, pos: int) -> Result<Seq<SpecStmt>, SpecParseError>
    decreases toks.len() - pos, 50int,
{
    if !(0 <= pos < toks.len()) || toks[pos].token_type == TokenType::EOF {
        Ok(Seq::empty())
    } else {
        match sp_declaration(toks, pos) {
            Ok((s, p)) => if p > pos && p <= toks.len() {
                match sp_program(toks, p) {
                    Ok(rest) => Ok(seq![s] + rest),
                    Err(e) => Err(e),
                }
            } else {
                Err(stuck())
            },
            Err(e) => Err(e),
        }
    }
}

/// Parsing the same token sequence twice yields structurally
/// identical statement trees: the program is a function of the tokens
/// alone, and `Parser::parse` returns exactly that function's value.
pub proof fn lemma_parsing_deterministic(
    toks: Seq<SpecToken>,
    s1: Seq<SpecStmt>,
    s2: Seq<SpecStmt>,
)
    requires
        sp_program(toks, 0) == Ok::<Seq<SpecStmt>, SpecParseError>(s1),
        sp_program(toks, 0) == Ok::<Seq<SpecStmt>, SpecParseError>(s2),
    ensures
        s1 == s2,
{
}

pub struct Parser {
    tokens: Vec<Token>,
    current: usize,
}

impl Parser {
    pub closed spec fn toks(&self) -> Seq<SpecToken> {
        tokens_view(self.tokens@)
    }

    pub closed spec fn pos(&self) -> int {
        self.current as int
    }

    /// The stream ends with an end-of-input token and the cursor never
    /// passes it.
    pub closed spec fn wf(&self) -> bool {
        &&& self.toks().len() >= 1
        &&& self.toks()[self.toks().len() - 1].token_type == TokenType::EOF
        &&& self.current as int <= self.toks().len() - 1
    }

    pub fn new(tokens: Vec<Token>) -> (p: Parser)
        requires
            tokens_view(tokens@).len() >= 1,
            tokens_view(tokens@)[tokens_view(tokens@).len() - 1].token_type == TokenType::EOF,
        ensures
            p.wf(),
            p.toks() == tokens_view(tokens@),
            p.pos() == 0,
    {
        Parser { tokens, current: 0 }
    }

    fn peek_kind(&self) -> (tt: TokenType)
        requires
            self.wf(),
        ensures
            tt == self.toks()[self.pos()].token_type,
    {
        self.tokens[self.current].token_type
    }

    fn check(&self, tt: TokenType) -> (b: bool)
        requires
            self.wf(),
            tt != TokenType::EOF,
        ensures
            b == is_kind(self.toks(), self.pos(), tt),
    {
        self.peek_kind() == tt
    }

    fn match_token(&mut self, tt: TokenType) -> (b: bool)
        requires
            old(self).wf(),
            tt != TokenType::EOF,
        ensures
            final(self).wf(),
            final(self).toks() == old(self).toks(),
            b == is_kind(old(self).toks(), old(self).pos(), tt),
            final(self).pos() == old(self).pos() + if b {
                1int
            } else {
                0int
            },
    {
        let _n = self.tokens.len();
        if self.check(tt) {
            self.current = self.current + 1;
            true
        } else {
            false
        }
    }

    /// Consume the current (non-end) token and return it.
    fn advance_tok(&mut self) -> (t: Token)
        requires
            old(self).wf(),
            old(self).toks()[old(self).pos()].token_type != TokenType::EOF,
        ensures
            final(self).wf(),
            final(self).toks() == old(self).toks(),
            t@ == old(self).toks()[old(self).pos()],
            final(self).pos() == old(self).pos() + 1,
    {
        let _n = self.tokens.len();
        let t = self.tokens[self.current].clone();
        self.current = self.current + 1;
        t
    }

    fn consume(&mut self, tt: TokenType, what: ParseWhat) -> (r: Result<Token, ParseError>)
        requires
            old(self).wf(),
            tt != TokenType::EOF,
        ensures
            final(self).wf(),
            final(self).toks() == old(self).toks(),
            match r {
                Ok(t) => is_kind(old(self).toks(), old(self).pos(), tt) && t@ == old(self).toks()[
                    old(self).pos()
                ] && final(self).pos() == old(self).pos() + 1,
                Err(e) => !is_kind(old(self).toks(), old(self).pos(), tt) && e@ == err_at(
                    old(self).toks(),
                    old(self).pos(),
                    what,
                ) && final(self).pos() == old(self).pos(),
            },
    {
        if self.check(tt) {
            Ok(self.advance_tok())
        } else {
            Err(ParseError { what, found: Some(self.tokens[self.current].clone()) })
        }
    }

    #[verifier::spinoff_prover]
    #[verifier::rlimit(60)]
    fn primary(&mut self) -> (r: Result<Expr, ParseError>)
        requires
            old(self).wf(),
        ensures
            final(self).wf(),
            final(self).toks() == old(self).toks(),
            match r {
                Ok(e) => sp_primary(old(self).toks(), old(self).pos()) == Ok::<
                    (SpecExpr, int),
                    SpecParseError,
                >((e@, final(self).pos())) && old(self).pos() < final(self).pos(),
                Err(pe) => sp_primary(old(self).toks(), old(self).pos()) == Err::<
                    (SpecExpr, int),
                    SpecParseError,
                >(pe@),
            },
        decreases self.toks().len() - self.pos(), 4int,
    {
        if self.check(TokenType::String) || self.check(TokenType::Number) {
            let t = self.advance_tok();
            match t.literal {
                Some(l) => Ok(Expr::Literal(l)),
                None => Err(
                    ParseError {
                        what: ParseWhat::ExpectedExpression,
                        found: Some(self.tokens[self.current].clone()),
                    },
                ),
            }
        } else if self.check(TokenType::Identifier) {
            let t = self.advance_tok();
            Ok(Expr::Variable(t))
        } else if self.match_token(TokenType::LeftParen) {
            let e = self.expression()?;
            self.consume(TokenType::RightParen, ParseWhat::RParenAfterExpr)?;
            Ok(Expr::Grouping(Box::new(e)))
        } else if self.match_token(TokenType::Gyat) {
            self.array()
        } else if self.match_token(TokenType::Yeet) {
            Ok(Expr::Input)
        } else {
            Err(
                ParseError {
                    what: ParseWhat::ExpectedExpression,
                    found: Some(self.tokens[self.current].clone()),
                },
            )
        }
    }

    /// Array literal body, after the array keyword.
    #[verifier::spinoff_prover]
    #[verifier::rlimit(60)]
    fn array(&mut self) -> (r: Result<Expr, ParseError>)
        requires
            old(self).wf(),
        ensures
            final(self).wf(),
            final(self).toks() == old(self).toks(),
            match r {
                Ok(e) => sp_array(old(self).toks(), old(self).pos()) == Ok::<
                    (SpecExpr, int),
                    SpecParseError,
                >((e@, final(self).pos())) && old(self).pos() < final(self).pos(),
                Err(pe) => sp_array(old(self).toks(), old(self).pos()) == Err::<
                    (SpecExpr, int),
                    SpecParseError,
                >(pe@),
            },
        decreases self.toks().len() - self.pos(), 14int,
    {
        let name = self.consume(TokenType::Identifier, ParseWhat::ArrayName)?;
        self.consume(TokenType::LeftBrace, ParseWhat::LBraceAfterArrayName)?;
        let mut elements: Vec<Expr> = Vec::new();
        if !self.check(TokenType::RightBrace) {
            elements = self.expression_list()?;
        } else {
            proof {
                assert(exprs_view(elements@) =~= Seq::<SpecExpr>::empty());
            }
        }
        self.consume(TokenType::RightBrace, ParseWhat::RBraceAfterElements)?;
        Ok(Expr::Array(name, elements))
    }

    /// One or more comma-separated expressions.
    #[verifier::spinoff_prover]
    #[verifier::rlimit(60)]
    fn expression_list(&mut self) -> (r: Result<Vec<Expr>, ParseError>)
        requires
            old(self).wf(),
        ensures
            final(self).wf(),
            final(self).toks() == old(self).toks(),
            match r {
                Ok(es) => sp_elements(old(self).toks(), old(self).pos()) == Ok::<
                    (Seq<SpecExpr>, int),
                    SpecParseError,
                >((exprs_view(es@), final(self).pos())) && old(self).pos() < final(self).pos(),
                Err(pe) => sp_elements(old(self).toks(), old(self).pos()) == Err::<
                    (Seq<SpecExpr>, int),
                    SpecParseError,
                >(pe@),
            },
        decreases self.toks().len() - self.pos(), 13int,
    {
        let e = self.expression()?;
        let mut out: Vec<Expr> = Vec::new();
        out.push(e);
        if self.match_token(TokenType::Comma) {
            let mut rest = self.expression_list()?;
            proof {
                lemma_exprs_view_concat(out@, rest@);
                lemma_exprs_view(out@);
                assert(exprs_view(out@) =~= seq![expr_view(out@[0])]);
            }
            out.append(&mut rest);
        } else {
            proof {
                lemma_exprs_view(out@);
                assert(exprs_view(out@) =~= seq![exprs_view(out@)[0]]);
            }
        }
        Ok(out)
    }

    #[verifier::spinoff_prover]
    #[verifier::rlimit(60)]
    fn call(&mut self) -> (r: Result<Expr, ParseError>)
        requires
            old(self).wf(),
        ensures
            final(self).wf(),
            final(self).toks() == old(self).toks(),
            match r {
                Ok(e) => sp_call(old(self).toks(), old(self).pos()) == Ok::<
                    (SpecExpr, int),
                    SpecParseError,
                >((e@, final(self).pos())) && old(self).pos() < final(self).pos(),
                Err(pe) => sp_call(old(self).toks(), old(self).pos()) == Err::<
                    (SpecExpr, int),
                    SpecParseError,
                >(pe@),
            },
        decreases self.toks().len() - self.pos(), 5int,
    {
        let ghost toks = self.toks();
        let ghost p0 = self.pos();
        let mut expr = self.primary()?;
        loop
            invariant
                self.wf(),
                self.toks() == toks,
                p0 < self.pos(),
                sp_call(toks, p0) == sp_call_rest(toks, self.pos(), expr@),
            decreases toks.len() - self.pos(),
        {
            if self.match_token(TokenType::LeftParen) {
                let mut args: Vec<Expr> = Vec::new();
                if !self.check(TokenType::RightParen) {
                    args = self.expression_list()?;
                } else {
                    proof {
                        assert(exprs_view(args@) =~= Seq::<SpecExpr>::empty());
                    }
                }
                let paren = self.consume(TokenType::RightParen, ParseWhat::RParenAfterArgs)?;
                expr = Expr::Call(Box::new(expr), paren, args);
            } else {
                break ;
            }
        }
        Ok(expr)
    }

    fn unary(&mut self) -> (r: Result<Expr, ParseError>)
        requires
            old(self).wf(),
        ensures
            final(self).wf(),
            final(self).toks() == old(self).toks(),
            match r {
                Ok(e) => sp_unary(old(self).toks(), old(self).pos()) == Ok::<
                    (SpecExpr, int),
                    SpecParseError,
                >((e@, final(self).pos())) && old(self).pos() < final(self).pos(),
                Err(pe) => sp_unary(old(self).toks(), old(self).pos()) == Err::<
                    (SpecExpr, int),
                    SpecParseError,
                >(pe@),
            },
        decreases self.toks().len() - self.pos(), 6int,
    {
        if self.check(TokenType::Minus) {
            let op = self.advance_tok();
            let right = self.unary()?;
            proof {
                assert(expr_view(Expr::Literal(Literal::Number(Num { m: 0 })))
                    == SpecExpr::Literal(SpecLiteral::Number(0)));
            }
            Ok(
                Expr::Binary(
                    Box::new(Expr::Literal(Literal::Number(Num { m: 0 }))),
                    op,
                    Box::new(right),
                ),
            )
        } else {
            self.call()
        }
    }

    fn factor(&mut self) -> (r: Result<Expr, ParseError>)
        requires
            old(self).wf(),
        ensures
            final(self).wf(),
            final(self).toks() == old(self).toks(),
            match r {
                Ok(e) => sp_factor(old(self).toks(), old(self).pos()) == Ok::<
                    (SpecExpr, int),
                    SpecParseError,
                >((e@, final(self).pos())) && old(self).pos() < final(self).pos(),
                Err(pe) => sp_factor(old(self).toks(), old(self).pos()) == Err::<
                    (SpecExpr, int),
                    SpecParseError,
                >(pe@),
            },
        decreases self.toks().len() - self.pos(), 7int,
    {
        let ghost toks = self.toks();
        let ghost p0 = self.pos();
        let mut expr = self.unary()?;
        loop
            invariant
                self.wf(),
                self.toks() == toks,
                p0 < self.pos(),
                sp_factor(toks, p0) == sp_factor_rest(toks, self.pos(), expr@),
            decreases toks.len() - self.pos(),
        {
            let k = self.peek_kind();
            if k == TokenType::Star || k == TokenType::Slash || k == TokenType::Modulo {
                let op = self.advance_tok();
                let right = self.unary()?;
                expr = Expr::Binary(Box::new(expr), op, Box::new(right));
            } else {
                break ;
            }
        }
        Ok(expr)
    }

    fn term(&mut self) -> (r: Result<Expr, ParseError>)
        requires
            old(self).wf(),
        ensures
            final(self).wf(),
            final(self).toks() == old(self).toks(),
            match r {
                Ok(e) => sp_term(old(self).toks(), old(self).pos()) == Ok::<
                    (SpecExpr, int),
                    SpecParseError,
                >((e@, final(self).pos())) && old(self).pos() < final(self).pos(),
                Err(pe) => sp_term(old(self).toks(), old(self).pos()) == Err::<
                    (SpecExpr, int),
                    SpecParseError,
                >(pe@),
            },
        decreases self.toks().len() - self.pos(), 8int,
    {
        let ghost toks = self.toks();
        let ghost p0 = self.pos();
        let mut expr = self.factor()?;
        loop
            invariant
                self.wf(),
                self.toks() == toks,
                p0 < self.pos(),
                sp_term(toks, p0) == sp_term_rest(toks, self.pos(), expr@),
            decreases toks.len() - self.pos(),
        {
            let k = self.peek_kind();
            if k == TokenType::Plus || k == TokenType::Minus {
                let op = self.advance_tok();
                let right = self.factor()?;
                expr = Expr::Binary(Box::new(expr), op, Box::new(right));
            } else {
                break ;
            }
        }
        Ok(expr)
    }

    fn comparison(&mut self) -> (r: Result<Expr, ParseError>)
        requires
            old(self).wf(),
        ensures
            final(self).wf(),
            final(self).toks() == old(self).toks(),
            match r {
                Ok(e) => sp_comparison(old(self).toks(), old(self).pos()) == Ok::<
                    (SpecExpr, int),
                    SpecParseError,
                >((e@, final(self).pos())) && old(self).pos() < final(self).pos(),
                Err(pe) => sp_comparison(old(self).toks(), old(self).pos()) == Err::<
                    (SpecExpr, int),
                    SpecParseError,
                >(pe@),
            },
        decreases self.toks().len() - self.pos(), 9int,
    {
        let ghost toks = self.toks();
        let ghost p0 = self.pos();
        let mut expr = self.term()?;
        loop
            invariant
                self.wf(),
                self.toks() == toks,
                p0 < self.pos(),
                sp_comparison(toks, p0) == sp_comparison_rest(toks, self.pos(), expr@),
            decreases toks.len() - self.pos(),
        {
            let k = self.peek_kind();
            if k == TokenType::Greater || k == TokenType::GreaterEqual || k == TokenType::Less || k
                == TokenType::LessEqual {
                let op = self.advance_tok();
                let right = self.term()?;
                expr = Expr::Binary(Box::new(expr), op, Box::new(right));
            } else {
                break ;
            }
        }
        Ok(expr)
    }

    fn equality(&mut self) -> (r: Result<Expr, ParseError>)
        requires
            old(self).wf(),
        ensures
            final(self).wf(),
            final(self).toks() == old(self).toks(),
            match r {
                Ok(e) => sp_equality(old(self).toks(), old(self).pos()) == Ok::<
                    (SpecExpr, int),
                    SpecParseError,
                >((e@, final(self).pos())) && old(self).pos() < final(self).pos(),
                Err(pe) => sp_equality(old(self).toks(), old(self).pos()) == Err::<
                    (SpecExpr, int),
                    SpecParseError,
                >(pe@),
            },
        decreases self.toks().len() - self.pos(), 10int,
    {
        let ghost toks = self.toks();
        let ghost p0 = self.pos();
        let mut expr = self.comparison()?;
        loop
            invariant
                self.wf(),
                self.toks() == toks,
                p0 < self.pos(),
                sp_equality(toks, p0) == sp_equality_rest(toks, self.pos(), expr@),
            decreases toks.len() - self.pos(),
        {
            let k = self.peek_kind();
            if k == TokenType::Equal || k == TokenType::NotEqual {
                let op = self.advance_tok();
                let right = self.comparison()?;
                expr = Expr::Binary(Box::new(expr), op, Box::new(right));
            } else {
                break ;
            }
        }
        Ok(expr)
    }

    fn assignment(&mut self) -> (r: Result<Expr, ParseError>)
        requires
            old(self).wf(),
        ensures
            final(self).wf(),
            final(self).toks() == old(self).toks(),
            match r {
                Ok(e) => sp_assignment(old(self).toks(), old(self).pos()) == Ok::<
                    (SpecExpr, int),
                    SpecParseError,
                >((e@, final(self).pos())) && old(self).pos() < final(self).pos(),
                Err(pe) => sp_assignment(old(self).toks(), old(self).pos()) == Err::<
                    (SpecExpr, int),
                    SpecParseError,
                >(pe@),
            },
        decreases self.toks().len() - self.pos(), 11int,
    {
        let expr = self.equality()?;
        if self.check(TokenType::Pmo) {
            let op = self.advance_tok();
            let value = self.assignment()?;
            match expr {
                Expr::Variable(name) => Ok(
                    Expr::Binary(Box::new(Expr::Variable(name)), op, Box::new(value)),
                ),
                _ => Err(ParseError { what: ParseWhat::InvalidAssignmentTarget, found: None }),
            }
        } else {
            Ok(expr)
        }
    }

    fn expression(&mut self) -> (r: Result<Expr, ParseError>)
        requires
            old(self).wf(),
        ensures
            final(self).wf(),
            final(self).toks() == old(self).toks(),
            match r {
                Ok(e) => sp_expression(old(self).toks(), old(self).pos()) == Ok::<
                    (SpecExpr, int),
                    SpecParseError,
                >((e@, final(self).pos())) && old(self).pos() < final(self).pos(),
                Err(pe) => sp_expression(old(self).toks(), old(self).pos()) == Err::<
                    (SpecExpr, int),
                    SpecParseError,
                >(pe@),
            },
        decreases self.toks().len() - self.pos(), 12int,
    {
        self.assignment()
    }

    /// Variable declaration, after the declaration keyword.
    #[verifier::spinoff_prover]
    #[verifier::rlimit(60)]
    fn var_declaration(&mut self) -> (r: Result<Stmt, ParseError>)
        requires
            old(self).wf(),
        ensures
            final(self).wf(),
            final(self).toks() == old(self).toks(),
            match r {
                Ok(s) => sp_var_decl(old(self).toks(), old(self).pos()) == Ok::<
                    (SpecStmt, int),
                    SpecParseError,
                >((s@, final(self).pos())) && old(self).pos() < final(self).pos(),
                Err(pe) => sp_var_decl(old(self).toks(), old(self).pos()) == Err::<
                    (SpecStmt, int),
                    SpecParseError,
                >(pe@),
            },
        decreases self.toks().len() - self.pos(), 29int,
    {
        let name = self.consume(TokenType::Identifier, ParseWhat::VarName)?;
        let mut initializer: Option<Expr> = None;
        if self.match_token(TokenType::Pmo) {
            initializer = Some(self.expression()?);
        }
        self.consume(TokenType::Semicolon, ParseWhat::SemiAfterVarDecl)?;
        Ok(Stmt::Var(name, initializer))
    }

    /// One or more comma-separated parameter names.
    fn params_list(&mut self) -> (r: Result<Vec<Token>, ParseError>)
        requires
            old(self).wf(),
        ensures
            final(self).wf(),
            final(self).toks() == old(self).toks(),
            match r {
                Ok(ps) => sp_params(old(self).toks(), old(self).pos()) == Ok::<
                    (Seq<SpecToken>, int),
                    SpecParseError,
                >((tokens_view(ps@), final(self).pos())) && old(self).pos() < final(self).pos(),
                Err(pe) => sp_params(old(self).toks(), old(self).pos()) == Err::<
                    (Seq<SpecToken>, int),
                    SpecParseError,
                >(pe@),
            },
        decreases self.toks().len() - self.pos(), 13int,
    {
        let name = self.consume(TokenType::Identifier, ParseWhat::ParamName)?;
        let mut out: Vec<Token> = Vec::new();
        out.push(name);
        if self.match_token(TokenType::Comma) {
            let mut rest = self.params_list()?;
            proof {
                assert(tokens_view(out@ + rest@) =~= seq![tokens_view(out@)[0]] + tokens_view(
                    rest@,
                ));
            }
            out.append(&mut rest);
        } else {
            proof {
                assert(tokens_view(out@) =~= seq![tokens_view(out@)[0]]);
            }
        }
        Ok(out)
    }

    /// Function declaration, after the function keyword.
    #[verifier::spinoff_prover]
    #[verifier::rlimit(100)]
    fn function_declaration(&mut self) -> (r: Result<Stmt, ParseError>)
        requires
            old(self).wf(),
        ensures
            final(self).wf(),
            final(self).toks() == old(self).toks(),
            match r {
                Ok(s) => sp_function_decl(old(self).toks(), old(self).pos()) == Ok::<
                    (SpecStmt, int),
                    SpecParseError,
                >((s@, final(self).pos())) && old(self).pos() < final(self).pos(),
                Err(pe) => sp_function_decl(old(self).toks(), old(self).pos()) == Err::<
                    (SpecStmt, int),
                    SpecParseError,
                >(pe@),
            },
        decreases self.toks().len() - self.pos(), 29int,
    {
        let ghost toks = self.toks();
        let ghost p0 = self.pos();
        let name = self.consume(TokenType::Identifier, ParseWhat::FnName)?;
        self.consume(TokenType::LeftParen, ParseWhat::LParenAfterFnName)?;
        let mut parameters: Vec<Token> = Vec::new();
        if !self.check(TokenType::RightParen) {
            parameters = self.params_list()?;
        } else {
            proof {
                assert(tokens_view(parameters@) =~= Seq::<SpecToken>::empty());
            }
        }
        let ghost ap: Result<(Seq<SpecToken>, int), SpecParseError> = if is_kind(
            toks,
            p0 + 2,
            TokenType::RightParen,
        ) {
            Ok((Seq::empty(), p0 + 2))
        } else {
            sp_params(toks, p0 + 2)
        };
        proof {
            assert(ap == Ok::<(Seq<SpecToken>, int), SpecParseError>(
                (tokens_view(parameters@), self.pos()),
            ));
        }
        self.consume(TokenType::RightParen, ParseWhat::RParenAfterParams)?;
        self.consume(TokenType::Tuah, ParseWhat::TuahAfterParams)?;
        let body = self.expression()?;
        self.consume(TokenType::Semicolon, ParseWhat::SemiAfterFnBody)?;
        Ok(Stmt::Function(name, parameters, body))
    }

    fn print_statement(&mut self) -> (r: Result<Stmt, ParseError>)
        requires
            old(self).wf(),
        ensures
            final(self).wf(),
            final(self).toks() == old(self).toks(),
            match r {
                Ok(s) => sp_print(old(self).toks(), old(self).pos()) == Ok::<
                    (SpecStmt, int),
                    SpecParseError,
                >((s@, final(self).pos())) && old(self).pos() < final(self).pos(),
                Err(pe) => sp_print(old(self).toks(), old(self).pos()) == Err::<
                    (SpecStmt, int),
                    SpecParseError,
                >(pe@),
            },
        decreases self.toks().len() - self.pos(), 24int,
    {
        let value = self.expression()?;
        self.consume(TokenType::Semicolon, ParseWhat::SemiAfterValue)?;
        Ok(Stmt::Print(value))
    }

    #[verifier::spinoff_prover]
    #[verifier::rlimit(60)]
    fn if_statement(&mut self) -> (r: Result<Stmt, ParseError>)
        requires
            old(self).wf(),
        ensures
            final(self).wf(),
            final(self).toks() == old(self).toks(),
            match r {
                Ok(s) => sp_if(old(self).toks(), old(self).pos()) == Ok::<
                    (SpecStmt, int),
                    SpecParseError,
                >((s@, final(self).pos())) && old(self).pos() < final(self).pos(),
                Err(pe) => sp_if(old(self).toks(), old(self).pos()) == Err::<
                    (SpecStmt, int),
                    SpecParseError,
                >(pe@),
            },
        decreases self.toks().len() - self.pos(), 24int,
    {
        let condition = self.expression()?;
        let then_branch = Box::new(self.statement()?);
        let mut else_branch: Option<Box<Stmt>> = None;
        if self.match_token(TokenType::Gurt) {
            else_branch = Some(Box::new(self.statement()?));
        }
        Ok(Stmt::If(condition, then_branch, else_branch))
    }

    #[verifier::spinoff_prover]
    #[verifier::rlimit(60)]
    fn loop_statement(&mut self) -> (r: Result<Stmt, ParseError>)
        requires
            old(self).wf(),
        ensures
            final(self).wf(),
            final(self).toks() == old(self).toks(),
            match r {
                Ok(s) => sp_loop(old(self).toks(), old(self).pos()) == Ok::<
                    (SpecStmt, int),
                    SpecParseError,
                >((s@, final(self).pos())) && old(self).pos() < final(self).pos(),
                Err(pe) => sp_loop(old(self).toks(), old(self).pos()) == Err::<
                    (SpecStmt, int),
                    SpecParseError,
                >(pe@),
            },
        decreases self.toks().len() - self.pos(), 40int,
    {
        let ghost toks = self.toks();
        let ghost p0 = self.pos();
        let mut condition: Option<Expr> = None;
        if self.match_token(TokenType::LeftParen) {
            condition = Some(self.expression()?);
            self.consume(TokenType::RightParen, ParseWhat::RParenAfterLoopCond)?;
        }
        let ghost q = self.pos();
        let mut body: Vec<Stmt> = Vec::new();
        proof {
            let x = sp_loop_body(toks, q);
            if x is Ok {
                assert(stmts_view(body@) + x->Ok_0.0 =~= x->Ok_0.0);
            }
        }
        loop
            invariant
                self.wf(),
                self.toks() == toks,
                q <= self.pos(),
                sp_loop_body(toks, q) == (match sp_loop_body(toks, self.pos()) {
                    Ok((rest, p2)) => Ok::<(Seq<SpecStmt>, int), SpecParseError>(
                        (stmts_view(body@) + rest, p2),
                    ),
                    Err(e) => Err::<(Seq<SpecStmt>, int), SpecParseError>(e),
                }),
            decreases toks.len() - self.pos(),
        {
            let k = self.peek_kind();
            if k == TokenType::Edge || k == TokenType::EOF {
                break ;
            }
            let s = self.declaration()?;
            proof {
                let bodyv = stmts_view(body@);
                assert(stmts_view(body@.push(s)) =~= bodyv.push(s@)) by {
                    assert(body@.push(s).drop_last() =~= body@);
                };
                let x = sp_loop_body(toks, self.pos());
                if x is Ok {
                    assert(bodyv.push(s@) + x->Ok_0.0 =~= bodyv + (seq![s@] + x->Ok_0.0));
                }
            }
            body.push(s);
        }
        self.consume(TokenType::Edge, ParseWhat::EdgeAfterLoopBody)?;
        Ok(Stmt::Loop(condition, body))
    }

    fn break_statement(&mut self) -> (r: Result<Stmt, ParseError>)
        requires
            old(self).wf(),
        ensures
            final(self).wf(),
            final(self).toks() == old(self).toks(),
            match r {
                Ok(s) => sp_break(old(self).toks(), old(self).pos()) == Ok::<
                    (SpecStmt, int),
                    SpecParseError,
                >((s@, final(self).pos())) && old(self).pos() < final(self).pos(),
                Err(pe) => sp_break(old(self).toks(), old(self).pos()) == Err::<
                    (SpecStmt, int),
                    SpecParseError,
                >(pe@),
            },
        decreases self.toks().len() - self.pos(), 24int,
    {
        self.consume(TokenType::Semicolon, ParseWhat::SemiAfterBreak)?;
        Ok(Stmt::Break)
    }

    fn expression_statement(&mut self) -> (r: Result<Stmt, ParseError>)
        requires
            old(self).wf(),
        ensures
            final(self).wf(),
            final(self).toks() == old(self).toks(),
            match r {
                Ok(s) => sp_expr_statement(old(self).toks(), old(self).pos()) == Ok::<
                    (SpecStmt, int),
                    SpecParseError,
                >((s@, final(self).pos())) && old(self).pos() < final(self).pos(),
                Err(pe) => sp_expr_statement(old(self).toks(), old(self).pos()) == Err::<
                    (SpecStmt, int),
                    SpecParseError,
                >(pe@),
            },
        decreases self.toks().len() - self.pos(), 20int,
    {
        let e = self.expression()?;
        self.consume(TokenType::Semicolon, ParseWhat::SemiAfterExpr)?;
        Ok(Stmt::Expression(e))
    }

    fn statement(&mut self) -> (r: Result<Stmt, ParseError>)
        requires
            old(self).wf(),
        ensures
            final(self).wf(),
            final(self).toks() == old(self).toks(),
            match r {
                Ok(s) => sp_statement(old(self).toks(), old(self).pos()) == Ok::<
                    (SpecStmt, int),
                    SpecParseError,
                >((s@, final(self).pos())) && old(self).pos() < final(self).pos(),
                Err(pe) => sp_statement(old(self).toks(), old(self).pos()) == Err::<
                    (SpecStmt, int),
                    SpecParseError,
                >(pe@),
            },
        decreases self.toks().len() - self.pos(), 25int,
    {
        if self.match_token(TokenType::Yap) {
            self.print_statement()
        } else if self.match_token(TokenType::Yo) {
            self.if_statement()
        } else if self.match_token(TokenType::Goon) {
            self.loop_statement()
        } else if self.match_token(TokenType::Sybau) {
            self.break_statement()
        } else {
            self.expression_statement()
        }
    }

    fn declaration(&mut self) -> (r: Result<Stmt, ParseError>)
        requires
            old(self).wf(),
        ensures
            final(self).wf(),
            final(self).toks() == old(self).toks(),
            match r {
                Ok(s) => sp_declaration(old(self).toks(), old(self).pos()) == Ok::<
                    (SpecStmt, int),
                    SpecParseError,
                >((s@, final(self).pos())) && old(self).pos() < final(self).pos(),
                Err(pe) => sp_declaration(old(self).toks(), old(self).pos()) == Err::<
                    (SpecStmt, int),
                    SpecParseError,
                >(pe@),
            },
        decreases self.toks().len() - self.pos(), 30int,
    {
        if self.match_token(TokenType::Ts) {
            self.var_declaration()
        } else if self.match_token(TokenType::Hawk) {
            self.function_declaration()
        } else {
            self.statement()
        }
    }

    /// The full statement sequence of the program, or the first parse
    /// error; exactly the mathematical parser's answer.
    #[verifier::spinoff_prover]
    #[verifier::rlimit(60)]
    pub fn parse(&mut self) -> (r: Result<Vec<Stmt>, ParseError>)
        requires
            old(self).wf(),
        ensures
            final(self).wf(),
            final(self).toks() == old(self).toks(),
            match r {
                Ok(ss) => sp_program(old(self).toks(), old(self).pos()) == Ok::<
                    Seq<SpecStmt>,
                    SpecParseError,
                >(stmts_view(ss@)),
                Err(pe) => sp_program(old(self).toks(), old(self).pos()) == Err::<
                    Seq<SpecStmt>,
                    SpecParseError,
                >(pe@),
            },
    {
        let ghost toks = self.toks();
        let ghost p0 = self.pos();
        let mut statements: Vec<Stmt> = Vec::new();
        proof {
            let x = sp_program(toks, p0);
            if x is Ok {
                assert(stmts_view(statements@) + x->Ok_0 =~= x->Ok_0);
            }
        }
        loop
            invariant
                self.wf(),
                self.toks() == toks,
                sp_program(toks, p0) == (match sp_program(toks, self.pos()) {
                    Ok(rest) => Ok::<Seq<SpecStmt>, SpecParseError>(stmts_view(statements@) + rest),
                    Err(e) => Err::<Seq<SpecStmt>, SpecParseError>(e),
                }),
            decreases toks.len() - self.pos(),
        {
            if self.peek_kind() == TokenType::EOF {
                proof {
                    assert(stmts_view(statements@) + Seq::<SpecStmt>::empty() =~= stmts_view(
                        statements@,
                    ));
                }
                return Ok(statements);
            }
            let s = self.declaration()?;
            proof {
                let sv = stmts_view(statements@);
                assert(stmts_view(statements@.push(s)) =~= sv.push(s@)) by {
                    assert(statements@.push(s).drop_last() =~= statements@);
                };
                let x = sp_program(toks, self.pos());
                if x is Ok {
                    assert(sv.push(s@) + x->Ok_0 =~= sv + (seq![s@] + x->Ok_0));
                }
            }
            statements.push(s);
        }
    }
}

} // verus!
