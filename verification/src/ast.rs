//! Abstract syntax trees: expressions and statements.
//!
//! Each node type has a mathematical image (`SpecExpr`, `SpecStmt`) over
//! sequences, which the parser's and evaluator's contracts speak of.
use vstd::prelude::*;
use crate::token::{Token, SpecToken, Literal, SpecLiteral, tokens_view};

verus! {

#[derive(Debug)]
pub enum Expr {
    /// Arithmetic, comparison, equality, and assignment (the operator
    /// token distinguishes them).
    Binary(Box<Expr>, Token, Box<Expr>),
    Grouping(Box<Expr>),
    Literal(Literal),
    Variable(Token),
    /// Named array literal with positional elements.
    Array(Token, Vec<Expr>),
    /// Call of a callee expression on argument expressions; the token is
    /// the closing parenthesis, kept for error reporting.
    Call(Box<Expr>, Token, Vec<Expr>),
    /// The read-input expression.
    Input,
}

pub enum SpecExpr {
    Binary(Box<SpecExpr>, SpecToken, Box<SpecExpr>),
    Grouping(Box<SpecExpr>),
    Literal(SpecLiteral),
    Variable(SpecToken),
    Array(SpecToken, Seq<SpecExpr>),
    Call(Box<SpecExpr>, SpecToken, Seq<SpecExpr>),
    Input,
}

pub open spec fn expr_view(e: Expr) -> SpecExpr
    decreases e,
{
    match e {
        Expr::Binary(l, op, r) => SpecExpr::Binary(
            Box::new(expr_view(*l)),
            op@,
            Box::new(expr_view(*r)),
        ),
        Expr::Grouping(inner) => SpecExpr::Grouping(Box::new(expr_view(*inner))),
        Expr::Literal(l) => SpecExpr::Literal(l@),
        Expr::Variable(t) => SpecExpr::Variable(t@),
        Expr::Array(name, es) => SpecExpr::Array(name@, exprs_view(es@)),
        Expr::Call(c, paren, args) => SpecExpr::Call(
            Box::new(expr_view(*c)),
            paren@,
            exprs_view(args@),
        ),
        Expr::Input => SpecExpr::Input,
    }
}

pub open spec fn exprs_view(es: Seq<Expr>) -> Seq<SpecExpr>
    decreases es,
{
    if es.len() == 0 {
        Seq::empty()
    } else {
        exprs_view(es.drop_last()).push(expr_view(es.last()))
    }
}

impl View for Expr {
    type V = SpecExpr;

    open spec fn view(&self) -> SpecExpr {
        expr_view(*self)
    }
}

pub open spec fn opt_expr_view(e: Option<Expr>) -> Option<SpecExpr> {
    match e {
        Some(x) => Some(expr_view(x)),
        None => None,
    }
}

pub proof fn lemma_exprs_view(es: Seq<Expr>)
    ensures
        exprs_view(es).len() == es.len(),
        forall|i: int| 0 <= i < es.len() ==> exprs_view(es)[i] == expr_view(#[trigger] es[i]),
    decreases es,
{
    if es.len() > 0 {
        lemma_exprs_view(es.drop_last());
        assert forall|i: int| 0 <= i < es.len() implies exprs_view(es)[i] == expr_view(
            #[trigger] es[i],
        ) by {
            if i < es.len() - 1 {
                assert(es.drop_last()[i] == es[i]);
                assert(exprs_view(es.drop_last())[i] == expr_view(es.drop_last()[i]));
            }
        }
    }
}

pub proof fn lemma_exprs_view_concat(a: Seq<Expr>, b: Seq<Expr>)
    ensures
        exprs_view(a + b) == exprs_view(a) + exprs_view(b),
    decreases b,
{
    if b.len() == 0 {
        assert(a + b =~= a);
        assert(exprs_view(a) + exprs_view(b) =~= exprs_view(a));
    } else {
        lemma_exprs_view_concat(a, b.drop_last());
        assert((a + b).drop_last() =~= a + b.drop_last());
        assert((a + b).last() == b.last());
        assert(exprs_view(a + b) =~= exprs_view(a) + exprs_view(b));
    }
}

#[derive(Debug)]
pub enum Stmt {
    Expression(Expr),
    Print(Expr),
    /// Variable declaration with optional initializer.
    Var(Token, Option<Expr>),
    If(Expr, Box<Stmt>, Option<Box<Stmt>>),
    /// Loop with optional iteration-count expression.
    Loop(Option<Expr>, Vec<Stmt>),
    Break,
    /// Function declaration: name, parameters, single body expression.
    Function(Token, Vec<Token>, Expr),
}

pub enum SpecStmt {
    Expression(SpecExpr),
    Print(SpecExpr),
    Var(SpecToken, Option<SpecExpr>),
    If(SpecExpr, Box<SpecStmt>, Option<Box<SpecStmt>>),
    Loop(Option<SpecExpr>, Seq<SpecStmt>),
    Break,
    Function(SpecToken, Seq<SpecToken>, SpecExpr),
}

pub open spec fn stmt_view(s: Stmt) -> SpecStmt
    decreases s,
{
    match s {
        Stmt::Expression(e) => SpecStmt::Expression(expr_view(e)),
        Stmt::Print(e) => SpecStmt::Print(expr_view(e)),
        Stmt::Var(name, init) => SpecStmt::Var(name@, opt_expr_view(init)),
        Stmt::If(c, t, e) => SpecStmt::If(
            expr_view(c),
            Box::new(stmt_view(*t)),
            match e {
                Some(b) => Some(Box::new(stmt_view(*b))),
                None => None,
            },
        ),
        Stmt::Loop(count, body) => SpecStmt::Loop(opt_expr_view(count), stmts_view(body@)),
        Stmt::Break => SpecStmt::Break,
        Stmt::Function(name, params, body) => SpecStmt::Function(
            name@,
            tokens_view(params@),
            expr_view(body),
        ),
    }
}

pub open spec fn stmts_view(ss: Seq<Stmt>) -> Seq<SpecStmt>
    decreases ss,
{
    if ss.len() == 0 {
        Seq::empty()
    } else {
        stmts_view(ss.drop_last()).push(stmt_view(ss.last()))
    }
}

impl View for Stmt {
    type V = SpecStmt;

    open spec fn view(&self) -> SpecStmt {
        stmt_view(*self)
    }
}

pub proof fn lemma_stmts_view(ss: Seq<Stmt>)
    ensures
        stmts_view(ss).len() == ss.len(),
        forall|i: int| 0 <= i < ss.len() ==> stmts_view(ss)[i] == stmt_view(#[trigger] ss[i]),
    decreases ss,
{
    if ss.len() > 0 {
        lemma_stmts_view(ss.drop_last());
        assert forall|i: int| 0 <= i < ss.len() implies stmts_view(ss)[i] == stmt_view(
            #[trigger] ss[i],
        ) by {
            if i < ss.len() - 1 {
                assert(ss.drop_last()[i] == ss[i]);
                assert(stmts_view(ss.drop_last())[i] == stmt_view(ss.drop_last()[i]));
            }
        }
    }
}

proof fn lemma_exprs_view_pointwise(a: Seq<Expr>, b: Seq<Expr>)
    requires
        a.len() == b.len(),
        forall|i: int| 0 <= i < a.len() ==> expr_view(#[trigger] a[i]) == expr_view(b[i]),
    ensures
        exprs_view(a) == exprs_view(b),
    decreases a,
{
    if a.len() == 0 {
        assert(exprs_view(a) =~= exprs_view(b));
    } else {
        lemma_exprs_view_pointwise(a.drop_last(), b.drop_last());
        assert(exprs_view(a) =~= exprs_view(b));
    }
}

impl Clone for Expr {
    /// A structural copy: the image is unchanged.
    fn clone(&self) -> (r: Self)
        ensures
            r@ == self@,
        decreases *self, 1int,
    {
        match self {
            Expr::Binary(l, op, r) => Expr::Binary(
                Box::new((**l).clone()),
                op.clone(),
                Box::new((**r).clone()),
            ),
            Expr::Grouping(inner) => Expr::Grouping(Box::new((**inner).clone())),
            Expr::Literal(l) => Expr::Literal(l.clone()),
            Expr::Variable(t) => Expr::Variable(t.clone()),
            Expr::Array(name, es) => {
                let name2 = name.clone();
                let es2 = clone_exprs(self, es);
                Expr::Array(name2, es2)
            },
            Expr::Call(c, paren, args) => {
                let c2 = Box::new((**c).clone());
                let paren2 = paren.clone();
                let args2 = clone_exprs(self, args);
                Expr::Call(c2, paren2, args2)
            },
            Expr::Input => Expr::Input,
        }
    }
}

/// Clones the element vector of an `Array` or `Call` node; `owner` is
/// the node itself, passed so termination can follow the tree.
fn clone_exprs(owner: &Expr, es: &Vec<Expr>) -> (r: Vec<Expr>)
    requires
        (owner matches Expr::Array(_, v) && v@ == es@) || (owner matches Expr::Call(_, _, v) && v@
            == es@),
    ensures
        r@.len() == es@.len(),
        exprs_view(r@) == exprs_view(es@),
        forall|i: int| 0 <= i < es@.len() ==> expr_view(#[trigger] r@[i]) == expr_view(es@[i]),
    decreases *owner, 0int,
{
    let mut out: Vec<Expr> = Vec::new();
    let n = es.len();
    let mut i: usize = 0;
    while i < n
        invariant
            i <= n,
            n == es@.len(),
            out@.len() == i as int,
            forall|j: int| 0 <= j < i ==> expr_view(#[trigger] out@[j]) == expr_view(es@[j]),
        decreases n - i,
    {
        proof {
            let ghost this = *owner;
            if this matches Expr::Array(_, _) {
                let ghost kids = this->Array_1;
                assert(this == Expr::Array(this->Array_0, kids));
                assert(decreases_to!(this => kids));
                assert(decreases_to!(kids => kids@));
                assert(decreases_to!(kids@ => kids@[i as int]));
            } else {
                let ghost kids = this->Call_2;
                assert(this == Expr::Call(this->Call_0, this->Call_1, kids));
                assert(decreases_to!(this => kids));
                assert(decreases_to!(kids => kids@));
                assert(decreases_to!(kids@ => kids@[i as int]));
            }
        }
        let c = es[i].clone();
        out.push(c);
        i = i + 1;
    }
    proof {
        lemma_exprs_view_pointwise(out@, es@);
    }
    out
}

} // verus!
