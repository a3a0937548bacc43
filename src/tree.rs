use vstd::prelude::*;
use crate::model::{Position, Range};

verus! {

/// An expression of the instrumented language, each node with its source range.
pub enum Expr {
    Ident(Range, String),
    Num(Range, u64),
    Paren(Range, Box<Expr>),
    /// `test ? cons : alt`.
    Cond(Range, Box<Expr>, Box<Expr>, Box<Expr>),
    /// `left && right`, `left || right` or `left ?? right`.
    Logical(Range, LogicalOp, Box<Expr>, Box<Expr>),
    /// A function whose body is an expression: `name` and the body.
    Fn(Range, Option<String>, Box<Expr>),
    /// `(cov.b[branch][arm]++, expr)`: counts the arm, then yields `expr`.
    BranchHit(usize, usize, Box<Expr>),
    /// `(cov.f[id]++, body)`: counts a call of function `id`, then yields `body`.
    FunctionHit(usize, Box<Expr>),
}

/// A short-circuit operator.
#[derive(Clone, Copy, Debug, PartialEq, Eq, Structural)]
pub enum LogicalOp {
    And,
    Or,
    Nullish,
}

/// A statement of the instrumented language.
pub enum Stmt {
    /// An expression statement.
    Expr(Range, Expr),
    /// `const name = init;`
    VarDecl(Range, String, Expr),
    /// `debugger;`
    Debugger(Range),
    /// `if (test) cons else alt`, where `alt` is absent for a lone `if`.
    If(Range, Expr, Box<Stmt>, Option<Box<Stmt>>),
    /// `{ cov.s[id]++; stmt }`: a counted statement standing as an arm.
    Counted(usize, Box<Stmt>),
    /// `{ cov.b[branch][arm]++; stmt }`: an arm of an `if` that counts itself.
    CountedArm(usize, usize, Box<Stmt>),
    /// `cov.b[branch][arm]++;`: the arm that instrumentation gives an `if`
    /// without `else`.
    BranchArmHit(usize, usize),
    /// `cov.s[id]++;`
    StatementHit(usize),
    /// The declaration of the file's coverage accessor: on its first call it
    /// builds the coverage object for `path`, marked with the magic key and
    /// value, on the global scope, and every call returns that one object.
    CoverageAccessor { accessor: String, path: String, magic_key: String, magic_value: String },
    /// `accessor();`
    AccessorCall(String),
}

/// A file: its range and its top-level statements.
pub struct Program {
    pub range: Range,
    pub body: Vec<Stmt>,
}

/// The source range of an expression; a counter wrapper has its operand's.
pub open spec fn expr_range(e: Expr) -> Range
    decreases e,
{
    match e {
        Expr::Ident(r, _) => r,
        Expr::Num(r, _) => r,
        Expr::Paren(r, _) => r,
        Expr::Cond(r, _, _, _) => r,
        Expr::Logical(r, _, _, _) => r,
        Expr::Fn(r, _, _) => r,
        Expr::BranchHit(_, _, x) => expr_range(*x),
        Expr::FunctionHit(_, x) => expr_range(*x),
    }
}

/// The source range of an expression.
pub fn range_of_expr(e: &Expr) -> (r: Range)
    ensures
        r == expr_range(*e),
    decreases e,
{
    match e {
        Expr::Ident(r, _) => *r,
        Expr::Num(r, _) => *r,
        Expr::Paren(r, _) => *r,
        Expr::Cond(r, _, _, _) => *r,
        Expr::Logical(r, _, _, _) => *r,
        Expr::Fn(r, _, _) => *r,
        Expr::BranchHit(_, _, x) => range_of_expr(x),
        Expr::FunctionHit(_, x) => range_of_expr(x),
    }
}

/// The number of conditional and short-circuit expressions in `e`.
pub open spec fn branch_count(e: Expr) -> nat
    decreases e,
{
    match e {
        Expr::Paren(_, x) => branch_count(*x),
        Expr::Cond(_, t, c, a) => 1 + branch_count(*t) + branch_count(*c) + branch_count(*a),
        Expr::Logical(_, _, l, r) => 1 + branch_count(*l) + branch_count(*r),
        Expr::Fn(_, _, x) => branch_count(*x),
        Expr::BranchHit(_, _, x) => branch_count(*x),
        Expr::FunctionHit(_, x) => branch_count(*x),
        _ => 0,
    }
}

/// The number of functions in `e`.
pub open spec fn fn_count(e: Expr) -> nat
    decreases e,
{
    match e {
        Expr::Paren(_, x) => fn_count(*x),
        Expr::Cond(_, t, c, a) => fn_count(*t) + fn_count(*c) + fn_count(*a),
        Expr::Logical(_, _, l, r) => fn_count(*l) + fn_count(*r),
        Expr::Fn(_, _, x) => 1 + fn_count(*x),
        Expr::BranchHit(_, _, x) => fn_count(*x),
        Expr::FunctionHit(_, x) => fn_count(*x),
        _ => 0,
    }
}

/// The empty range at the origin, which nodes made by instrumentation have.
pub open spec fn no_range() -> Range {
    Range { start: Position { line: 0, column: 0 }, end: Position { line: 0, column: 0 } }
}

/// The source range of a statement; nodes made by instrumentation have the
/// empty range at the origin.
pub open spec fn stmt_range(s: Stmt) -> Range {
    match s {
        Stmt::Expr(r, _) => r,
        Stmt::VarDecl(r, _, _) => r,
        Stmt::Debugger(r) => r,
        Stmt::If(r, _, _, _) => r,
        _ => no_range(),
    }
}

/// The source range of a statement.
pub fn range_of_stmt(s: &Stmt) -> (r: Range)
    ensures
        r == stmt_range(*s),
{
    match s {
        Stmt::Expr(r, _) => *r,
        Stmt::VarDecl(r, _, _) => *r,
        Stmt::Debugger(r) => *r,
        Stmt::If(r, _, _, _) => *r,
        _ => Range { start: Position { line: 0, column: 0 }, end: Position { line: 0, column: 0 } },
    }
}

} // verus!
