//! Expressions, statements and programs, each with the mathematical value that
//! contracts speak of.

use vstd::prelude::*;

verus! {

/// A binary operator.
#[derive(Debug, Clone, PartialEq, Copy)]
pub enum BinOp {
    Add,
    Sub,
    Mul,
    Div,
}

/// An expression.
#[derive(Debug, PartialEq)]
pub enum Expr {
    /// An integer constant.
    Int(i32),
    /// A reference to a name.
    Var(String),
    /// Two operands joined by an operator.
    BinOp(Box<Expr>, BinOp, Box<Expr>),
}

/// A statement.
#[derive(Debug, PartialEq)]
pub enum Stmt {
    /// Binds a name to the value of an expression.
    Let(String, Expr),
    /// Evaluates an expression and emits the stack.
    Print(Expr),
    /// Evaluates an expression.
    ExprStmt(Expr),
}

/// A program: its statements in source order.
#[derive(Debug, PartialEq)]
pub struct Program(pub Vec<Stmt>);

/// What an [`Expr`] stands for: the same tree, with names as character sequences.
pub ghost enum ExprView {
    Int(i32),
    Var(Seq<char>),
    BinOp(Box<ExprView>, BinOp, Box<ExprView>),
}

/// What a [`Stmt`] stands for.
pub ghost enum StmtView {
    Let(Seq<char>, ExprView),
    Print(ExprView),
    ExprStmt(ExprView),
}

impl View for Expr {
    type V = ExprView;

    open spec fn view(&self) -> ExprView
        decreases self,
    {
        match self {
            Expr::Int(n) => ExprView::Int(*n),
            Expr::Var(name) => ExprView::Var(name@),
            Expr::BinOp(lhs, op, rhs) => ExprView::BinOp(
                Box::new((**lhs).view()),
                *op,
                Box::new((**rhs).view()),
            ),
        }
    }
}

impl View for Stmt {
    type V = StmtView;

    open spec fn view(&self) -> StmtView {
        match self {
            Stmt::Let(name, expr) => StmtView::Let(name@, expr@),
            Stmt::Print(expr) => StmtView::Print(expr@),
            Stmt::ExprStmt(expr) => StmtView::ExprStmt(expr@),
        }
    }
}

/// What each of `stmts` stands for.
pub open spec fn stmt_views(stmts: Seq<Stmt>) -> Seq<StmtView> {
    stmts.map_values(|stmt: Stmt| stmt@)
}

impl View for Program {
    type V = Seq<StmtView>;

    open spec fn view(&self) -> Seq<StmtView> {
        stmt_views(self.0@)
    }
}

impl Clone for Expr {
    /// A copy that stands for the same tree.
    fn clone(&self) -> (copy: Self)
        ensures
            copy@ == self@,
        decreases self,
    {
        match self {
            Expr::Int(n) => Expr::Int(*n),
            Expr::Var(name) => Expr::Var(name.clone()),
            Expr::BinOp(lhs, op, rhs) => Expr::BinOp(
                Box::new((&**lhs).clone()),
                *op,
                Box::new((&**rhs).clone()),
            ),
        }
    }
}

impl Clone for Stmt {
    /// A copy that stands for the same statement.
    fn clone(&self) -> (copy: Self)
        ensures
            copy@ == self@,
    {
        match self {
            Stmt::Let(name, expr) => Stmt::Let(name.clone(), expr.clone()),
            Stmt::Print(expr) => Stmt::Print(expr.clone()),
            Stmt::ExprStmt(expr) => Stmt::ExprStmt(expr.clone()),
        }
    }
}

impl Clone for Program {
    /// A copy that stands for the same program.
    fn clone(&self) -> (copy: Self)
        ensures
            copy@ == self@,
    {
        let mut stmts: Vec<Stmt> = Vec::new();
        let mut i: usize = 0;
        while i < self.0.len()
            invariant
                i <= self.0.len(),
                stmt_views(stmts@) == self@.take(i as int),
            decreases self.0.len() - i,
        {
            let stmt = self.0[i].clone();
            proof {
                assert(self@.take(i + 1) =~= self@.take(i as int).push(self@[i as int]));
            }
            stmts.push(stmt);
            i += 1;
        }
        Program(stmts)
    }
}

} // verus!
