//! Code generation: a total, structural lowering of expressions, statements and
//! programs to instruction sequences.

use crate::ast::ast::{BinOp, Expr, ExprView, Program, Stmt, StmtView};
use crate::vm::Instruction;
use vstd::prelude::*;

verus! {

/// The code of an expression: operands first, left before right, then the operator.
/// A name stands for the constant 0, since no binding reaches code generation, and an
/// operator other than `Add` has no code at all, its operands included.
pub open spec fn expr_code(expr: ExprView) -> Seq<Instruction>
    decreases expr,
{
    match expr {
        ExprView::Int(n) => seq![Instruction::Push(n)],
        ExprView::Var(_) => seq![Instruction::Push(0)],
        ExprView::BinOp(lhs, BinOp::Add, rhs) => expr_code(*lhs) + expr_code(*rhs)
            + seq![Instruction::Add],
        ExprView::BinOp(_, _, _) => Seq::empty(),
    }
}

/// The code of a statement: the code of its expression, followed by `Print` where
/// the statement prints. A binding leaves its value on the stack and keeps no name.
pub open spec fn stmt_code(stmt: StmtView) -> Seq<Instruction> {
    match stmt {
        StmtView::Let(_, expr) => expr_code(expr),
        StmtView::Print(expr) => expr_code(expr) + seq![Instruction::Print],
        StmtView::ExprStmt(expr) => expr_code(expr),
    }
}

/// The code of a program: the code of its statements, one after the other.
pub open spec fn program_code(stmts: Seq<StmtView>) -> Seq<Instruction>
    decreases stmts.len(),
{
    if stmts.len() == 0 {
        Seq::empty()
    } else {
        program_code(stmts.drop_last()) + stmt_code(stmts.last())
    }
}

/// Lowers an expression.
pub fn expr_to_instructions(expr: &Expr) -> (code: Vec<Instruction>)
    ensures
        code@ == expr_code(expr@),
    decreases expr,
{
    match expr {
        Expr::Int(n) => vec![Instruction::Push(*n)],
        Expr::Var(_) => vec![Instruction::Push(0)],
        Expr::BinOp(lhs, BinOp::Add, rhs) => {
            let mut code = expr_to_instructions(lhs);
            let mut operand = expr_to_instructions(rhs);
            code.append(&mut operand);
            code.push(Instruction::Add);
            code
        },
        _ => Vec::new(),
    }
}

/// Lowers a statement.
pub fn stmt_to_instructions(stmt: &Stmt) -> (code: Vec<Instruction>)
    ensures
        code@ == stmt_code(stmt@),
{
    match stmt {
        Stmt::Let(_name, expr) => expr_to_instructions(expr),
        Stmt::Print(expr) => {
            let mut code = expr_to_instructions(expr);
            code.push(Instruction::Print);
            code
        },
        Stmt::ExprStmt(expr) => expr_to_instructions(expr),
    }
}

/// Lowers a program.
pub fn program_to_instructions(prog: &Program) -> (code: Vec<Instruction>)
    ensures
        code@ == program_code(prog@),
{
    let mut code: Vec<Instruction> = Vec::new();
    let mut i: usize = 0;
    while i < prog.0.len()
        invariant
            i <= prog.0.len(),
            code@ == program_code(prog@.take(i as int)),
        decreases prog.0.len() - i,
    {
        let mut next = stmt_to_instructions(&prog.0[i]);
        proof {
            assert(prog@.take(i + 1).drop_last() =~= prog@.take(i as int));
        }
        code.append(&mut next);
        i += 1;
    }
    proof {
        assert(prog@.take(i as int) =~= prog@);
    }
    code
}

/// Compiling is repeatable. Whatever [`program_to_instructions`] returns for two
/// programs that stand for the same statements, or for one program on two occasions,
/// the instructions are the same.
pub proof fn lemma_program_to_instructions_repeatable(
    one: &Program,
    other: &Program,
    first: Vec<Instruction>,
    second: Vec<Instruction>,
)
    requires
        one@ == other@,
        call_ensures(program_to_instructions, (one,), first),
        call_ensures(program_to_instructions, (other,), second),
    ensures
        first@ == second@,
{
}

} // verus!
