//! What programs mean, and that the compiled code computes it: running the code of an
//! expression pushes the expression's value, and running the code of a program leaves
//! one value for each statement and emits the stack at each printing statement.

use crate::ast::ast::{BinOp, ExprView, StmtView};
use crate::codegen::codegen::{expr_code, program_code, stmt_code};
use crate::parser::parser::{expr_of, program_of, source_code, stmt_of, stmts_of};
use crate::text::{
    fields, first_index, lemma_first_index_is_first, lemma_trimmed_len, text_lines, trimmed,
    without_prefix,
};
use crate::vm::{run_output, run_stack, step_stack, wrapping_sum, Instruction};
use vstd::prelude::*;

verus! {

/// Whether `expr` is built from constants, names and sums alone.
pub open spec fn only_adds(expr: ExprView) -> bool
    decreases expr,
{
    match expr {
        ExprView::Int(_) => true,
        ExprView::Var(_) => true,
        ExprView::BinOp(lhs, op, rhs) => op == BinOp::Add && only_adds(*lhs) && only_adds(*rhs),
    }
}

/// The value of an expression: a constant is itself, a name is 0, and a sum is the
/// two's-complement sum of its operands.
pub open spec fn value_of(expr: ExprView) -> i32
    decreases expr,
{
    match expr {
        ExprView::Int(n) => n,
        ExprView::Var(_) => 0,
        ExprView::BinOp(lhs, _, rhs) => wrapping_sum(value_of(*lhs), value_of(*rhs)),
    }
}

/// The sum of the constants that occur in an expression, as an integer.
pub open spec fn plain_sum(expr: ExprView) -> int
    decreases expr,
{
    match expr {
        ExprView::Int(n) => n as int,
        ExprView::Var(_) => 0,
        ExprView::BinOp(lhs, _, rhs) => plain_sum(*lhs) + plain_sum(*rhs),
    }
}

/// Whether every sum within an expression, and the expression itself, stays within
/// 32 bits.
pub open spec fn sums_fit(expr: ExprView) -> bool
    decreases expr,
{
    match expr {
        ExprView::Int(_) => true,
        ExprView::Var(_) => true,
        ExprView::BinOp(lhs, _, rhs) => sums_fit(*lhs) && sums_fit(*rhs) && i32::MIN <= plain_sum(
            expr,
        ) <= i32::MAX,
    }
}

/// The expression of a statement.
pub open spec fn stmt_expr(stmt: StmtView) -> ExprView {
    match stmt {
        StmtView::Let(_, expr) => expr,
        StmtView::Print(expr) => expr,
        StmtView::ExprStmt(expr) => expr,
    }
}

/// Whether every statement's expression is built from constants, names and sums alone.
pub open spec fn program_only_adds(stmts: Seq<StmtView>) -> bool {
    forall|i: int| 0 <= i < stmts.len() ==> only_adds(stmt_expr(#[trigger] stmts[i]))
}

/// The value of each statement's expression, in order.
pub open spec fn stmt_values(stmts: Seq<StmtView>) -> Seq<i32> {
    stmts.map_values(|stmt: StmtView| value_of(stmt_expr(stmt)))
}

/// What a program emits when it starts on `stack`: at each printing statement, `stack`
/// followed by the values of all statements up to and including that one.
pub open spec fn printed_stacks(stack: Seq<i32>, stmts: Seq<StmtView>) -> Seq<Seq<i32>>
    decreases stmts.len(),
{
    if stmts.len() == 0 {
        Seq::empty()
    } else {
        let before = printed_stacks(stack, stmts.drop_last());
        if stmts.last() is Print {
            before.push(stack + stmt_values(stmts))
        } else {
            before
        }
    }
}

/// Running one sequence of instructions after another is running the two in a row.
pub proof fn lemma_run_concat(stack: Seq<i32>, first: Seq<Instruction>, second: Seq<Instruction>)
    ensures
        run_stack(stack, first + second) == run_stack(run_stack(stack, first), second),
        run_output(stack, first + second) == run_output(stack, first) + run_output(
            run_stack(stack, first),
            second,
        ),
    decreases second.len(),
{
    if second.len() > 0 {
        assert((first + second).drop_last() =~= first + second.drop_last());
        lemma_run_concat(stack, first, second.drop_last());
    }
}

/// Running a single instruction is one step of the machine, and emits the stack if
/// the instruction is `Print`.
pub proof fn lemma_run_one(stack: Seq<i32>, instr: Instruction)
    ensures
        run_stack(stack, seq![instr]) == step_stack(stack, instr),
        run_output(stack, seq![instr]) == if instr is Print {
            seq![stack]
        } else {
            Seq::<Seq<i32>>::empty()
        },
{
    let none = seq![instr].drop_last();
    assert(run_stack(stack, none) == stack);
    assert(run_output(stack, none) =~= Seq::<Seq<i32>>::empty());
}

/// Running the code of an expression built from constants, names and sums pushes the
/// expression's value on the stack, whatever the stack holds, and emits nothing.
pub proof fn lemma_expr_code_pushes_value(expr: ExprView, stack: Seq<i32>)
    requires
        only_adds(expr),
    ensures
        run_stack(stack, expr_code(expr)) == stack.push(value_of(expr)),
        run_output(stack, expr_code(expr)) == Seq::<Seq<i32>>::empty(),
    decreases expr,
{
    match expr {
        ExprView::Int(n) => {
            lemma_run_one(stack, Instruction::Push(n));
        },
        ExprView::Var(_) => {
            lemma_run_one(stack, Instruction::Push(0));
        },
        ExprView::BinOp(lhs, _, rhs) => {
            let left = expr_code(*lhs);
            let right = expr_code(*rhs);
            let with_left = stack.push(value_of(*lhs));
            let with_both = with_left.push(value_of(*rhs));
            lemma_expr_code_pushes_value(*lhs, stack);
            lemma_expr_code_pushes_value(*rhs, with_left);
            lemma_run_concat(stack, left, right);
            lemma_run_concat(stack, left + right, seq![Instruction::Add]);
            lemma_run_one(with_both, Instruction::Add);
        },
    }
}

/// Where no sum leaves the range of 32 bits, the value of an expression is the plain
/// integer sum of its constants.
pub proof fn lemma_value_is_plain_sum(expr: ExprView)
    requires
        sums_fit(expr),
    ensures
        value_of(expr) == plain_sum(expr),
    decreases expr,
{
    match expr {
        ExprView::Int(_) => {},
        ExprView::Var(_) => {},
        ExprView::BinOp(lhs, _, rhs) => {
            lemma_value_is_plain_sum(*lhs);
            lemma_value_is_plain_sum(*rhs);
        },
    }
}

/// Running the code of a statement pushes the value of its expression; a printing
/// statement then emits the stack, the new value included, and leaves it there.
pub proof fn lemma_stmt_code_runs(stmt: StmtView, stack: Seq<i32>)
    requires
        only_adds(stmt_expr(stmt)),
    ensures
        run_stack(stack, stmt_code(stmt)) == stack.push(value_of(stmt_expr(stmt))),
        run_output(stack, stmt_code(stmt)) == if stmt is Print {
            seq![stack.push(value_of(stmt_expr(stmt)))]
        } else {
            Seq::<Seq<i32>>::empty()
        },
{
    let expr = stmt_expr(stmt);
    lemma_expr_code_pushes_value(expr, stack);
    if stmt is Print {
        lemma_run_concat(stack, expr_code(expr), seq![Instruction::Print]);
        lemma_run_one(stack.push(value_of(expr)), Instruction::Print);
    }
}

/// Compiling a program and running the code on `stack` leaves `stack` followed by the
/// value of each statement, in source order, and emits that stack as it stood after
/// each printing statement.
pub proof fn lemma_program_code_runs(stmts: Seq<StmtView>, stack: Seq<i32>)
    requires
        program_only_adds(stmts),
    ensures
        run_stack(stack, program_code(stmts)) == stack + stmt_values(stmts),
        run_output(stack, program_code(stmts)) == printed_stacks(stack, stmts),
    decreases stmts.len(),
{
    if stmts.len() > 0 {
        let init = stmts.drop_last();
        let last = stmts.last();
        assert forall|i: int| 0 <= i < init.len() implies only_adds(
            stmt_expr(#[trigger] init[i]),
        ) by {
            assert(init[i] == stmts[i]);
        }
        lemma_program_code_runs(init, stack);
        lemma_stmt_code_runs(last, stack + stmt_values(init));
        lemma_run_concat(stack, program_code(init), stmt_code(last));
    }
}

/// The parser builds expressions from constants, names and sums alone.
pub proof fn lemma_parsed_expr_only_adds(text: Seq<char>)
    ensures
        expr_of(text) matches Some(expr) ==> only_adds(expr),
    decreases text.len(),
{
    let t = trimmed(text);
    lemma_trimmed_len(text);
    lemma_first_index_is_first(t, '+');
    if let Some(pos) = first_index(t, '+') {
        lemma_parsed_expr_only_adds(t.subrange(0, pos));
        lemma_parsed_expr_only_adds(t.subrange(pos + 1, t.len() as int));
    }
}

/// Every statement that the parser builds has such an expression.
pub proof fn lemma_parsed_stmt_only_adds(line: Seq<char>)
    ensures
        stmt_of(line) matches Some(stmt) ==> only_adds(stmt_expr(stmt)),
{
    let t = trimmed(line);
    if t == "let"@ {
    } else if let Some(rest) = without_prefix(t, "let "@) {
        lemma_parsed_expr_only_adds(fields(rest, '=')[1]);
    } else if let Some(rest) = without_prefix(t, "print "@) {
        lemma_parsed_expr_only_adds(rest);
    } else if let Some(rest) = without_prefix(t, "logShow "@) {
        lemma_parsed_expr_only_adds(rest);
    } else {
        lemma_parsed_expr_only_adds(t);
    }
}

/// Every program that the parser builds is made of such statements.
pub proof fn lemma_parsed_program_only_adds(lines: Seq<Seq<char>>)
    ensures
        stmts_of(lines) matches Some(stmts) ==> program_only_adds(stmts),
    decreases lines.len(),
{
    if lines.len() > 0 {
        lemma_parsed_program_only_adds(lines.drop_last());
        lemma_parsed_stmt_only_adds(lines.last());
    }
}

/// Parsing a source text, compiling it and running the code on `stack` leaves `stack`
/// followed by the value of each statement of the text, and emits that stack as it
/// stood after each `print` or `logShow`.
pub proof fn lemma_source_runs(source: Seq<char>, stack: Seq<i32>)
    requires
        program_of(source).is_some(),
    ensures
        run_stack(stack, source_code(source)) == stack + stmt_values(program_of(source).unwrap()),
        run_output(stack, source_code(source)) == printed_stacks(
            stack,
            program_of(source).unwrap(),
        ),
{
    lemma_parsed_program_only_adds(text_lines(source));
    lemma_program_code_runs(program_of(source).unwrap(), stack);
}

/// A text without any character is a program without any statement; it compiles to
/// no instruction, and running that leaves the stack as it was and emits nothing.
pub proof fn lemma_empty_source(stack: Seq<i32>)
    ensures
        program_of(Seq::<char>::empty()) == Some(Seq::<StmtView>::empty()),
        source_code(Seq::<char>::empty()) == Seq::<Instruction>::empty(),
        run_stack(stack, source_code(Seq::<char>::empty())) == stack,
        run_output(stack, source_code(Seq::<char>::empty())) == Seq::<Seq<i32>>::empty(),
{
    let source = Seq::<char>::empty();
    lemma_first_index_is_first(source, '\n');
}

} // verus!
