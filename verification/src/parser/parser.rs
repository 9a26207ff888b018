//! The parser that builds a syntax tree: expressions, statements, and whole programs.

use crate::ast::ast::{stmt_views, BinOp, Expr, ExprView, Program, Stmt, StmtView};
use crate::codegen::codegen::{program_code, program_to_instructions};
use crate::parser::ParserError;
use crate::text::{
    char_is_alphanumeric, chars_of, fields, find, first_index, i32_literal, is_alphanumeric,
    lemma_first_index_is_first, lemma_first_index_none, lemma_trimmed_is_subrange,
    lemma_trimmed_len, lines, parse_i32, split, str_eq, strip_prefix, text_lines, trim, trimmed,
    views, without_prefix,
};
use crate::vm::Instruction;
use vstd::prelude::*;
use vstd::string::StrSliceExecFns;

verus! {

/// Whether `s` can be a name: one or more characters, each a letter, a numeral or an
/// underscore.
pub open spec fn is_identifier(s: Seq<char>) -> bool {
    &&& s.len() > 0
    &&& forall|i: int| 0 <= i < s.len() ==> is_alphanumeric(#[trigger] s[i]) || s[i] == '_'
}

/// The expression that `text` writes, if it writes one.
///
/// White space around the text does not count. A text that holds a `+` is a sum: what
/// stands before the first `+` is its left operand and all that follows is its right
/// operand, so a chain of sums nests to the right. A text without `+` is an integer
/// constant if it writes a 32-bit integer in decimal, and else a name if it can be one.
pub open spec fn expr_of(text: Seq<char>) -> Option<ExprView>
    decreases text.len(),
{
    let t = trimmed(text);
    match first_index(t, '+') {
        Some(pos) => {
            proof {
                lemma_trimmed_len(text);
                lemma_first_index_is_first(t, '+');
            }
            match (expr_of(t.subrange(0, pos)), expr_of(t.subrange(pos + 1, t.len() as int))) {
                (Some(lhs), Some(rhs)) => Some(
                    ExprView::BinOp(Box::new(lhs), BinOp::Add, Box::new(rhs)),
                ),
                _ => None,
            }
        },
        None => match i32_literal(t) {
            Some(n) => Some(ExprView::Int(n)),
            None => if is_identifier(t) {
                Some(ExprView::Var(t))
            } else {
                None
            },
        },
    }
}

/// Whether `s` can be a name.
fn is_name(s: &str) -> (yes: bool)
    ensures
        yes == is_identifier(s@),
{
    let cs = chars_of(s);
    if cs.len() == 0 {
        return false;
    }
    let mut i: usize = 0;
    while i < cs.len()
        invariant
            i <= cs.len(),
            cs@ == s@,
            forall|j: int| 0 <= j < i ==> is_alphanumeric(#[trigger] cs@[j]) || cs@[j] == '_',
        decreases cs.len() - i,
    {
        let c = cs[i];
        if !(char_is_alphanumeric(c) || c == '_') {
            return false;
        }
        i += 1;
    }
    true
}

/// Parses an expression.
pub fn parse_expr(s: &str) -> (parsed: Option<Expr>)
    ensures
        match parsed {
            Some(expr) => expr_of(s@) == Some(expr@),
            None => expr_of(s@).is_none(),
        },
    decreases s@.len(),
{
    let t = trim(s);
    proof {
        lemma_trimmed_len(s@);
        lemma_first_index_is_first(t@, '+');
    }
    match find(t, '+') {
        Some(pos) => {
            let len = t.unicode_len();
            let left = t.substring_char(0, pos);
            let right = t.substring_char(pos + 1, len);
            match parse_expr(left) {
                Some(lhs) => match parse_expr(right) {
                    Some(rhs) => Some(Expr::BinOp(Box::new(lhs), BinOp::Add, Box::new(rhs))),
                    None => None,
                },
                None => None,
            }
        },
        None => match parse_i32(t) {
            Some(n) => Some(Expr::Int(n)),
            None => if is_name(t) {
                Some(Expr::Var(t.to_string()))
            } else {
                None
            },
        },
    }
}

/// The binding that the text after `let` writes: a name, one `=`, and an expression.
/// The name is what stands before the `=`, without the white space around it.
pub open spec fn binding_of(rest: Seq<char>) -> Option<StmtView> {
    let parts = fields(rest, '=');
    if parts.len() == 2 {
        match expr_of(parts[1]) {
            Some(value) => Some(StmtView::Let(trimmed(parts[0]), value)),
            None => None,
        }
    } else {
        None
    }
}

/// The printing statement that the text after `print` or `logShow` writes.
pub open spec fn output_of(rest: Seq<char>) -> Option<StmtView> {
    match expr_of(rest) {
        Some(value) => Some(StmtView::Print(value)),
        None => None,
    }
}

/// The statement that `line` writes, if it writes one.
///
/// White space around the line does not count. A line that begins with `let` and a
/// space is a binding, one that begins with `print` or `logShow` and a space prints,
/// and any other line is an expression on its own. A line that is the word `let` and
/// nothing else binds nothing, and is no statement.
pub open spec fn stmt_of(line: Seq<char>) -> Option<StmtView> {
    let t = trimmed(line);
    if t == "let"@ {
        None
    } else if let Some(rest) = without_prefix(t, "let "@) {
        binding_of(rest)
    } else if let Some(rest) = without_prefix(t, "print "@) {
        output_of(rest)
    } else if let Some(rest) = without_prefix(t, "logShow "@) {
        output_of(rest)
    } else {
        match expr_of(t) {
            Some(value) => Some(StmtView::ExprStmt(value)),
            None => None,
        }
    }
}

/// Whether `line` holds nothing but white space.
pub open spec fn is_blank(line: Seq<char>) -> bool {
    trimmed(line).len() == 0
}

/// The statements that `lines` write, in order, if every line that is not blank
/// writes one.
pub open spec fn stmts_of(lines: Seq<Seq<char>>) -> Option<Seq<StmtView>>
    decreases lines.len(),
{
    if lines.len() == 0 {
        Some(Seq::empty())
    } else {
        match stmts_of(lines.drop_last()) {
            Some(stmts) => match stmt_of(lines.last()) {
                Some(stmt) => Some(stmts.push(stmt)),
                None => if is_blank(lines.last()) {
                    Some(stmts)
                } else {
                    None
                },
            },
            None => None,
        }
    }
}

/// The program that `source` writes, one statement to a line, if it writes one.
pub open spec fn program_of(source: Seq<char>) -> Option<Seq<StmtView>> {
    stmts_of(text_lines(source))
}

/// Lines that fail to parse still fail when more lines follow.
pub proof fn lemma_stmts_of_prefix_fails(lines: Seq<Seq<char>>, k: int)
    requires
        0 <= k <= lines.len(),
        stmts_of(lines.take(k)).is_none(),
    ensures
        stmts_of(lines).is_none(),
    decreases lines.len() - k,
{
    if k == lines.len() {
        assert(lines.take(k) =~= lines);
    } else {
        assert(lines.take(k + 1).drop_last() =~= lines.take(k));
        lemma_stmts_of_prefix_fails(lines, k + 1);
    }
}

/// Parses the text after `print` or `logShow`.
fn parse_output(rest: &str) -> (parsed: Option<Stmt>)
    ensures
        match parsed {
            Some(stmt) => output_of(rest@) == Some(stmt@),
            None => output_of(rest@).is_none(),
        },
{
    match parse_expr(rest) {
        Some(value) => Some(Stmt::Print(value)),
        None => None,
    }
}

/// Parses the text after `let`.
fn parse_binding(rest: &str) -> (parsed: Option<Stmt>)
    ensures
        match parsed {
            Some(stmt) => binding_of(rest@) == Some(stmt@),
            None => binding_of(rest@).is_none(),
        },
{
    let parts = split(rest, '=');
    if parts.len() == 2 {
        match parse_expr(parts[1]) {
            Some(value) => Some(Stmt::Let(trim(parts[0]).to_string(), value)),
            None => None,
        }
    } else {
        None
    }
}

/// Parses one line as a statement.
pub fn parse_stmt(s: &str) -> (parsed: Option<Stmt>)
    ensures
        match parsed {
            Some(stmt) => stmt_of(s@) == Some(stmt@),
            None => stmt_of(s@).is_none(),
        },
{
    let t = trim(s);
    if str_eq(t, "let") {
        return None;
    }
    if let Some(rest) = strip_prefix(t, "let ") {
        return parse_binding(rest);
    }
    if let Some(rest) = strip_prefix(t, "print ") {
        return parse_output(rest);
    }
    if let Some(rest) = strip_prefix(t, "logShow ") {
        return parse_output(rest);
    }
    match parse_expr(t) {
        Some(value) => Some(Stmt::ExprStmt(value)),
        None => None,
    }
}

/// Parses a source text, one statement to a line. Blank lines are passed over; any
/// other line that is no statement makes the whole text invalid.
pub fn parse_program(source: &str) -> (parsed: Result<Program, ParserError>)
    ensures
        match parsed {
            Ok(program) => program_of(source@) == Some(program@),
            Err(error) => program_of(source@).is_none() && error == ParserError::InvalidSyntax,
        },
{
    let all = lines(source);
    let mut stmts: Vec<Stmt> = Vec::new();
    let mut i: usize = 0;
    while i < all.len()
        invariant
            i <= all.len(),
            views(all@) == text_lines(source@),
            stmts_of(views(all@).take(i as int)) == Some(stmt_views(stmts@)),
        decreases all.len() - i,
    {
        let line = all[i];
        proof {
            assert(views(all@).take(i + 1).drop_last() =~= views(all@).take(i as int));
        }
        match parse_stmt(line) {
            Some(stmt) => {
                stmts.push(stmt);
            },
            None => {
                if !trim(line).is_empty() {
                    proof {
                        lemma_stmts_of_prefix_fails(views(all@), i + 1);
                    }
                    return Err(ParserError::InvalidSyntax);
                }
            },
        }
        i += 1;
    }
    proof {
        assert(views(all@).take(i as int) =~= views(all@));
    }
    Ok(Program(stmts))
}

/// The code of the program that `source` writes; no code at all if it writes none.
pub open spec fn source_code(source: Seq<char>) -> Seq<Instruction> {
    match program_of(source) {
        Some(stmts) => program_code(stmts),
        None => Seq::empty(),
    }
}

/// Parses and compiles a source text. An invalid text compiles to no instructions.
pub fn parse_simple_purs(source: &str) -> (code: Vec<Instruction>)
    ensures
        code@ == source_code(source@),
{
    match parse_program(source) {
        Ok(ast) => program_to_instructions(&ast),
        Err(_) => Vec::new(),
    }
}

/// Parsing is repeatable. Whatever [`parse_program`] returns for one text on two
/// occasions, it accepts both times or rejects both times, with programs that stand
/// for the same statements or with the same error.
pub proof fn lemma_parse_program_repeatable(
    source: &str,
    first: Result<Program, ParserError>,
    second: Result<Program, ParserError>,
)
    requires
        call_ensures(parse_program, (source,), first),
        call_ensures(parse_program, (source,), second),
    ensures
        match (first, second) {
            (Ok(a), Ok(b)) => a@ == b@,
            (Err(a), Err(b)) => a == b,
            _ => false,
        },
{
}

/// Sums nest to the right. The left operand of a sum that [`expr_of`] builds is a
/// constant or a name, never a sum itself, so that `a + b + c` is read as
/// `a + (b + c)`; and the operator is always `Add`.
pub proof fn lemma_sums_nest_to_the_right(text: Seq<char>)
    ensures
        expr_of(text) matches Some(ExprView::BinOp(lhs, op, _)) ==> op == BinOp::Add && !(*lhs
            is BinOp),
{
    reveal_with_fuel(expr_of, 2);
    let t = trimmed(text);
    lemma_first_index_is_first(t, '+');
    if let Some(pos) = first_index(t, '+') {
        let left = t.subrange(0, pos);
        let bounds = lemma_trimmed_is_subrange(left);
        let inner = trimmed(left);
        assert forall|j: int| 0 <= j < inner.len() implies inner[j] != '+' by {
            assert(inner[j] == t[bounds.0 + j]);
        }
        lemma_first_index_none(inner, '+');
    }
}

} // verus!
