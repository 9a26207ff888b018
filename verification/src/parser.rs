//! Parsing of source text, one statement per line.
//!
//! This module resolves names while it reads: a binding to a constant, or to the sum of
//! two names bound before, is remembered, and `logShow` of a bound name becomes code
//! that pushes its value. The submodule [`parser`] builds a syntax tree instead.

pub mod parser;

use crate::text::{
    fields, i32_literal, lines, parse_i32, split, str_eq, strip_prefix, text_lines, trim, trimmed,
    views, without_prefix,
};
use crate::vm::{wrapping_sum, Instruction};
use vstd::hash_map::StringHashMap;
use vstd::prelude::*;

verus! {

/// A word that begins a statement.
#[derive(Debug, PartialEq, Eq)]
pub enum Keyword {
    Let,
    LogShow,
}

/// An arithmetic operator.
#[derive(Debug, PartialEq, Eq)]
pub enum Operator {
    Add,
    Sub,
    Mul,
    Div,
}

/// What an operator applies to: a name or a constant.
#[derive(Debug, PartialEq, Eq)]
pub enum Operand {
    Var(String),
    Value(i32),
}

/// What one line comes to.
#[derive(Debug, PartialEq, Eq)]
pub enum ParseResult {
    /// The line binds a name to a value.
    Assignment(String, i32),
    /// The line gives code.
    Instructions(Vec<Instruction>),
    /// The line is none of the statements known here.
    NoMatch,
}

/// What a [`ParseResult`] stands for.
pub ghost enum ParseResultView {
    Assignment(Seq<char>, i32),
    Instructions(Seq<Instruction>),
    NoMatch,
}

impl View for ParseResult {
    type V = ParseResultView;

    open spec fn view(&self) -> ParseResultView {
        match self {
            ParseResult::Assignment(name, value) => ParseResultView::Assignment(name@, *value),
            ParseResult::Instructions(code) => ParseResultView::Instructions(code@),
            ParseResult::NoMatch => ParseResultView::NoMatch,
        }
    }
}

/// The names bound so far, each with its value.
pub struct ParserEnv {
    pub vars: StringHashMap<i32>,
}

impl View for ParserEnv {
    type V = Map<Seq<char>, i32>;

    open spec fn view(&self) -> Map<Seq<char>, i32> {
        self.vars@
    }
}

impl Default for ParserEnv {
    /// An environment in which no name is bound.
    fn default() -> (env: Self)
        ensures
            env@ == Map::<Seq<char>, i32>::empty(),
    {
        ParserEnv { vars: StringHashMap::new() }
    }
}

/// Why a source text was rejected.
#[derive(Debug, PartialEq, Eq)]
pub enum ParserError {
    /// A line is neither blank nor a statement.
    InvalidSyntax,
    /// A name is used that no binding introduced.
    UnknownVariable(String),
    /// Anything else.
    Other(String),
}

/// The keyword that `s` spells, if it spells one.
pub open spec fn keyword_of(s: Seq<char>) -> Option<Keyword> {
    if s == "let"@ {
        Some(Keyword::Let)
    } else if s == "logShow"@ {
        Some(Keyword::LogShow)
    } else {
        None
    }
}

/// The operator that `s` spells, if it spells one.
pub open spec fn operator_of(s: Seq<char>) -> Option<Operator> {
    if s == "+"@ {
        Some(Operator::Add)
    } else if s == "-"@ {
        Some(Operator::Sub)
    } else if s == "*"@ {
        Some(Operator::Mul)
    } else if s == "/"@ {
        Some(Operator::Div)
    } else {
        None
    }
}

/// Reads a keyword.
pub fn parse_keyword(s: &str) -> (keyword: Option<Keyword>)
    ensures
        keyword == keyword_of(s@),
{
    if str_eq(s, "let") {
        Some(Keyword::Let)
    } else if str_eq(s, "logShow") {
        Some(Keyword::LogShow)
    } else {
        None
    }
}

/// Reads an operator.
pub fn parse_operator(s: &str) -> (operator: Option<Operator>)
    ensures
        operator == operator_of(s@),
{
    if str_eq(s, "+") {
        Some(Operator::Add)
    } else if str_eq(s, "-") {
        Some(Operator::Sub)
    } else if str_eq(s, "*") {
        Some(Operator::Mul)
    } else if str_eq(s, "/") {
        Some(Operator::Div)
    } else {
        None
    }
}

/// The two sides of a binding `let name = value`: what stands before and after the
/// one `=` that follows `let` and a space, each without the white space around it.
pub open spec fn binding_sides(line: Seq<char>) -> Option<(Seq<char>, Seq<char>)> {
    match without_prefix(line, "let "@) {
        Some(rest) => {
            let parts = fields(rest, '=');
            if parts.len() == 2 {
                Some((trimmed(parts[0]), trimmed(parts[1])))
            } else {
                None
            }
        },
        None => None,
    }
}

/// What `line` comes to as the binding of a name to an integer constant.
pub open spec fn const_assignment_of(line: Seq<char>) -> ParseResultView {
    match binding_sides(line) {
        Some((name, value)) => match i32_literal(value) {
            Some(n) => ParseResultView::Assignment(name, n),
            None => ParseResultView::NoMatch,
        },
        None => ParseResultView::NoMatch,
    }
}

/// What `line` comes to as the binding of a name to the sum of two bound names. The
/// sum is taken in two's complement.
pub open spec fn add_assignment_of(line: Seq<char>, vars: Map<Seq<char>, i32>) -> ParseResultView {
    match binding_sides(line) {
        Some((name, value)) => {
            let operands = fields(value, '+');
            if operands.len() == 2 {
                let a = trimmed(operands[0]);
                let b = trimmed(operands[1]);
                if vars.contains_key(a) && vars.contains_key(b) {
                    ParseResultView::Assignment(name, wrapping_sum(vars[a], vars[b]))
                } else {
                    ParseResultView::NoMatch
                }
            } else {
                ParseResultView::NoMatch
            }
        },
        None => ParseResultView::NoMatch,
    }
}

/// What `line` comes to as `logShow` of a bound name: code that pushes the name's
/// value and prints.
pub open spec fn logshow_of(line: Seq<char>, vars: Map<Seq<char>, i32>) -> ParseResultView {
    match without_prefix(line, "logShow "@) {
        Some(rest) => {
            let name = trimmed(rest);
            if vars.contains_key(name) {
                ParseResultView::Instructions(
                    seq![Instruction::Push(vars[name]), Instruction::Print],
                )
            } else {
                ParseResultView::NoMatch
            }
        },
        None => ParseResultView::NoMatch,
    }
}

/// What `line` comes to: the first of constant binding, sum binding and `logShow` that
/// the line, without the white space around it, is.
pub open spec fn line_result(line: Seq<char>, vars: Map<Seq<char>, i32>) -> ParseResultView {
    let t = trimmed(line);
    if !(const_assignment_of(t) is NoMatch) {
        const_assignment_of(t)
    } else if !(add_assignment_of(t, vars) is NoMatch) {
        add_assignment_of(t, vars)
    } else {
        logshow_of(t, vars)
    }
}

/// The names bound once `lines` have been read in order, from an environment in which
/// none is bound. A later binding of a name replaces an earlier one.
pub open spec fn bindings_after(lines: Seq<Seq<char>>) -> Map<Seq<char>, i32>
    decreases lines.len(),
{
    if lines.len() == 0 {
        Map::empty()
    } else {
        let before = bindings_after(lines.drop_last());
        match line_result(lines.last(), before) {
            ParseResultView::Assignment(name, value) => before.insert(name, value),
            _ => before,
        }
    }
}

/// The code that `lines` give, read in order: the code of each line, in the
/// environment that the lines before it leave.
pub open spec fn code_after(lines: Seq<Seq<char>>) -> Seq<Instruction>
    decreases lines.len(),
{
    if lines.len() == 0 {
        Seq::empty()
    } else {
        let before = code_after(lines.drop_last());
        match line_result(lines.last(), bindings_after(lines.drop_last())) {
            ParseResultView::Instructions(code) => before + code,
            _ => before,
        }
    }
}

/// Splits a binding into its two sides.
fn split_binding<'a>(line: &'a str) -> (sides: Option<(&'a str, &'a str)>)
    ensures
        match sides {
            Some((name, value)) => binding_sides(line@) == Some((name@, value@)),
            None => binding_sides(line@).is_none(),
        },
{
    match strip_prefix(line, "let ") {
        Some(rest) => {
            let parts = split(rest, '=');
            if parts.len() == 2 {
                Some((trim(parts[0]), trim(parts[1])))
            } else {
                None
            }
        },
        None => None,
    }
}

/// Reads a line as the binding of a name to an integer constant.
pub fn parse_const_assignment(line: &str) -> (result: ParseResult)
    ensures
        result@ == const_assignment_of(line@),
{
    match split_binding(line) {
        Some((name, value)) => match parse_i32(value) {
            Some(n) => ParseResult::Assignment(name.to_string(), n),
            None => ParseResult::NoMatch,
        },
        None => ParseResult::NoMatch,
    }
}

/// Reads a line as the binding of a name to the sum of two names bound in `vars`.
pub fn parse_add_assignment(line: &str, vars: &StringHashMap<i32>) -> (result: ParseResult)
    ensures
        result@ == add_assignment_of(line@, vars@),
{
    match split_binding(line) {
        Some((name, value)) => {
            let operands = split(value, '+');
            if operands.len() != 2 {
                return ParseResult::NoMatch;
            }
            match (vars.get(trim(operands[0])), vars.get(trim(operands[1]))) {
                (Some(a), Some(b)) => ParseResult::Assignment(
                    name.to_string(),
                    a.wrapping_add(*b),
                ),
                _ => ParseResult::NoMatch,
            }
        },
        None => ParseResult::NoMatch,
    }
}

/// Reads a line as `logShow` of a name bound in `vars`.
pub fn parse_logshow(line: &str, vars: &StringHashMap<i32>) -> (result: ParseResult)
    ensures
        result@ == logshow_of(line@, vars@),
{
    match strip_prefix(line, "logShow ") {
        Some(rest) => match vars.get(trim(rest)) {
            Some(value) => {
                let mut code: Vec<Instruction> = Vec::new();
                code.push(Instruction::Push(*value));
                code.push(Instruction::Print);
                assert(code@ =~= seq![Instruction::Push(*value), Instruction::Print]);
                ParseResult::Instructions(code)
            },
            None => ParseResult::NoMatch,
        },
        None => ParseResult::NoMatch,
    }
}

/// Reads one line: the first reading that applies, of constant binding, sum binding
/// and `logShow`, in this order.
pub fn parse_line(line: &str, vars: &StringHashMap<i32>) -> (result: ParseResult)
    ensures
        result@ == line_result(line@, vars@),
{
    let line = trim(line);
    let constant = parse_const_assignment(line);
    if !matches!(constant, ParseResult::NoMatch) {
        return constant;
    }
    let sum = parse_add_assignment(line, vars);
    if !matches!(sum, ParseResult::NoMatch) {
        return sum;
    }
    parse_logshow(line, vars)
}

/// Reads a source text line by line, remembering what each binding binds, and returns
/// the code that its `logShow` lines give. Lines that are none of the statements known
/// here give nothing.
pub fn parse_simple_purs(source: &str) -> (code: Vec<Instruction>)
    ensures
        code@ == code_after(text_lines(source@)),
{
    let mut env = ParserEnv::default();
    let all = lines(source);
    let mut code: Vec<Instruction> = Vec::new();
    let mut i: usize = 0;
    while i < all.len()
        invariant
            i <= all.len(),
            views(all@) == text_lines(source@),
            env@ == bindings_after(views(all@).take(i as int)),
            code@ == code_after(views(all@).take(i as int)),
        decreases all.len() - i,
    {
        proof {
            assert(views(all@).take(i + 1).drop_last() =~= views(all@).take(i as int));
        }
        match parse_line(all[i], &env.vars) {
            ParseResult::Assignment(name, value) => {
                env.vars.insert(name, value);
            },
            ParseResult::Instructions(mut instrs) => {
                code.append(&mut instrs);
            },
            ParseResult::NoMatch => {},
        }
        i += 1;
    }
    proof {
        assert(views(all@).take(i as int) =~= views(all@));
    }
    code
}

} // verus!
