use psvm::parser::{
    parse_add_assignment, parse_const_assignment, parse_keyword, parse_line, parse_logshow,
    parse_operator, parse_simple_purs, Keyword, Operator, ParseResult, ParserEnv,
};
use psvm::vm::Instruction;

fn env_with(bindings: &[(&str, i32)]) -> ParserEnv {
    let mut env = ParserEnv::default();
    for (name, value) in bindings {
        env.vars.insert(name.to_string(), *value);
    }
    env
}

#[test]
fn test_parse_keyword() {
    assert_eq!(parse_keyword("let"), Some(Keyword::Let));
    assert_eq!(parse_keyword("logShow"), Some(Keyword::LogShow));
    assert_eq!(parse_keyword("unknown"), None);
}

#[test]
fn test_parse_operator() {
    assert_eq!(parse_operator("+"), Some(Operator::Add));
    assert_eq!(parse_operator("-"), Some(Operator::Sub));
    assert_eq!(parse_operator("*"), Some(Operator::Mul));
    assert_eq!(parse_operator("/"), Some(Operator::Div));
    assert_eq!(parse_operator("?"), None);
}

#[test]
fn keyword_must_match_exactly() {
    assert_eq!(parse_keyword("let "), None);
    assert_eq!(parse_keyword("Let"), None);
    assert_eq!(parse_keyword("logshow"), None);
    assert_eq!(parse_keyword("print"), None);
    assert_eq!(parse_keyword(""), None);
}

#[test]
fn operator_must_match_exactly() {
    assert_eq!(parse_operator("++"), None);
    assert_eq!(parse_operator(" +"), None);
    assert_eq!(parse_operator(""), None);
}

#[test]
fn const_assignment_binds_a_constant() {
    assert_eq!(
        parse_const_assignment("let x = 2"),
        ParseResult::Assignment("x".to_string(), 2)
    );
    assert_eq!(
        parse_const_assignment("let   total=-17  "),
        ParseResult::Assignment("total".to_string(), -17)
    );
    assert_eq!(
        parse_const_assignment("let big = 2147483647"),
        ParseResult::Assignment("big".to_string(), 2147483647)
    );
}

#[test]
fn const_assignment_rejects_other_lines() {
    assert_eq!(parse_const_assignment("let x = y"), ParseResult::NoMatch);
    assert_eq!(parse_const_assignment("let x = 1 = 2"), ParseResult::NoMatch);
    assert_eq!(parse_const_assignment("let x"), ParseResult::NoMatch);
    assert_eq!(parse_const_assignment("x = 2"), ParseResult::NoMatch);
    assert_eq!(parse_const_assignment(" let x = 2"), ParseResult::NoMatch);
    assert_eq!(parse_const_assignment("let x = 2147483648"), ParseResult::NoMatch);
    assert_eq!(parse_const_assignment(""), ParseResult::NoMatch);
}

#[test]
fn add_assignment_sums_two_bound_names() {
    let env = env_with(&[("x", 2), ("y", 3)]);
    assert_eq!(
        parse_add_assignment("let z = x + y", &env.vars),
        ParseResult::Assignment("z".to_string(), 5)
    );
    assert_eq!(
        parse_add_assignment("let z=y+y", &env.vars),
        ParseResult::Assignment("z".to_string(), 6)
    );
}

#[test]
fn add_assignment_wraps_on_overflow() {
    let env = env_with(&[("a", i32::MAX), ("b", 1)]);
    assert_eq!(
        parse_add_assignment("let c = a + b", &env.vars),
        ParseResult::Assignment("c".to_string(), i32::MIN)
    );
}

#[test]
fn add_assignment_rejects_other_lines() {
    let env = env_with(&[("x", 2), ("y", 3)]);
    assert_eq!(parse_add_assignment("let z = x + w", &env.vars), ParseResult::NoMatch);
    assert_eq!(parse_add_assignment("let z = x", &env.vars), ParseResult::NoMatch);
    assert_eq!(parse_add_assignment("let z = x + y + x", &env.vars), ParseResult::NoMatch);
    assert_eq!(parse_add_assignment("let z = 1 + 2", &env.vars), ParseResult::NoMatch);
    assert_eq!(parse_add_assignment("z = x + y", &env.vars), ParseResult::NoMatch);
    assert_eq!(parse_add_assignment("let z = x + y = 1", &env.vars), ParseResult::NoMatch);
}

#[test]
fn logshow_pushes_the_value_and_prints() {
    let env = env_with(&[("z", 5)]);
    assert_eq!(
        parse_logshow("logShow z", &env.vars),
        ParseResult::Instructions(vec![Instruction::Push(5), Instruction::Print])
    );
    assert_eq!(
        parse_logshow("logShow    z  ", &env.vars),
        ParseResult::Instructions(vec![Instruction::Push(5), Instruction::Print])
    );
}

#[test]
fn logshow_rejects_other_lines() {
    let env = env_with(&[("z", 5)]);
    assert_eq!(parse_logshow("logShow y", &env.vars), ParseResult::NoMatch);
    assert_eq!(parse_logshow("logShow", &env.vars), ParseResult::NoMatch);
    assert_eq!(parse_logshow("print z", &env.vars), ParseResult::NoMatch);
    assert_eq!(parse_logshow("logShow 5", &env.vars), ParseResult::NoMatch);
}

#[test]
fn line_takes_the_first_reading_that_applies() {
    let env = env_with(&[("x", 2), ("y", 3)]);
    assert_eq!(
        parse_line("   let k = 9   ", &env.vars),
        ParseResult::Assignment("k".to_string(), 9)
    );
    assert_eq!(
        parse_line("\tlet z = x + y", &env.vars),
        ParseResult::Assignment("z".to_string(), 5)
    );
    assert_eq!(
        parse_line("  logShow y", &env.vars),
        ParseResult::Instructions(vec![Instruction::Push(3), Instruction::Print])
    );
    assert_eq!(parse_line("main = do", &env.vars), ParseResult::NoMatch);
    assert_eq!(parse_line("", &env.vars), ParseResult::NoMatch);
}

#[test]
fn line_reads_a_signed_constant_before_a_sum() {
    // `+7` is a constant with a sign, so the line binds 7 and is no sum.
    let env = env_with(&[]);
    assert_eq!(
        parse_line("let p = +7", &env.vars),
        ParseResult::Assignment("p".to_string(), 7)
    );
}

#[test]
fn empty_environment_binds_nothing() {
    let env = ParserEnv::default();
    assert!(env.vars.is_empty());
    assert_eq!(parse_logshow("logShow x", &env.vars), ParseResult::NoMatch);
}

#[test]
fn source_resolves_names_while_reading() {
    let code = parse_simple_purs("let x = 2\nlet y = 3\nlet z = x + y\nlogShow z");
    assert_eq!(code, vec![Instruction::Push(5), Instruction::Print]);
}

#[test]
fn source_with_print_gives_no_code_here() {
    // Only `logShow` is known to this parser; a `print` line gives nothing.
    let code = parse_simple_purs("let x = 2\nlet y = 3\nlet z = x + y\nprint z");
    assert_eq!(code, vec![]);
}

#[test]
fn later_binding_replaces_earlier_one() {
    let code = parse_simple_purs("let x = 1\nlogShow x\nlet x = 4\nlogShow x\n");
    assert_eq!(
        code,
        vec![
            Instruction::Push(1),
            Instruction::Print,
            Instruction::Push(4),
            Instruction::Print,
        ]
    );
}

#[test]
fn unknown_lines_are_passed_over() {
    let code = parse_simple_purs("module M where\r\n\r\nlet a = 10\r\nnonsense here\r\nlogShow a\r\n");
    assert_eq!(code, vec![Instruction::Push(10), Instruction::Print]);
    assert_eq!(parse_simple_purs(""), vec![]);
    assert_eq!(parse_simple_purs("logShow never_bound"), vec![]);
}

#[test]
fn parsing_twice_gives_the_same_code() {
    let source = "let x = 2\nlet y = 40\nlet z = x + y\nlogShow z";
    assert_eq!(parse_simple_purs(source), parse_simple_purs(source));
}
