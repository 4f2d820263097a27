use jsfx_lint::ast::{AssignmentOperator, Ast, CmpOperator, LocatedAst, LogicalAndOrOperator, ModShiftOperator};
use jsfx_lint::context::MaybeContext;
use jsfx_lint::functions::{Depth, Fun, FunCall, FunScope, Modifiers};
use jsfx_lint::issue::IssueTracker;
use jsfx_lint::issue_kind::IssueKind;
use jsfx_lint::lints::invalid_lhs_assignment::collect_assignments;
use jsfx_lint::lints::useless_expression::{collect_dropped, judgeable};
use jsfx_lint::location::{LineCol, Location, SectionKind};
use jsfx_lint::program::{Chunk, GlobalScope, Program, Section};
use std::rc::Rc;

fn loc(line: usize) -> Location {
    Location {
        file: 0,
        section: Some(SectionKind::Init),
        line_col: LineCol { start_line: line, end_line: line, start_column: 1, end_column: 2 },
    }
}

fn node(ast: Ast, line: usize) -> LocatedAst {
    LocatedAst { ast, location: loc(line) }
}

fn name(n: &str, line: usize) -> LocatedAst {
    node(Ast::Identifier { value: n.to_string(), is_ref: false }, line)
}

fn number(n: &str, line: usize) -> LocatedAst {
    node(Ast::Number(n.to_string()), line)
}

fn call(n: &str, uuid: u128, params: Option<Vec<LocatedAst>>, line: usize) -> LocatedAst {
    node(Ast::FunCall { name: Box::new(name(n, line)), params, uuid }, line)
}

fn block(expressions: Vec<LocatedAst>, line: usize) -> LocatedAst {
    node(Ast::Compound { expressions, extra_semicolon: None }, line)
}

fn assign(lhs: LocatedAst, rhs: LocatedAst, line: usize) -> LocatedAst {
    node(Ast::Assignment { operator: AssignmentOperator::Assign, lhs: Box::new(lhs), rhs: Box::new(rhs) }, line)
}

fn fun(n: &str, has_side_effects: bool) -> Fun {
    Fun {
        name: n.to_string(),
        args: Vec::new(),
        modifiers: Modifiers { global: None, local: None, instance: None },
        context: MaybeContext::NoRestriction,
        location: Some(loc(0)),
        is_builtin: false,
        uuid: 0,
        scope: FunScope { accesses: Vec::new(), returns: Vec::new() },
        has_side_effects,
    }
}

fn call_of(f: Fun, uuid: u128) -> FunCall {
    FunCall {
        params: Vec::new(),
        accessed_as: f.name.clone(),
        fun: Some(Rc::new(f)),
        prefix: None,
        uuid,
        location: loc(0),
        depth: Depth::TopLevel,
        name_matches_global_arg: false,
        name_matches_instance_arg: false,
    }
}

fn program(root: LocatedAst, calls: Vec<FunCall>) -> Program {
    let mut section = Section::new(SectionKind::Init);
    section.chunks = vec![Chunk { source: String::new(), params: None, ast: Some(root), file: 0, line_pos: 0 }];
    section.fun_calls = calls;
    Program { metas: Vec::new(), sections: vec![section], scope: GlobalScope { variables: Vec::new() } }
}

/// Runs the useless-expression lint, the expressions on the lines `writing` being those
/// that write something.
fn useless_lines(p: &Program, writing: &[usize]) -> Vec<usize> {
    let writes: Vec<bool> =
        collect_dropped(p).iter().map(|(e, _)| writing.contains(&e.location.line_col.start_line)).collect();
    assert!(judgeable(p, &writes));
    let mut issues = IssueTracker::new();
    jsfx_lint::lints::useless_expression::lint(p, &writes, &mut issues);
    assert!(issues.issues_vec().iter().all(|i| i.kind == IssueKind::UselessExpression));
    issues.issues_vec().iter().map(|i| i.location.line_col.start_line).collect()
}

#[test]
fn useless_expression() {
    // function foo() ( 1; 3; );
    let p = program(block(vec![number("1", 2), number("3", 3)], 1), Vec::new());
    assert_eq!(useless_lines(&p, &[]), vec![2]);
}

#[test]
fn useful_expression() {
    // function foo() ( 3; );
    let p = program(block(vec![number("3", 2)], 1), Vec::new());
    assert!(useless_lines(&p, &[]).is_empty());
}

#[test]
fn useless_expression_nested() {
    // unit(2 > 1 ? ( unit(3 % (a; b)) ));
    let inner = node(
        Ast::ModShift {
            operator: ModShiftOperator::Mod,
            lhs: Box::new(number("3", 4)),
            rhs: Box::new(block(vec![name("a", 4), name("b", 5)], 4)),
        },
        4,
    );
    let cond = node(
        Ast::If {
            condition: Box::new(node(
                Ast::Cmp { operator: CmpOperator::Gt, lhs: Box::new(number("2", 3)), rhs: Box::new(number("1", 3)) },
                3,
            )),
            yes: Some(Box::new(call("unit", 2, Some(vec![inner]), 4))),
            no: None,
        },
        3,
    );
    let p = program(block(vec![call("unit", 1, Some(vec![cond]), 3)], 1), vec![call_of(fun("unit", false), 1), call_of(fun("unit", false), 2)]);
    assert_eq!(useless_lines(&p, &[]), vec![4]);
}

#[test]
fn side_effect_fun() {
    // side_effect(); 0;
    let p = program(block(vec![call("side_effect", 1, None, 2), number("0", 3)], 1), vec![call_of(fun("side_effect", true), 1)]);
    assert!(useless_lines(&p, &[]).is_empty());
}

#[test]
fn no_side_effect_fun() {
    // no_side_effect(); _;
    let p = program(block(vec![call("no_side_effect", 1, None, 2), name("_", 3)], 1), vec![call_of(fun("no_side_effect", false), 1)]);
    assert_eq!(useless_lines(&p, &[]), vec![2]);
}

fn and(lhs: LocatedAst, rhs: LocatedAst, line: usize) -> LocatedAst {
    node(Ast::LogicalAndOr { operator: LogicalAndOrOperator::And, lhs: Box::new(lhs), rhs: Box::new(rhs) }, line)
}

#[test]
fn fn_call_nested() {
    // 0 && side_effect(); 0;
    let p = program(
        block(vec![and(number("0", 2), call("side_effect", 1, None, 2), 2), number("0", 3)], 1),
        vec![call_of(fun("side_effect", true), 1)],
    );
    assert!(useless_lines(&p, &[]).is_empty());
}

#[test]
fn fn_call_nested2() {
    // 0 && (a += 1); 0;  (the operation writes `a`)
    let p = program(block(vec![and(number("0", 2), assign(name("a", 2), number("1", 2), 2), 2), number("0", 3)], 1), Vec::new());
    assert!(useless_lines(&p, &[2]).is_empty());
}

#[test]
fn mem_access() {
    // function foo() ( 1000[0] = 1 ); foo(); 0;  (foo writes memory)
    let p = program(block(vec![call("foo", 1, None, 2), number("0", 3)], 1), vec![call_of(fun("foo", true), 1)]);
    assert!(useless_lines(&p, &[]).is_empty());
}

#[test]
fn nested_mem_access() {
    // bar() calls foo(), which writes memory; bar(); 0;
    let p = program(block(vec![call("bar", 1, None, 2), number("0", 3)], 1), vec![call_of(fun("bar", true), 1)]);
    assert!(useless_lines(&p, &[]).is_empty());
}

#[test]
fn ref_arg() {
    // function foo(a*) ( a = 1 ); foo(b); 0;
    let p = program(block(vec![call("foo", 1, Some(vec![name("b", 2)]), 2), number("0", 3)], 1), vec![call_of(fun("foo", true), 1)]);
    assert!(useless_lines(&p, &[]).is_empty());
}

#[test]
fn builtin_side_effect() {
    // function foo() ( freembuf(1000); _; ); foo(); 0;
    let body = block(vec![call("freembuf", 2, Some(vec![number("1000", 2)]), 2), name("_", 3)], 2);
    let p = program(
        block(vec![body, call("foo", 1, None, 4), number("0", 5)], 1),
        vec![call_of(fun("foo", true), 1), call_of(fun("freembuf", true), 2)],
    );
    assert!(useless_lines(&p, &[]).is_empty());
}

#[test]
fn builtin_pure() {
    // function foo() ( floor(1000); _; ); foo(); 0;
    let body = block(vec![call("floor", 2, Some(vec![number("1000", 2)]), 2), name("_", 3)], 2);
    let p = program(
        block(vec![body, call("foo", 1, None, 4), number("0", 5)], 1),
        vec![call_of(fun("foo", false), 1), call_of(fun("floor", false), 2)],
    );
    assert!(useless_lines(&p, &[]).contains(&2));
}

#[test]
fn nested_builtin() {
    // function foo() ( a > b ? ( floor(10) ) : ( ceil() ); _; ); foo(); 0;
    let cond = node(
        Ast::If {
            condition: Box::new(node(
                Ast::Cmp { operator: CmpOperator::Gt, lhs: Box::new(name("a", 2)), rhs: Box::new(name("b", 2)) },
                2,
            )),
            yes: Some(Box::new(block(vec![call("floor", 2, Some(vec![number("10", 2)]), 2)], 2))),
            no: Some(Box::new(block(vec![call("ceil", 3, None, 2)], 2))),
        },
        2,
    );
    let body = block(vec![cond, name("_", 3)], 2);
    let p = program(
        block(vec![body, call("foo", 1, None, 4), number("0", 5)], 1),
        vec![call_of(fun("foo", false), 1), call_of(fun("floor", false), 2), call_of(fun("ceil", false), 3)],
    );
    assert_eq!(useless_lines(&p, &[]), vec![4]);
}

/// Runs the invalid-lhs lint, each left-hand side returning itself.
fn invalid_lhs(p: &Program) -> bool {
    let lhs: Vec<Vec<&LocatedAst>> = collect_assignments(p)
        .iter()
        .map(|a| match &a.ast {
            Ast::Assignment { lhs, .. } => vec![&**lhs],
            _ => Vec::new(),
        })
        .collect();
    let mut issues = IssueTracker::new();
    jsfx_lint::lints::invalid_lhs_assignment::lint(p, &lhs, &mut issues);
    issues.has(&IssueKind::InvalidLhsAssignment)
}

#[test]
fn assigning_to_a_fun_call() {
    // floor(0) += 0;
    let p = program(block(vec![assign(call("floor", 1, Some(vec![number("0", 2)]), 2), number("0", 2), 2)], 1), Vec::new());
    assert!(invalid_lhs(&p));
}

#[test]
fn assigning_to_a_number() {
    // (0) += 0;
    let p = program(block(vec![assign(number("0", 2), number("0", 2), 2)], 1), Vec::new());
    assert!(invalid_lhs(&p));
}

#[test]
fn assigning_to_spl() {
    // spl(1) = 0;
    let p = program(block(vec![assign(call("spl", 1, Some(vec![number("1", 2)]), 2), number("0", 2), 2)], 1), Vec::new());
    assert!(!invalid_lhs(&p));
}

#[test]
fn assigning_to_an_identifier() {
    // foo = 0;
    let p = program(block(vec![assign(name("foo", 2), number("0", 2), 2)], 1), Vec::new());
    assert!(!invalid_lhs(&p));
}

/// Runs the loop-as-value lint, each right-hand side returning itself.
fn loop_texts(p: &Program) -> Vec<String> {
    let rhs: Vec<Vec<&LocatedAst>> = collect_assignments(p)
        .iter()
        .map(|a| match &a.ast {
            Ast::Assignment { rhs, .. } => vec![&**rhs],
            _ => Vec::new(),
        })
        .collect();
    let mut issues = IssueTracker::new();
    jsfx_lint::lints::loop_as_r_value::lint(p, &rhs, &mut issues);
    assert!(issues.issues_vec().iter().all(|i| i.kind == IssueKind::LoopAsRValue));
    issues.issues_vec().iter().map(|i| i.text.clone()).collect()
}

#[test]
fn loop_as_rvalue() {
    // _ = loop(1, 2);
    let l = node(Ast::Loop { count: Box::new(number("1", 2)), body: Box::new(number("2", 2)) }, 2);
    let p = program(block(vec![assign(name("_", 2), l, 2)], 1), Vec::new());
    assert_eq!(loop_texts(&p), vec!["Loop always return 1".to_string()]);
}

#[test]
fn while_as_rvalue() {
    // _ = while(1) (0);
    let w = node(Ast::While { condition: Some(Box::new(number("1", 2))), body: Some(Box::new(number("0", 2))) }, 2);
    let p = program(block(vec![assign(name("_", 2), w, 2)], 1), Vec::new());
    assert_eq!(loop_texts(&p), vec!["While always return 0".to_string()]);
}

#[test]
fn assignments_in_walk_order() {
    let inner = assign(name("b", 3), number("2", 3), 3);
    let outer = assign(name("a", 2), inner, 2);
    let p = program(block(vec![outer, assign(name("c", 4), number("1", 4), 4)], 1), Vec::new());
    let lines: Vec<usize> = collect_assignments(&p).iter().map(|a| a.location.line_col.start_line).collect();
    assert_eq!(lines, vec![2, 3, 4]);
}
