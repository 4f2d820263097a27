use jsfx_lint::ast::{Ast, LocatedAst};
use jsfx_lint::context::{Context, MaybeContext};
use jsfx_lint::functions::matching::{find_in, find_matching_function, Lookup};
use jsfx_lint::functions::{Arg, Depth, Fun, FunCall, FunScope, Modifiers};
use jsfx_lint::issue::IssueTracker;
use jsfx_lint::issue_kind::IssueKind;
use jsfx_lint::location::{LineCol, Location, SectionKind};
use std::rc::Rc;

fn loc(line: usize) -> Location {
    Location {
        file: 0,
        section: Some(SectionKind::Block),
        line_col: LineCol { start_line: line, end_line: line, start_column: 1, end_column: 4 },
    }
}

fn arg(name: &str, optional: bool) -> Arg {
    Arg { name: name.to_string(), is_ref: false, optional, is_str: false, location: Some(loc(1)) }
}

fn fun(name: &str, args: Vec<Arg>, uuid: u128) -> Rc<Fun> {
    Rc::new(Fun {
        name: name.to_string(),
        args,
        modifiers: Modifiers { global: None, local: None, instance: None },
        context: MaybeContext::NoRestriction,
        location: Some(loc(2)),
        is_builtin: false,
        uuid,
        scope: FunScope { accesses: Vec::new(), returns: Vec::new() },
        has_side_effects: false,
    })
}

fn found(
    section: &Vec<Rc<Fun>>,
    name: &str,
    params: usize,
    init: &Option<Vec<Rc<Fun>>>,
    builtins: &Vec<Rc<Fun>>,
) -> (Option<u128>, Option<String>) {
    let m = find_matching_function(section, name, params, init, builtins);
    (m.fun.map(|f| f.uuid), m.prefix)
}

#[test]
fn exact_match_prefers_section_then_init_then_builtins() {
    let section = vec![fun("foo", vec![arg("a", false)], 1)];
    let init = Some(vec![fun("foo", vec![arg("a", false), arg("b", false)], 2), fun("bar", vec![], 3)]);
    let builtins = vec![fun("foo", vec![arg("a", false), arg("b", false), arg("c", false)], 4), fun("bar", vec![], 5)];
    assert_eq!(found(&section, "foo", 1, &init, &builtins), (Some(1), None));
    assert_eq!(found(&section, "FOO", 2, &init, &builtins), (Some(2), None));
    assert_eq!(found(&section, "foo", 3, &init, &builtins), (Some(4), None));
    assert_eq!(found(&section, "bar", 0, &init, &builtins), (Some(3), None));
}

#[test]
fn member_functions_take_the_longest_name() {
    let section = vec![fun("bar", vec![arg("a", false)], 1), fun("x.bar", vec![arg("a", false)], 2)];
    let none: Option<Vec<Rc<Fun>>> = None;
    let builtins: Vec<Rc<Fun>> = vec![];
    assert_eq!(found(&section, "obj.bar", 1, &none, &builtins), (Some(1), Some("obj".to_string())));
    assert_eq!(found(&section, "o.X.bar", 1, &none, &builtins), (Some(2), Some("o".to_string())));
    let init = Some(vec![fun("y.x.bar", vec![arg("a", false)], 3)]);
    assert_eq!(found(&section, "o.y.x.bar", 1, &init, &builtins), (Some(3), Some("o".to_string())));
    let init_short = Some(vec![fun("bar", vec![arg("a", false)], 4)]);
    assert_eq!(found(&section, "o.x.bar", 1, &init_short, &builtins), (Some(2), Some("o".to_string())));
}

#[test]
fn wrong_parameter_count_still_finds_the_function() {
    let section = vec![fun("foo", vec![arg("a", false)], 1), fun("m", vec![], 2)];
    let init = Some(vec![fun("baz", vec![], 3)]);
    let builtins = vec![fun("sin", vec![arg("x", false)], 4)];
    assert_eq!(found(&section, "foo", 3, &init, &builtins), (Some(1), None));
    assert_eq!(found(&section, "baz", 2, &init, &builtins), (Some(3), None));
    assert_eq!(found(&section, "a.m", 4, &init, &builtins), (Some(2), Some("a".to_string())));
    assert_eq!(found(&section, "sin", 5, &init, &builtins), (Some(4), None));
    assert_eq!(found(&section, "nope", 0, &init, &builtins), (None, None));
}

#[test]
fn optional_args_and_implicit_parameters() {
    let section = vec![fun("f", vec![arg("a", false), arg("b", true)], 1), fun("g", vec![], 2)];
    assert_eq!(find_in(&section, "f", 1, Lookup::Exact), Some(0));
    assert_eq!(find_in(&section, "f", 2, Lookup::Exact), Some(0));
    assert_eq!(find_in(&section, "f", 0, Lookup::Exact), None);
    assert_eq!(find_in(&section, "g", 1, Lookup::Exact), Some(1));
    assert_eq!(find_in(&section, "x.g", 0, Lookup::ExactObj), Some(1));
    assert_eq!(find_in(&section, "g", 0, Lookup::ExactObj), None);
}

fn id(name: &str) -> LocatedAst {
    LocatedAst { ast: Ast::Identifier { value: name.to_string(), is_ref: false }, location: loc(7) }
}

fn number(n: &str) -> LocatedAst {
    LocatedAst { ast: Ast::Number(n.to_string()), location: loc(7) }
}

#[test]
fn call_setup_finds_its_function_and_parameters() {
    let section = vec![fun("bar", vec![arg("a", false)], 1)];
    let none: Option<Vec<Rc<Fun>>> = None;
    let builtins: Vec<Rc<Fun>> = vec![];
    let one = number("1");
    let params = Some(vec![vec![&one]]);
    let call = FunCall::start_setup(&params, &id("obj.bar"), &section, &none, &builtins, false, 42);
    assert_eq!(call.fun.as_ref().map(|f| f.uuid), Some(1));
    assert_eq!(call.prefix, Some("obj".to_string()));
    assert_eq!(call.params.len(), 1);
    assert_eq!(call.accessed_as, "obj.bar");
    assert_eq!(call.uuid, 42);
    assert!(matches!(call.depth, Depth::TopLevel));
    assert!(!call.name_matches_global_arg && !call.name_matches_instance_arg);
    let nested = FunCall::start_setup(&None, &id("missing"), &section, &none, &builtins, true, 43);
    assert!(nested.fun.is_none());
    assert!(nested.params.is_empty());
    assert!(matches!(nested.depth, Depth::Undetermined));
}

fn arg_node(name: &str) -> LocatedAst {
    LocatedAst {
        ast: Ast::Arg { identifier: Box::new(id(name)), leading_commas: None, trailing_comma: None },
        location: loc(3),
    }
}

#[test]
fn definition_setup_reads_the_node() {
    let def = LocatedAst {
        ast: Ast::Fun {
            identifier: Box::new(id("foo")),
            modifiers: None,
            body: Box::new(number("0")),
            args: Some(vec![arg_node("a"), arg_node("b")]),
            commas: None,
            parens: true,
            uuid: 9,
        },
        location: loc(3),
    };
    let calls: Vec<FunCall> = vec![];
    let f = Fun::start_setup(&def, &calls, false);
    assert_eq!(f.name, "foo");
    assert_eq!(f.args.len(), 2);
    assert_eq!(f.uuid, 9);
    assert!(!f.has_side_effects);
    assert!(matches!(f.context, MaybeContext::Unknown));
    let writing = Fun::start_setup(&def, &calls, true);
    assert!(writing.has_side_effects);
}

#[test]
fn default_tracker_is_the_new_tracker() {
    let mut a = IssueTracker::default();
    let mut b = IssueTracker::new();
    assert_eq!(a.count(&IssueKind::GlobalNeverRead), 0);
    assert!(!a.has(&IssueKind::GlobalNeverRead));
    a.add(IssueKind::GlobalNeverRead, &loc(1), "x".to_string());
    b.add(IssueKind::GlobalNeverRead, &loc(1), "x".to_string());
    assert_eq!(a.issues_vec()[0].severity, b.issues_vec()[0].severity);
    assert_eq!(a.count(&IssueKind::GlobalNeverRead), 1);
}

#[test]
fn intersecting_contexts_is_symmetric_and_idempotent() {
    let a = Context::from_vec(vec!["init", "gfx", "block"]);
    let b = Context::from_vec(vec!["gfx", "sample"]);
    assert!(a.intersect(&b) == b.intersect(&a));
    assert!(a.intersect(&a) == a);
    assert!(a.intersect(&Context::new()) == a);
    assert!(a.intersect(&b).is_compatible_in_section("gfx"));
    assert!(!a.intersect(&b).is_compatible_in_section("init"));
    assert!(Context::from_vec(vec!["init"]).intersect(&Context::from_vec(vec!["gfx"])).is_empty());
    assert!(!Context::from_vec(vec!["init", "gfx"]).is_compatible_with_all());
}

#[test]
fn sorting_keeps_the_order_of_ties() {
    let mut issues = IssueTracker::new();
    issues.add(IssueKind::GlobalNeverRead, &loc(5), "first".to_string());
    issues.add(IssueKind::GlobalNeverRead, &loc(2), "earlier line".to_string());
    issues.add(IssueKind::GlobalNeverRead, &loc(5), "second".to_string());
    issues.add(IssueKind::GlobalNeverRead, &loc(5), "third".to_string());
    issues.sort();
    let texts: Vec<String> = issues.issues_vec().iter().map(|i| i.text.clone()).collect();
    assert_eq!(texts, vec!["earlier line", "first", "second", "third"]);
    issues.sort();
    let again: Vec<String> = issues.issues_vec().iter().map(|i| i.text.clone()).collect();
    assert_eq!(again, texts);
}
