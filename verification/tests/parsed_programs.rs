//! The lints on the programs that short sources parse into, built here node by node:
//! each test names the source it stands for.

use jsfx_lint::access::{Info, Kind, Origin, Value, VarKind, WithinFunction};
use jsfx_lint::ast::{Ast, LocatedAst};
use jsfx_lint::context::MaybeContext;
use jsfx_lint::functions::{Arg, Depth, Fun, FunCall, FunScope, Modifier, Modifiers};
use jsfx_lint::issue::IssueTracker;
use jsfx_lint::issue_kind::IssueKind;
use jsfx_lint::lints::{
    duplicate_arg, duplicate_modifier, empty_modifier, implicit_parens, overwriting_arg,
    ref_arg_in_incompatible_mod, string_arg_in_local_mod, too_many_params, unknown_function,
    unreachable_function, unused_args, unused_function,
};
use jsfx_lint::location::{LineCol, Location, SectionKind};
use jsfx_lint::program::{Chunk, GlobalScope, Program, Section};
use std::rc::Rc;

fn loc(line: usize, column: usize) -> Location {
    Location {
        file: 0,
        section: Some(SectionKind::Init),
        line_col: LineCol { start_line: line, end_line: line, start_column: column, end_column: column + 3 },
    }
}

fn arg(name: &str, is_ref: bool, column: usize) -> Arg {
    Arg { name: name.to_string(), is_ref, optional: false, is_str: name.starts_with('#'), location: Some(loc(2, column)) }
}

fn local(args: Vec<Arg>, column: usize) -> Modifiers {
    Modifiers { global: None, local: Some(vec![Modifier { args, location: loc(2, column) }]), instance: None }
}

fn no_mods() -> Modifiers {
    Modifiers { global: None, local: None, instance: None }
}

fn fun(name: &str, args: Vec<Arg>, modifiers: Modifiers) -> Fun {
    Fun {
        name: name.to_string(),
        args,
        modifiers,
        context: MaybeContext::NoRestriction,
        location: Some(loc(2, 10)),
        is_builtin: false,
        uuid: 1,
        scope: FunScope { accesses: Vec::new(), returns: Vec::new() },
        has_side_effects: false,
    }
}

fn call_to(f: Option<Fun>, accessed_as: &str) -> FunCall {
    FunCall {
        params: Vec::new(),
        fun: f.map(Rc::new),
        prefix: None,
        uuid: 9,
        location: loc(3, 1),
        accessed_as: accessed_as.to_string(),
        depth: Depth::TopLevel,
        name_matches_global_arg: false,
        name_matches_instance_arg: false,
    }
}

fn program(defs: Vec<Fun>, calls: Vec<FunCall>) -> Program {
    let mut section = Section::new(SectionKind::Init);
    section.fun_defs = defs;
    section.fun_calls = calls;
    Program { metas: Vec::new(), sections: vec![section], scope: GlobalScope { variables: Vec::new() } }
}

fn access_to_arg(name: &str, kind: Kind, arg_index: usize, is_ref: bool) -> WithinFunction {
    WithinFunction {
        info: Info { accessed_as: name.to_string(), location: loc(3, 5), kind },
        var_kind: if is_ref {
            VarKind::RefArg { suffix: String::new(), arg_index }
        } else {
            VarKind::Arg { arg_index }
        },
        uuid: 1,
        origin: Origin::Undetermined,
    }
}

fn written() -> Kind {
    Kind::Write { value: Value::Unknown, potential: false }
}

fn has(p: &Program, lint: fn(&Program, &mut IssueTracker), kind: IssueKind) -> bool {
    let mut issues = IssueTracker::new();
    lint(p, &mut issues);
    issues.has(&kind)
}

#[test]
fn duplicate_arg_in_args() {
    // function foo(bar, bar) ( 0 );
    let p = program(vec![fun("foo", vec![arg("bar", false, 14), arg("bar", false, 19)], no_mods())], vec![]);
    assert!(has(&p, duplicate_arg::lint, IssueKind::DuplicateArgument));
}

#[test]
fn duplicate_arg_in_modifier() {
    // function foo() local(bar, bar) ( 0 );
    let p = program(vec![fun("foo", vec![], local(vec![arg("bar", false, 22), arg("bar", false, 27)], 16))], vec![]);
    assert!(has(&p, duplicate_arg::lint, IssueKind::DuplicateArgument));
}

#[test]
fn duplicate_arg_in_multiple_modifiers() {
    // function foo() local(bar) local(bar) ( 0 );
    let mods = Modifiers {
        global: None,
        local: Some(vec![
            Modifier { args: vec![arg("bar", false, 22)], location: loc(2, 16) },
            Modifier { args: vec![arg("bar", false, 33)], location: loc(2, 27) },
        ]),
        instance: None,
    };
    let p = program(vec![fun("foo", vec![], mods)], vec![]);
    assert!(has(&p, duplicate_arg::lint, IssueKind::DuplicateArgument));
}

#[test]
fn duplicate_arg_in_modifier_with_varying_case() {
    // function foo() local(bar, Bar) ( 0 );
    let p = program(vec![fun("foo", vec![], local(vec![arg("bar", false, 22), arg("Bar", false, 27)], 16))], vec![]);
    assert!(has(&p, duplicate_arg::lint, IssueKind::DuplicateArgument));
}

#[test]
fn duplicate_arg_in_args_with_varying_case() {
    // function foo(bar, Bar) ( 0 );
    let p = program(vec![fun("foo", vec![arg("bar", false, 14), arg("Bar", false, 19)], no_mods())], vec![]);
    assert!(has(&p, duplicate_arg::lint, IssueKind::DuplicateArgument));
}

#[test]
fn duplicate_modifier() {
    // function foo() local() local() ( 0; );
    let mods = Modifiers {
        global: None,
        local: Some(vec![Modifier { args: vec![], location: loc(2, 16) }, Modifier { args: vec![], location: loc(2, 24) }]),
        instance: None,
    };
    let p = program(vec![fun("foo", vec![], mods)], vec![]);
    assert!(has(&p, duplicate_modifier::lint, IssueKind::DuplicateModifier));
}

#[test]
fn duplicate_modifier_with_equivalent_names() {
    // function foo() static() local() ( 0; );  (`static` is `local`)
    let mods = Modifiers {
        global: None,
        local: Some(vec![Modifier { args: vec![], location: loc(2, 16) }, Modifier { args: vec![], location: loc(2, 25) }]),
        instance: None,
    };
    let p = program(vec![fun("foo", vec![], mods)], vec![]);
    assert!(has(&p, duplicate_modifier::lint, IssueKind::DuplicateModifier));
}

#[test]
fn empty_modifier() {
    // function foo() local() ( 0; );
    let p = program(vec![fun("foo", vec![], local(vec![], 16))], vec![]);
    assert!(has(&p, empty_modifier::lint, IssueKind::EmptyModifier));
}

#[test]
fn implicit_parens() {
    // function foo local(bar) ( 0; );
    let ident = |name: &str| Box::new(LocatedAst { ast: Ast::Identifier { value: name.to_string(), is_ref: false }, location: loc(2, 10) });
    let def = LocatedAst {
        ast: Ast::Fun {
            identifier: ident("foo"),
            modifiers: None,
            body: Box::new(LocatedAst { ast: Ast::Number("0".to_string()), location: loc(2, 27) }),
            args: None,
            commas: None,
            parens: false,
            uuid: 1,
        },
        location: loc(2, 1),
    };
    let mut p = program(vec![], vec![]);
    p.sections[0].chunks = vec![Chunk { source: String::new(), params: None, ast: Some(def), file: 0, line_pos: 1 }];
    assert!(has(&p, implicit_parens::lint, IssueKind::ImplicitParens));
}

#[test]
fn overwriting_arg() {
    // function foo(bar) ( bar = 1; );
    let mut f = fun("foo", vec![arg("bar", false, 14)], no_mods());
    f.scope.accesses = vec![access_to_arg("bar", written(), 0, false)];
    let p = program(vec![f], vec![]);
    assert!(has(&p, overwriting_arg::lint, IssueKind::OverwritingArg));
}

#[test]
fn overwriting_ref_arg_no_warning() {
    // function foo(bar*) ( bar = 1; );
    let mut f = fun("foo", vec![arg("bar", true, 14)], no_mods());
    f.scope.accesses = vec![access_to_arg("bar", written(), 0, true)];
    let p = program(vec![f], vec![]);
    assert!(!has(&p, overwriting_arg::lint, IssueKind::OverwritingArg));
}

#[test]
fn ref_arg_in_local() {
    // function foo(bar) local(bar*) ( 0 );
    let p = program(vec![fun("foo", vec![arg("bar", false, 14)], local(vec![arg("bar", true, 25)], 19))], vec![]);
    assert!(has(&p, ref_arg_in_incompatible_mod::lint, IssueKind::RefArgInIncompatibleModifier));
}

#[test]
fn ref_arg_in_instance() {
    // function foo(bar) instance(bar*) ( 0 );
    let mods = Modifiers {
        global: None,
        local: None,
        instance: Some(vec![Modifier { args: vec![arg("bar", true, 28)], location: loc(2, 19) }]),
    };
    let p = program(vec![fun("foo", vec![arg("bar", false, 14)], mods)], vec![]);
    assert!(has(&p, ref_arg_in_incompatible_mod::lint, IssueKind::RefArgInIncompatibleModifier));
}

#[test]
fn string_id_in_local() {
    // function foo() local(#lol) ( 0 );
    let p = program(vec![fun("foo", vec![], local(vec![arg("#lol", false, 22)], 16))], vec![]);
    assert!(has(&p, string_arg_in_local_mod::lint, IssueKind::StringArgInLocalMod));
}

fn a_args(n: usize) -> Vec<Arg> {
    (0..n).map(|i| arg("a", false, 12 + 2 * i)).collect()
}

#[test]
fn almost_too_many() {
    // function b(a, ..., a) (0);  with 40 arguments, called with 40 parameters
    let p = program(vec![fun("b", a_args(40), no_mods())], vec![]);
    assert!(!has(&p, too_many_params::lint, IssueKind::TooManyParams));
}

#[test]
fn too_many() {
    // function a(a, ..., a) (0);  with 41 arguments, called with 41 parameters
    let p = program(vec![fun("a", a_args(41), no_mods())], vec![]);
    assert!(has(&p, too_many_params::lint, IssueKind::TooManyParams));
}

#[test]
fn unknown_function() {
    // foo();
    let p = program(vec![], vec![call_to(None, "foo")]);
    assert!(has(&p, unknown_function::lint, IssueKind::UnknownFunction));
}

#[test]
fn unreachable_while_function() {
    // function while() ( 0; );
    let p = program(vec![fun("while", vec![], no_mods())], vec![]);
    assert!(has(&p, unreachable_function::lint, IssueKind::UnreachableFunction));
}

#[test]
fn unreachable_loop_function() {
    // function loop(a, b) ( 0; );
    let p = program(vec![fun("loop", vec![arg("a", false, 15), arg("b", false, 18)], no_mods())], vec![]);
    assert!(has(&p, unreachable_function::lint, IssueKind::UnreachableFunction));
}

#[test]
fn unused_arg() {
    // function foo(bar) ( 0; ); foo(0);
    let def = fun("foo", vec![arg("bar", false, 14)], no_mods());
    let called = fun("foo", vec![arg("bar", false, 14)], no_mods());
    let p = program(vec![def], vec![call_to(Some(called), "foo")]);
    assert!(has(&p, unused_args::lint, IssueKind::ArgNeverRead));
}

#[test]
fn used_ref_arg() {
    // function foo(bar*) ( bar = 0; ); foo(baz);
    let mut f = fun("foo", vec![arg("bar", true, 14)], no_mods());
    f.scope.accesses = vec![access_to_arg("bar", written(), 0, true)];
    let called = {
        let mut g = fun("foo", vec![arg("bar", true, 14)], no_mods());
        g.scope.accesses = vec![access_to_arg("bar", written(), 0, true)];
        g
    };
    let p = program(vec![f], vec![call_to(Some(called), "foo")]);
    assert!(!has(&p, unused_args::lint, IssueKind::ArgNeverRead));
}

#[test]
fn unused_function() {
    // function foo() ( 0; );
    let p = program(vec![fun("foo", vec![], no_mods())], vec![]);
    assert!(has(&p, unused_function::lint, IssueKind::UnusedFunction));
}

fn with_mods(local: Option<Vec<Arg>>, instance: Option<Vec<Arg>>, global: Option<Vec<Arg>>) -> Modifiers {
    let one = |args: Vec<Arg>, column: usize| vec![Modifier { args, location: loc(2, column) }];
    Modifiers { local: local.map(|a| one(a, 20)), instance: instance.map(|a| one(a, 30)), global: global.map(|a| one(a, 40)) }
}

fn shadowing(args: Vec<Arg>, mods: Modifiers) -> (bool, bool) {
    let p = program(vec![fun("foo", args, mods)], vec![]);
    let mut issues = IssueTracker::new();
    jsfx_lint::lints::shadowed_args::lint(&p, &mut issues);
    (issues.has(&IssueKind::FullyShadowedArgument), issues.has(&IssueKind::PartiallyShadowedArgument))
}

fn bar(is_ref: bool) -> Arg {
    arg("bar", is_ref, 14)
}

#[test]
fn shadowed_args_this() {
    // function foo(this) (0);
    assert!(shadowing(vec![arg("this", false, 14)], no_mods()).0);
}

#[test]
fn this_dot() {
    // function foo(this.) (0);
    assert!(shadowing(vec![arg("this.", false, 14)], no_mods()).0);
}

#[test]
fn local_this_dot() {
    // function foo() local(this.) (0);
    assert!(shadowing(vec![], with_mods(Some(vec![arg("this.", false, 22)]), None, None)).0);
}

#[test]
fn local_this() {
    // function foo() local(this) (0);
    assert!(shadowing(vec![], with_mods(Some(vec![arg("this", false, 22)]), None, None)).0);
}

#[test]
fn local_by_arg() {
    // function foo(bar) local(bar) (0);
    assert!(shadowing(vec![bar(false)], with_mods(Some(vec![arg("bar", false, 25)]), None, None)).0);
}

#[test]
fn instance_this_dot() {
    // function foo() instance(this.) (0);
    assert!(shadowing(vec![], with_mods(None, Some(vec![arg("this.", false, 25)]), None)).0);
}

#[test]
fn instance_this() {
    // function foo() instance(this) (0);
    assert!(shadowing(vec![], with_mods(None, Some(vec![arg("this", false, 25)]), None)).0);
}

#[test]
fn instance_by_ref_arg() {
    // function foo(bar*) instance(bar) (0);
    assert!(shadowing(vec![bar(true)], with_mods(None, Some(vec![arg("bar", false, 29)]), None)).0);
}

#[test]
fn instance_by_arg() {
    // function foo(bar) instance(bar) (0);
    assert!(shadowing(vec![bar(false)], with_mods(None, Some(vec![arg("bar", false, 28)]), None)).1);
}

#[test]
fn instance_by_local() {
    // function foo() local(bar) instance(bar) (0);
    assert!(shadowing(vec![], with_mods(Some(vec![arg("bar", false, 22)]), Some(vec![arg("bar", false, 36)]), None)).1);
}

#[test]
fn global_this_dot() {
    // function foo() global(this.) (0);
    assert!(shadowing(vec![], with_mods(None, None, Some(vec![arg("this.", false, 23)]))).0);
}

#[test]
fn global_this() {
    // function foo() global(this) (0);
    assert!(shadowing(vec![], with_mods(None, None, Some(vec![arg("this", false, 23)]))).0);
}

#[test]
fn global_by_arg() {
    // function foo(bar) global(bar) (0);
    assert!(shadowing(vec![bar(false)], with_mods(None, None, Some(vec![arg("bar", false, 26)]))).0);
}

#[test]
fn global_by_ref_arg() {
    // function foo(bar*) global(bar) (0);
    assert!(shadowing(vec![bar(true)], with_mods(None, None, Some(vec![arg("bar", false, 27)]))).0);
}

#[test]
fn global_ref_by_ref_arg() {
    // function foo(bar*) global(bar*) (0);
    assert!(shadowing(vec![bar(true)], with_mods(None, None, Some(vec![arg("bar", true, 27)]))).1);
}

#[test]
fn global_ref_by_arg() {
    // function foo(bar) global(bar*) (0);
    assert_eq!(shadowing(vec![bar(false)], with_mods(None, None, Some(vec![arg("bar", true, 26)]))), (false, false));
}

#[test]
fn global_by_instance() {
    // function foo() instance(bar) global(bar) (0);
    assert!(shadowing(vec![], with_mods(None, Some(vec![arg("bar", false, 25)]), Some(vec![arg("bar", false, 37)]))).0);
}

#[test]
fn global_ref_by_instance() {
    // function foo() instance(bar) global(bar*) (0);
    assert!(shadowing(vec![], with_mods(None, Some(vec![arg("bar", false, 25)]), Some(vec![arg("bar", true, 37)]))).0);
}

#[test]
fn global_by_local() {
    // function foo() local(bar) global(bar) (0);
    assert!(shadowing(vec![], with_mods(Some(vec![arg("bar", false, 22)]), None, Some(vec![arg("bar", false, 34)]))).0);
}

#[test]
fn global_ref_by_local() {
    // function foo() local(bar) global(bar*) (0);
    assert_eq!(shadowing(vec![], with_mods(Some(vec![arg("bar", false, 22)]), None, Some(vec![arg("bar", true, 34)]))), (false, false));
}

fn sprintf(format: &str, values: usize) -> Program {
    let mut builtin = fun("sprintf", vec![], no_mods());
    builtin.is_builtin = true;
    let mut c = call_to(Some(builtin), "sprintf");
    let param = |kind: jsfx_lint::functions::ParamKind| vec![jsfx_lint::functions::Param { kind, location: loc(2, 9) }];
    c.params.push(param(jsfx_lint::functions::ParamKind::Identifier { name: "#".to_string() }));
    c.params.push(param(jsfx_lint::functions::ParamKind::StringValue { value: format.to_string() }));
    for _ in 0..values {
        c.params.push(param(jsfx_lint::functions::ParamKind::OtherValue));
    }
    program(vec![], vec![c])
}

fn sprintf_warns(p: &Program) -> bool {
    let mut issues = IssueTracker::new();
    jsfx_lint::lints::sprintf_args::lint(p, &mut issues);
    issues.has(&IssueKind::SprintfParams)
}

#[test]
fn sprintf_too_many_args() {
    // sprintf(#, "%d%X", 1, 2, 3);
    assert!(sprintf_warns(&sprintf("%d%X", 3)));
}

#[test]
fn sprintf_too_few_args() {
    // sprintf(#, "%x%c", 1);
    assert!(sprintf_warns(&sprintf("%x%c", 1)));
}

#[test]
fn sprintf_exact_args_no_warning() {
    // sprintf(#, "%x%X", 1, 2);
    assert!(!sprintf_warns(&sprintf("%x%X", 2)));
}

#[test]
fn sprintf_mixed_args_no_warning() {
    // bar = 2; sprintf(#foo, "%d.%{bar}d", 10);
    assert!(!sprintf_warns(&sprintf("%d.%{bar}d", 1)));
}

#[test]
fn sprintf_mixed_args_and_too_many() {
    // bar = 2; sprintf(#foo, "%d.%{bar}d", 10, 20);
    assert!(sprintf_warns(&sprintf("%d.%{bar}d", 2)));
}

#[test]
fn double_percent_sign_not_counted() {
    // sprintf(#foo, "%d%%", 10);
    assert!(!sprintf_warns(&sprintf("%d%%", 1)));
}

fn statements(extra_semicolon: Option<(usize, Location)>) -> Program {
    let name = |n: &str, line: usize| LocatedAst { ast: Ast::Identifier { value: n.to_string(), is_ref: false }, location: loc(line, 1) };
    let root = LocatedAst { ast: Ast::Compound { expressions: vec![name("a", 2), name("b", 3)], extra_semicolon }, location: loc(2, 1) };
    let mut p = program(vec![], vec![]);
    p.sections[0].chunks = vec![Chunk { source: String::new(), params: None, ast: Some(root), file: 0, line_pos: 1 }];
    p
}

#[test]
fn ok() {
    // a; b;
    let mut issues = IssueTracker::new();
    jsfx_lint::lints::unnecessary_semicolon::lint(&statements(None), &mut issues);
    jsfx_lint::lints::unnecessary_comma::lint(&statements(None), &mut issues);
    assert!(!issues.has(&IssueKind::UnnecessaryComma));
    assert!(!issues.has(&IssueKind::UnnecessarySemicolon));
}

#[test]
fn unnecessary_semicolon() {
    // a;; b;
    let mut issues = IssueTracker::new();
    jsfx_lint::lints::unnecessary_semicolon::lint(&statements(Some((2, loc(2, 2)))), &mut issues);
    assert!(issues.has(&IssueKind::UnnecessarySemicolon));
}

fn global_access(name: &str, accessible: bool) -> WithinFunction {
    WithinFunction {
        info: Info { accessed_as: name.to_string(), location: loc(2, 30), kind: Kind::Write { value: Value::Unknown, potential: false } },
        var_kind: VarKind::Global { accessible },
        uuid: 1,
        origin: Origin::Global,
    }
}

fn inaccessible(defs: Vec<Fun>) -> bool {
    let p = program(defs, vec![]);
    has(&p, jsfx_lint::lints::inaccessible_global::lint, IssueKind::InaccessibleGlobal)
}

#[test]
fn inaccessible_global() {
    // function foo() global(bar) ( baz = 0; );
    let mut f = fun("foo", vec![], with_mods(None, None, Some(vec![arg("bar", false, 23)])));
    f.scope.accesses = vec![global_access("baz", false)];
    assert!(inaccessible(vec![f]));
}

#[test]
fn inaccessible_global_with_empty_modifier() {
    // function foo() global() ( bar = 0; );
    let mut f = fun("foo", vec![], with_mods(None, None, Some(vec![])));
    f.scope.accesses = vec![global_access("bar", false)];
    assert!(inaccessible(vec![f]));
}

#[test]
fn accessible_global() {
    // function foo() global(bar) ( bar = 0; );
    let mut f = fun("foo", vec![], with_mods(None, None, Some(vec![arg("bar", false, 23)])));
    f.scope.accesses = vec![global_access("bar", true)];
    assert!(!inaccessible(vec![f]));
}

fn ast(a: Ast, column: usize) -> LocatedAst {
    LocatedAst { ast: a, location: loc(2, column) }
}

fn arg_ast(name: &str, column: usize, leading: Option<usize>, trailing: Option<usize>) -> LocatedAst {
    let identifier = Box::new(ast(Ast::Identifier { value: name.to_string(), is_ref: false }, column));
    ast(
        Ast::Arg {
            identifier,
            leading_commas: leading.map(|n| (n, loc(2, column - n))),
            trailing_comma: trailing.map(|n| (n, loc(2, column + 1))),
        },
        column,
    )
}

fn commas(text: &str, column: usize) -> Option<Box<LocatedAst>> {
    Some(Box::new(ast(Ast::Unnecessary { lex: text.to_string() }, column)))
}

fn commas_warned(args: Option<Vec<LocatedAst>>, modifiers: Option<Vec<LocatedAst>>, arg_commas: Option<Box<LocatedAst>>) -> bool {
    let def = ast(
        Ast::Fun {
            identifier: Box::new(ast(Ast::Identifier { value: "foo".to_string(), is_ref: false }, 10)),
            modifiers,
            body: Box::new(ast(Ast::Number("0".to_string()), 30)),
            args,
            commas: arg_commas,
            parens: true,
            uuid: 1,
        },
        1,
    );
    let mut p = program(vec![], vec![]);
    p.sections[0].chunks = vec![Chunk { source: String::new(), params: None, ast: Some(def), file: 0, line_pos: 1 }];
    has(&p, jsfx_lint::lints::unnecessary_comma::lint, IssueKind::UnnecessaryComma)
}

fn local_mod(args: Option<Vec<LocatedAst>>, mod_commas: Option<Box<LocatedAst>>) -> Option<Vec<LocatedAst>> {
    Some(vec![ast(Ast::FunMod { kind: jsfx_lint::functions::ModifierKind::Local, args, commas: mod_commas }, 16)])
}

#[test]
fn arg_list() {
    // function foo(a,,b) ( 0; );
    assert!(commas_warned(Some(vec![arg_ast("a", 14, None, None), arg_ast("b", 17, Some(2), None)]), None, None));
}

#[test]
fn mod_arg_list() {
    // function foo() local(a,,b) ( 0; );
    let args = Some(vec![arg_ast("a", 22, None, None), arg_ast("b", 25, Some(2), None)]);
    assert!(commas_warned(None, local_mod(args, None), None));
}

#[test]
fn only_commas_in_args() {
    // function foo(,,,) ( 0; );
    assert!(commas_warned(None, None, commas(",,,", 14)));
}

#[test]
fn only_commas_in_mod_args() {
    // function foo() local(,,,) ( 0; );
    assert!(commas_warned(None, local_mod(None, commas(",,,", 22)), None));
}

#[test]
fn after() {
    // function foo(a,,) ( 0; );
    assert!(commas_warned(Some(vec![arg_ast("a", 14, None, Some(2))]), None, None));
}

#[test]
fn after_mod_arg() {
    // function foo() local(a,,) ( 0; );
    assert!(commas_warned(None, local_mod(Some(vec![arg_ast("a", 22, None, Some(2))]), None), None));
}

fn with_context(name: &str, sections: Vec<&str>) -> Fun {
    let mut f = fun(name, vec![], no_mods());
    f.is_builtin = true;
    f.context = MaybeContext::Known(jsfx_lint::context::Context::from_vec(sections));
    f
}

fn builtin_var(name: &str, sections: Vec<&str>) -> jsfx_lint::variables::BuiltinVar {
    jsfx_lint::variables::BuiltinVar {
        name: name.to_string(),
        context: Some(jsfx_lint::context::Context::from_vec(sections)),
        writable: true,
        readable: true,
    }
}

fn read_global(name: &str) -> WithinFunction {
    WithinFunction {
        info: Info { accessed_as: name.to_string(), location: loc(3, 9), kind: Kind::Read },
        var_kind: VarKind::Global { accessible: true },
        uuid: 1,
        origin: Origin::Global,
    }
}

/// Gathers the context of `foo`, which makes `calls` and reads the globals `reads`, then
/// runs the lint on a program that defines it.
fn contexts_clash(calls: Vec<FunCall>, reads: Vec<&str>) -> bool {
    let vars = vec![
        builtin_var("spl0", vec!["sample"]),
        builtin_var("mouse_cap", vec!["gfx"]),
        builtin_var("beat_position", vec!["serialize", "block", "sample", "gfx", "slider"]),
        builtin_var("tempo", vec!["serialize", "block", "sample", "gfx", "slider"]),
    ];
    let mut f = fun("foo", vec![], no_mods());
    f.scope.accesses = reads.into_iter().map(read_global).collect();
    f.context = jsfx_lint::functions::context::collect(&calls, &vars, &f);
    let p = program(vec![f], vec![]);
    has(&p, jsfx_lint::lints::incompatible_contexts::lint, IssueKind::IncompatibleContexts)
}

#[test]
fn incompatible_functions() {
    // function foo() ( spl(0); set_host_numchan(0); );
    let calls = vec![call_to(Some(with_context("spl", vec!["sample"])), "spl"), call_to(Some(with_context("set_host_numchan", vec!["gfx"])), "set_host_numchan")];
    assert!(contexts_clash(calls, vec![]));
}

#[test]
fn incompatible_builtin() {
    // function foo() ( _ = spl0; _ = mouse_cap; );
    assert!(contexts_clash(vec![], vec!["spl0", "mouse_cap"]));
}

#[test]
fn incompatible_mixed() {
    // function foo() ( spl(0); _ = mouse_cap; );
    assert!(contexts_clash(vec![call_to(Some(with_context("spl", vec!["sample"])), "spl")], vec!["mouse_cap"]));
}

#[test]
fn compatible() {
    // function foo() ( _ = beat_position; _ = tempo; );
    assert!(!contexts_clash(vec![], vec!["beat_position", "tempo"]));
}

#[test]
fn incompatible_contexts_nested() {
    // function foo() ( spl(0) ); function bar() ( set_host_numchan(0) ); function baz() ( foo(); bar(); );
    let mut foo = fun("foo", vec![], no_mods());
    foo.context = MaybeContext::Known(jsfx_lint::context::Context::from_vec(vec!["sample"]));
    let mut bar = fun("bar", vec![], no_mods());
    bar.context = MaybeContext::Known(jsfx_lint::context::Context::from_vec(vec!["gfx"]));
    assert!(contexts_clash(vec![call_to(Some(foo), "foo"), call_to(Some(bar), "bar")], vec![]));
}

/// Whether the call `accessed_as` (with `prefix`), made in a function with the
/// `instance()` argument `instance_arg`, names that argument once set up.
fn names_instance(instance_arg: &str, accessed_as: &str, prefix: Option<&str>) -> bool {
    let parent = fun("foo", vec![], with_mods(None, Some(vec![arg(instance_arg, false, 25)]), None));
    let mut c = call_to(Some(fun("nested", vec![], no_mods())), accessed_as);
    c.prefix = prefix.map(|p| p.to_string());
    c.finish_setup(Some(&parent));
    assert!(matches!(c.depth, Depth::Nested { parent_fun: 1 }));
    c.name_matches_instance_arg
}

#[test]
fn matches_instance_arg() {
    // function foo() instance(nested) ( nested() );
    assert!(names_instance("nested", "nested", None));
}

#[test]
fn non_match_instance_arg() {
    // function foo() instance(nest) ( nested() );
    assert!(!names_instance("nest", "nested", None));
}

#[test]
fn with_prefix() {
    // function foo() instance(inner.nested) ( inner.nested() );
    assert!(names_instance("inner.nested", "inner.nested", Some("inner")));
}

#[test]
fn partial() {
    // function foo() instance(inner) ( inner.nested() );
    assert!(names_instance("inner", "inner.nested", Some("inner")));
}

#[test]
fn almost_partial() {
    // function foo() instance(inner.) ( inner.nested() );
    assert!(!names_instance("inner.", "inner.nested", Some("inner")));
}

fn local_access(name: &str, kind: Kind, var_kind: VarKind) -> WithinFunction {
    WithinFunction { info: Info { accessed_as: name.to_string(), location: loc(3, 3), kind }, var_kind, uuid: 1, origin: Origin::Undetermined }
}

/// Runs the unused-modifier-argument lint on a program that defines `f`, called from
/// `calls`.
fn unused_mod_arg(f: Fun, calls: Vec<FunCall>) -> bool {
    let p = program(vec![f], calls);
    has(&p, jsfx_lint::lints::unused_modifier_arg::lint, IssueKind::UnusedModifierArg)
}

#[test]
fn unused_local() {
    // function foo() local(bar) ( 0; ); foo();
    assert!(unused_mod_arg(fun("foo", vec![], with_mods(Some(vec![arg("bar", false, 22)]), None, None)), vec![]));
}

#[test]
fn unused_instance() {
    // function foo() instance(bar) ( 0; ); foo();
    assert!(unused_mod_arg(fun("foo", vec![], with_mods(None, Some(vec![arg("bar", false, 25)]), None)), vec![]));
}

#[test]
fn unused_global() {
    // function foo() global(bar) ( 0; ); foo();
    assert!(unused_mod_arg(fun("foo", vec![], with_mods(None, None, Some(vec![arg("bar", false, 23)]))), vec![]));
}

#[test]
fn used_local() {
    // function foo() local(bar) ( bar = 1; _ = bar; );
    let mut f = fun("foo", vec![], with_mods(Some(vec![arg("bar", false, 22)]), None, None));
    f.scope.accesses = vec![
        local_access("bar", Kind::Write { value: Value::Unknown, potential: false }, VarKind::Local),
        local_access("bar", Kind::Read, VarKind::Local),
    ];
    assert!(!unused_mod_arg(f, vec![]));
}

#[test]
fn used_global() {
    // function foo() global(srate) ( this = srate; );
    let mut f = fun("foo", vec![], with_mods(None, None, Some(vec![arg("srate", false, 23)])));
    f.scope.accesses = vec![local_access("srate", Kind::Read, VarKind::Global { accessible: true })];
    assert!(!unused_mod_arg(f, vec![]));
}

#[test]
fn used_ref_global() {
    // function foo() global(ref*) ( bar(ref.inner1, ref.inner2); );
    let mut f = fun("foo", vec![], with_mods(None, None, Some(vec![arg("ref", true, 23)])));
    f.scope.accesses = vec![
        local_access("ref.inner1", Kind::Read, VarKind::Global { accessible: true }),
        local_access("ref.inner2", Kind::Read, VarKind::Global { accessible: true }),
    ];
    assert!(!unused_mod_arg(f, vec![]));
}

#[test]
fn has_global_match() {
    // function foo() global(bar.fun) ( bar.fun(); ); foo();
    let f = fun("foo", vec![], with_mods(None, None, Some(vec![arg("bar.fun", false, 23)])));
    let mut c = call_to(Some(fun("fun", vec![], no_mods())), "bar.fun");
    c.prefix = Some("bar".to_string());
    c.depth = Depth::Nested { parent_fun: 1 };
    c.name_matches_global_arg = true;
    assert!(!unused_mod_arg(f, vec![c]));
}

#[test]
fn used_as_ref() {
    // function foo() local(bar) ( gfx_measurestr(str, bar, _); );  (the builtin reads and
    // writes what it is given by reference)
    let mut f = fun("foo", vec![], with_mods(Some(vec![arg("bar", false, 22)]), None, None));
    f.scope.accesses = vec![
        local_access("bar", Kind::PassedByRef, VarKind::Local),
        local_access("bar", Kind::Read, VarKind::Local),
        local_access("bar", Kind::Write { value: Value::Unknown, potential: false }, VarKind::Local),
    ];
    assert!(!unused_mod_arg(f, vec![]));
}

#[test]
fn used_as_instance_match() {
    // function on_instance() instance(nested) ( nested(); );
    let f = fun("on_instance", vec![], with_mods(None, Some(vec![arg("nested", false, 33)]), None));
    let mut c = call_to(Some(fun("nested", vec![], no_mods())), "nested");
    c.depth = Depth::Nested { parent_fun: 1 };
    c.name_matches_instance_arg = true;
    assert!(!unused_mod_arg(f, vec![c]));
}

fn write_kind() -> Kind {
    Kind::Write { value: Value::Unknown, potential: false }
}

/// Runs the casing lint on a program that defines `f` (called once as `call_name`, if
/// given) and holds the global `variables`.
fn casing_issue(f: Fun, call_name: Option<&str>, variables: Vec<jsfx_lint::program::Variable>) -> bool {
    let calls = match call_name {
        Some(n) => vec![call_to(Some(fun(&f.name, f.args.iter().map(|a| arg(&a.name, a.is_ref, 14)).collect(), no_mods())), n)],
        None => vec![],
    };
    let mut p = program(vec![f], calls);
    p.scope.variables = variables;
    has(&p, jsfx_lint::lints::inconsistent_casing::lint, IssueKind::InconsistentCasing)
}

fn with_access(mut f: Fun, name: &str, var_kind: VarKind) -> Fun {
    f.scope.accesses.push(local_access(name, write_kind(), var_kind));
    f
}

fn top_access(name: &str, kind: Kind) -> jsfx_lint::access::TopLevel {
    jsfx_lint::access::TopLevel {
        origin: Origin::Global,
        info: Info { accessed_as: name.to_string(), location: loc(4, 1), kind },
        section: SectionKind::Init,
    }
}

#[test]
fn inconsistent_fn_casing() {
    // function foo() ( bar = 0; ); Foo();
    assert!(casing_issue(fun("foo", vec![], no_mods()), Some("Foo"), vec![]));
}

#[test]
fn inconsistent_var_casing() {
    // foo = 0; bar = Foo;
    let foo = jsfx_lint::program::Variable { name: "foo".to_string(), accesses: vec![top_access("foo", write_kind()), top_access("Foo", Kind::Read)] };
    let bar = jsfx_lint::program::Variable { name: "bar".to_string(), accesses: vec![top_access("bar", write_kind())] };
    let p = program(vec![], vec![]);
    let mut p = p;
    p.scope.variables = vec![foo, bar];
    assert!(has(&p, jsfx_lint::lints::inconsistent_casing::lint, IssueKind::InconsistentCasing));
}

#[test]
fn inconsistent_arg_casing() {
    // function foo(Bar) ( bar = 0; );
    let f = with_access(fun("foo", vec![arg("Bar", false, 14)], no_mods()), "bar", VarKind::Arg { arg_index: 0 });
    assert!(casing_issue(f, None, vec![]));
}

#[test]
fn inconsistent_ref_arg_casing() {
    // function foo(bar*) ( Bar = 0; );
    let f = with_access(fun("foo", vec![arg("bar", true, 14)], no_mods()), "Bar", VarKind::RefArg { suffix: String::new(), arg_index: 0 });
    assert!(casing_issue(f, None, vec![]));
}

#[test]
fn inconsistent_ref_arg_with_suffix_casing() {
    // function foo(bar*) ( Bar.baz = 0; );
    let f = with_access(fun("foo", vec![arg("bar", true, 14)], no_mods()), "Bar.baz", VarKind::RefArg { suffix: ".baz".to_string(), arg_index: 0 });
    assert!(casing_issue(f, None, vec![]));
}

#[test]
fn inconsistent_modifier_arg_casing() {
    // function foo() local(bar) ( Bar = 0; );
    let f = with_access(fun("foo", vec![], with_mods(Some(vec![arg("bar", false, 22)]), None, None)), "Bar", VarKind::Local);
    assert!(casing_issue(f, None, vec![]));
}

#[test]
fn inconsistent_modifier_arg_with_suffix_casing() {
    // function foo() instance(bar) ( Bar.baz = 0; );
    let f = with_access(
        fun("foo", vec![], with_mods(None, Some(vec![arg("bar", false, 25)]), None)),
        "Bar.baz",
        VarKind::Instance { suffix: Some("baz".to_string()) },
    );
    assert!(casing_issue(f, None, vec![]));
}

#[test]
fn inconsistent_instance_arg_casing() {
    // function foo() instance(bar) ( Bar = 0; );
    let f = with_access(fun("foo", vec![], with_mods(None, Some(vec![arg("bar", false, 25)]), None)), "Bar", VarKind::Instance { suffix: None });
    assert!(casing_issue(f, None, vec![]));
}

#[test]
fn consistent_casing() {
    // function foo() ( bar = 0; ); foo();
    let bar = jsfx_lint::program::Variable { name: "bar".to_string(), accesses: vec![top_access("bar", write_kind())] };
    let f = with_access(fun("foo", vec![], no_mods()), "bar", VarKind::Global { accessible: true });
    assert!(!casing_issue(f, Some("foo"), vec![bar]));
}

#[test]
fn consistent_casing_with_suffix() {
    // function foo(bar*) ( bar.baz = 0; ); foo();
    let f = with_access(fun("foo", vec![arg("bar", true, 14)], no_mods()), "bar.baz", VarKind::RefArg { suffix: ".baz".to_string(), arg_index: 0 });
    assert!(!casing_issue(f, Some("foo"), vec![]));
}

#[test]
fn consistent_arg_casing() {
    // function foo(bar) ( bar = 0; ); foo();
    let f = with_access(fun("foo", vec![arg("bar", false, 14)], no_mods()), "bar", VarKind::Arg { arg_index: 0 });
    assert!(!casing_issue(f, Some("foo"), vec![]));
}

#[test]
fn consistent_modifier_arg_casing() {
    // function foo() global(bar) ( bar = 0; ); foo();
    let f = with_access(fun("foo", vec![], with_mods(None, None, Some(vec![arg("bar", false, 23)]))), "bar", VarKind::Global { accessible: true });
    assert!(!casing_issue(f, Some("foo"), vec![]));
}

#[test]
fn consistent_instance_casing() {
    // function foo() instance(bar) ( bar = 0; ); foo();
    let f = with_access(fun("foo", vec![], with_mods(None, Some(vec![arg("bar", false, 25)]), None)), "bar", VarKind::Instance { suffix: None });
    assert!(!casing_issue(f, Some("foo"), vec![]));
}

#[test]
fn lookalike() {
    // function foo() instance(c, Cb0) ( Cb0 = 1; );
    let mods = with_mods(None, Some(vec![arg("c", false, 15), arg("Cb0", false, 15)]), None);
    let f = with_access(fun("foo", vec![], mods), "Cb0", VarKind::Instance { suffix: None });
    assert!(!casing_issue(f, None, vec![]));
}
