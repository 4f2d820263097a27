use jsfx_lint::access::{Info, Kind, Origin, VarKind, WithinFunction};
use jsfx_lint::context::MaybeContext;
use jsfx_lint::functions::{Arg, Depth, Fun, FunCall, FunScope, Modifier, ModifierKind, Modifiers};
use jsfx_lint::issue::IssueTracker;
use jsfx_lint::issue_kind::IssueKind;
use jsfx_lint::lints::{
    duplicate_arg, duplicate_modifier, empty_modifier, inaccessible_global, overwriting_arg,
    ref_arg_in_incompatible_mod, shadowed_args, string_arg_in_local_mod, too_many_params,
    unknown_function, unreachable_function, unused_args, unused_function,
};
use jsfx_lint::location::{LineCol, Location, SectionKind};
use jsfx_lint::program::{GlobalScope, Program, Section};
use std::rc::Rc;

fn loc(line: usize) -> Location {
    Location {
        file: 0,
        section: Some(SectionKind::Init),
        line_col: LineCol { start_line: line, end_line: line, start_column: 1, end_column: 4 },
    }
}

fn arg(name: &str, is_ref: bool, line: usize) -> Arg {
    Arg { name: name.to_string(), is_ref, optional: false, is_str: false, location: Some(loc(line)) }
}

fn fun(name: &str, args: Vec<Arg>, modifiers: Modifiers) -> Fun {
    Fun {
        name: name.to_string(),
        args,
        modifiers,
        context: MaybeContext::NoRestriction,
        location: Some(loc(0)),
        is_builtin: false,
        uuid: 7,
        scope: FunScope { accesses: Vec::new(), returns: Vec::new() },
        has_side_effects: false,
    }
}

fn no_mods() -> Modifiers {
    Modifiers { global: None, local: None, instance: None }
}

fn program_of(defs: Vec<Fun>, calls: Vec<FunCall>) -> Program {
    let mut section = Section::new(SectionKind::Init);
    section.fun_defs = defs;
    section.fun_calls = calls;
    Program { metas: Vec::new(), sections: vec![section], scope: GlobalScope { variables: Vec::new() } }
}

fn texts(issues: &IssueTracker) -> Vec<String> {
    issues.issues_vec().iter().map(|i| i.text.clone()).collect()
}

#[test]
fn this_shadows_args() {
    let p = program_of(vec![fun("foo", vec![arg("this", false, 1), arg("This.x", false, 2), arg("thisx", false, 3)], no_mods())], vec![]);
    let mut issues = IssueTracker::new();
    shadowed_args::lint(&p, &mut issues);
    assert_eq!(
        texts(&issues),
        vec![
            "`foo()` arg `this` is fully shadowed by the `this` keyword".to_string(),
            "`foo()` arg `This.x` is fully shadowed by the `this` keyword".to_string(),
        ]
    );
}

#[test]
fn modifier_args_shadowed() {
    let mods = Modifiers {
        global: Some(vec![Modifier { args: vec![arg("A", false, 5), arg("b", true, 6), arg("c", false, 7)], location: loc(5) }]),
        local: Some(vec![Modifier { args: vec![arg("x", false, 3), arg("c", false, 8)], location: loc(3) }]),
        instance: Some(vec![Modifier { args: vec![arg("x", false, 4), arg("y", false, 9)], location: loc(4) }]),
    };
    let p = program_of(vec![fun("f", vec![arg("a", false, 1), arg("x", false, 2), arg("B", true, 2)], mods)], vec![]);
    let mut issues = IssueTracker::new();
    shadowed_args::lint(&p, &mut issues);
    assert_eq!(
        texts(&issues),
        vec![
            "local arg x is fully shadowed by `f()` arg `x`".to_string(),
            "instance arg `x` is partially shadowed by f() arg `x`".to_string(),
            "instance arg `x` is partially shadowed by local arg `x`".to_string(),
            "global arg `A` is fully shadowed by `f()` arg `A`".to_string(),
            "global arg `b` is partially shadowed by `f()` arg b".to_string(),
            "global arg `c` is fully shadowed by local arg `c`".to_string(),
        ]
    );
    assert_eq!(issues.count(&IssueKind::PartiallyShadowedArgument), 3);
}

#[test]
fn warn_this_keyword_directly() {
    let mut issues = IssueTracker::new();
    shadowed_args::warn_mod_arg_shadowed_by_this_keyword("this.a", &mut issues, &loc(1), &ModifierKind::Local);
    shadowed_args::warn_mod_arg_shadowed_by_this_keyword("that", &mut issues, &loc(1), &ModifierKind::Local);
    assert_eq!(texts(&issues), vec!["local arg `this.a` is fully shadowed by the `this` keyword".to_string()]);
}

#[test]
fn too_many_params_over_forty() {
    let many: Vec<Arg> = (0..41).map(|i| arg(&format!("a{i}"), false, 1)).collect();
    let forty: Vec<Arg> = (0..40).map(|i| arg(&format!("a{i}"), false, 1)).collect();
    let p = program_of(vec![fun("big", many, no_mods()), fun("ok", forty, no_mods())], vec![]);
    let mut issues = IssueTracker::new();
    too_many_params::lint(&p, &mut issues);
    assert_eq!(texts(&issues), vec!["Function 'big' has too many parameters (41), the maximum is 40.".to_string()]);
}

#[test]
fn empty_and_duplicate_modifiers() {
    let mods = Modifiers {
        global: Some(vec![Modifier { args: vec![], location: loc(1) }]),
        local: Some(vec![Modifier { args: vec![], location: loc(2) }, Modifier { args: vec![arg("z", false, 3)], location: loc(3) }]),
        instance: None,
    };
    let p = program_of(vec![fun("g", vec![], mods)], vec![]);
    let mut issues = IssueTracker::new();
    empty_modifier::lint(&p, &mut issues);
    assert_eq!(texts(&issues), vec!["Empty local() for g()".to_string()]);
    let mut issues = IssueTracker::new();
    duplicate_modifier::lint(&p, &mut issues);
    assert_eq!(texts(&issues), vec!["Duplicate local() modifier for g()".to_string()]);
    assert_eq!(issues.issues_vec()[0].location.line_col.start_line, 3);
}

#[test]
fn duplicate_arguments() {
    let mods = Modifiers {
        global: None,
        local: Some(vec![Modifier { args: vec![arg("t", false, 4)], location: loc(4) }, Modifier { args: vec![arg("T", false, 5)], location: loc(5) }]),
        instance: None,
    };
    let p = program_of(vec![fun("h", vec![arg("a", false, 1), arg("A", false, 2), arg("a", true, 3)], mods)], vec![]);
    let mut issues = IssueTracker::new();
    duplicate_arg::lint(&p, &mut issues);
    assert_eq!(
        texts(&issues),
        vec!["duplicate argument `a`".to_string(), "duplicate local argument: `t`".to_string()]
    );
    assert_eq!(issues.issues_vec()[0].location.line_col.start_line, 2);
    let mut issues = IssueTracker::new();
    duplicate_arg::warn_duplicate_arg_in_modifier(&ModifierKind::Local, &p.sections[0].fun_defs[0].modifiers, &mut issues);
    assert_eq!(issues.count(&IssueKind::DuplicateArgument), 1);
}

#[test]
fn string_and_ref_args_in_modifiers() {
    let mut s = arg("#s", false, 2);
    s.is_str = true;
    let mods = Modifiers {
        global: Some(vec![Modifier { args: vec![arg("g", true, 1)], location: loc(1) }]),
        local: Some(vec![Modifier { args: vec![s, arg("r", true, 3)], location: loc(2) }]),
        instance: Some(vec![Modifier { args: vec![arg("i", true, 4)], location: loc(4) }]),
    };
    let p = program_of(vec![fun("k", vec![], mods)], vec![]);
    let mut issues = IssueTracker::new();
    string_arg_in_local_mod::lint(&p, &mut issues);
    assert_eq!(texts(&issues), vec!["Strings are not allowed in local()".to_string()]);
    let mut issues = IssueTracker::new();
    ref_arg_in_incompatible_mod::lint(&p, &mut issues);
    assert_eq!(issues.count(&IssueKind::RefArgInIncompatibleModifier), 2);
}

fn call(accessed_as: &str, f: Option<Rc<Fun>>, uuid: u128) -> FunCall {
    FunCall {
        params: Vec::new(),
        fun: f,
        prefix: None,
        uuid,
        location: loc(9),
        accessed_as: accessed_as.to_string(),
        depth: Depth::TopLevel,
        name_matches_global_arg: false,
        name_matches_instance_arg: false,
    }
}

#[test]
fn unknown_and_unused_functions() {
    let used = fun("used", vec![], no_mods());
    let mut unused = fun("lonely", vec![], no_mods());
    unused.uuid = 8;
    let mut imported = fun("imported", vec![], no_mods());
    imported.uuid = 9;
    let mut l = loc(0);
    l.file = 1;
    imported.location = Some(l);
    let p = program_of(
        vec![fun("used", vec![], no_mods()), unused, imported],
        vec![call("used", Some(Rc::new(used)), 1), call("nowhere", None, 2)],
    );
    let mut issues = IssueTracker::new();
    unknown_function::lint(&p, &mut issues);
    assert_eq!(texts(&issues), vec!["Unknown function nowhere()".to_string()]);
    let mut issues = IssueTracker::new();
    unused_function::lint(&p, &mut issues);
    assert_eq!(texts(&issues), vec!["function lonely() is never used".to_string()]);
}

#[test]
fn unreachable_while_and_loop() {
    let p = program_of(
        vec![
            fun("While", vec![arg("x", false, 1)], no_mods()),
            fun("loop", vec![arg("a", false, 1), arg("b", false, 1)], no_mods()),
            fun("loop", vec![arg("a", false, 1)], no_mods()),
        ],
        vec![],
    );
    let mut issues = IssueTracker::new();
    unreachable_function::lint(&p, &mut issues);
    assert_eq!(
        texts(&issues),
        vec![
            "User defined function while(x) is unreachable".to_string(),
            "User defined function loop(a, b) is unreachable".to_string(),
        ]
    );
}

fn access(name: &str, kind: Kind, var_kind: VarKind, line: usize) -> WithinFunction {
    WithinFunction {
        info: Info { accessed_as: name.to_string(), location: loc(line), kind },
        var_kind,
        uuid: line as u128,
        origin: Origin::Undetermined,
    }
}

#[test]
fn argument_accesses() {
    let mut f = fun("m", vec![arg("a", false, 1), arg("b", false, 1), arg("c", true, 1)], no_mods());
    f.scope.accesses = vec![
        access("a", Kind::Write { value: jsfx_lint::access::Value::Unknown, potential: false }, VarKind::Arg { arg_index: 0 }, 2),
        access("a", Kind::Read, VarKind::Arg { arg_index: 0 }, 3),
        access("g", Kind::Read, VarKind::Global { accessible: false }, 4),
    ];
    let p = program_of(vec![f], vec![]);
    let mut issues = IssueTracker::new();
    overwriting_arg::lint(&p, &mut issues);
    assert_eq!(texts(&issues), vec!["Function m() overwrites argument a before reading it.".to_string()]);
    let mut issues = IssueTracker::new();
    unused_args::lint(&p, &mut issues);
    assert_eq!(
        texts(&issues),
        vec!["argument `b` is not used in `m()`".to_string(), "argument `c` is not used in `m()`".to_string()]
    );
    let mut issues = IssueTracker::new();
    inaccessible_global::lint(&p, &mut issues);
    assert_eq!(texts(&issues), vec!["Global variable g is inaccessible".to_string()]);
}

#[test]
fn args_min_max_counts() {
    let optional = || {
        let mut o = arg("o", false, 1);
        o.optional = true;
        o
    };
    let args = vec![arg("a", false, 1), optional(), arg("b", false, 1)];
    assert_eq!(jsfx_lint::functions::get_args_min_max(&args), (2, 3));
    let with_ellipsis = vec![arg("a", false, 1), arg("...", false, 1), optional()];
    assert_eq!(jsfx_lint::functions::get_args_min_max(&with_ellipsis), (1, 32));
    let many: Vec<Arg> = (0..40).map(|i| arg(&format!("a{i}"), false, 1)).collect();
    assert_eq!(jsfx_lint::functions::get_args_min_max(&many), (32, 32));
}

#[test]
fn each_repeat_of_an_argument_is_reported() {
    let p = program_of(vec![fun("r", vec![arg("x", false, 1), arg("X", false, 2), arg("x", false, 3)], no_mods())], vec![]);
    let mut issues = IssueTracker::new();
    duplicate_arg::lint(&p, &mut issues);
    // x repeats twice after the first, and once after the second
    assert_eq!(issues.count(&IssueKind::DuplicateArgument), 3);
}
