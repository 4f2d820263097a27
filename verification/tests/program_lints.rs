use jsfx_lint::access::propagation::get_accesses_from_fun_call;
use jsfx_lint::access::{Info, Kind, Origin, OriginDetails, TopLevel, Value, VarKind, WithinFunction};
use jsfx_lint::ast::{Ast, LocatedAst};
use jsfx_lint::context::{Context, ContextDemander, MaybeContext};
use jsfx_lint::functions::args::{collect_args, collect_fn_mods};
use jsfx_lint::functions::{
    Arg, Depth, Fun, FunCall, FunScope, Modifier, ModifierKind, Modifiers, Param, ParamKind,
};
use jsfx_lint::issue::IssueTracker;
use jsfx_lint::issue_kind::IssueKind;
use jsfx_lint::lints::{
    incompatible_contexts, inconsistent_casing, object_instance_unused, sprintf_args,
    unnecessary_comma, unused_modifier_arg,
};
use jsfx_lint::location::{LineCol, Location, SectionKind};
use jsfx_lint::program::{is_bound_to_slider, Chunk, GlobalScope, Meta, Program, Section, Variable};
use jsfx_lint::variables::BuiltinVar;
use jsfx_lint::lints::useless_expression::{collect_dropped, judgeable};
use std::rc::Rc;

fn loc(line: usize) -> Location {
    Location {
        file: 0,
        section: Some(SectionKind::Init),
        line_col: LineCol { start_line: line, end_line: line, start_column: 3, end_column: 6 },
    }
}

fn arg(name: &str, is_ref: bool, line: usize) -> Arg {
    Arg { name: name.to_string(), is_ref, optional: false, is_str: false, location: Some(loc(line)) }
}

fn no_mods() -> Modifiers {
    Modifiers { global: None, local: None, instance: None }
}

fn fun(name: &str, args: Vec<Arg>, modifiers: Modifiers, uuid: u128) -> Fun {
    Fun {
        name: name.to_string(),
        args,
        modifiers,
        context: MaybeContext::NoRestriction,
        location: Some(loc(0)),
        is_builtin: false,
        uuid,
        scope: FunScope { accesses: Vec::new(), returns: Vec::new() },
        has_side_effects: false,
    }
}

fn call(accessed_as: &str, prefix: Option<&str>, f: Option<Rc<Fun>>, depth: Depth) -> FunCall {
    FunCall {
        params: Vec::new(),
        fun: f,
        prefix: prefix.map(|p| p.to_string()),
        uuid: 99,
        location: loc(9),
        accessed_as: accessed_as.to_string(),
        depth,
        name_matches_global_arg: false,
        name_matches_instance_arg: false,
    }
}

fn access(name: &str, kind: Kind, var_kind: VarKind, uuid: u128, origin: Origin) -> WithinFunction {
    WithinFunction { info: Info { accessed_as: name.to_string(), location: loc(uuid as usize), kind }, var_kind, uuid, origin }
}

fn write() -> Kind {
    Kind::Write { value: Value::Unknown, potential: false }
}

fn details(uuid: u128) -> OriginDetails {
    OriginDetails { uuid, global_scope_navigation_override: None }
}

fn top(name: &str, kind: Kind, origin: Origin) -> TopLevel {
    TopLevel { origin, info: Info { accessed_as: name.to_string(), location: loc(20), kind }, section: SectionKind::Init }
}

fn program_of(defs: Vec<Fun>, calls: Vec<FunCall>, variables: Vec<Variable>) -> Program {
    let mut section = Section::new(SectionKind::Init);
    section.fun_defs = defs;
    section.fun_calls = calls;
    Program { metas: Vec::new(), sections: vec![section], scope: GlobalScope { variables } }
}

fn texts(issues: &IssueTracker) -> Vec<String> {
    issues.issues_vec().iter().map(|i| i.text.clone()).collect()
}

#[test]
fn casing_of_calls_variables_and_args() {
    let foo = fun("Foo", vec![arg("a", false, 1), arg("r", true, 1)], no_mods(), 1);
    let mut def = fun("Foo", vec![arg("a", false, 1), arg("r", true, 1)], no_mods(), 1);
    def.scope.accesses = vec![
        access("A", Kind::Read, VarKind::Arg { arg_index: 0 }, 2, Origin::Undetermined),
        access("a", Kind::Read, VarKind::Arg { arg_index: 0 }, 3, Origin::Undetermined),
        access("R.x", Kind::Read, VarKind::RefArg { suffix: ".x".to_string(), arg_index: 1 }, 4, Origin::Undetermined),
        access("r.x", Kind::Read, VarKind::RefArg { suffix: ".x".to_string(), arg_index: 1 }, 5, Origin::Undetermined),
    ];
    let var = Variable {
        name: "bar".to_string(),
        accesses: vec![
            top("bar", write(), Origin::Global),
            top("BAR", Kind::Read, Origin::Global),
            top("Bar", Kind::Read, Origin::This(details(3))),
        ],
    };
    let p = program_of(
        vec![def],
        vec![call("obj.foo", Some("obj"), Some(Rc::new(foo)), Depth::TopLevel)],
        vec![var],
    );
    let mut issues = IssueTracker::new();
    inconsistent_casing::lint(&p, &mut issues);
    assert_eq!(
        texts(&issues),
        vec![
            "Casing is inconsistent: function `Foo()` was invoked as `foo()`".to_string(),
            "Casing is inconsistent: `BAR` was originally declared as `bar`".to_string(),
            "Casing is inconsistent, argument a was accessed as A".to_string(),
            "Casing is inconsistent, ref argument r was accessed as R.x".to_string(),
        ]
    );
    assert_eq!(issues.count(&IssueKind::InconsistentCasing), 4);
}

#[test]
fn casing_of_modifier_args() {
    let mods = Modifiers {
        global: Some(vec![Modifier { args: vec![arg("gVar", false, 1)], location: loc(1) }]),
        local: Some(vec![Modifier { args: vec![arg("tmp", false, 1)], location: loc(1) }]),
        instance: Some(vec![Modifier { args: vec![arg("inst", false, 1)], location: loc(1) }]),
    };
    let mut def = fun("f", vec![], mods, 1);
    def.scope.accesses = vec![
        access("gvar", Kind::Read, VarKind::Global { accessible: true }, 2, Origin::Undetermined),
        access("TMP", Kind::Read, VarKind::Local, 3, Origin::Undetermined),
        access("tmp", Kind::Read, VarKind::Local, 4, Origin::Undetermined),
        access("INST", Kind::Read, VarKind::Instance { suffix: None }, 5, Origin::Undetermined),
        access("Inst.x", Kind::Read, VarKind::Instance { suffix: Some("x".to_string()) }, 6, Origin::Undetermined),
        access("inst.x", Kind::Read, VarKind::Instance { suffix: Some("x".to_string()) }, 7, Origin::Undetermined),
    ];
    let p = program_of(vec![def], vec![], vec![]);
    let mut issues = IssueTracker::new();
    inconsistent_casing::lint(&p, &mut issues);
    assert_eq!(
        texts(&issues),
        vec![
            "Casing is inconsistent, modifier argument `gVar` was accessed as `gvar`".to_string(),
            "Casing is inconsistent, modifier argument `tmp` was accessed as `TMP`".to_string(),
            "Casing is inconsistent, instance() argument inst was accessed as INST".to_string(),
            "Casing is inconsistent, instance() argument inst was accessed as Inst.x".to_string(),
        ]
    );
}

fn this_write_program(warned_twice: bool) -> Program {
    // function foo() ( this.bar = 1; 0; ); object1.foo(); object2.foo();
    let mut def = fun("foo", vec![], no_mods(), 1);
    def.scope.accesses = vec![access(
        "this.bar",
        write(),
        VarKind::This { suffix: Some("bar".to_string()) },
        5,
        Origin::This(details(5)),
    )];
    let called = Rc::new(fun("foo", vec![], no_mods(), 1));
    let mut variables = vec![
        Variable { name: "object1.bar".to_string(), accesses: vec![top("object1.bar", write(), Origin::This(details(5)))] },
        Variable { name: "object2.bar".to_string(), accesses: vec![top("object2.bar", write(), Origin::This(details(5)))] },
    ];
    if warned_twice {
        variables.push(Variable { name: "object1.bar".to_string(), accesses: vec![top("object1.bar", Kind::Read, Origin::Global)] });
    }
    program_of(
        vec![def],
        vec![
            call("object1.foo", Some("object1"), Some(called.clone()), Depth::TopLevel),
            call("object2.foo", Some("object2"), Some(called), Depth::TopLevel),
        ],
        variables,
    )
}

#[test]
fn object_this_never_read() {
    let p = this_write_program(false);
    assert!(p.has_top_level_calls(&p.sections[0].fun_defs[0]));
    let mut issues = IssueTracker::new();
    object_instance_unused::lint(&p, &mut issues);
    assert_eq!(
        texts(&issues),
        vec!["variables `object1.bar` and `object2.bar` are never read (accessed via foo() `this.bar`)".to_string()]
    );
}

#[test]
fn object_this_read_elsewhere_is_fine() {
    let p = this_write_program(true);
    let mut issues = IssueTracker::new();
    object_instance_unused::lint(&p, &mut issues);
    assert!(!issues.has(&IssueKind::ObjectAccessUnused));
}

#[test]
fn object_not_called_at_top_level() {
    let mut p = this_write_program(false);
    for c in p.sections[0].fun_calls.iter_mut() {
        c.depth = Depth::Nested { parent_fun: 4 };
    }
    assert!(!p.has_top_level_calls(&p.sections[0].fun_defs[0]));
    let mut issues = IssueTracker::new();
    object_instance_unused::lint(&p, &mut issues);
    assert!(issues.issues_vec().is_empty());
}

#[test]
fn object_instance_never_written_many() {
    // function foo() instance(bar) ( _ = bar; ); object1.foo() ... object7.foo();
    let mut def = fun("foo", vec![], no_mods(), 1);
    def.scope.accesses = vec![access("bar", Kind::Read, VarKind::Instance { suffix: None }, 6, Origin::Instance(details(6)))];
    let mut variables = Vec::new();
    for i in 1..=7 {
        let n = format!("object{i}.bar");
        variables.push(Variable { name: n.clone(), accesses: vec![top(&n, Kind::Read, Origin::Instance(details(6)))] });
    }
    let called = Rc::new(fun("foo", vec![], no_mods(), 1));
    let p = program_of(vec![def], vec![call("object1.foo", Some("object1"), Some(called), Depth::TopLevel)], variables);
    let mut issues = IssueTracker::new();
    object_instance_unused::lint(&p, &mut issues);
    assert_eq!(
        texts(&issues),
        vec!["variables `object1.bar`, `object2.bar`, `object3.bar`, `object4.bar`, `object5.bar`, and 2 others are never assigned to and are always 0 (accessed via foo() instance variable `bar`)".to_string()]
    );
}

#[test]
fn object_bound_to_slider_is_fine() {
    let mut p = this_write_program(false);
    p.metas.push(Meta::Slider { id: 1, identifier: Some("Object1.Bar".to_string()), desc: "d".to_string(), location: loc(0) });
    assert!(is_bound_to_slider(&p.metas, "object1.bar").is_some());
    assert!(is_bound_to_slider(&p.metas, "object2.bar").is_none());
    let mut issues = IssueTracker::new();
    object_instance_unused::lint(&p, &mut issues);
    assert!(issues.issues_vec().is_empty());
}

fn node(ast: Ast, line: usize) -> LocatedAst {
    LocatedAst { ast, location: loc(line) }
}

fn ident(name: &str) -> Box<LocatedAst> {
    Box::new(node(Ast::Identifier { value: name.to_string(), is_ref: false }, 1))
}

fn arg_node(name: &str, leading: Option<(usize, Location)>, trailing: Option<(usize, Location)>) -> LocatedAst {
    node(Ast::Arg { identifier: ident(name), leading_commas: leading, trailing_comma: trailing }, 1)
}

fn fun_node(args: Option<Vec<LocatedAst>>, modifiers: Option<Vec<LocatedAst>>, commas: Option<Box<LocatedAst>>) -> LocatedAst {
    node(
        Ast::Fun {
            identifier: ident("foo"),
            modifiers,
            body: Box::new(node(Ast::Void, 2)),
            args,
            commas,
            parens: true,
            uuid: 1,
        },
        1,
    )
}

fn program_with_chunk(root: LocatedAst) -> Program {
    let mut section = Section::new(SectionKind::Init);
    section.chunks.push(Chunk { source: String::new(), params: None, ast: Some(root), file: 0, line_pos: 0 });
    Program { metas: Vec::new(), sections: vec![section], scope: GlobalScope { variables: Vec::new() } }
}

#[test]
fn unnecessary_commas() {
    let modifier = node(
        Ast::FunMod {
            kind: ModifierKind::Instance,
            args: Some(vec![arg_node("x", None, Some((4, loc(7))))]),
            commas: None,
        },
        3,
    );
    let empty_modifier = node(
        Ast::FunMod { kind: ModifierKind::Local, args: None, commas: Some(Box::new(node(Ast::Unnecessary { lex: ",,".to_string() }, 8))) },
        3,
    );
    let root = fun_node(
        Some(vec![arg_node("a", Some((2, loc(5))), None), arg_node("b", Some((1, loc(6))), None)]),
        Some(vec![modifier, empty_modifier]),
        Some(Box::new(node(Ast::Unnecessary { lex: ",".to_string() }, 4))),
    );
    let p = program_with_chunk(root);
    let mut issues = IssueTracker::new();
    unnecessary_comma::lint(&p, &mut issues);
    assert_eq!(
        texts(&issues),
        vec![
            "Unnecessary ','".to_string(),
            "Unnecessary comma in foo() arg list".to_string(),
            "Unnecessary commas in foo() local() arg list".to_string(),
            "Unnecessary commas at the end of foo() instance() arg list".to_string(),
        ]
    );
    let starts: Vec<usize> = issues.issues_vec().iter().map(|i| i.location.line_col.start_column).collect();
    assert_eq!(starts, vec![3, 4, 3, 4]);
}

#[test]
fn unused_modifier_arguments() {
    let mods = Modifiers {
        global: Some(vec![Modifier { args: vec![arg("g1", false, 1), arg("g2", true, 2), arg("g3", false, 3)], location: loc(1) }]),
        local: Some(vec![Modifier { args: vec![arg("l1", false, 4), arg("l2", false, 5), arg("l3", false, 6), arg("l4", false, 7)], location: loc(4) }]),
        instance: Some(vec![Modifier { args: vec![arg("i1", false, 8), arg("i2", false, 9)], location: loc(8) }]),
    };
    let mut def = fun("f", vec![], mods, 1);
    def.scope.accesses = vec![
        access("G1", Kind::Read, VarKind::Global { accessible: true }, 10, Origin::Undetermined),
        access("g2.x", write(), VarKind::Global { accessible: true }, 11, Origin::Undetermined),
        access("l2", write(), VarKind::Local, 12, Origin::Undetermined),
        access("L3", Kind::Read, VarKind::Local, 13, Origin::Undetermined),
        access("l4", Kind::Read, VarKind::Local, 14, Origin::Undetermined),
        access("l4", write(), VarKind::Local, 15, Origin::Undetermined),
        access("i1.z", Kind::Read, VarKind::Instance { suffix: Some("z".to_string()) }, 16, Origin::Undetermined),
    ];
    let mut nested = call("g3", None, None, Depth::Nested { parent_fun: 1 });
    nested.name_matches_global_arg = true;
    let p = program_of(vec![def], vec![nested], vec![]);
    let mut issues = IssueTracker::new();
    unused_modifier_arg::lint(&p, &mut issues);
    assert_eq!(
        texts(&issues),
        vec![
            "local variable `l1` is not used in f()".to_string(),
            "local variable l2 is never read in f()".to_string(),
            "local variable l3 is always 0 in f".to_string(),
            "instance variable `i2` is not used in f()".to_string(),
        ]
    );
}

fn sprintf_call(format: &str, extra: usize) -> FunCall {
    let mut builtin = fun("sprintf", vec![], no_mods(), 50);
    builtin.is_builtin = true;
    let mut c = call("sprintf", None, Some(Rc::new(builtin)), Depth::TopLevel);
    c.params.push(vec![Param { kind: ParamKind::OtherValue, location: loc(1) }]);
    c.params.push(vec![Param { kind: ParamKind::StringValue { value: format.to_string() }, location: loc(1) }]);
    for _ in 0..extra {
        c.params.push(vec![Param { kind: ParamKind::OtherValue, location: loc(1) }]);
    }
    c
}

#[test]
fn sprintf_parameter_counts() {
    let p = program_of(
        vec![],
        vec![
            sprintf_call("%d%X", 3),
            sprintf_call("%x%c", 1),
            sprintf_call("%x%X", 2),
            sprintf_call("%d.%{bar}d", 1),
            sprintf_call("%d%%", 1),
            sprintf_call("100%% %s", 1),
        ],
        vec![],
    );
    let mut issues = IssueTracker::new();
    sprintf_args::lint(&p, &mut issues);
    assert_eq!(
        texts(&issues),
        vec![
            "sprintf format string has 2 parameters but was called with 3".to_string(),
            "sprintf format string has 2 parameters but was called with 1".to_string(),
        ]
    );
}

#[test]
fn context_texts() {
    assert_eq!(Context::from_vec(vec!["sample"]).to_text(), "@sample");
    assert_eq!(Context::from_vec(vec!["init", "gfx", "slider"]).to_text(), "@init, @gfx, @slider");
    assert_eq!(Context::from_vec(vec![]).to_text(), "");
    assert_eq!(Context::new().to_text(), "@init, @serialize, @block, @sample, @gfx, @slider");
}

#[test]
fn incompatible_demanders() {
    let mut f = fun("foo", vec![], no_mods(), 1);
    f.context = MaybeContext::HasIncompatibleDemanders(vec![
        ContextDemander::FunctionCall { fun_name: "spl".to_string(), context: Context::from_vec(vec!["sample"]) },
        ContextDemander::FunctionCall { fun_name: "gfx_x".to_string(), context: Context::from_vec(vec!["gfx"]) },
        ContextDemander::Variable(BuiltinVar {
            name: "beat_position".to_string(),
            context: Some(Context::from_vec(vec!["block", "sample"])),
            writable: false,
            readable: true,
        }),
    ]);
    let p = program_of(vec![f], vec![], vec![]);
    let mut issues = IssueTracker::new();
    incompatible_contexts::lint(&p, &mut issues);
    assert_eq!(
        texts(&issues),
        vec!["Function foo() has incompatible contexts: spl() only compatible in @sample, gfx_x() only compatible in @gfx and beat_position only compatible in @block, @sample".to_string()]
    );
}

#[test]
fn finish_setup_of_nested_calls() {
    let mods = Modifiers {
        global: Some(vec![Modifier { args: vec![arg("a.b", false, 1)], location: loc(1) }]),
        local: None,
        instance: Some(vec![Modifier { args: vec![arg("Foo", false, 1)], location: loc(1) }]),
    };
    let parent = fun("outer", vec![], mods, 42);
    let mut c = call("foo.bar.baz", Some("foo.bar"), None, Depth::Undetermined);
    c.finish_setup(Some(&parent));
    assert!(matches!(c.depth, Depth::Nested { parent_fun: 42 }));
    assert!(c.name_matches_instance_arg);
    assert!(!c.name_matches_global_arg);
    let mut g = call("A.B", Some("A"), None, Depth::Undetermined);
    g.finish_setup(Some(&parent));
    assert!(!g.name_matches_instance_arg);
    assert!(g.name_matches_global_arg);
    let mut t = call("x", None, None, Depth::Undetermined);
    t.finish_setup(None);
    assert!(matches!(t.depth, Depth::TopLevel));
}

#[test]
fn modifiers_and_args_from_nodes() {
    let args = vec![
        arg_node("a", None, None),
        node(
            Ast::Arg {
                identifier: Box::new(node(Ast::StringIdentifier { value: "#s".to_string(), is_ref: true }, 2)),
                leading_commas: None,
                trailing_comma: None,
            },
            2,
        ),
    ];
    let collected = collect_args(&args);
    assert_eq!(collected.len(), 2);
    assert_eq!(collected[0].name, "a");
    assert!(!collected[0].is_str && !collected[0].is_ref);
    assert_eq!(collected[1].name, "#s");
    assert!(collected[1].is_str && collected[1].is_ref);
    let mods = Some(vec![
        node(Ast::FunMod { kind: ModifierKind::Local, args: Some(vec![arg_node("x", None, None)]), commas: None }, 3),
        node(Ast::FunMod { kind: ModifierKind::Global, args: None, commas: None }, 4),
        node(Ast::FunMod { kind: ModifierKind::Local, args: Some(vec![arg_node("y", None, None)]), commas: None }, 5),
    ]);
    let m = collect_fn_mods(&mods);
    assert!(m.instance.is_none());
    assert_eq!(m.global.as_ref().unwrap().len(), 1);
    assert!(m.global.as_ref().unwrap()[0].args.is_empty());
    let local = m.local.as_ref().unwrap();
    assert_eq!(local.len(), 2);
    assert_eq!(local[0].args[0].name, "x");
    assert_eq!(local[1].args[0].name, "y");
    assert_eq!(local[1].location.line_col.start_line, 5);
}

#[test]
fn sprintf_placeholders_read_variables() {
    let mut c = sprintf_call("%{a}d and %{b.c}s %{} %d", 1);
    c.uuid = 5;
    let calls = vec![c];
    let mut accesses = Vec::new();
    let r = get_accesses_from_fun_call(&mut accesses, &calls, 5, &loc(3));
    assert!(r.is_none());
    let names: Vec<String> = accesses.iter().map(|a| a.info.accessed_as.clone()).collect();
    assert_eq!(names, vec!["a".to_string(), "b.c".to_string()]);
    assert!(accesses.iter().all(|a| matches!(a.info.kind, Kind::Read) && a.force_global_scope && a.bypass_global_modifier));
}

#[test]
fn object_variable_warned_once() {
    // function foo() instance(bar) ( _ = bar; _ = bar; ); object1.foo(); object2.foo(); object3.foo();
    let mut def = fun("foo", vec![], no_mods(), 1);
    def.scope.accesses = vec![
        access("bar", Kind::Read, VarKind::Instance { suffix: None }, 6, Origin::Instance(details(6))),
        access("bar", Kind::Read, VarKind::Instance { suffix: None }, 7, Origin::Instance(details(7))),
    ];
    let mut variables = Vec::new();
    for i in 1..=3 {
        let n = format!("object{i}.bar");
        variables.push(Variable {
            name: n.clone(),
            accesses: vec![top(&n, Kind::Read, Origin::Instance(details(6))), top(&n, Kind::Read, Origin::Instance(details(7)))],
        });
    }
    let called = Rc::new(fun("foo", vec![], no_mods(), 1));
    let p = program_of(vec![def], vec![call("object1.foo", Some("object1"), Some(called), Depth::TopLevel)], variables);
    let mut issues = IssueTracker::new();
    object_instance_unused::lint(&p, &mut issues);
    assert_eq!(issues.count(&IssueKind::ObjectAccessUnused), 1);
}

#[test]
fn context_intersections() {
    let names = ["init", "serialize", "block", "sample", "gfx", "slider"];
    let a = Context::from_vec(vec!["init", "gfx"]);
    let b = Context::from_vec(vec!["gfx", "sample"]);
    let both = a.intersect(&b);
    for n in names {
        assert_eq!(both.is_compatible_in_section(n), a.is_compatible_in_section(n) && b.is_compatible_in_section(n));
    }
    assert_eq!(both, b.intersect(&a));
    assert_eq!(a.intersect(&a), a);
    assert_eq!(a.intersect(&Context::new()), a);
    assert!(Context::from_vec(vec!["init"]).intersect(&Context::from_vec(vec!["gfx"])).is_empty());
    assert!(Context::from_vec(vec![]).is_empty());
    assert!(!a.is_empty());
    assert!(Context::new().is_compatible_with_all());
    assert!(Context::from_vec(names.to_vec()).is_compatible_with_all());
    assert!(!a.is_compatible_with_all());
}

fn name_at(name: &str, line: usize) -> LocatedAst {
    node(Ast::Identifier { value: name.to_string(), is_ref: false }, line)
}

fn number(n: &str, line: usize) -> LocatedAst {
    node(Ast::Number(n.to_string()), line)
}

fn call_node(name: &str, uuid: u128, line: usize) -> LocatedAst {
    node(Ast::FunCall { name: Box::new(name_at(name, line)), params: None, uuid }, line)
}

fn program_with_block(expressions: Vec<LocatedAst>, calls: Vec<FunCall>) -> Program {
    let mut section = Section::new(SectionKind::Init);
    section.chunks = vec![Chunk {
        source: String::new(),
        params: None,
        ast: Some(node(Ast::Compound { expressions, extra_semicolon: None }, 1)),
        file: 0,
        line_pos: 0,
    }];
    section.fun_calls = calls;
    Program { metas: Vec::new(), sections: vec![section], scope: GlobalScope { variables: Vec::new() } }
}

fn call_with_uuid(f: Fun, uuid: u128) -> FunCall {
    let mut c = call(&f.name.clone(), None, Some(Rc::new(f)), Depth::TopLevel);
    c.uuid = uuid;
    c
}

#[test]
fn useless_expressions() {
    let mut with_effects = fun("side_effect", Vec::new(), no_mods(), 1);
    with_effects.has_side_effects = true;
    let pure = fun("no_side_effect", Vec::new(), no_mods(), 2);
    let calls = vec![call_with_uuid(with_effects, 10), call_with_uuid(pure, 11)];
    let sum = |line: usize| node(Ast::Add { lhs: Box::new(number("1", line)), rhs: Box::new(name_at("x", line)) }, line);
    let guarded_call = node(
        Ast::LogicalAndOr {
            operator: jsfx_lint::ast::LogicalAndOrOperator::And,
            lhs: Box::new(number("0", 6)),
            rhs: Box::new(call_node("side_effect", 10, 6)),
        },
        6,
    );
    let p = program_with_block(
        vec![
            number("1", 2),
            name_at("a", 3),
            call_node("side_effect", 10, 4),
            call_node("no_side_effect", 11, 5),
            guarded_call,
            sum(7),
            sum(8),
            number("3", 9),
        ],
        calls,
    );
    let dropped = collect_dropped(&p);
    assert_eq!(dropped.len(), 7);
    // the sum on line 8 writes something, the one on line 7 nothing
    let writes: Vec<bool> = dropped.iter().map(|(e, _)| e.location.line_col.start_line == 8).collect();
    assert!(judgeable(&p, &writes));
    let mut issues = IssueTracker::new();
    jsfx_lint::lints::useless_expression::lint(&p, &writes, &mut issues);
    let lines: Vec<usize> = issues.issues_vec().iter().map(|i| i.location.line_col.start_line).collect();
    assert_eq!(lines, vec![2, 3, 5, 7]);
    assert!(issues.has(&IssueKind::UselessExpression));
    assert!(texts(&issues).iter().all(|t| t == "Useless expression"));
}

#[test]
fn useful_single_expression() {
    let p = program_with_block(vec![number("3", 2)], Vec::new());
    assert!(collect_dropped(&p).is_empty());
    let mut issues = IssueTracker::new();
    jsfx_lint::lints::useless_expression::lint(&p, &Vec::new(), &mut issues);
    assert!(!issues.has(&IssueKind::UselessExpression));
}

#[test]
fn missing_call_is_not_judgeable() {
    let p = program_with_block(vec![call_node("nowhere", 5, 2), number("0", 3)], Vec::new());
    let writes = vec![false; collect_dropped(&p).len()];
    assert!(!judgeable(&p, &writes));
}

#[test]
fn params_from_return_values() {
    let f = fun("foo", Vec::new(), no_mods(), 1);
    let name = name_at("x", 2);
    let text = node(
        Ast::String {
            value: "ab".to_string(),
            next: Some(Box::new(node(Ast::String { value: "cd".to_string(), next: None }, 3))),
        },
        3,
    );
    let value = number("4", 4);
    let param_returns = Some(vec![vec![&name], vec![&text, &value]]);
    let params = jsfx_lint::functions::params::collect(&param_returns, &f);
    assert_eq!(params.len(), 2);
    assert!(matches!(params[0][0].kind, ParamKind::Identifier { ref name } if name == "x"));
    assert!(matches!(params[1][0].kind, ParamKind::StringValue { ref value } if value == "abcd"));
    assert!(matches!(params[1][1].kind, ParamKind::OtherValue));
    assert_eq!(params[1][1].location, loc(4));
    assert!(jsfx_lint::functions::params::collect(&None, &f).is_empty());
}
