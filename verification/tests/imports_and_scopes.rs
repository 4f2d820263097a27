use jsfx_lint::access::propagation::get_accesses_from_param_returns;
use jsfx_lint::access::get_value_from_previous_accesses;
use jsfx_lint::access::{Info, Kind, Origin, OriginDetails, Return, ReturnKind, Undetermined, Value, VarKind};
use jsfx_lint::context::MaybeContext;
use jsfx_lint::file::{expand_tabs, File};
use jsfx_lint::first_pass::FirstPass;
use jsfx_lint::functions::{Arg, Fun, FunScope, Modifier, Modifiers};
use jsfx_lint::issue::IssueTracker;
use jsfx_lint::issue_kind::IssueKind;
use jsfx_lint::location::{LineCol, Location, SectionKind};
use jsfx_lint::program::{Chunk, Meta, Section};

fn loc(line: usize) -> Location {
    Location { file: 0, section: None, line_col: LineCol { start_line: line, end_line: line, start_column: 1, end_column: 2 } }
}

fn chunk(source: &str, file: usize) -> Chunk {
    Chunk { source: source.to_string(), params: None, ast: None, file, line_pos: 0 }
}

fn section(kind: SectionKind, chunks: Vec<Chunk>) -> Section {
    let mut s = Section::new(kind);
    s.chunks = chunks;
    s
}

fn sources(s: &Section) -> Vec<String> {
    s.chunks.iter().map(|c| c.source.clone()).collect()
}

#[test]
fn imported_init_comes_first() {
    let mut entry = FirstPass {
        metas: vec![
            Meta::Import { path: "a.jsfx-inc".to_string(), location: loc(0) },
            Meta::Import { path: "missing.jsfx-inc".to_string(), location: loc(1) },
        ],
        sections: vec![section(SectionKind::Init, vec![chunk("entry", 0)]), section(SectionKind::Block, vec![chunk("own block", 0)])],
    };
    let imported = FirstPass {
        metas: vec![],
        sections: vec![
            section(SectionKind::Init, vec![chunk("imported", 1)]),
            section(SectionKind::Block, vec![chunk("imported block", 1)]),
            section(SectionKind::Gfx, vec![chunk("imported gfx", 1)]),
        ],
    };
    let file = File::from_contents("/x/entry.jsfx".to_string(), "entry.jsfx".to_string(), "", true);
    let mut issues = IssueTracker::new();
    entry.follow_imports(&file, vec![Some(imported), None], &mut issues);
    assert_eq!(entry.sections.len(), 3);
    assert_eq!(sources(&entry.sections[0]), vec!["imported".to_string(), "entry".to_string()]);
    assert_eq!(sources(&entry.sections[1]), vec!["own block".to_string()]);
    assert_eq!(entry.sections[2].kind, SectionKind::Gfx);
    assert_eq!(issues.count(&IssueKind::ImportNotFound), 1);
    assert_eq!(issues.issues_vec()[0].text, "Import not found: missing.jsfx-inc");
}

#[test]
fn files_without_path_import_nothing() {
    let mut entry = FirstPass {
        metas: vec![Meta::Import { path: "a.jsfx-inc".to_string(), location: loc(0) }],
        sections: vec![section(SectionKind::Init, vec![chunk("entry", 0)])],
    };
    let file = File::from_str("@init\n");
    let mut issues = IssueTracker::new();
    entry.follow_imports(&file, Vec::new(), &mut issues);
    assert_eq!(sources(&entry.sections[0]), vec!["entry".to_string()]);
    assert!(issues.issues_vec().is_empty());
}

#[test]
fn tabs_become_four_spaces() {
    assert_eq!(expand_tabs("a\tb\t\tc"), "a    b        c");
    assert_eq!(expand_tabs("no tabs"), "no tabs");
    let f = File::from_contents("/d/f.jsfx".to_string(), "f.jsfx".to_string(), "\tx", false);
    assert_eq!(f.raw, "    x");
    assert_eq!(f.processed, "    x");
    assert!(!f.is_entry);
    assert_eq!(f.get_printable_path(), "f.jsfx");
}

fn info(name: &str, kind: Kind) -> Info {
    Info { accessed_as: name.to_string(), location: loc(3), kind }
}

fn undetermined(name: &str, origin: Origin) -> Undetermined {
    Undetermined { origin, info: info(name, Kind::Read), force_global_scope: false, bypass_global_modifier: false }
}

fn fun_with(args: Vec<Arg>, modifiers: Modifiers) -> Fun {
    Fun {
        name: "f".to_string(),
        args,
        modifiers,
        context: MaybeContext::NoRestriction,
        location: None,
        is_builtin: false,
        uuid: 1,
        scope: FunScope { accesses: Vec::new(), returns: Vec::new() },
        has_side_effects: false,
    }
}

fn arg(name: &str, is_ref: bool) -> Arg {
    Arg { name: name.to_string(), is_ref, optional: false, is_str: false, location: None }
}

#[test]
fn accesses_seen_from_a_function() {
    let mods = Modifiers {
        global: Some(vec![Modifier { args: vec![arg("g", false)], location: loc(0) }]),
        local: None,
        instance: None,
    };
    let f = fun_with(vec![arg("a", false), arg("r", true)], mods);
    let this = undetermined("this.x", Origin::Undetermined).to_within_function(&f, 77);
    assert!(matches!(this.var_kind, VarKind::This { suffix: Some(ref s) } if s == "x"));
    assert!(matches!(this.origin, Origin::This(OriginDetails { uuid: 77, .. })));
    assert_eq!(this.uuid, 77);
    let kept = undetermined("r.y", Origin::Ref(OriginDetails { uuid: 5, global_scope_navigation_override: None }))
        .to_within_function(&f, 78);
    assert!(matches!(kept.var_kind, VarKind::RefArg { arg_index: 1, .. }));
    assert!(matches!(kept.origin, Origin::Ref(OriginDetails { uuid: 5, .. })));
    let plain = undetermined("A", Origin::Undetermined).to_within_function(&f, 79);
    assert!(matches!(plain.var_kind, VarKind::Arg { arg_index: 0 }));
    assert!(matches!(plain.origin, Origin::Undetermined));
    let hidden = undetermined("h", Origin::Global).to_within_function(&f, 80);
    assert!(matches!(hidden.var_kind, VarKind::Global { accessible: false }));
    let mut forced = undetermined("h", Origin::Global);
    forced.force_global_scope = true;
    forced.bypass_global_modifier = true;
    assert!(matches!(forced.to_within_function(&f, 81).var_kind, VarKind::Global { accessible: true }));
}

#[test]
fn parameters_by_reference_are_passed_not_read() {
    let f = fun_with(vec![arg("a", false), arg("r", true)], Modifiers { global: None, local: None, instance: None });
    let rets = Some(vec![
        Return { location: loc(4), potential: false, kind: ReturnKind::Named("obj".to_string()) },
        Return { location: loc(4), potential: false, kind: ReturnKind::Value(Value::Unknown) },
    ]);
    let mut accesses = Vec::new();
    get_accesses_from_param_returns(&rets, 1, &mut accesses, Some(&f));
    assert_eq!(accesses.len(), 1);
    assert!(matches!(accesses[0].info.kind, Kind::PassedByRef));
    assert_eq!(accesses[0].info.accessed_as, "obj");
    get_accesses_from_param_returns(&rets, 0, &mut accesses, Some(&f));
    assert_eq!(accesses.len(), 2);
    assert!(matches!(accesses[1].info.kind, Kind::Read));
    get_accesses_from_param_returns(&None, 0, &mut accesses, None);
    assert_eq!(accesses.len(), 2);
}

fn write(name: &str, bits: u64, potential: bool) -> Undetermined {
    Undetermined {
        origin: Origin::Undetermined,
        info: info(name, Kind::Write { value: Value::Number(bits), potential }),
        force_global_scope: false,
        bypass_global_modifier: false,
    }
}

#[test]
fn a_name_is_worth_its_last_write() {
    let one = 1.0f64.to_bits();
    let two = 2.0f64.to_bits();
    let mut accesses = vec![write("a", one, false), undetermined("a", Origin::Undetermined), write("b", two, false)];
    assert!(matches!(get_value_from_previous_accesses(&"A".to_string(), &accesses), Value::Number(v) if v == one));
    assert!(matches!(get_value_from_previous_accesses(&"b".to_string(), &accesses), Value::Number(v) if v == two));
    assert!(matches!(get_value_from_previous_accesses(&"c".to_string(), &accesses), Value::Unknown));
    accesses.push(write("a", two, true));
    assert!(matches!(get_value_from_previous_accesses(&"a".to_string(), &accesses), Value::Unknown));
}

#[test]
fn members_of_a_function_ref_arg() {
    let bar = arg("bar", true);
    for s in ["bar", "BAR", "bar.baz", "bar.x"] {
        assert!(jsfx_lint::functions::identifier_refers_to_fun_ref_arg(&bar, &s.to_string()), "{}", s);
    }
    for s in ["bar.", "barx", "ba"] {
        assert!(!jsfx_lint::functions::identifier_refers_to_fun_ref_arg(&bar, &s.to_string()), "{}", s);
    }
    let plain = arg("bar", false);
    for s in ["bar", "bar.x", "bar."] {
        assert!(!jsfx_lint::functions::identifier_refers_to_fun_ref_arg(&plain, &s.to_string()), "{}", s);
    }
}

fn named_return(name: &str, line: usize) -> Return {
    Return { location: loc(line), potential: false, kind: ReturnKind::Named(name.to_string()) }
}

#[test]
fn identical_branch_returns_are_kept_as_they_are() {
    let yes = Some((Vec::new(), Some(vec![named_return("a", 1)])));
    let no = Some((Vec::new(), Some(vec![named_return("A", 2)])));
    let mut accesses = Vec::new();
    let r = jsfx_lint::access::branches::get_accesses_from_if(&None, &mut accesses, yes, no).unwrap();
    assert_eq!(r.len(), 1);
    assert!(!r[0].potential);
    assert!(matches!(r[0].kind, ReturnKind::Named(ref n) if n == "a"));
}

#[test]
fn different_branch_returns_become_potential() {
    let yes = Some((Vec::new(), Some(vec![named_return("a", 1)])));
    let no = Some((Vec::new(), Some(vec![named_return("b", 2)])));
    let mut accesses = Vec::new();
    let r = jsfx_lint::access::branches::get_accesses_from_if(&None, &mut accesses, yes, no).unwrap();
    assert_eq!(r.len(), 2);
    assert!(r[0].potential && r[1].potential);
    assert!(matches!(r[1].kind, ReturnKind::Named(ref n) if n == "b"));
}
