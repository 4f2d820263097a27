//! The lints of global variables, builtin variables and sliders, on the programs that
//! short sources give once parsed: each test names its source.

use jsfx_lint::access::{Info, Kind, Origin, OriginDetails, TopLevel, Value};
use jsfx_lint::context::{Context, MaybeContext};
use jsfx_lint::functions::{Depth, Fun, FunCall, FunScope, Modifiers};
use jsfx_lint::issue::IssueTracker;
use jsfx_lint::issue_kind::IssueKind;
use jsfx_lint::lints::{inaccessible_builtin, sample_section_without_audio_io, sliders, unused_variable};
use jsfx_lint::location::{LineCol, Location, SectionKind};
use jsfx_lint::program::{Chunk, GlobalScope, Meta, Program, Section, Variable};
use jsfx_lint::variables::{looks_like_slider_n_var, BuiltinVar, MaybeSliderNVar};
use std::rc::Rc;

fn loc(line: usize) -> Location {
    Location { file: 0, section: Some(SectionKind::Init), line_col: LineCol { start_line: line, end_line: line, start_column: 1, end_column: 4 } }
}

fn write() -> Kind {
    Kind::Write { value: Value::Unknown, potential: false }
}

fn access(name: &str, kind: Kind, section: SectionKind) -> TopLevel {
    TopLevel { origin: Origin::Global, info: Info { accessed_as: name.to_string(), location: loc(2), kind }, section }
}

fn var(name: &str, accesses: Vec<TopLevel>) -> Variable {
    Variable { name: name.to_string(), accesses }
}

fn builtin(name: &str, readable: bool, writable: bool) -> BuiltinVar {
    BuiltinVar { name: name.to_string(), context: None, writable, readable }
}

fn builtins() -> Vec<BuiltinVar> {
    let mut v = vec![builtin("beat_position", true, false), builtin("srate", true, false), builtin("spl1", true, true)];
    for i in 1..=3 {
        v.push(BuiltinVar {
            name: format!("slider{i}"),
            context: Some(Context::from_vec(vec!["init", "serialize", "block", "sample", "gfx", "slider"])),
            writable: true,
            readable: true,
        });
    }
    v
}

fn section_with_chunk(kind: SectionKind) -> Section {
    let mut s = Section::new(kind);
    s.chunks = vec![Chunk { source: String::new(), params: None, ast: None, file: 0, line_pos: 1 }];
    s
}

fn program(kind: SectionKind, variables: Vec<Variable>, calls: Vec<FunCall>, metas: Vec<Meta>) -> Program {
    let mut s = section_with_chunk(kind);
    s.fun_calls = calls;
    Program { metas, sections: vec![s], scope: GlobalScope { variables } }
}

fn builtin_fun(name: &str) -> Fun {
    Fun {
        name: name.to_string(),
        args: Vec::new(),
        modifiers: Modifiers { global: None, local: None, instance: None },
        context: MaybeContext::NoRestriction,
        location: None,
        is_builtin: true,
        uuid: 3,
        scope: FunScope { accesses: Vec::new(), returns: Vec::new() },
        has_side_effects: false,
    }
}

fn call_builtin(name: &str) -> FunCall {
    FunCall {
        params: Vec::new(),
        fun: Some(Rc::new(builtin_fun(name))),
        prefix: None,
        uuid: 4,
        location: loc(2),
        accessed_as: name.to_string(),
        depth: Depth::TopLevel,
        name_matches_global_arg: false,
        name_matches_instance_arg: false,
    }
}

fn slider(id: usize, identifier: Option<&str>) -> Meta {
    Meta::Slider { id, identifier: identifier.map(|s| s.to_string()), desc: "Foo".to_string(), location: loc(0) }
}

fn kinds(p: &Program, lint: impl Fn(&Program, &mut IssueTracker)) -> Vec<IssueKind> {
    let mut issues = IssueTracker::new();
    lint(p, &mut issues);
    issues.issues_vec().iter().map(|i| i.kind).collect()
}

fn texts(p: &Program, lint: impl Fn(&Program, &mut IssueTracker)) -> Vec<String> {
    let mut issues = IssueTracker::new();
    lint(p, &mut issues);
    issues.issues_vec().iter().map(|i| i.text.clone()).collect()
}

fn builtin_lint(p: &Program, issues: &mut IssueTracker) {
    inaccessible_builtin::lint(p, &builtins(), issues);
}

fn unused_lint(p: &Program, issues: &mut IssueTracker) {
    unused_variable::lint(p, &builtins(), issues);
}

fn sample_lint(p: &Program, issues: &mut IssueTracker) {
    sample_section_without_audio_io::lint(p, &builtins(), issues);
}

#[test]
fn write_to_non_writable() {
    // @init beat_position = 0;
    let p = program(SectionKind::Init, vec![var("beat_position", vec![access("beat_position", write(), SectionKind::Init)])], vec![], vec![]);
    assert_eq!(texts(&p, builtin_lint), vec!["Writing to non-writable variable beat_position".to_string()]);
}

#[test]
fn write_to_non_writable_in_fn() {
    // function foo() ( beat_position = 0; ); foo();  (the write is seen at the call)
    let p = program(SectionKind::Init, vec![var("beat_position", vec![access("beat_position", Kind::Read, SectionKind::Init), access("beat_position", write(), SectionKind::Init)])], vec![], vec![]);
    assert_eq!(kinds(&p, builtin_lint), vec![IssueKind::WriteToNonWritable]);
}

#[test]
fn readable_and_writable_builtins_are_fine() {
    let p = program(SectionKind::Init, vec![var("spl1", vec![access("spl1", write(), SectionKind::Init)]), var("foo", vec![access("foo", write(), SectionKind::Init)])], vec![], vec![]);
    assert!(kinds(&p, builtin_lint).is_empty());
}

#[test]
fn sample_section_without_audio_io() {
    // @sample 0;
    let p = program(SectionKind::Sample, vec![], vec![], vec![]);
    assert_eq!(kinds(&p, sample_lint), vec![IssueKind::SampleSectionWithoutAudioIo]);
}

#[test]
fn sample_section_with_slider_next_chg() {
    // @sample slider_next_chg(0);
    let p = program(SectionKind::Sample, vec![], vec![call_builtin("slider_next_chg")], vec![]);
    assert!(kinds(&p, sample_lint).is_empty());
}

#[test]
fn sample_section_with_audio_io() {
    // @sample spl1 = 0;
    let p = program(SectionKind::Sample, vec![var("spl1", vec![access("spl1", write(), SectionKind::Sample)])], vec![], vec![]);
    assert!(kinds(&p, sample_lint).is_empty());
}

#[test]
fn sample_section_with_audio_io_fn() {
    // @sample spl(1) = 0;
    let p = program(SectionKind::Sample, vec![], vec![call_builtin("spl")], vec![]);
    assert!(kinds(&p, sample_lint).is_empty());
}

#[test]
fn sample_section_with_audio_io_read() {
    // @sample a = spl1;
    let vars = vec![var("a", vec![access("a", write(), SectionKind::Sample)]), var("spl1", vec![access("spl1", Kind::Read, SectionKind::Sample)])];
    let p = program(SectionKind::Sample, vars, vec![], vec![]);
    assert!(kinds(&p, sample_lint).is_empty());
}

#[test]
fn sample_section_with_audio_io_fn_read() {
    // @sample a = spl(1);
    let p = program(SectionKind::Sample, vec![var("a", vec![access("a", write(), SectionKind::Sample)])], vec![call_builtin("spl")], vec![]);
    assert!(kinds(&p, sample_lint).is_empty());
}

#[test]
fn global_never_read() {
    // foo = 0;
    let p = program(SectionKind::Init, vec![var("foo", vec![access("foo", write(), SectionKind::Init)])], vec![], vec![]);
    assert_eq!(texts(&p, unused_lint), vec!["`foo` is never read".to_string()]);
}

#[test]
fn global_never_written() {
    // foo = bar;
    let vars = vec![var("foo", vec![access("foo", write(), SectionKind::Init)]), var("bar", vec![access("bar", Kind::Read, SectionKind::Init)])];
    let p = program(SectionKind::Init, vars, vec![], vec![]);
    assert_eq!(
        texts(&p, unused_lint),
        vec!["`foo` is never read".to_string(), "`bar` is never assigned to and is always 0".to_string()]
    );
}

#[test]
fn builtin_no_warning() {
    // a = beat_position; a = a;
    let vars = vec![
        var("a", vec![access("a", write(), SectionKind::Init), access("a", Kind::Read, SectionKind::Init)]),
        var("beat_position", vec![access("beat_position", Kind::Read, SectionKind::Init)]),
    ];
    let p = program(SectionKind::Init, vars, vec![], vec![]);
    assert!(!kinds(&p, unused_lint).contains(&IssueKind::GlobalNeverWritten));
}

fn through_object(name: &str, kind: Kind, uuid: u128) -> TopLevel {
    TopLevel {
        origin: Origin::This(OriginDetails { uuid, global_scope_navigation_override: None }),
        info: Info { accessed_as: name.to_string(), location: loc(3), kind },
        section: SectionKind::Init,
    }
}

#[test]
fn nested_this() {
    // a_prefix.recv() writes this.inner; a_prefix.get() reads it through get_internal()
    let vars = vec![var("a_prefix.inner", vec![through_object("a_prefix.inner", write(), 1), through_object("a_prefix.inner", Kind::Read, 2)])];
    let p = program(SectionKind::Init, vars, vec![], vec![]);
    assert!(!kinds(&p, unused_lint).contains(&IssueKind::GlobalNeverWritten));
}

#[test]
fn instance_never_accessed() {
    // bar() passes its instance variable `instance` to foo(ref*), which writes it
    let vars = vec![var("instance", vec![through_object("instance", write(), 1)])];
    let p = program(SectionKind::Init, vars, vec![], vec![]);
    assert!(!kinds(&p, unused_lint).contains(&IssueKind::GlobalNeverWritten));
}

#[test]
fn ignore_underscore() {
    // _ = 0;
    let p = program(SectionKind::Init, vec![var("_", vec![access("_", write(), SectionKind::Init)])], vec![], vec![]);
    assert!(kinds(&p, unused_lint).is_empty());
}

#[test]
fn object_is_accessed() {
    // hello.bar = 10; read_bar(hello);  (read_bar reads a.bar through its reference)
    let vars = vec![var("hello.bar", vec![access("hello.bar", write(), SectionKind::Init), through_object("hello.bar", Kind::Read, 5)])];
    let p = program(SectionKind::Init, vars, vec![], vec![]);
    assert!(!kinds(&p, unused_lint).contains(&IssueKind::GlobalNeverWritten));
}

#[test]
fn unused_variable_this() {
    // function foo() ( this = 1; ); bar.foo(); _ = bar;
    let vars = vec![
        var("bar", vec![through_object("bar", write(), 1), access("bar", Kind::Read, SectionKind::Init)]),
        var("_", vec![access("_", write(), SectionKind::Init)]),
    ];
    let p = program(SectionKind::Init, vars, vec![], vec![]);
    assert!(!kinds(&p, unused_lint).contains(&IssueKind::GlobalNeverWritten));
}

#[test]
fn temp_string() {
    // sprintf(#, "Hello, World!")
    let p = program(SectionKind::Init, vec![var("#", vec![access("#", write(), SectionKind::Init)])], vec![], vec![]);
    assert!(!kinds(&p, unused_lint).contains(&IssueKind::GlobalNeverRead));
}

#[test]
fn sprintf_var() {
    // a = 10; sprintf(#, "Hello, %{a}!")
    let vars = vec![
        var("a", vec![access("a", write(), SectionKind::Init), access("a", Kind::Read, SectionKind::Init)]),
        var("#", vec![access("#", write(), SectionKind::Init)]),
    ];
    let p = program(SectionKind::Init, vars, vec![], vec![]);
    assert!(!kinds(&p, unused_lint).contains(&IssueKind::GlobalNeverRead));
}

fn slider_kinds(p: &Program) -> Vec<IssueKind> {
    kinds(p, sliders::lint)
}

#[test]
fn unused_slider() {
    // slider1:foo=0<0,1,1>Foo  @init 0;
    let p = program(SectionKind::Init, vec![], vec![], vec![slider(1, Some("foo"))]);
    assert_eq!(texts(&p, sliders::lint), vec!["slider1 (foo) is never used".to_string()]);
}

#[test]
fn unused_slider_with_n() {
    // slider1:foo=0<0,1,1>Foo  @init slider1 = 1;
    let p = program(SectionKind::Init, vec![var("slider1", vec![access("slider1", write(), SectionKind::Init)])], vec![], vec![slider(1, Some("foo"))]);
    assert!(slider_kinds(&p).contains(&IssueKind::UnusedSlider));
}

#[test]
fn used_slider() {
    // slider1:foo=0<0,1,1>Foo  @init foo = 1;
    let p = program(SectionKind::Init, vec![var("foo", vec![access("foo", write(), SectionKind::Init)])], vec![], vec![slider(1, Some("foo"))]);
    assert!(!slider_kinds(&p).contains(&IssueKind::UnusedSlider));
}

#[test]
fn unused_slider_n() {
    // slider1:0<0,1,1>Foo  @init 0;
    let p = program(SectionKind::Init, vec![], vec![], vec![slider(1, None)]);
    assert_eq!(texts(&p, sliders::lint), vec!["slider1 is never used".to_string()]);
}

#[test]
fn used_slider_n() {
    // slider1:0<0,1,1>Foo  @init slider1 = 1;
    let p = program(SectionKind::Init, vec![var("slider1", vec![access("slider1", write(), SectionKind::Init)])], vec![], vec![slider(1, None)]);
    assert!(!slider_kinds(&p).contains(&IssueKind::UnusedSlider));
}

#[test]
fn unknown_slider() {
    // slider1:0<0,1,1>Foo  @init slider2 = 10;
    let p = program(SectionKind::Init, vec![var("slider2", vec![access("slider2", write(), SectionKind::Init)])], vec![], vec![slider(1, None)]);
    assert!(slider_kinds(&p).contains(&IssueKind::UnknownSlider));
    assert!(texts(&p, sliders::lint).contains(&"slider2 doesn't exist".to_string()));
}

#[test]
fn shadowed_slider_n() {
    // slider1:foo=0<0, 2, 1{On,Off}>Foo  @init slider1 = 10;
    let p = program(SectionKind::Init, vec![var("slider1", vec![access("slider1", write(), SectionKind::Init)])], vec![], vec![slider(1, Some("foo"))]);
    assert!(slider_kinds(&p).contains(&IssueKind::ShadowedSliderN));
}

#[test]
fn looks_like_slider_n() {
    // @init slider257 = 10;
    let p = program(SectionKind::Init, vec![var("slider257", vec![access("slider257", write(), SectionKind::Init)])], vec![], vec![]);
    assert_eq!(
        texts(&p, sliders::lint),
        vec!["slider257 looks like a slider variable, but sliders only go from slider1 to slider256.".to_string()]
    );
}

#[test]
fn slider_is_called() {
    // slider1:foo=0<0,1,1>Foo  @init slider(1);
    let p = program(SectionKind::Init, vec![], vec![call_builtin("slider")], vec![slider(1, Some("foo"))]);
    assert!(!slider_kinds(&p).contains(&IssueKind::UnusedSlider));
}

#[test]
fn var_starts_with_slider() {
    // @init sliderfft = 10;
    let p = program(SectionKind::Init, vec![var("sliderfft", vec![access("sliderfft", write(), SectionKind::Init)])], vec![], vec![]);
    assert!(!slider_kinds(&p).contains(&IssueKind::LooksLikeSliderN));
}

#[test]
fn slider_names() {
    let metas = vec![slider(1, None), slider(2, Some("gain"))];
    assert_eq!(looks_like_slider_n_var(&metas, "slider1"), MaybeSliderNVar::Reaches(0));
    assert_eq!(looks_like_slider_n_var(&metas, "Slider2"), MaybeSliderNVar::Shadowed(1));
    assert_eq!(looks_like_slider_n_var(&metas, "slider3"), MaybeSliderNVar::NonExisting);
    assert_eq!(looks_like_slider_n_var(&metas, "slider256"), MaybeSliderNVar::NonExisting);
    assert_eq!(looks_like_slider_n_var(&metas, "slider0"), MaybeSliderNVar::LooksLike);
    assert_eq!(looks_like_slider_n_var(&metas, "slider01"), MaybeSliderNVar::LooksLike);
    assert_eq!(looks_like_slider_n_var(&metas, "slider1000"), MaybeSliderNVar::LooksLike);
    assert_eq!(looks_like_slider_n_var(&metas, "slider"), MaybeSliderNVar::Unrelated);
    assert_eq!(looks_like_slider_n_var(&metas, "slider1x"), MaybeSliderNVar::Unrelated);
}
