use jsfx_lint::file::File;
use jsfx_lint::issue_kind::IssueKind;
use jsfx_lint::location::SectionKind;
use jsfx_lint::program::Meta;

#[test]
fn sections_are_split_and_grouped() {
    let source = "desc:test\n@init\na = 1;\n@block\nb = 2;\n@init\nc = 3;\n";
    let (program, issues) = File::lint_with_default_config(source);
    assert_eq!(program.sections.len(), 2);
    assert_eq!(program.sections[0].kind, SectionKind::Init);
    assert_eq!(program.sections[0].chunks.len(), 2);
    assert_eq!(program.sections[0].chunks[0].line_pos, 1);
    assert_eq!(program.sections[0].chunks[1].line_pos, 5);
    assert_eq!(program.sections[1].kind, SectionKind::Block);
    assert_eq!(program.sections[1].chunks[0].source, "b = 2;");
    assert_eq!(program.sections[0].chunks[1].source, "c = 3;\n");
    assert!(!issues.has(&IssueKind::UnknownSection));
}

#[test]
fn unknown_section_is_an_error() {
    let source = "@init\n@foo\n";
    let (_, issues) = File::lint_with_default_config(source);
    assert!(issues.has(&IssueKind::UnknownSection));
    assert_eq!(issues.count(&IssueKind::UnknownSection), 1);
    let found = issues
        .issues_vec()
        .iter()
        .find(|i| i.kind == IssueKind::UnknownSection)
        .unwrap();
    assert_eq!(found.text, "Unknown section type '@foo'");
    assert_eq!(found.location.line_col.start_line, 1);
    assert_eq!(found.location.line_col.end_column, 5);
}

#[test]
fn section_name_must_end_the_word() {
    let (_, issues) = File::lint_with_default_config("@initx");
    assert!(issues.has(&IssueKind::UnknownSection));
    let (_, issues) = File::lint_with_default_config("@init");
    assert!(!issues.has(&IssueKind::UnknownSection));
}

#[test]
fn gfx_messages() {
    let (program, issues) = File::lint_with_default_config("@gfx 10 20 30");
    let texts: Vec<String> = issues.issues_vec().iter().map(|i| i.text.clone()).collect();
    assert!(texts.contains(&"@gfx requires 0 or 2 params but was called with 3 params ('10 20 30')".to_string()));
    assert_eq!(program.sections[0].chunks[0].params.as_deref(), Some("10 20 30"));
    let (_, issues) = File::lint_with_default_config("@gfx 10.3 20");
    let texts: Vec<String> = issues.issues_vec().iter().map(|i| i.text.clone()).collect();
    assert!(texts.contains(&"Expected a number for gfx parameter, found: 10.3".to_string()));
}

#[test]
fn extraneous_params_message() {
    let (_, issues) = File::lint_with_default_config("@block  42 \n");
    let texts: Vec<String> = issues.issues_vec().iter().map(|i| i.text.clone()).collect();
    assert_eq!(texts, vec!["Section @block requires 0 parameters but received '42'".to_string()]);
    let loc = issues.issues_vec()[0].location;
    assert_eq!((loc.line_col.start_column, loc.line_col.end_column), (8, 12));
}

#[test]
fn metas_are_read_before_the_first_section() {
    let source = "slider1:vol=0<0,1,0.1>Volume\nslider2:0<0,1,1>\nimport lib.jsfx-inc\n@init\nslider3:0<0,1,1>\n";
    let (program, issues) = File::lint_with_default_config(source);
    assert_eq!(program.metas.len(), 3);
    match &program.metas[0] {
        Meta::Slider { id, identifier, desc, .. } => {
            assert_eq!(*id, 1);
            assert_eq!(identifier.as_deref(), Some("vol"));
            assert_eq!(desc, "Volume");
        }
        _ => panic!("expected a slider"),
    }
    match &program.metas[2] {
        Meta::Import { path, .. } => assert_eq!(path, "lib.jsfx-inc"),
        _ => panic!("expected an import"),
    }
    assert_eq!(issues.count(&IssueKind::SliderWithoutDescription), 1);
    let found = issues
        .issues_vec()
        .iter()
        .find(|i| i.kind == IssueKind::SliderWithoutDescription)
        .unwrap();
    assert_eq!(
        found.text,
        "slider2 has no description. It will not be visible in the default UI and will not be automatable."
    );
}

#[test]
fn printable_path() {
    let mut f = File::from_str("x");
    assert_eq!(f.get_printable_path(), "");
    f.full_path = Some("/a/b.jsfx".to_string());
    assert_eq!(f.get_printable_path(), "/a/b.jsfx");
    f.short_path = Some("b.jsfx".to_string());
    assert_eq!(f.get_printable_path(), "b.jsfx");
}

#[test]
fn issues_sort_by_severity_then_location() {
    let source = "@foo\n@init 1\n@bar\n";
    let (_, mut issues) = File::lint_with_default_config(source);
    issues.sort();
    let v = issues.issues_vec();
    for w in v.windows(2) {
        let (a, b) = (&w[0], &w[1]);
        assert!(a.severity.rank() <= b.severity.rank());
        if a.severity == b.severity {
            assert!(a.location.is_before_or_at(&b.location));
        }
    }
    assert_eq!(v.len(), 3);
}

#[test]
fn sources_that_split_cleanly() {
    assert!(jsfx_lint::first_pass::check_splits("@init\nx = 1;\n@sample\ny;"));
    assert!(jsfx_lint::first_pass::check_splits(""));
    assert!(jsfx_lint::first_pass::check_splits("desc:é\r\n@init\r\né\r\n@sample\r\n"));
    // The code of `@init` would end inside the two bytes of 'é'.
    assert!(!jsfx_lint::first_pass::check_splits("@init\r\né\n@sample\n"));
}

#[test]
fn sorting_twice_is_sorting_once() {
    let source = "@foo\n@init 1\n@bar\n@baz\n";
    let (_, mut issues) = File::lint_with_default_config(source);
    issues.sort();
    let once: Vec<(usize, String)> = issues.issues_vec().iter().map(|i| (i.location.line_col.start_line, i.text.clone())).collect();
    issues.sort();
    let twice: Vec<(usize, String)> = issues.issues_vec().iter().map(|i| (i.location.line_col.start_line, i.text.clone())).collect();
    assert_eq!(once, twice);
    assert_eq!(once.len(), 4);
}
