use jsfx_lint::file::File;
use jsfx_lint::issue_kind::IssueKind;

#[test]
fn gfx_too_many_params() {
    let source = "@gfx 10 20 30";
    let (_, issues) = File::lint_with_default_config(source);
    assert!(issues.has(&IssueKind::WrongSectionParam));
}

#[test]
fn gfx_too_few_params() {
    let source = "@gfx 10";
    let (_, issues) = File::lint_with_default_config(source);
    assert!(issues.has(&IssueKind::WrongSectionParam));
}

#[test]
fn gfx_non_int_params() {
    let source = "@gfx 10.3 20";
    let (_, issues) = File::lint_with_default_config(source);
    assert!(issues.has(&IssueKind::WrongSectionParam));
}

#[test]
fn gfx_without_param() {
    let source = "@gfx";
    let (_, issues) = File::lint_with_default_config(source);
    assert!(!issues.has(&IssueKind::WrongSectionParam));
}

#[test]
fn gfx_correct() {
    let source = "@gfx 10 20";
    let (_, issues) = File::lint_with_default_config(source);
    assert!(!issues.has(&IssueKind::WrongSectionParam));
}

#[test]
fn init_with_params() {
    let source = "@init 10";
    let (_, issues) = File::lint_with_default_config(source);
    assert!(issues.has(&IssueKind::WrongSectionParam));
}

#[test]
fn gfx_comment() {
    let source = "@gfx //----------------------------------------------------------------";
    let (_, issues) = File::lint_with_default_config(source);
    assert!(!issues.has(&IssueKind::WrongSectionParam));
}

#[test]
fn gfx_comment_after_params() {
    let source = "@gfx 1053 142 // request horizontal/vertical heights (0 means dont care)";
    let (_, issues) = File::lint_with_default_config(source);
    assert!(!issues.has(&IssueKind::WrongSectionParam));
}

#[test]
fn init_comment() {
    let source = "@init  //comment";
    let (_, issues) = File::lint_with_default_config(source);
    assert!(!issues.has(&IssueKind::WrongSectionParam));
}

#[test]
fn slider_without_description() {
    let source = "slider1:volume=0<0,1,1>";
    let (_, issues) = File::lint_with_default_config(source);
    assert!(issues.has(&IssueKind::SliderWithoutDescription));
}

#[test]
fn slider_with_description() {
    let source = "slider1:volume=0<0,1,1>Volume";
    let (_, issues) = File::lint_with_default_config(source);
    assert!(!issues.has(&IssueKind::SliderWithoutDescription));
}
