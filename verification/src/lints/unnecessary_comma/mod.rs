pub mod fun_args;
pub mod in_fun;
pub mod modifier_args;
pub mod modifiers;

use vstd::prelude::*;

use crate::issue::{lemma_extends_refl, lemma_extends_trans, IssueSpec, IssueTracker};
use crate::issue_kind::IssueKind;
use crate::location::{LineCol, Location};
use crate::program::Program;

verus! {

/// `loc` moved one column to the right at its start (past the first comma of a run).
pub open spec fn past_first(loc: Location) -> Location {
    Location {
        line_col: LineCol {
            start_line: loc.line_col.start_line,
            end_line: loc.line_col.end_line,
            start_column: (loc.line_col.start_column + 1) as usize,
            end_column: loc.line_col.end_column,
        },
        file: loc.file,
        section: loc.section,
    }
}

/// What the lint reports for a run of `commas` (their count and where they stand), in a
/// place described by `place`: a run of two commas or more, from its second comma.
pub open spec fn comma_issues(commas: Option<(usize, Location)>, place: Seq<char>) -> Seq<IssueSpec> {
    match commas {
        Some((count, loc)) => if count > 1 {
            seq![
                (
                    IssueKind::UnnecessaryComma,
                    past_first(loc),
                    "Unnecessary comma"@ + (if count > 3 {
                        "s"@
                    } else {
                        Seq::empty()
                    }) + place,
                ),
            ]
        } else {
            Seq::empty()
        },
        None => Seq::empty(),
    }
}

/// Whether the lint can handle the run of `commas`: the column past its first comma exists.
pub open spec fn commas_ok(commas: Option<(usize, Location)>) -> bool {
    commas matches Some((count, loc)) ==> (count > 1 ==> loc.line_col.start_column < usize::MAX)
}

/// Warns about a run of repeated `commas` in the place described by `place`.
pub fn warn_commas(commas: &Option<(usize, Location)>, place: &str, issues: &mut IssueTracker)
    requires
        old(issues).wf(),
        old(issues).registers(IssueKind::UnnecessaryComma),
        commas_ok(*commas),
    ensures
        final(issues).extends(old(issues), comma_issues(*commas, place@)),
{
    if let Some((count, location)) = commas {
        if *count > 1 {
            let new_location = Location {
                line_col: LineCol {
                    start_line: location.line_col.start_line,
                    end_line: location.line_col.end_line,
                    start_column: location.line_col.start_column + 1,
                    end_column: location.line_col.end_column,
                },
                file: location.file,
                section: location.section,
            };
            let mut text = String::from_str("Unnecessary comma");
            if *count > 3 {
                text.append("s");
            }
            text.append(place);
            issues.add(IssueKind::UnnecessaryComma, &new_location, text);
            return;
        }
    }
    proof {
        lemma_extends_refl(*issues);
    }
}

/// What the lint reports on `program`: the commas that function definitions hold apart
/// from their arguments, the repeated commas around their arguments, the commas that
/// modifiers hold apart from their arguments, and the repeated commas around theirs, in
/// that order.
pub open spec fn unnecessary_comma_issues(program: Program) -> Seq<IssueSpec> {
    in_fun::unnecessary_comma_in_fun_issues(program) + fun_args::unnecessary_comma_in_fun_arg_issues(
        program,
    ) + modifiers::unnecessary_comma_in_modifier_issues(program)
        + modifier_args::unnecessary_comma_in_modifier_arg_issues(program)
}

/// Whether every node of `program` can be handled by the lint.
pub open spec fn program_ok(program: Program) -> bool {
    &&& in_fun::program_ok(program)
    &&& fun_args::program_ok(program)
    &&& modifiers::program_ok(program)
    &&& modifier_args::program_ok(program)
}

/// Warns about unnecessary commas in function definitions and their modifiers.
pub fn lint(program: &Program, issues: &mut IssueTracker)
    requires
        old(issues).wf(),
        old(issues).registers(IssueKind::UnnecessaryComma),
        program_ok(*program),
    ensures
        final(issues).extends(old(issues), unnecessary_comma_issues(*program)),
{
    let ghost m0 = *issues;
    in_fun::warn_unnecessary_comma_in_fun(program, issues);
    let ghost m1 = *issues;
    fun_args::warn_unnecessary_comma_in_fun_arg(program, issues);
    proof {
        lemma_extends_trans(m0, m1, *issues, in_fun::unnecessary_comma_in_fun_issues(*program), fun_args::unnecessary_comma_in_fun_arg_issues(*program));
    }
    let ghost m2 = *issues;
    let ghost s2 = in_fun::unnecessary_comma_in_fun_issues(*program) + fun_args::unnecessary_comma_in_fun_arg_issues(*program);
    modifiers::warn_unnecessary_comma_in_modifier(program, issues);
    proof {
        lemma_extends_trans(m0, m2, *issues, s2, modifiers::unnecessary_comma_in_modifier_issues(*program));
    }
    let ghost m3 = *issues;
    let ghost s3 = s2 + modifiers::unnecessary_comma_in_modifier_issues(*program);
    modifier_args::warn_unnecessary_comma_in_modifier_arg(program, issues);
    proof {
        lemma_extends_trans(m0, m3, *issues, s3, modifier_args::unnecessary_comma_in_modifier_arg_issues(*program));
    }
}

} // verus!
