use vstd::prelude::*;

use crate::issue::{lemma_report_none, lemma_report_one, lemma_report_runs, IssueSpec, IssueTracker};
use crate::issue_kind::IssueKind;
use crate::location::{LineCol, Location, SectionKind};
use crate::numbers::{is_u64_literal, parses_as_u64};
use crate::program::{lemma_section_index, section_index, Chunk, Program};
use crate::words::{header_param_words, param_words, trim, trimmed};

verus! {

/// Where a `@gfx` header on line `line_pos` of `file` stands: the `@gfx` word.
pub open spec fn gfx_header_location(file: usize, line_pos: usize) -> Location {
    Location {
        file,
        section: Some(SectionKind::Gfx),
        line_col: LineCol { start_line: line_pos, start_column: 1, end_line: line_pos, end_column: 5 },
    }
}

/// The text of the warning about a `@gfx` parameter that is not a number.
pub open spec fn not_a_number_message(word: Seq<char>) -> Seq<char> {
    "Expected a number for gfx parameter, found: "@ + word
}

/// The warnings about the words of `ws` that are not numbers, all placed at `loc`.
pub open spec fn word_issues(ws: Seq<Seq<char>>, loc: Location) -> Seq<IssueSpec>
    decreases ws.len(),
{
    if ws.len() == 0 {
        Seq::empty()
    } else {
        word_issues(ws.drop_last(), loc) + if parses_as_u64(ws.last()) {
            Seq::empty()
        } else {
            seq![(IssueKind::WrongSectionParam, loc, not_a_number_message(ws.last()))]
        }
    }
}

/// The warnings about the parameters of a `@gfx` chunk that are not numbers.
pub open spec fn chunk_issues(c: Chunk) -> Seq<IssueSpec> {
    match c.params {
        Some(p) => word_issues(param_words(trimmed(p@)), gfx_header_location(c.file, c.line_pos)),
        None => Seq::empty(),
    }
}

/// The warnings about the parameters of the `@gfx` chunks of `cs`, chunk by chunk.
pub open spec fn chunks_issues(cs: Seq<Chunk>) -> Seq<IssueSpec>
    decreases cs.len(),
{
    if cs.len() == 0 {
        Seq::empty()
    } else {
        chunks_issues(cs.drop_last()) + chunk_issues(cs.last())
    }
}

/// What the lint reports: for each chunk of the `@gfx` section, each parameter (the
/// words of its trimmed parameters up to a comment) that is not a `u64`.
pub open spec fn gfx_parameters_issues(program: Program) -> Seq<IssueSpec> {
    match section_index(program.sections@, SectionKind::Gfx) {
        Some(i) => chunks_issues(program.sections@[i].chunks@),
        None => Seq::empty(),
    }
}

/// Warns about `@gfx` parameters that are not numbers (their count is checked when
/// the sections are split).
pub fn lint(program: &Program, issues: &mut IssueTracker)
    requires
        old(issues).wf(),
        old(issues).registers(IssueKind::WrongSectionParam),
    ensures
        final(issues).extends(old(issues), gfx_parameters_issues(*program)),
{
    proof {
        lemma_section_index(program.sections@, SectionKind::Gfx);
        lemma_report_none(old(issues).reported(), old(issues).config());
    }
    let section = match program.section(SectionKind::Gfx) {
        Some(s) => s,
        None => {
            return;
        },
    };
    let mut i: usize = 0;
    assert(section.chunks@.take(0) =~= Seq::<Chunk>::empty());
    while i < section.chunks.len()
        invariant
            i <= section.chunks@.len(),
            section.kind == SectionKind::Gfx,
            issues.wf(),
            old(issues).wf(),
            old(issues).registers(IssueKind::WrongSectionParam),
            issues.extends(old(issues), chunks_issues(section.chunks@.take(i as int))),
        decreases section.chunks@.len() - i,
    {
        let chunk = &section.chunks[i];
        let ghost before = chunks_issues(section.chunks@.take(i as int));
        assert(section.chunks@.take(i + 1).drop_last() =~= section.chunks@.take(i as int));
        if let Some(params) = &chunk.params {
            let trimmed_params = trim(params.as_str());
            let splits = header_param_words(trimmed_params.as_str());
            let ghost ws = param_words(trimmed(params@));
            let ghost loc = gfx_header_location(chunk.file, chunk.line_pos);
            let mut j: usize = 0;
            assert(ws.take(0) =~= Seq::<Seq<char>>::empty());
            while j < splits.len()
                invariant
                    j <= splits@.len(),
                    section.kind == SectionKind::Gfx,
                    loc == gfx_header_location(chunk.file, chunk.line_pos),
                    splits@.len() == ws.len(),
                    forall|k: int| 0 <= k < splits@.len() ==> #[trigger] splits@[k]@ == ws[k],
                    issues.wf(),
                    old(issues).wf(),
                    old(issues).registers(IssueKind::WrongSectionParam),
                    issues.extends(old(issues), before + word_issues(ws.take(j as int), loc)),
                decreases splits@.len() - j,
            {
                let split = &splits[j];
                assert(ws.take(j + 1).drop_last() =~= ws.take(j as int));
                assert(ws.take(j + 1).last() == ws[j as int]);
                if !is_u64_literal(split.as_str()) {
                    let location = Location {
                        file: chunk.file,
                        section: Some(section.kind),
                        line_col: LineCol {
                            start_line: chunk.line_pos,
                            start_column: 1,
                            end_line: chunk.line_pos,
                            end_column: 5,
                        },
                    };
                    let mut text = String::from_str("Expected a number for gfx parameter, found: ");
                    text.append(split.as_str());
                    let ghost t = text@;
                    let ghost x = (IssueKind::WrongSectionParam, location, t);
                    issues.add(IssueKind::WrongSectionParam, &location, text);
                    proof {
                        lemma_report_one(old(issues).reported(), old(issues).config(), before + word_issues(ws.take(j as int), loc), x);
                        assert(before + word_issues(ws.take(j + 1), loc) =~= (before + word_issues(ws.take(j as int), loc)).push(x));
                    }
                } else {
                    assert(before + word_issues(ws.take(j + 1), loc) =~= before + word_issues(ws.take(j as int), loc));
                }
                j += 1;
            }
            proof {
                assert(ws.take(j as int) =~= ws);
            }
        } else {
            assert(before + chunk_issues(*chunk) =~= before);
        }
        i += 1;
    }
    proof {
        assert(section.chunks@.take(i as int) =~= section.chunks@);
    }
}

} // verus!
