use vstd::prelude::*;

use crate::access::TopLevel;
use crate::functions::FunCall;
use crate::issue::{lemma_extends_refl, IssueSpec, IssueTracker};
use crate::issue_kind::IssueKind;
use crate::location::{LineCol, Location, SectionKind};
use crate::program::{section_index, Meta, Program, Section, Variable};
use crate::text::{lower, starts_with, str_eq, to_lower};
use crate::variables::{builtin_of, builtin_var, BuiltinVar};

verus! {

/// Whether the call `c` does audio input or output: a call to the builtin `spl` or
/// `slider_next_chg`.
pub open spec fn audio_call(c: FunCall) -> bool {
    c.fun matches Some(f) && f.is_builtin && (f.name@ == "slider_next_chg"@ || f.name@ == "spl"@)
}

/// Whether the access `a` is made in `@sample` to a name that starts with `spl` (ASCII
/// case ignored).
pub open spec fn audio_access(a: TopLevel) -> bool {
    &&& a.section == SectionKind::Sample
    &&& lower(a.info.accessed_as@).len() >= 3
    &&& lower(a.info.accessed_as@).take(3) == "spl"@
}

/// Whether the global variable `v` is a builtin variable that `@sample` accesses as a
/// `spl` channel.
pub open spec fn audio_var(metas: Seq<Meta>, builtins: Seq<BuiltinVar>, v: Variable) -> bool {
    &&& builtin_of(metas, builtins, v.name@) is Some
    &&& exists|k: int| 0 <= k < v.accesses@.len() && #[trigger] audio_access(v.accesses@[k])
}

/// Where the issue about the section `s` stands: on the header of its first chunk.
pub open spec fn header_location(s: Section) -> Location {
    Location {
        file: s.chunks@[0].file,
        section: Some(s.kind),
        line_col: LineCol {
            start_line: s.chunks@[0].line_pos,
            start_column: 1,
            end_line: s.chunks@[0].line_pos,
            end_column: 8,
        },
    }
}

/// What the lint reports on `program`, whose builtin variables are `builtins`: an
/// `@sample` section that neither calls `spl` or `slider_next_chg` nor accesses a `spl`
/// channel variable.
pub open spec fn sample_section_issues(program: Program, builtins: Seq<BuiltinVar>) -> Seq<IssueSpec> {
    match section_index(program.sections@, SectionKind::Sample) {
        None => Seq::empty(),
        Some(i) => {
            let s = program.sections@[i];
            if (exists|k: int| 0 <= k < s.fun_calls@.len() && #[trigger] audio_call(s.fun_calls@[k])) || (exists|k: int|
                0 <= k < program.scope.variables@.len() && #[trigger] audio_var(
                    program.metas@,
                    builtins,
                    program.scope.variables@[k],
                )) {
                Seq::empty()
            } else {
                seq![
                    (
                        IssueKind::SampleSectionWithoutAudioIo,
                        header_location(s),
                        "@sample section doesn't contain any audio input/output operations. This kind of work should be done in @block"@,
                    ),
                ]
            }
        },
    }
}

/// Whether the `@sample` section of `program`, if it has one, holds a chunk.
pub open spec fn sample_has_chunk(program: Program) -> bool {
    section_index(program.sections@, SectionKind::Sample) matches Some(i) ==> program.sections@[i].chunks@.len() > 0
}

fn is_audio_call(c: &FunCall) -> (r: bool)
    ensures
        r == audio_call(*c),
{
    match &c.fun {
        Some(f) => f.is_builtin && (str_eq(f.name.as_str(), "slider_next_chg") || str_eq(f.name.as_str(), "spl")),
        None => false,
    }
}

fn is_audio_var(metas: &Vec<Meta>, builtins: &Vec<BuiltinVar>, v: &Variable) -> (r: bool)
    ensures
        r == audio_var(metas@, builtins@, *v),
{
    if builtin_var(metas, builtins, v.name.as_str()).is_none() {
        return false;
    }
    proof {
        reveal_strlit("spl");
    }
    let mut k: usize = 0;
    while k < v.accesses.len()
        invariant
            k <= v.accesses@.len(),
            builtin_of(metas@, builtins@, v.name@) is Some,
            forall|j: int| 0 <= j < k ==> !#[trigger] audio_access(v.accesses@[j]),
        decreases v.accesses@.len() - k,
    {
        proof {
            reveal_strlit("spl");
        }
        let a = &v.accesses[k];
        let name = to_lower(a.info.accessed_as.as_str());
        if a.section == SectionKind::Sample && starts_with(name.as_str(), "spl") {
            assert(audio_access(v.accesses@[k as int]));
            return true;
        }
        k += 1;
    }
    false
}

/// Reports a `@sample` section without audio input or output (no call to `spl` or
/// `slider_next_chg`, no access to a `spl` channel variable): its work belongs in
/// `@block`. `builtins` are the builtin variables.
pub fn lint(program: &Program, builtins: &Vec<BuiltinVar>, issues: &mut IssueTracker)
    requires
        old(issues).wf(),
        old(issues).registers(IssueKind::SampleSectionWithoutAudioIo),
        sample_has_chunk(*program),
    ensures
        final(issues).extends(old(issues), sample_section_issues(*program, builtins@)),
{
    proof {
        lemma_extends_refl(*issues);
    }
    let sample = match program.section(SectionKind::Sample) {
        Some(s) => s,
        None => {
            return;
        },
    };
    let ghost i = section_index(program.sections@, SectionKind::Sample)->0;
    proof {
        crate::program::lemma_section_index(program.sections@, SectionKind::Sample);
    }
    let mut k: usize = 0;
    while k < sample.fun_calls.len()
        invariant
            k <= sample.fun_calls@.len(),
            section_index(program.sections@, SectionKind::Sample) == Some(i),
            0 <= i < program.sections@.len(),
            *sample == program.sections@[i],
            issues.extends(old(issues), Seq::empty()),
            forall|j: int| 0 <= j < k ==> !#[trigger] audio_call(sample.fun_calls@[j]),
        decreases sample.fun_calls@.len() - k,
    {
        if is_audio_call(&sample.fun_calls[k]) {
            assert(audio_call(program.sections@[i].fun_calls@[k as int]));
            return;
        }
        k += 1;
    }
    let vs = &program.scope.variables;
    let mut j: usize = 0;
    while j < vs.len()
        invariant
            j <= vs@.len(),
            vs@ == program.scope.variables@,
            section_index(program.sections@, SectionKind::Sample) == Some(i),
            0 <= i < program.sections@.len(),
            *sample == program.sections@[i],
            issues.extends(old(issues), Seq::empty()),
            forall|k: int| 0 <= k < sample.fun_calls@.len() ==> !#[trigger] audio_call(sample.fun_calls@[k]),
            forall|x: int| 0 <= x < j ==> !#[trigger] audio_var(program.metas@, builtins@, vs@[x]),
        decreases vs@.len() - j,
    {
        if is_audio_var(&program.metas, builtins, &vs[j]) {
            assert(audio_var(program.metas@, builtins@, program.scope.variables@[j as int]));
            return;
        }
        j += 1;
    }
    let chunk = &sample.chunks[0];
    let location = Location {
        file: chunk.file,
        section: Some(sample.kind),
        line_col: LineCol { start_line: chunk.line_pos, start_column: 1, end_line: chunk.line_pos, end_column: 8 },
    };
    issues.add(
        IssueKind::SampleSectionWithoutAudioIo,
        &location,
        String::from_str(
            "@sample section doesn't contain any audio input/output operations. This kind of work should be done in @block",
        ),
    );
}

} // verus!
