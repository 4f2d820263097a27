use vstd::prelude::*;

use crate::context::{context_text, ContextDemander, MaybeContext};
use crate::functions::Fun;
use crate::issue::{lemma_extends_refl, lemma_extends_trans, IssueSpec, IssueTracker};
use crate::issue_kind::IssueKind;
use crate::program::{defs_located, defs_located_at, fun_located, Program, Section};

verus! {

/// How the demander `d` is described: what it is, and the only sections it fits.
pub open spec fn demander_text(d: ContextDemander) -> Seq<char> {
    match d {
        ContextDemander::FunctionCall { fun_name, context } => fun_name@ + "() only compatible in "@
            + context_text(context),
        ContextDemander::Variable(v) => v.name@ + " only compatible in "@ + context_text(v.context->0),
    }
}

/// What comes before the demander at `i` of `len`: " and " before the last, ", " between
/// the others, and " " before the first.
pub open spec fn demander_sep(i: int, len: int) -> Seq<char> {
    if i == len - 1 {
        " and "@
    } else if i > 0 {
        ", "@
    } else {
        " "@
    }
}

/// The description of the first `n` demanders of `ds`.
pub open spec fn demanders_text(ds: Seq<ContextDemander>, n: int) -> Seq<char>
    decreases n,
{
    if n <= 0 {
        Seq::empty()
    } else {
        demanders_text(ds, n - 1) + demander_sep(n - 1, ds.len() as int) + demander_text(ds[n - 1])
    }
}

/// What the lint reports for `f`: a function whose body demands incompatible sections.
pub open spec fn fun_issues(f: Fun) -> Seq<IssueSpec> {
    match f.context {
        MaybeContext::HasIncompatibleDemanders(ds) => seq![
            (
                IssueKind::IncompatibleContexts,
                f.location->0,
                "Function "@ + f.name@ + "() has incompatible contexts:"@ + demanders_text(
                    ds@,
                    ds@.len() as int,
                ),
            ),
        ],
        _ => Seq::empty(),
    }
}

/// Whether every variable among the demanders of `f` has a context.
pub open spec fn demanders_ok(f: Fun) -> bool {
    f.context matches MaybeContext::HasIncompatibleDemanders(ds) ==> forall|k: int|
        0 <= k < ds@.len() ==> (#[trigger] ds@[k] matches ContextDemander::Variable(v) ==> v.context is Some)
}

/// Whether the variables among the demanders of the definition `j` of section `i` have
/// contexts.
pub open spec fn contexts_known_at(program: Program, i: int, j: int) -> bool {
    demanders_ok(program.sections@[i].fun_defs@[j])
}

/// Whether the variables among the demanders of every definition of `program` have
/// contexts.
pub open spec fn contexts_known(program: Program) -> bool {
    forall|i: int, j: int|
        0 <= i < program.sections@.len() && 0 <= j < program.sections@[i].fun_defs@.len()
            ==> #[trigger] contexts_known_at(program, i, j)
}

fn warn_fun(fun_def: &Fun, issues: &mut IssueTracker)
    requires
        old(issues).wf(),
        old(issues).registers(IssueKind::IncompatibleContexts),
        fun_located(*fun_def),
        demanders_ok(*fun_def),
    ensures
        final(issues).extends(old(issues), fun_issues(*fun_def)),
{
    let ds = match &fun_def.context {
        MaybeContext::HasIncompatibleDemanders(ds) => ds,
        _ => {
            proof {
                lemma_extends_refl(*issues);
            }
            return;
        },
    };
    let mut text = String::new();
    let n = ds.len();
    let mut i: usize = 0;
    while i < n
        invariant
            i <= n,
            n == ds@.len(),
            fun_def.context == MaybeContext::HasIncompatibleDemanders(*ds),
            demanders_ok(*fun_def),
            text@ == demanders_text(ds@, i as int),
        decreases n - i,
    {
        if i == n - 1 {
            text.append(" and ");
        } else if i > 0 {
            text.append(", ");
        } else {
            text.append(" ");
        }
        assert(ds@[i as int] == ds@[i as int]);
        match &ds[i] {
            ContextDemander::FunctionCall { fun_name, context } => {
                text.append(fun_name.as_str());
                text.append("() only compatible in ");
                text.append(context.to_text().as_str());
            },
            ContextDemander::Variable(v) => {
                let c = v.context.as_ref().unwrap();
                text.append(v.name.as_str());
                text.append(" only compatible in ");
                text.append(c.to_text().as_str());
            },
        }
        i += 1;
    }
    let location = fun_def.location.unwrap();
    let mut message = String::from_str("Function ");
    message.append(fun_def.name.as_str());
    message.append("() has incompatible contexts:");
    message.append(text.as_str());
    issues.add(IssueKind::IncompatibleContexts, &location, message);
}

/// What the lint reports for the function definitions `fs`, in order.
pub open spec fn defs_issues(fs: Seq<Fun>) -> Seq<IssueSpec>
    decreases fs.len(),
{
    if fs.len() == 0 {
        Seq::empty()
    } else {
        defs_issues(fs.drop_last()) + fun_issues(fs.last())
    }
}

/// What the lint reports for the sections `ss`, in order.
pub open spec fn sections_issues(ss: Seq<Section>) -> Seq<IssueSpec>
    decreases ss.len(),
{
    if ss.len() == 0 {
        Seq::empty()
    } else {
        sections_issues(ss.drop_last()) + defs_issues(ss.last().fun_defs@)
    }
}

/// What the lint reports on `program`: each function definition whose body demands sections that have none in common.
pub open spec fn incompatible_contexts_issues(program: Program) -> Seq<IssueSpec> {
    sections_issues(program.sections@)
}

/// Warns about functions whose body demands incompatible sections (calls or variables
/// only meant for different sections).
pub fn lint(program: &Program, issues: &mut IssueTracker)
    requires
        old(issues).wf(),
        old(issues).registers(IssueKind::IncompatibleContexts),
        defs_located(*program),
        contexts_known(*program),
    ensures
        final(issues).extends(old(issues), incompatible_contexts_issues(*program)),
{
    let ss = &program.sections;
    proof {
        lemma_extends_refl(*old(issues));
        assert(ss@.take(0) =~= Seq::<Section>::empty());
    }
    let mut i: usize = 0;
    while i < ss.len()
        invariant
            i <= ss@.len(),
            ss@ == program.sections@,
            defs_located(*program),
            contexts_known(*program),
            old(issues).wf(),
            old(issues).registers(IssueKind::IncompatibleContexts),
            issues.extends(old(issues), sections_issues(ss@.take(i as int))),
        decreases ss@.len() - i,
    {
        let defs = &ss[i].fun_defs;
        let ghost before = sections_issues(ss@.take(i as int));
        proof {
            assert(ss@.take(i + 1).drop_last() =~= ss@.take(i as int));
            assert(defs@.take(0) =~= Seq::<Fun>::empty());
            assert(before + defs_issues(defs@.take(0)) =~= before);
        }
        let mut j: usize = 0;
        while j < defs.len()
            invariant
                j <= defs@.len(),
                i < ss@.len(),
                defs@ == ss@[i as int].fun_defs@,
                ss@ == program.sections@,
                defs_located(*program),
                contexts_known(*program),
                old(issues).wf(),
                old(issues).registers(IssueKind::IncompatibleContexts),
                issues.extends(old(issues), before + defs_issues(defs@.take(j as int))),
            decreases defs@.len() - j,
        {
            let ghost m = *issues;
            proof {
                assert(defs_located_at(*program, i as int, j as int));
                assert(contexts_known_at(*program, i as int, j as int));
                assert(demanders_ok(defs@[j as int]));
                assert(defs@.take(j + 1).drop_last() =~= defs@.take(j as int));
            }
            warn_fun(&defs[j], issues);
            proof {
                lemma_extends_trans(*old(issues), m, *issues, before + defs_issues(defs@.take(j as int)), fun_issues(defs@[j as int]));
                assert(before + defs_issues(defs@.take(j as int)) + fun_issues(defs@[j as int]) =~= before + defs_issues(defs@.take(j + 1)));
            }
            j += 1;
        }
        proof {
            assert(defs@.take(j as int) =~= defs@);
        }
        i += 1;
    }
    proof {
        assert(ss@.take(i as int) =~= ss@);
    }
}

} // verus!
