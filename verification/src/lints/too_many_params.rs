use vstd::prelude::*;

use crate::functions::{collect_flat_args, flat_args, modifier_name, Arg, Fun, Modifier, ModifierKind};
use crate::issue::{lemma_extends_refl, lemma_extends_trans, IssueSpec, IssueTracker};
use crate::issue_kind::IssueKind;
use crate::location::Location;
use crate::numbers::{decimal, decimal_string};
use crate::program::{all_located, defs_located, defs_located_at, fun_located, opt_flat, Program, Section};
use crate::text::{concat, lower, eq_ignore_case};

verus! {

/// The text of the warning about a function with `n` arguments.
pub open spec fn too_many_message(name: Seq<char>, n: nat) -> Seq<char> {
    "Function '"@ + name + "' has too many parameters ("@ + decimal(n) + "), the maximum is 40."@
}

/// A function with more than 40 arguments.
pub open spec fn fun_issues(f: Fun) -> Seq<IssueSpec> {
    if f.args@.len() > 40 {
        seq![(IssueKind::TooManyParams, f.location->0, too_many_message(f.name@, f.args@.len()))]
    } else {
        Seq::empty()
    }
}

fn warn_fun(fun_def: &Fun, issues: &mut IssueTracker)
    requires
        old(issues).wf(),
        old(issues).registers(IssueKind::TooManyParams),
        fun_located(*fun_def),
    ensures
        final(issues).extends(old(issues), fun_issues(*fun_def)),
{
    let maximum: usize = 40;
    if fun_def.args.len() > maximum {
        let mut text = String::from_str("Function '");
        text.append(fun_def.name.as_str());
        text.append("' has too many parameters (");
        let d = decimal_string(fun_def.args.len());
        text.append(d.as_str());
        text.append("), the maximum is 40.");
        let loc = fun_def.location.unwrap();
        issues.add(IssueKind::TooManyParams, &loc, text);
    } else {
        proof {
            lemma_extends_refl(*issues);
        }
    }
}

/// What the lint reports for the function definitions `fs`, in order.
pub open spec fn defs_issues(fs: Seq<Fun>) -> Seq<IssueSpec>
    decreases fs.len(),
{
    if fs.len() == 0 {
        Seq::empty()
    } else {
        defs_issues(fs.drop_last()) + fun_issues(fs.last())
    }
}

/// What the lint reports for the sections `ss`, in order.
pub open spec fn sections_issues(ss: Seq<Section>) -> Seq<IssueSpec>
    decreases ss.len(),
{
    if ss.len() == 0 {
        Seq::empty()
    } else {
        sections_issues(ss.drop_last()) + defs_issues(ss.last().fun_defs@)
    }
}

/// What the lint reports on `program`: each function definition with more than 40 arguments.
pub open spec fn too_many_params_issues(program: Program) -> Seq<IssueSpec> {
    sections_issues(program.sections@)
}

/// Warns about function definitions with more than 40 arguments.
pub fn lint(program: &Program, issues: &mut IssueTracker)
    requires
        old(issues).wf(),
        old(issues).registers(IssueKind::TooManyParams),
        defs_located(*program),
    ensures
        final(issues).extends(old(issues), too_many_params_issues(*program)),
{
    let ss = &program.sections;
    proof {
        lemma_extends_refl(*old(issues));
        assert(ss@.take(0) =~= Seq::<Section>::empty());
    }
    let mut i: usize = 0;
    while i < ss.len()
        invariant
            i <= ss@.len(),
            ss@ == program.sections@,
            defs_located(*program),
            old(issues).wf(),
            old(issues).registers(IssueKind::TooManyParams),
            issues.extends(old(issues), sections_issues(ss@.take(i as int))),
        decreases ss@.len() - i,
    {
        let defs = &ss[i].fun_defs;
        let ghost before = sections_issues(ss@.take(i as int));
        proof {
            assert(ss@.take(i + 1).drop_last() =~= ss@.take(i as int));
            assert(defs@.take(0) =~= Seq::<Fun>::empty());
            assert(before + defs_issues(defs@.take(0)) =~= before);
        }
        let mut j: usize = 0;
        while j < defs.len()
            invariant
                j <= defs@.len(),
                i < ss@.len(),
                defs@ == ss@[i as int].fun_defs@,
                ss@ == program.sections@,
                defs_located(*program),
                old(issues).wf(),
                old(issues).registers(IssueKind::TooManyParams),
                issues.extends(old(issues), before + defs_issues(defs@.take(j as int))),
            decreases defs@.len() - j,
        {
            let ghost m = *issues;
            proof {
                assert(defs_located_at(*program, i as int, j as int));
                assert(defs@.take(j + 1).drop_last() =~= defs@.take(j as int));
            }
            warn_fun(&defs[j], issues);
            proof {
                lemma_extends_trans(*old(issues), m, *issues, before + defs_issues(defs@.take(j as int)), fun_issues(defs@[j as int]));
                assert(before + defs_issues(defs@.take(j as int)) + fun_issues(defs@[j as int]) =~= before + defs_issues(defs@.take(j + 1)));
            }
            j += 1;
        }
        proof {
            assert(defs@.take(j as int) =~= defs@);
        }
        i += 1;
    }
    proof {
        assert(ss@.take(i as int) =~= ss@);
    }
}

} // verus!
