use vstd::prelude::*;

use crate::functions::{collect_flat_args, flat_args, modifier_name, Arg, Fun, Modifier, ModifierKind};
use crate::issue::{lemma_extends_refl, lemma_extends_trans, IssueSpec, IssueTracker};
use crate::issue_kind::IssueKind;
use crate::location::Location;
use crate::numbers::{decimal, decimal_string};
use crate::program::{all_located, defs_located, defs_located_at, fun_located, opt_flat, Program, Section};
use crate::text::{concat, lower, eq_ignore_case};
use crate::lints::shadowed_args::{arg_refs, arg_loc, deref_args};
use crate::access::{VarKind, WithinFunction};
use crate::functions::FunCall;

verus! {

/// The accesses of `acc` to globals that the function cannot reach, in order.
pub open spec fn access_fold(acc: Seq<WithinFunction>) -> Seq<IssueSpec>
    decreases acc.len(),
{
    if acc.len() == 0 {
        Seq::empty()
    } else {
        access_fold(acc.drop_last()) + match acc.last().var_kind {
            VarKind::Global { accessible } => if !accessible {
                seq![
                    (
                        IssueKind::InaccessibleGlobal,
                        acc.last().info.location,
                        "Global variable "@ + acc.last().info.accessed_as@ + " is inaccessible"@,
                    ),
                ]
            } else {
                Seq::empty()
            },
            _ => Seq::empty(),
        }
    }
}

/// The inaccessible globals that `f` accesses.
pub open spec fn fun_issues(f: Fun) -> Seq<IssueSpec> {
    access_fold(f.scope.accesses@)
}

fn warn_fun(fun_def: &Fun, issues: &mut IssueTracker)
    requires
        old(issues).wf(),
        old(issues).registers(IssueKind::InaccessibleGlobal),
    ensures
        final(issues).extends(old(issues), fun_issues(*fun_def)),
{
    let acc = &fun_def.scope.accesses;
    proof {
        lemma_extends_refl(*issues);
        assert(acc@.take(0) =~= Seq::<WithinFunction>::empty());
    }
    let mut i: usize = 0;
    while i < acc.len()
        invariant
            i <= acc@.len(),
            old(issues).wf(),
            old(issues).registers(IssueKind::InaccessibleGlobal),
            issues.extends(old(issues), access_fold(acc@.take(i as int))),
        decreases acc@.len() - i,
    {
        let ghost m = *issues;
        let access = &acc[i];
        assert(acc@.take(i + 1).drop_last() =~= acc@.take(i as int));
        let flagged = match access.var_kind {
            VarKind::Global { accessible } => !accessible,
            _ => false,
        };
        if flagged {
            let mut text = String::from_str("Global variable ");
            text.append(access.info.accessed_as.as_str());
            text.append(" is inaccessible");
            let ghost x = seq![(IssueKind::InaccessibleGlobal, access.info.location, text@)];
            issues.add(IssueKind::InaccessibleGlobal, &access.info.location, text);
            proof {
                lemma_extends_trans(*old(issues), m, *issues, access_fold(acc@.take(i as int)), x);
            }
        } else {
            assert(access_fold(acc@.take(i + 1)) =~= access_fold(acc@.take(i as int)));
        }
        i += 1;
    }
    assert(acc@.take(i as int) =~= acc@);
}

/// What the lint reports for the function definitions `fs`, in order.
pub open spec fn defs_issues(fs: Seq<Fun>) -> Seq<IssueSpec>
    decreases fs.len(),
{
    if fs.len() == 0 {
        Seq::empty()
    } else {
        defs_issues(fs.drop_last()) + fun_issues(fs.last())
    }
}

/// What the lint reports for the sections `ss`, in order.
pub open spec fn sections_issues(ss: Seq<Section>) -> Seq<IssueSpec>
    decreases ss.len(),
{
    if ss.len() == 0 {
        Seq::empty()
    } else {
        sections_issues(ss.drop_last()) + defs_issues(ss.last().fun_defs@)
    }
}

/// What the lint reports on `program`: each access, within a function, to a global that the function cannot reach.
pub open spec fn inaccessible_global_issues(program: Program) -> Seq<IssueSpec> {
    sections_issues(program.sections@)
}

/// Warns about functions that access globals they cannot reach.
pub fn lint(program: &Program, issues: &mut IssueTracker)
    requires
        old(issues).wf(),
        old(issues).registers(IssueKind::InaccessibleGlobal),
    ensures
        final(issues).extends(old(issues), inaccessible_global_issues(*program)),
{
    let ss = &program.sections;
    proof {
        lemma_extends_refl(*old(issues));
        assert(ss@.take(0) =~= Seq::<Section>::empty());
    }
    let mut i: usize = 0;
    while i < ss.len()
        invariant
            i <= ss@.len(),
            ss@ == program.sections@,
            old(issues).wf(),
            old(issues).registers(IssueKind::InaccessibleGlobal),
            issues.extends(old(issues), sections_issues(ss@.take(i as int))),
        decreases ss@.len() - i,
    {
        let defs = &ss[i].fun_defs;
        let ghost before = sections_issues(ss@.take(i as int));
        proof {
            assert(ss@.take(i + 1).drop_last() =~= ss@.take(i as int));
            assert(defs@.take(0) =~= Seq::<Fun>::empty());
            assert(before + defs_issues(defs@.take(0)) =~= before);
        }
        let mut j: usize = 0;
        while j < defs.len()
            invariant
                j <= defs@.len(),
                i < ss@.len(),
                defs@ == ss@[i as int].fun_defs@,
                ss@ == program.sections@,
                old(issues).wf(),
                old(issues).registers(IssueKind::InaccessibleGlobal),
                issues.extends(old(issues), before + defs_issues(defs@.take(j as int))),
            decreases defs@.len() - j,
        {
            let ghost m = *issues;
            proof {
                assert(defs@.take(j + 1).drop_last() =~= defs@.take(j as int));
            }
            warn_fun(&defs[j], issues);
            proof {
                lemma_extends_trans(*old(issues), m, *issues, before + defs_issues(defs@.take(j as int)), fun_issues(defs@[j as int]));
                assert(before + defs_issues(defs@.take(j as int)) + fun_issues(defs@[j as int]) =~= before + defs_issues(defs@.take(j + 1)));
            }
            j += 1;
        }
        proof {
            assert(defs@.take(j as int) =~= defs@);
        }
        i += 1;
    }
    proof {
        assert(ss@.take(i as int) =~= ss@);
    }
}

} // verus!
