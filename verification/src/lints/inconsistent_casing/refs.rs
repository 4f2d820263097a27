use vstd::prelude::*;

use crate::access::{VarKind, WithinFunction};
use crate::functions::{collect_flat_args, Arg, Fun, ModifierKind};
use crate::issue::{lemma_extends_refl, lemma_extends_trans, IssueSpec, IssueTracker};
use crate::issue_kind::IssueKind;
use crate::lints::shadowed_args::deref_args;
use crate::program::{opt_flat, Program, Section};
use crate::text::{concat, chars_until, eq_ignore_case, lower, starts_with_ignore_case, str_eq};

verus! {

/// The accesses among `acc` to the reference argument `k`, named `name`, written otherwise
/// than the argument followed by the accessed suffix.
pub open spec fn ref_access_fold(acc: Seq<WithinFunction>, k: int, name: Seq<char>) -> Seq<IssueSpec>
    decreases acc.len(),
{
    if acc.len() == 0 {
        Seq::empty()
    } else {
        ref_access_fold(acc.drop_last(), k, name) + match acc.last().var_kind {
            VarKind::RefArg { suffix, arg_index } => if arg_index == k && acc.last().info.accessed_as@
                != name + suffix@ {
                seq![
                    (
                        IssueKind::InconsistentCasing,
                        acc.last().info.location,
                        "Casing is inconsistent, ref argument "@ + name + " was accessed as "@
                            + acc.last().info.accessed_as@,
                    ),
                ]
            } else {
                Seq::empty()
            },
            _ => Seq::empty(),
        }
    }
}

/// What the lint reports for the argument `k` of `f`: nothing unless it is a reference.
pub open spec fn arg_issues(f: Fun, k: int) -> Seq<IssueSpec> {
    if f.args@[k].is_ref {
        ref_access_fold(f.scope.accesses@, k, f.args@[k].name@)
    } else {
        Seq::empty()
    }
}

/// What the lint reports for the first `n` arguments of `f`.
pub open spec fn args_fold(f: Fun, n: int) -> Seq<IssueSpec>
    decreases n,
{
    if n <= 0 {
        Seq::empty()
    } else {
        args_fold(f, n - 1) + arg_issues(f, n - 1)
    }
}

/// The accesses of `f` to its reference arguments written otherwise than the argument.
pub open spec fn fun_issues(f: Fun) -> Seq<IssueSpec> {
    args_fold(f, f.args@.len() as int)
}

fn warn_arg(acc: &Vec<WithinFunction>, k: usize, name: &String, issues: &mut IssueTracker)
    requires
        old(issues).wf(),
        old(issues).registers(IssueKind::InconsistentCasing),
    ensures
        final(issues).extends(old(issues), ref_access_fold(acc@, k as int, name@)),
{
    proof {
        lemma_extends_refl(*issues);
        assert(acc@.take(0) =~= Seq::<WithinFunction>::empty());
    }
    let mut i: usize = 0;
    while i < acc.len()
        invariant
            i <= acc@.len(),
            old(issues).wf(),
            old(issues).registers(IssueKind::InconsistentCasing),
            issues.extends(old(issues), ref_access_fold(acc@.take(i as int), k as int, name@)),
        decreases acc@.len() - i,
    {
        let ghost m = *issues;
        let access = &acc[i];
        assert(acc@.take(i + 1).drop_last() =~= acc@.take(i as int));
        assert(acc@.take(i + 1).last() == *access);
        let hit = match &access.var_kind {
            VarKind::RefArg { suffix, arg_index } => *arg_index == k && !str_eq(
                access.info.accessed_as.as_str(),
                concat(name.as_str(), suffix.as_str()).as_str(),
            ),
            _ => false,
        };
        if hit {
            let mut text = String::from_str("Casing is inconsistent, ref argument ");
            text.append(name.as_str());
            text.append(" was accessed as ");
            text.append(access.info.accessed_as.as_str());
            let ghost x = seq![(IssueKind::InconsistentCasing, access.info.location, text@)];
            issues.add(IssueKind::InconsistentCasing, &access.info.location, text);
            proof {
                lemma_extends_trans(*old(issues), m, *issues, ref_access_fold(acc@.take(i as int), k as int, name@), x);
                assert(ref_access_fold(acc@.take(i + 1), k as int, name@) =~= ref_access_fold(acc@.take(i as int), k as int, name@) + x);
            }
        } else {
            assert(ref_access_fold(acc@.take(i + 1), k as int, name@) =~= ref_access_fold(acc@.take(i as int), k as int, name@));
        }
        i += 1;
    }
    assert(acc@.take(i as int) =~= acc@);
}

fn warn_fun(fun_def: &Fun, issues: &mut IssueTracker)
    requires
        old(issues).wf(),
        old(issues).registers(IssueKind::InconsistentCasing),
    ensures
        final(issues).extends(old(issues), fun_issues(*fun_def)),
{
    let acc = &fun_def.scope.accesses;
    let ghost f = *fun_def;
    proof {
        lemma_extends_refl(*issues);
    }
    let mut k: usize = 0;
    while k < fun_def.args.len()
        invariant
            k <= fun_def.args@.len(),
            f == *fun_def,
            acc@ == f.scope.accesses@,
            old(issues).wf(),
            old(issues).registers(IssueKind::InconsistentCasing),
            issues.extends(old(issues), args_fold(f, k as int)),
        decreases fun_def.args@.len() - k,
    {
        let ghost m = *issues;
        let arg = &fun_def.args[k];
        if !arg.is_ref {
            proof {
                lemma_extends_refl(*issues);
            }
        } else {
            warn_arg(acc, k, &arg.name, issues);
        }
        proof {
            lemma_extends_trans(*old(issues), m, *issues, args_fold(f, k as int), arg_issues(f, k as int));
        }
        k += 1;
    }
}

/// What the lint reports for the function definitions `fs`, in order.
pub open spec fn defs_issues(fs: Seq<Fun>) -> Seq<IssueSpec>
    decreases fs.len(),
{
    if fs.len() == 0 {
        Seq::empty()
    } else {
        defs_issues(fs.drop_last()) + fun_issues(fs.last())
    }
}

/// What the lint reports for the sections `ss`, in order.
pub open spec fn sections_issues(ss: Seq<Section>) -> Seq<IssueSpec>
    decreases ss.len(),
{
    if ss.len() == 0 {
        Seq::empty()
    } else {
        sections_issues(ss.drop_last()) + defs_issues(ss.last().fun_defs@)
    }
}

/// What the lint reports on `program`: each access to a reference argument written otherwise than the argument and its suffix.
pub open spec fn ref_arg_casing_issues(program: Program) -> Seq<IssueSpec> {
    sections_issues(program.sections@)
}

/// Warns about reference arguments accessed with another casing than their declaration.
pub fn ref_arg_casing(program: &Program, issues: &mut IssueTracker)
    requires
        old(issues).wf(),
        old(issues).registers(IssueKind::InconsistentCasing),
    ensures
        final(issues).extends(old(issues), ref_arg_casing_issues(*program)),
{
    let ss = &program.sections;
    proof {
        lemma_extends_refl(*old(issues));
        assert(ss@.take(0) =~= Seq::<Section>::empty());
    }
    let mut i: usize = 0;
    while i < ss.len()
        invariant
            i <= ss@.len(),
            ss@ == program.sections@,
            old(issues).wf(),
            old(issues).registers(IssueKind::InconsistentCasing),
            issues.extends(old(issues), sections_issues(ss@.take(i as int))),
        decreases ss@.len() - i,
    {
        let defs = &ss[i].fun_defs;
        let ghost before = sections_issues(ss@.take(i as int));
        proof {
            assert(ss@.take(i + 1).drop_last() =~= ss@.take(i as int));
            assert(defs@.take(0) =~= Seq::<Fun>::empty());
            assert(before + defs_issues(defs@.take(0)) =~= before);
        }
        let mut j: usize = 0;
        while j < defs.len()
            invariant
                j <= defs@.len(),
                i < ss@.len(),
                defs@ == ss@[i as int].fun_defs@,
                ss@ == program.sections@,
                old(issues).wf(),
                old(issues).registers(IssueKind::InconsistentCasing),
                issues.extends(old(issues), before + defs_issues(defs@.take(j as int))),
            decreases defs@.len() - j,
        {
            let ghost m = *issues;
            proof {
                assert(defs@.take(j + 1).drop_last() =~= defs@.take(j as int));
            }
            warn_fun(&defs[j], issues);
            proof {
                lemma_extends_trans(*old(issues), m, *issues, before + defs_issues(defs@.take(j as int)), fun_issues(defs@[j as int]));
                assert(before + defs_issues(defs@.take(j as int)) + fun_issues(defs@[j as int]) =~= before + defs_issues(defs@.take(j + 1)));
            }
            j += 1;
        }
        proof {
            assert(defs@.take(j as int) =~= defs@);
        }
        i += 1;
    }
    proof {
        assert(ss@.take(i as int) =~= ss@);
    }
}

} // verus!
