use vstd::prelude::*;

use crate::access::{VarKind, WithinFunction};
use crate::functions::{modifier_args, collect_flat_args, Arg, Fun, ModifierKind};
use crate::issue::{lemma_extends_refl, lemma_extends_trans, IssueSpec, IssueTracker};
use crate::issue_kind::IssueKind;
use crate::lints::shadowed_args::deref_args;
use crate::program::{opt_flat, Program, Section};
use crate::text::{chars_until, eq_ignore_case, lower, starts_with_ignore_case, str_eq};

verus! {

/// Whether `aa` names the instance argument `name` with another casing: the whole of it,
/// or it followed by a dot and more.
pub open spec fn instance_mismatch(aa: Seq<char>, name: Seq<char>) -> bool {
    ||| lower(aa) == lower(name) && aa != name
    ||| name.len() + 1 <= aa.len() && lower(aa.take(name.len() + 1int)) == lower(name.push('.'))
        && aa.take(name.len() as int) != name
}

/// The accesses among `acc` to instance variables that write the instance argument `name`
/// with another casing.
pub open spec fn instance_access_fold(acc: Seq<WithinFunction>, name: Seq<char>) -> Seq<IssueSpec>
    decreases acc.len(),
{
    if acc.len() == 0 {
        Seq::empty()
    } else {
        instance_access_fold(acc.drop_last(), name) + if acc.last().var_kind is Instance
            && instance_mismatch(acc.last().info.accessed_as@, name) {
            seq![
                (
                    IssueKind::InconsistentCasing,
                    acc.last().info.location,
                    "Casing is inconsistent, instance() argument "@ + name + " was accessed as "@
                        + acc.last().info.accessed_as@,
                ),
            ]
        } else {
            Seq::empty()
        }
    }
}

/// What the lint reports for the instance arguments `args` of `f`, in order.
pub open spec fn inst_args_fold(f: Fun, args: Seq<Arg>) -> Seq<IssueSpec>
    decreases args.len(),
{
    if args.len() == 0 {
        Seq::empty()
    } else {
        inst_args_fold(f, args.drop_last()) + instance_access_fold(f.scope.accesses@, args.last().name@)
    }
}

/// The accesses of `f` that write one of its instance arguments with another casing.
pub open spec fn fun_issues(f: Fun) -> Seq<IssueSpec> {
    inst_args_fold(f, modifier_args(f.modifiers, ModifierKind::Instance))
}

/// Whether `aa` names the instance argument `name` with another casing.
fn mismatch(aa: &str, name: &str) -> (r: bool)
    ensures
        r == instance_mismatch(aa@, name@),
{
    if eq_ignore_case(aa, name) && !str_eq(aa, name) {
        return true;
    }
    let mut p = String::from_str(name);
    p.push('.');
    if starts_with_ignore_case(aa, p.as_str()) {
        let head = chars_until(aa, name.unicode_len());
        !str_eq(head.as_str(), name)
    } else {
        false
    }
}

fn warn_arg(acc: &Vec<WithinFunction>, name: &String, issues: &mut IssueTracker)
    requires
        old(issues).wf(),
        old(issues).registers(IssueKind::InconsistentCasing),
    ensures
        final(issues).extends(old(issues), instance_access_fold(acc@, name@)),
{
    proof {
        lemma_extends_refl(*issues);
        assert(acc@.take(0) =~= Seq::<WithinFunction>::empty());
    }
    let mut i: usize = 0;
    while i < acc.len()
        invariant
            i <= acc@.len(),
            old(issues).wf(),
            old(issues).registers(IssueKind::InconsistentCasing),
            issues.extends(old(issues), instance_access_fold(acc@.take(i as int), name@)),
        decreases acc@.len() - i,
    {
        let ghost m = *issues;
        let access = &acc[i];
        assert(acc@.take(i + 1).drop_last() =~= acc@.take(i as int));
        assert(acc@.take(i + 1).last() == *access);
        let hit = match access.var_kind {
            VarKind::Instance { .. } => mismatch(access.info.accessed_as.as_str(), name.as_str()),
            _ => false,
        };
        if hit {
            let mut text = String::from_str("Casing is inconsistent, instance() argument ");
            text.append(name.as_str());
            text.append(" was accessed as ");
            text.append(access.info.accessed_as.as_str());
            let ghost x = seq![(IssueKind::InconsistentCasing, access.info.location, text@)];
            issues.add(IssueKind::InconsistentCasing, &access.info.location, text);
            proof {
                lemma_extends_trans(*old(issues), m, *issues, instance_access_fold(acc@.take(i as int), name@), x);
                assert(instance_access_fold(acc@.take(i + 1), name@) =~= instance_access_fold(acc@.take(i as int), name@) + x);
            }
        } else {
            assert(instance_access_fold(acc@.take(i + 1), name@) =~= instance_access_fold(acc@.take(i as int), name@));
        }
        i += 1;
    }
    assert(acc@.take(i as int) =~= acc@);
}

fn warn_fun(fun_def: &Fun, issues: &mut IssueTracker)
    requires
        old(issues).wf(),
        old(issues).registers(IssueKind::InconsistentCasing),
    ensures
        final(issues).extends(old(issues), fun_issues(*fun_def)),
{
    let acc = &fun_def.scope.accesses;
    let ghost f = *fun_def;
    proof {
        lemma_extends_refl(*issues);
    }
    let ms = match fun_def.modifiers.get(&ModifierKind::Instance) {
        Some(m) => m,
        None => {
            return;
        },
    };
    let args = collect_flat_args(ms);
    let ghost a = deref_args(args@);
    proof {
        assert(a == modifier_args(f.modifiers, ModifierKind::Instance));
        assert(a.take(0) =~= Seq::<Arg>::empty());
    }
    let mut i: usize = 0;
    while i < args.len()
        invariant
            i <= args@.len(),
            a == deref_args(args@),
            f == *fun_def,
            acc@ == f.scope.accesses@,
            old(issues).wf(),
            old(issues).registers(IssueKind::InconsistentCasing),
            issues.extends(old(issues), inst_args_fold(f, a.take(i as int))),
        decreases args@.len() - i,
    {
        let ghost m = *issues;
        let arg = args[i];
        assert(a[i as int] == *arg);
        assert(a.take(i + 1).drop_last() =~= a.take(i as int));
        warn_arg(acc, &arg.name, issues);
        proof {
            lemma_extends_trans(*old(issues), m, *issues, inst_args_fold(f, a.take(i as int)), instance_access_fold(f.scope.accesses@, arg.name@));
        }
        i += 1;
    }
    assert(a.take(i as int) =~= a);
}

/// What the lint reports for the function definitions `fs`, in order.
pub open spec fn defs_issues(fs: Seq<Fun>) -> Seq<IssueSpec>
    decreases fs.len(),
{
    if fs.len() == 0 {
        Seq::empty()
    } else {
        defs_issues(fs.drop_last()) + fun_issues(fs.last())
    }
}

/// What the lint reports for the sections `ss`, in order.
pub open spec fn sections_issues(ss: Seq<Section>) -> Seq<IssueSpec>
    decreases ss.len(),
{
    if ss.len() == 0 {
        Seq::empty()
    } else {
        sections_issues(ss.drop_last()) + defs_issues(ss.last().fun_defs@)
    }
}

/// What the lint reports on `program`: each access that writes an instance argument with another casing.
pub open spec fn instance_arg_casing_issues(program: Program) -> Seq<IssueSpec> {
    sections_issues(program.sections@)
}

/// Warns about instance arguments accessed with another casing than their declaration.
pub fn instance_arg_casing(program: &Program, issues: &mut IssueTracker)
    requires
        old(issues).wf(),
        old(issues).registers(IssueKind::InconsistentCasing),
    ensures
        final(issues).extends(old(issues), instance_arg_casing_issues(*program)),
{
    let ss = &program.sections;
    proof {
        lemma_extends_refl(*old(issues));
        assert(ss@.take(0) =~= Seq::<Section>::empty());
    }
    let mut i: usize = 0;
    while i < ss.len()
        invariant
            i <= ss@.len(),
            ss@ == program.sections@,
            old(issues).wf(),
            old(issues).registers(IssueKind::InconsistentCasing),
            issues.extends(old(issues), sections_issues(ss@.take(i as int))),
        decreases ss@.len() - i,
    {
        let defs = &ss[i].fun_defs;
        let ghost before = sections_issues(ss@.take(i as int));
        proof {
            assert(ss@.take(i + 1).drop_last() =~= ss@.take(i as int));
            assert(defs@.take(0) =~= Seq::<Fun>::empty());
            assert(before + defs_issues(defs@.take(0)) =~= before);
        }
        let mut j: usize = 0;
        while j < defs.len()
            invariant
                j <= defs@.len(),
                i < ss@.len(),
                defs@ == ss@[i as int].fun_defs@,
                ss@ == program.sections@,
                old(issues).wf(),
                old(issues).registers(IssueKind::InconsistentCasing),
                issues.extends(old(issues), before + defs_issues(defs@.take(j as int))),
            decreases defs@.len() - j,
        {
            let ghost m = *issues;
            proof {
                assert(defs@.take(j + 1).drop_last() =~= defs@.take(j as int));
            }
            warn_fun(&defs[j], issues);
            proof {
                lemma_extends_trans(*old(issues), m, *issues, before + defs_issues(defs@.take(j as int)), fun_issues(defs@[j as int]));
                assert(before + defs_issues(defs@.take(j as int)) + fun_issues(defs@[j as int]) =~= before + defs_issues(defs@.take(j + 1)));
            }
            j += 1;
        }
        proof {
            assert(defs@.take(j as int) =~= defs@);
        }
        i += 1;
    }
    proof {
        assert(ss@.take(i as int) =~= ss@);
    }
}

} // verus!
