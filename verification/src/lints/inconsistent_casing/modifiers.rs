use vstd::prelude::*;

use crate::access::{VarKind, WithinFunction};
use crate::functions::{modifier_args, collect_flat_args, Arg, Fun, ModifierKind};
use crate::issue::{lemma_extends_refl, lemma_extends_trans, IssueSpec, IssueTracker};
use crate::issue_kind::IssueKind;
use crate::lints::shadowed_args::deref_args;
use crate::program::{opt_flat, Program, Section};
use crate::text::{chars_until, eq_ignore_case, lower, starts_with_ignore_case, str_eq};

verus! {

/// The arguments among `args` that the access `w` writes with another casing, in order.
pub open spec fn mod_arg_fold(args: Seq<Arg>, w: WithinFunction) -> Seq<IssueSpec>
    decreases args.len(),
{
    if args.len() == 0 {
        Seq::empty()
    } else {
        mod_arg_fold(args.drop_last(), w) + if lower(w.info.accessed_as@) == lower(args.last().name@)
            && w.info.accessed_as@ != args.last().name@ {
            seq![
                (
                    IssueKind::InconsistentCasing,
                    w.info.location,
                    "Casing is inconsistent, modifier argument `"@ + args.last().name@
                        + "` was accessed as `"@ + w.info.accessed_as@ + "`"@,
                ),
            ]
        } else {
            Seq::empty()
        }
    }
}

/// What the lint reports for the access `w` of `f`: for an access to a local or global
/// variable, the `global()` arguments, then the `local()` arguments, that it writes with
/// another casing.
pub open spec fn access_issues(f: Fun, w: WithinFunction) -> Seq<IssueSpec> {
    if w.var_kind is Local || w.var_kind is Global {
        mod_arg_fold(modifier_args(f.modifiers, ModifierKind::Global), w) + mod_arg_fold(
            modifier_args(f.modifiers, ModifierKind::Local),
            w,
        )
    } else {
        Seq::empty()
    }
}

/// What the lint reports for the accesses `acc` of `f`, in order.
pub open spec fn access_fold(f: Fun, acc: Seq<WithinFunction>) -> Seq<IssueSpec>
    decreases acc.len(),
{
    if acc.len() == 0 {
        Seq::empty()
    } else {
        access_fold(f, acc.drop_last()) + access_issues(f, acc.last())
    }
}

/// The accesses of `f` that write one of its `local()` or `global()` arguments with
/// another casing.
pub open spec fn fun_issues(f: Fun) -> Seq<IssueSpec> {
    access_fold(f, f.scope.accesses@)
}

/// The arguments of the modifiers of `kind` of `fun_def`, in order.
fn kind_args<'a>(fun_def: &'a Fun, kind: ModifierKind) -> (r: Vec<&'a Arg>)
    ensures
        deref_args(r@) == modifier_args(fun_def.modifiers, kind),
{
    match fun_def.modifiers.get(&kind) {
        Some(ms) => collect_flat_args(ms),
        None => {
            let v: Vec<&Arg> = Vec::new();
            assert(deref_args(v@) =~= Seq::<Arg>::empty());
            v
        },
    }
}

fn warn_mod_args(args: &Vec<&Arg>, w: &WithinFunction, issues: &mut IssueTracker)
    requires
        old(issues).wf(),
        old(issues).registers(IssueKind::InconsistentCasing),
    ensures
        final(issues).extends(old(issues), mod_arg_fold(deref_args(args@), *w)),
{
    let ghost a = deref_args(args@);
    proof {
        lemma_extends_refl(*issues);
        assert(a.take(0) =~= Seq::<Arg>::empty());
    }
    let mut i: usize = 0;
    while i < args.len()
        invariant
            i <= args@.len(),
            a == deref_args(args@),
            old(issues).wf(),
            old(issues).registers(IssueKind::InconsistentCasing),
            issues.extends(old(issues), mod_arg_fold(a.take(i as int), *w)),
        decreases args@.len() - i,
    {
        let ghost m = *issues;
        let arg = args[i];
        assert(a[i as int] == *arg);
        assert(a.take(i + 1).drop_last() =~= a.take(i as int));
        let aa = w.info.accessed_as.as_str();
        if eq_ignore_case(aa, arg.name.as_str()) && !str_eq(aa, arg.name.as_str()) {
            let mut text = String::from_str("Casing is inconsistent, modifier argument `");
            text.append(arg.name.as_str());
            text.append("` was accessed as `");
            text.append(aa);
            text.append("`");
            let ghost x = seq![(IssueKind::InconsistentCasing, w.info.location, text@)];
            issues.add(IssueKind::InconsistentCasing, &w.info.location, text);
            proof {
                lemma_extends_trans(*old(issues), m, *issues, mod_arg_fold(a.take(i as int), *w), x);
                assert(mod_arg_fold(a.take(i + 1), *w) =~= mod_arg_fold(a.take(i as int), *w) + x);
            }
        } else {
            assert(mod_arg_fold(a.take(i + 1), *w) =~= mod_arg_fold(a.take(i as int), *w));
        }
        i += 1;
    }
    assert(a.take(i as int) =~= a);
}

fn warn_fun(fun_def: &Fun, issues: &mut IssueTracker)
    requires
        old(issues).wf(),
        old(issues).registers(IssueKind::InconsistentCasing),
    ensures
        final(issues).extends(old(issues), fun_issues(*fun_def)),
{
    let acc = &fun_def.scope.accesses;
    let ghost f = *fun_def;
    let globals = kind_args(fun_def, ModifierKind::Global);
    let locals = kind_args(fun_def, ModifierKind::Local);
    proof {
        lemma_extends_refl(*issues);
        assert(acc@.take(0) =~= Seq::<WithinFunction>::empty());
    }
    let mut i: usize = 0;
    while i < acc.len()
        invariant
            i <= acc@.len(),
            f == *fun_def,
            acc@ == f.scope.accesses@,
            deref_args(globals@) == modifier_args(f.modifiers, ModifierKind::Global),
            deref_args(locals@) == modifier_args(f.modifiers, ModifierKind::Local),
            old(issues).wf(),
            old(issues).registers(IssueKind::InconsistentCasing),
            issues.extends(old(issues), access_fold(f, acc@.take(i as int))),
        decreases acc@.len() - i,
    {
        let ghost m = *issues;
        let access = &acc[i];
        assert(acc@.take(i + 1).drop_last() =~= acc@.take(i as int));
        assert(acc@.take(i + 1).last() == *access);
        let relevant = match access.var_kind {
            VarKind::Local => true,
            VarKind::Global { .. } => true,
            _ => false,
        };
        if relevant {
            warn_mod_args(&globals, access, issues);
            let ghost m2 = *issues;
            warn_mod_args(&locals, access, issues);
            proof {
                lemma_extends_trans(m, m2, *issues, mod_arg_fold(modifier_args(f.modifiers, ModifierKind::Global), *access), mod_arg_fold(modifier_args(f.modifiers, ModifierKind::Local), *access));
                lemma_extends_trans(*old(issues), m, *issues, access_fold(f, acc@.take(i as int)), access_issues(f, *access));
                assert(access_fold(f, acc@.take(i + 1)) == access_fold(f, acc@.take(i as int)) + access_issues(f, *access));
            }
        } else {
            assert(access_fold(f, acc@.take(i + 1)) =~= access_fold(f, acc@.take(i as int)));
        }
        i += 1;
    }
    assert(acc@.take(i as int) =~= acc@);
}

/// What the lint reports for the function definitions `fs`, in order.
pub open spec fn defs_issues(fs: Seq<Fun>) -> Seq<IssueSpec>
    decreases fs.len(),
{
    if fs.len() == 0 {
        Seq::empty()
    } else {
        defs_issues(fs.drop_last()) + fun_issues(fs.last())
    }
}

/// What the lint reports for the sections `ss`, in order.
pub open spec fn sections_issues(ss: Seq<Section>) -> Seq<IssueSpec>
    decreases ss.len(),
{
    if ss.len() == 0 {
        Seq::empty()
    } else {
        sections_issues(ss.drop_last()) + defs_issues(ss.last().fun_defs@)
    }
}

/// What the lint reports on `program`: each access that writes a `local()` or `global()` argument with another casing.
pub open spec fn local_global_arg_casing_issues(program: Program) -> Seq<IssueSpec> {
    sections_issues(program.sections@)
}

/// Warns about `local()` and `global()` arguments accessed with another casing than their
/// declaration.
pub fn local_global_arg_casing(program: &Program, issues: &mut IssueTracker)
    requires
        old(issues).wf(),
        old(issues).registers(IssueKind::InconsistentCasing),
    ensures
        final(issues).extends(old(issues), local_global_arg_casing_issues(*program)),
{
    let ss = &program.sections;
    proof {
        lemma_extends_refl(*old(issues));
        assert(ss@.take(0) =~= Seq::<Section>::empty());
    }
    let mut i: usize = 0;
    while i < ss.len()
        invariant
            i <= ss@.len(),
            ss@ == program.sections@,
            old(issues).wf(),
            old(issues).registers(IssueKind::InconsistentCasing),
            issues.extends(old(issues), sections_issues(ss@.take(i as int))),
        decreases ss@.len() - i,
    {
        let defs = &ss[i].fun_defs;
        let ghost before = sections_issues(ss@.take(i as int));
        proof {
            assert(ss@.take(i + 1).drop_last() =~= ss@.take(i as int));
            assert(defs@.take(0) =~= Seq::<Fun>::empty());
            assert(before + defs_issues(defs@.take(0)) =~= before);
        }
        let mut j: usize = 0;
        while j < defs.len()
            invariant
                j <= defs@.len(),
                i < ss@.len(),
                defs@ == ss@[i as int].fun_defs@,
                ss@ == program.sections@,
                old(issues).wf(),
                old(issues).registers(IssueKind::InconsistentCasing),
                issues.extends(old(issues), before + defs_issues(defs@.take(j as int))),
            decreases defs@.len() - j,
        {
            let ghost m = *issues;
            proof {
                assert(defs@.take(j + 1).drop_last() =~= defs@.take(j as int));
            }
            warn_fun(&defs[j], issues);
            proof {
                lemma_extends_trans(*old(issues), m, *issues, before + defs_issues(defs@.take(j as int)), fun_issues(defs@[j as int]));
                assert(before + defs_issues(defs@.take(j as int)) + fun_issues(defs@[j as int]) =~= before + defs_issues(defs@.take(j + 1)));
            }
            j += 1;
        }
        proof {
            assert(defs@.take(j as int) =~= defs@);
        }
        i += 1;
    }
    proof {
        assert(ss@.take(i as int) =~= ss@);
    }
}

} // verus!
