use vstd::prelude::*;

use crate::functions::{collect_flat_args, flat_args, modifier_name, Arg, Fun, Modifier, ModifierKind};
use crate::issue::{lemma_extends_refl, lemma_extends_trans, IssueSpec, IssueTracker};
use crate::issue_kind::IssueKind;
use crate::location::Location;
use crate::numbers::{decimal, decimal_string};
use crate::program::{all_located, defs_located, defs_located_at, fun_located, opt_flat, Program, Section};
use crate::text::{concat, lower, eq_ignore_case};
use crate::lints::shadowed_args::arg_loc;
use crate::access::{Kind, VarKind, WithinFunction};

verus! {

/// Whether `w` accesses argument `k`, plainly or by reference, and reads it (`read`)
/// or writes it.
pub open spec fn touches(w: WithinFunction, k: int, read: bool) -> bool {
    let is_arg = match w.var_kind {
        VarKind::Arg { arg_index } => arg_index == k,
        VarKind::RefArg { arg_index, .. } => arg_index == k,
        _ => false,
    };
    is_arg && if read {
        w.info.kind is Read
    } else {
        w.info.kind is Write
    }
}

/// Whether some access of `acc` to argument `k` reads it (`read`) or writes it.
pub open spec fn arg_access(acc: Seq<WithinFunction>, k: int, read: bool) -> bool {
    exists|j: int| 0 <= j < acc.len() && touches(#[trigger] acc[j], k, read)
}

/// Argument `k` of `f`, when it is never read (or, for a reference, neither read nor written).
pub open spec fn arg_issues(f: Fun, k: int) -> Seq<IssueSpec> {
    let acc = f.scope.accesses@;
    let a = f.args@[k];
    let read = arg_access(acc, k, true);
    let written = arg_access(acc, k, false);
    if (a.is_ref && !written && !read) || (!a.is_ref && !read) {
        seq![
            (
                IssueKind::ArgNeverRead,
                arg_loc(a),
                "argument `"@ + a.name@ + "` is not used in `"@ + f.name@ + "()`"@,
            ),
        ]
    } else {
        Seq::empty()
    }
}

/// The unused arguments of `f` among its first `n`.
pub open spec fn args_fold(f: Fun, n: int) -> Seq<IssueSpec>
    decreases n,
{
    if n <= 0 {
        Seq::empty()
    } else {
        args_fold(f, n - 1) + arg_issues(f, n - 1)
    }
}

/// The unused arguments of `f`, unless it is a builtin.
pub open spec fn fun_issues(f: Fun) -> Seq<IssueSpec> {
    if f.is_builtin {
        Seq::empty()
    } else {
        args_fold(f, f.args@.len() as int)
    }
}

/// Whether some access of `acc` to argument `k` reads it (`read`) or writes it.
fn has_arg_access(acc: &Vec<WithinFunction>, k: usize, read: bool) -> (r: bool)
    ensures
        r == arg_access(acc@, k as int, read),
{
    let mut i: usize = 0;
    while i < acc.len()
        invariant
            i <= acc@.len(),
            forall|j: int| 0 <= j < i ==> !touches(#[trigger] acc@[j], k as int, read),
        decreases acc@.len() - i,
    {
        let a = &acc[i];
        let is_arg = match a.var_kind {
            VarKind::Arg { arg_index } => arg_index == k,
            VarKind::RefArg { arg_index, .. } => arg_index == k,
            _ => false,
        };
        let kind_ok = if read {
            a.info.is_read()
        } else {
            a.info.is_write()
        };
        if is_arg && kind_ok {
            assert(acc@[i as int] == *a);
            return true;
        }
        i += 1;
    }
    false
}

fn warn_fun(fun_def: &Fun, issues: &mut IssueTracker)
    requires
        old(issues).wf(),
        old(issues).registers(IssueKind::ArgNeverRead),
        fun_located(*fun_def),
    ensures
        final(issues).extends(old(issues), fun_issues(*fun_def)),
{
    proof {
        lemma_extends_refl(*issues);
    }
    if fun_def.is_builtin {
        return;
    }
    let acc = &fun_def.scope.accesses;
    let ghost f = *fun_def;
    let mut i: usize = 0;
    while i < fun_def.args.len()
        invariant
            i <= fun_def.args@.len(),
            f == *fun_def,
            acc@ == f.scope.accesses@,
            fun_located(f),
            old(issues).wf(),
            old(issues).registers(IssueKind::ArgNeverRead),
            issues.extends(old(issues), args_fold(f, i as int)),
        decreases fun_def.args@.len() - i,
    {
        let ghost m = *issues;
        let arg = &fun_def.args[i];
        let read = has_arg_access(acc, i, true);
        let written = has_arg_access(acc, i, false);
        if (arg.is_ref && !written && !read) || (!arg.is_ref && !read) {
            let mut text = String::from_str("argument `");
            text.append(arg.name.as_str());
            text.append("` is not used in `");
            text.append(fun_def.name.as_str());
            text.append("()`");
            assert(f.args@[i as int] == *arg);
            let loc = arg.location.unwrap();
            assert(seq![(IssueKind::ArgNeverRead, loc, text@)] == arg_issues(f, i as int));
            issues.add(IssueKind::ArgNeverRead, &loc, text);
        } else {
            proof {
                lemma_extends_refl(*issues);
            }
        }
        proof {
            lemma_extends_trans(*old(issues), m, *issues, args_fold(f, i as int), arg_issues(f, i as int));
        }
        i += 1;
    }
}

/// What the lint reports for the function definitions `fs`, in order.
pub open spec fn defs_issues(fs: Seq<Fun>) -> Seq<IssueSpec>
    decreases fs.len(),
{
    if fs.len() == 0 {
        Seq::empty()
    } else {
        defs_issues(fs.drop_last()) + fun_issues(fs.last())
    }
}

/// What the lint reports for the sections `ss`, in order.
pub open spec fn sections_issues(ss: Seq<Section>) -> Seq<IssueSpec>
    decreases ss.len(),
{
    if ss.len() == 0 {
        Seq::empty()
    } else {
        sections_issues(ss.drop_last()) + defs_issues(ss.last().fun_defs@)
    }
}

/// What the lint reports on `program`: each argument of a user function that it never reads (a reference argument: neither reads nor writes).
pub open spec fn unused_args_issues(program: Program) -> Seq<IssueSpec> {
    sections_issues(program.sections@)
}

/// Warns about function arguments that are never used.
pub fn lint(program: &Program, issues: &mut IssueTracker)
    requires
        old(issues).wf(),
        old(issues).registers(IssueKind::ArgNeverRead),
        defs_located(*program),
    ensures
        final(issues).extends(old(issues), unused_args_issues(*program)),
{
    let ss = &program.sections;
    proof {
        lemma_extends_refl(*old(issues));
        assert(ss@.take(0) =~= Seq::<Section>::empty());
    }
    let mut i: usize = 0;
    while i < ss.len()
        invariant
            i <= ss@.len(),
            ss@ == program.sections@,
            defs_located(*program),
            old(issues).wf(),
            old(issues).registers(IssueKind::ArgNeverRead),
            issues.extends(old(issues), sections_issues(ss@.take(i as int))),
        decreases ss@.len() - i,
    {
        let defs = &ss[i].fun_defs;
        let ghost before = sections_issues(ss@.take(i as int));
        proof {
            assert(ss@.take(i + 1).drop_last() =~= ss@.take(i as int));
            assert(defs@.take(0) =~= Seq::<Fun>::empty());
            assert(before + defs_issues(defs@.take(0)) =~= before);
        }
        let mut j: usize = 0;
        while j < defs.len()
            invariant
                j <= defs@.len(),
                i < ss@.len(),
                defs@ == ss@[i as int].fun_defs@,
                ss@ == program.sections@,
                defs_located(*program),
                old(issues).wf(),
                old(issues).registers(IssueKind::ArgNeverRead),
                issues.extends(old(issues), before + defs_issues(defs@.take(j as int))),
            decreases defs@.len() - j,
        {
            let ghost m = *issues;
            proof {
                assert(defs_located_at(*program, i as int, j as int));
                assert(defs@.take(j + 1).drop_last() =~= defs@.take(j as int));
            }
            warn_fun(&defs[j], issues);
            proof {
                lemma_extends_trans(*old(issues), m, *issues, before + defs_issues(defs@.take(j as int)), fun_issues(defs@[j as int]));
                assert(before + defs_issues(defs@.take(j as int)) + fun_issues(defs@[j as int]) =~= before + defs_issues(defs@.take(j + 1)));
            }
            j += 1;
        }
        proof {
            assert(defs@.take(j as int) =~= defs@);
        }
        i += 1;
    }
    proof {
        assert(ss@.take(i as int) =~= ss@);
    }
}

} // verus!
