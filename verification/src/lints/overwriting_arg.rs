use vstd::prelude::*;

use crate::functions::{collect_flat_args, flat_args, modifier_name, Arg, Fun, Modifier, ModifierKind};
use crate::issue::{lemma_extends_refl, lemma_extends_trans, IssueSpec, IssueTracker};
use crate::issue_kind::IssueKind;
use crate::location::Location;
use crate::numbers::{decimal, decimal_string};
use crate::program::{all_located, defs_located, defs_located_at, fun_located, opt_flat, Program, Section};
use crate::text::{concat, lower, eq_ignore_case};
use crate::lints::shadowed_args::arg_loc;
use crate::access::{Kind, VarKind, WithinFunction};

verus! {

/// Whether `w` accesses argument `k` (not by reference).
pub open spec fn is_plain_arg(w: WithinFunction, k: int) -> bool {
    match w.var_kind {
        VarKind::Arg { arg_index } => arg_index == k,
        _ => false,
    }
}

/// The position, among `acc`, of the first access to argument `k`.
pub open spec fn first_arg_access(acc: Seq<WithinFunction>, k: int) -> Option<int>
    decreases acc.len(),
{
    if acc.len() == 0 {
        None
    } else {
        match first_arg_access(acc.drop_last(), k) {
            Some(i) => Some(i),
            None => if is_plain_arg(acc.last(), k) {
                Some(acc.len() - 1)
            } else {
                None
            },
        }
    }
}

proof fn lemma_first_arg_access(acc: Seq<WithinFunction>, k: int)
    ensures
        first_arg_access(acc, k) matches Some(i) ==> 0 <= i < acc.len() && is_plain_arg(acc[i], k) && forall|j: int| 0 <= j < i ==> !is_plain_arg(acc[j], k),
        first_arg_access(acc, k) is None ==> forall|j: int| 0 <= j < acc.len() ==> !is_plain_arg(acc[j], k),
    decreases acc.len(),
{
    if acc.len() > 0 {
        let t = acc.drop_last();
        lemma_first_arg_access(t, k);
        assert forall|j: int| 0 <= j < t.len() implies t[j] == acc[j] by {}
    }
}

/// The argument `k` of `f`, when it is not a reference and its first access writes it.
pub open spec fn arg_issues(f: Fun, k: int) -> Seq<IssueSpec> {
    let acc = f.scope.accesses@;
    if !f.args@[k].is_ref {
        match first_arg_access(acc, k) {
            Some(i) => if acc[i].info.kind is Write {
                seq![
                    (
                        IssueKind::OverwritingArg,
                        acc[i].info.location,
                        "Function "@ + f.name@ + "() overwrites argument "@ + acc[i].info.accessed_as@
                            + " before reading it."@,
                    ),
                ]
            } else {
                Seq::empty()
            },
            None => Seq::empty(),
        }
    } else {
        Seq::empty()
    }
}

/// The arguments of `f`, among the first `n`, that it writes before reading.
pub open spec fn args_fold(f: Fun, n: int) -> Seq<IssueSpec>
    decreases n,
{
    if n <= 0 {
        Seq::empty()
    } else {
        args_fold(f, n - 1) + arg_issues(f, n - 1)
    }
}

/// The arguments (not references) that `f` overwrites before reading them.
pub open spec fn fun_issues(f: Fun) -> Seq<IssueSpec> {
    args_fold(f, f.args@.len() as int)
}

/// The position of the first access of `acc` to argument `k`.
fn find_first_arg_access(acc: &Vec<WithinFunction>, k: usize) -> (r: Option<usize>)
    ensures
        r matches Some(x) ==> first_arg_access(acc@, k as int) == Some(x as int),
        r is None ==> first_arg_access(acc@, k as int) is None,
{
    proof {
        lemma_first_arg_access(acc@, k as int);
    }
    let mut i: usize = 0;
    while i < acc.len()
        invariant
            i <= acc@.len(),
            forall|j: int| 0 <= j < i ==> !is_plain_arg(acc@[j], k as int),
        decreases acc@.len() - i,
    {
        let hit = match acc[i].var_kind {
            VarKind::Arg { arg_index } => arg_index == k,
            _ => false,
        };
        if hit {
            proof {
                lemma_first_arg_access(acc@, k as int);
                assert(is_plain_arg(acc@[i as int], k as int));
                if let Some(x) = first_arg_access(acc@, k as int) {
                    assert(x == i);
                }
            }
            return Some(i);
        }
        i += 1;
    }
    None
}

fn warn_fun(fun_def: &Fun, issues: &mut IssueTracker)
    requires
        old(issues).wf(),
        old(issues).registers(IssueKind::OverwritingArg),
    ensures
        final(issues).extends(old(issues), fun_issues(*fun_def)),
{
    let acc = &fun_def.scope.accesses;
    let ghost f = *fun_def;
    proof {
        lemma_extends_refl(*issues);
    }
    let mut arg_index: usize = 0;
    while arg_index < fun_def.args.len()
        invariant
            arg_index <= fun_def.args@.len(),
            f == *fun_def,
            acc@ == f.scope.accesses@,
            old(issues).wf(),
            old(issues).registers(IssueKind::OverwritingArg),
            issues.extends(old(issues), args_fold(f, arg_index as int)),
        decreases fun_def.args@.len() - arg_index,
    {
        let ghost m = *issues;
        let ghost k = arg_index as int;
        proof {
            lemma_first_arg_access(acc@, k);
        }
        if !fun_def.args[arg_index].is_ref {
            let found = find_first_arg_access(acc, arg_index);
            match found {
                Some(x) => {
                    let access = &acc[x];
                    if access.info.is_write() {
                        let mut text = String::from_str("Function ");
                        text.append(fun_def.name.as_str());
                        text.append("() overwrites argument ");
                        text.append(access.info.accessed_as.as_str());
                        text.append(" before reading it.");
                        assert(first_arg_access(acc@, k) == Some(x as int));
                        assert(acc@[x as int] == *access);
                        assert(!f.args@[k].is_ref);
                        assert(seq![(IssueKind::OverwritingArg, access.info.location, text@)] == arg_issues(f, k));
                        issues.add(IssueKind::OverwritingArg, &access.info.location, text);
                    } else {
                        proof {
                            lemma_extends_refl(*issues);
                        }
                    }
                },
                None => {
                    proof {
                        lemma_extends_refl(*issues);
                    }
                },
            }
        } else {
            proof {
                lemma_extends_refl(*issues);
            }
        }
        proof {
            lemma_extends_trans(*old(issues), m, *issues, args_fold(f, k), arg_issues(f, k));
        }
        arg_index += 1;
    }
}

/// What the lint reports for the function definitions `fs`, in order.
pub open spec fn defs_issues(fs: Seq<Fun>) -> Seq<IssueSpec>
    decreases fs.len(),
{
    if fs.len() == 0 {
        Seq::empty()
    } else {
        defs_issues(fs.drop_last()) + fun_issues(fs.last())
    }
}

/// What the lint reports for the sections `ss`, in order.
pub open spec fn sections_issues(ss: Seq<Section>) -> Seq<IssueSpec>
    decreases ss.len(),
{
    if ss.len() == 0 {
        Seq::empty()
    } else {
        sections_issues(ss.drop_last()) + defs_issues(ss.last().fun_defs@)
    }
}

/// What the lint reports on `program`: each argument, not a reference, whose first access in its function is a write.
pub open spec fn overwriting_arg_issues(program: Program) -> Seq<IssueSpec> {
    sections_issues(program.sections@)
}

/// Warns about functions that write an argument before reading it.
pub fn lint(program: &Program, issues: &mut IssueTracker)
    requires
        old(issues).wf(),
        old(issues).registers(IssueKind::OverwritingArg),
    ensures
        final(issues).extends(old(issues), overwriting_arg_issues(*program)),
{
    let ss = &program.sections;
    proof {
        lemma_extends_refl(*old(issues));
        assert(ss@.take(0) =~= Seq::<Section>::empty());
    }
    let mut i: usize = 0;
    while i < ss.len()
        invariant
            i <= ss@.len(),
            ss@ == program.sections@,
            old(issues).wf(),
            old(issues).registers(IssueKind::OverwritingArg),
            issues.extends(old(issues), sections_issues(ss@.take(i as int))),
        decreases ss@.len() - i,
    {
        let defs = &ss[i].fun_defs;
        let ghost before = sections_issues(ss@.take(i as int));
        proof {
            assert(ss@.take(i + 1).drop_last() =~= ss@.take(i as int));
            assert(defs@.take(0) =~= Seq::<Fun>::empty());
            assert(before + defs_issues(defs@.take(0)) =~= before);
        }
        let mut j: usize = 0;
        while j < defs.len()
            invariant
                j <= defs@.len(),
                i < ss@.len(),
                defs@ == ss@[i as int].fun_defs@,
                ss@ == program.sections@,
                old(issues).wf(),
                old(issues).registers(IssueKind::OverwritingArg),
                issues.extends(old(issues), before + defs_issues(defs@.take(j as int))),
            decreases defs@.len() - j,
        {
            let ghost m = *issues;
            proof {
                assert(defs@.take(j + 1).drop_last() =~= defs@.take(j as int));
            }
            warn_fun(&defs[j], issues);
            proof {
                lemma_extends_trans(*old(issues), m, *issues, before + defs_issues(defs@.take(j as int)), fun_issues(defs@[j as int]));
                assert(before + defs_issues(defs@.take(j as int)) + fun_issues(defs@[j as int]) =~= before + defs_issues(defs@.take(j + 1)));
            }
            j += 1;
        }
        proof {
            assert(defs@.take(j as int) =~= defs@);
        }
        i += 1;
    }
    proof {
        assert(ss@.take(i as int) =~= ss@);
    }
}

} // verus!
