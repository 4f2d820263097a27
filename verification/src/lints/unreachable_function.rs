use vstd::prelude::*;

use crate::functions::{collect_flat_args, flat_args, modifier_name, Arg, Fun, Modifier, ModifierKind};
use crate::issue::{lemma_extends_refl, lemma_extends_trans, IssueSpec, IssueTracker};
use crate::issue_kind::IssueKind;
use crate::location::Location;
use crate::numbers::{decimal, decimal_string};
use crate::program::{all_located, defs_located, defs_located_at, fun_located, opt_flat, Program, Section};
use crate::text::{concat, lower, eq_ignore_case};
use crate::lints::shadowed_args::{arg_refs, arg_loc, deref_args};
use crate::access::{VarKind, WithinFunction};
use crate::functions::FunCall;

verus! {

/// A user function named `while` (ignoring ASCII case) with at most one argument: the
/// built-in `while` takes precedence, so it is never called.
pub open spec fn while_issues(f: Fun) -> Seq<IssueSpec> {
    let a = f.args@;
    if lower(f.name@) == lower("while"@) && a.len() <= 1 {
        seq![
            (
                IssueKind::UnreachableFunction,
                f.location->0,
                "User defined function while("@ + if a.len() == 1 {
                    a[0].name@
                } else {
                    Seq::empty()
                } + ") is unreachable"@,
            ),
        ]
    } else {
        Seq::empty()
    }
}

/// A user function named `loop` (ignoring ASCII case) with two arguments: the built-in
/// `loop` takes precedence.
pub open spec fn loop_issues(f: Fun) -> Seq<IssueSpec> {
    let a = f.args@;
    if lower(f.name@) == lower("loop"@) && a.len() == 2 {
        seq![
            (
                IssueKind::UnreachableFunction,
                f.location->0,
                "User defined function loop("@ + a[0].name@ + ", "@ + a[1].name@ + ") is unreachable"@,
            ),
        ]
    } else {
        Seq::empty()
    }
}

/// The user function `f`, if a built-in construct of its name hides it.
pub open spec fn fun_issues(f: Fun) -> Seq<IssueSpec> {
    while_issues(f) + loop_issues(f)
}

fn warn_unreachable_loop_while_fn(fun_def: &Fun, issues: &mut IssueTracker)
    requires
        old(issues).wf(),
        old(issues).registers(IssueKind::UnreachableFunction),
        fun_located(*fun_def),
    ensures
        final(issues).extends(old(issues), fun_issues(*fun_def)),
{
    let identifier = fun_def.name.as_str();
    let args_vec = &fun_def.args;
    let location = fun_def.location.unwrap();
    let ghost m0 = *issues;
    if eq_ignore_case(identifier, "while") && args_vec.len() <= 1 {
        let mut text = String::from_str("User defined function while(");
        if args_vec.len() == 1 {
            text.append(args_vec[0].name.as_str());
        }
        text.append(") is unreachable");
        issues.add(IssueKind::UnreachableFunction, &location, text);
    } else {
        proof {
            lemma_extends_refl(*issues);
        }
    }
    let ghost m1 = *issues;
    if eq_ignore_case(identifier, "loop") && args_vec.len() == 2 {
        let mut text = String::from_str("User defined function loop(");
        text.append(args_vec[0].name.as_str());
        text.append(", ");
        text.append(args_vec[1].name.as_str());
        text.append(") is unreachable");
        issues.add(IssueKind::UnreachableFunction, &location, text);
    } else {
        proof {
            lemma_extends_refl(*issues);
        }
    }
    proof {
        lemma_extends_trans(m0, m1, *issues, while_issues(*fun_def), loop_issues(*fun_def));
    }
}

/// What the lint reports for the function definitions `fs`, in order.
pub open spec fn defs_issues(fs: Seq<Fun>) -> Seq<IssueSpec>
    decreases fs.len(),
{
    if fs.len() == 0 {
        Seq::empty()
    } else {
        defs_issues(fs.drop_last()) + fun_issues(fs.last())
    }
}

/// What the lint reports for the sections `ss`, in order.
pub open spec fn sections_issues(ss: Seq<Section>) -> Seq<IssueSpec>
    decreases ss.len(),
{
    if ss.len() == 0 {
        Seq::empty()
    } else {
        sections_issues(ss.drop_last()) + defs_issues(ss.last().fun_defs@)
    }
}

/// What the lint reports on `program`: each user function named like a built-in construct that hides it (`while` with at most one argument, `loop` with two).
pub open spec fn unreachable_function_issues(program: Program) -> Seq<IssueSpec> {
    sections_issues(program.sections@)
}

/// Warns about user functions that built-in constructs of the same name hide.
pub fn lint(program: &Program, issues: &mut IssueTracker)
    requires
        old(issues).wf(),
        old(issues).registers(IssueKind::UnreachableFunction),
        defs_located(*program),
    ensures
        final(issues).extends(old(issues), unreachable_function_issues(*program)),
{
    let ss = &program.sections;
    proof {
        lemma_extends_refl(*old(issues));
        assert(ss@.take(0) =~= Seq::<Section>::empty());
    }
    let mut i: usize = 0;
    while i < ss.len()
        invariant
            i <= ss@.len(),
            ss@ == program.sections@,
            defs_located(*program),
            old(issues).wf(),
            old(issues).registers(IssueKind::UnreachableFunction),
            issues.extends(old(issues), sections_issues(ss@.take(i as int))),
        decreases ss@.len() - i,
    {
        let defs = &ss[i].fun_defs;
        let ghost before = sections_issues(ss@.take(i as int));
        proof {
            assert(ss@.take(i + 1).drop_last() =~= ss@.take(i as int));
            assert(defs@.take(0) =~= Seq::<Fun>::empty());
            assert(before + defs_issues(defs@.take(0)) =~= before);
        }
        let mut j: usize = 0;
        while j < defs.len()
            invariant
                j <= defs@.len(),
                i < ss@.len(),
                defs@ == ss@[i as int].fun_defs@,
                ss@ == program.sections@,
                defs_located(*program),
                old(issues).wf(),
                old(issues).registers(IssueKind::UnreachableFunction),
                issues.extends(old(issues), before + defs_issues(defs@.take(j as int))),
            decreases defs@.len() - j,
        {
            let ghost m = *issues;
            proof {
                assert(defs_located_at(*program, i as int, j as int));
                assert(defs@.take(j + 1).drop_last() =~= defs@.take(j as int));
            }
            warn_unreachable_loop_while_fn(&defs[j], issues);
            proof {
                lemma_extends_trans(*old(issues), m, *issues, before + defs_issues(defs@.take(j as int)), fun_issues(defs@[j as int]));
                assert(before + defs_issues(defs@.take(j as int)) + fun_issues(defs@[j as int]) =~= before + defs_issues(defs@.take(j + 1)));
            }
            j += 1;
        }
        proof {
            assert(defs@.take(j as int) =~= defs@);
        }
        i += 1;
    }
    proof {
        assert(ss@.take(i as int) =~= ss@);
    }
}

} // verus!
