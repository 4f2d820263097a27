use vstd::prelude::*;

use crate::functions::{collect_flat_args, flat_args, modifier_name, Arg, Fun, Modifier, ModifierKind};
use crate::issue::{lemma_extends_refl, lemma_extends_trans, IssueSpec, IssueTracker};
use crate::issue_kind::IssueKind;
use crate::location::Location;
use crate::numbers::{decimal, decimal_string};
use crate::program::{all_located, defs_located, defs_located_at, fun_located, opt_flat, Program, Section};
use crate::text::{concat, lower, eq_ignore_case};
use crate::lints::shadowed_args::{arg_refs, arg_loc, deref_args};

verus! {

/// The arguments of `args` that are strings, in order.
pub open spec fn flag_fold(args: Seq<Arg>) -> Seq<IssueSpec>
    decreases args.len(),
{
    if args.len() == 0 {
        Seq::empty()
    } else {
        flag_fold(args.drop_last()) + if args.last().is_str {
            seq![(IssueKind::StringArgInLocalMod, arg_loc(args.last()), "Strings are not allowed in local()"@)]
        } else {
            Seq::empty()
        }
    }
}

/// The flagged arguments of the modifiers of `kind` of `f`.
pub open spec fn kind_issues(f: Fun, kind: ModifierKind) -> Seq<IssueSpec> {
    match opt_flat(f.modifiers.spec_get(kind)) {
        Some(l) => flag_fold(l),
        None => Seq::empty(),
    }
}

fn warn_kind(fun_def: &Fun, kind: ModifierKind, issues: &mut IssueTracker)
    requires
        old(issues).wf(),
        old(issues).registers(IssueKind::StringArgInLocalMod),
        fun_located(*fun_def),
    ensures
        final(issues).extends(old(issues), kind_issues(*fun_def, kind)),
{
    proof {
        lemma_extends_refl(*issues);
    }
    let ms = match fun_def.modifiers.get(&kind) {
        Some(m) => m,
        None => {
            return;
        },
    };
    let args = collect_flat_args(ms);
    let ghost a = deref_args(args@);
    proof {
        assert(kind == ModifierKind::Local || kind == ModifierKind::Instance || kind == ModifierKind::Global);
        assert(all_located(a));
        assert(a.take(0) =~= Seq::<Arg>::empty());
    }
    let mut i: usize = 0;
    while i < args.len()
        invariant
            i <= args@.len(),
            a == deref_args(args@),
            all_located(a),
            old(issues).wf(),
            old(issues).registers(IssueKind::StringArgInLocalMod),
            issues.extends(old(issues), flag_fold(a.take(i as int))),
        decreases args@.len() - i,
    {
        let ghost m = *issues;
        let arg = args[i];
        assert(a[i as int] == *arg);
        assert(a.take(i + 1).drop_last() =~= a.take(i as int));
        if arg.is_str {
            let loc = arg.location.unwrap();
            let text = String::from_str("Strings are not allowed in local()");
            let ghost x = seq![(IssueKind::StringArgInLocalMod, loc, text@)];
            issues.add(IssueKind::StringArgInLocalMod, &loc, text);
            proof {
                lemma_extends_trans(*old(issues), m, *issues, flag_fold(a.take(i as int)), x);
            }
        } else {
            assert(flag_fold(a.take(i + 1)) =~= flag_fold(a.take(i as int)));
        }
        i += 1;
    }
    assert(a.take(i as int) =~= a);
}

/// The string arguments of the `local()` modifiers of `f`.
pub open spec fn fun_issues(f: Fun) -> Seq<IssueSpec> {
    kind_issues(f, ModifierKind::Local)
}

fn warn_fun(fun_def: &Fun, issues: &mut IssueTracker)
    requires
        old(issues).wf(),
        old(issues).registers(IssueKind::StringArgInLocalMod),
        fun_located(*fun_def),
    ensures
        final(issues).extends(old(issues), fun_issues(*fun_def)),
{
    warn_kind(fun_def, ModifierKind::Local, issues);
}

/// What the lint reports for the function definitions `fs`, in order.
pub open spec fn defs_issues(fs: Seq<Fun>) -> Seq<IssueSpec>
    decreases fs.len(),
{
    if fs.len() == 0 {
        Seq::empty()
    } else {
        defs_issues(fs.drop_last()) + fun_issues(fs.last())
    }
}

/// What the lint reports for the sections `ss`, in order.
pub open spec fn sections_issues(ss: Seq<Section>) -> Seq<IssueSpec>
    decreases ss.len(),
{
    if ss.len() == 0 {
        Seq::empty()
    } else {
        sections_issues(ss.drop_last()) + defs_issues(ss.last().fun_defs@)
    }
}

/// What the lint reports on `program`: each string argument of a `local()` modifier.
pub open spec fn string_arg_in_local_mod_issues(program: Program) -> Seq<IssueSpec> {
    sections_issues(program.sections@)
}

/// Warns about strings given as arguments of `local()`.
pub fn lint(program: &Program, issues: &mut IssueTracker)
    requires
        old(issues).wf(),
        old(issues).registers(IssueKind::StringArgInLocalMod),
        defs_located(*program),
    ensures
        final(issues).extends(old(issues), string_arg_in_local_mod_issues(*program)),
{
    let ss = &program.sections;
    proof {
        lemma_extends_refl(*old(issues));
        assert(ss@.take(0) =~= Seq::<Section>::empty());
    }
    let mut i: usize = 0;
    while i < ss.len()
        invariant
            i <= ss@.len(),
            ss@ == program.sections@,
            defs_located(*program),
            old(issues).wf(),
            old(issues).registers(IssueKind::StringArgInLocalMod),
            issues.extends(old(issues), sections_issues(ss@.take(i as int))),
        decreases ss@.len() - i,
    {
        let defs = &ss[i].fun_defs;
        let ghost before = sections_issues(ss@.take(i as int));
        proof {
            assert(ss@.take(i + 1).drop_last() =~= ss@.take(i as int));
            assert(defs@.take(0) =~= Seq::<Fun>::empty());
            assert(before + defs_issues(defs@.take(0)) =~= before);
        }
        let mut j: usize = 0;
        while j < defs.len()
            invariant
                j <= defs@.len(),
                i < ss@.len(),
                defs@ == ss@[i as int].fun_defs@,
                ss@ == program.sections@,
                defs_located(*program),
                old(issues).wf(),
                old(issues).registers(IssueKind::StringArgInLocalMod),
                issues.extends(old(issues), before + defs_issues(defs@.take(j as int))),
            decreases defs@.len() - j,
        {
            let ghost m = *issues;
            proof {
                assert(defs_located_at(*program, i as int, j as int));
                assert(defs@.take(j + 1).drop_last() =~= defs@.take(j as int));
            }
            warn_fun(&defs[j], issues);
            proof {
                lemma_extends_trans(*old(issues), m, *issues, before + defs_issues(defs@.take(j as int)), fun_issues(defs@[j as int]));
                assert(before + defs_issues(defs@.take(j as int)) + fun_issues(defs@[j as int]) =~= before + defs_issues(defs@.take(j + 1)));
            }
            j += 1;
        }
        proof {
            assert(defs@.take(j as int) =~= defs@);
        }
        i += 1;
    }
    proof {
        assert(ss@.take(i as int) =~= ss@);
    }
}

} // verus!
