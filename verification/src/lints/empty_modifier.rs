use vstd::prelude::*;

use crate::functions::{collect_flat_args, flat_args, modifier_name, Arg, Fun, Modifier, ModifierKind};
use crate::issue::{lemma_extends_refl, lemma_extends_trans, IssueSpec, IssueTracker};
use crate::issue_kind::IssueKind;
use crate::location::Location;
use crate::numbers::{decimal, decimal_string};
use crate::program::{all_located, defs_located, defs_located_at, fun_located, opt_flat, Program, Section};
use crate::text::{concat, lower, eq_ignore_case};

verus! {

/// The empty modifiers of `ms` (of `kind`), in order.
pub open spec fn empty_mods(ms: Seq<Modifier>, kind: ModifierKind, name: Seq<char>) -> Seq<IssueSpec>
    decreases ms.len(),
{
    if ms.len() == 0 {
        Seq::empty()
    } else {
        empty_mods(ms.drop_last(), kind, name) + if ms.last().args@.len() == 0 {
            seq![
                (
                    IssueKind::EmptyModifier,
                    ms.last().location,
                    "Empty "@ + modifier_name(kind) + "() for "@ + name + "()"@,
                ),
            ]
        } else {
            Seq::empty()
        }
    }
}

/// The empty modifiers of kind `kind` of `f`.
pub open spec fn kind_issues(f: Fun, kind: ModifierKind) -> Seq<IssueSpec> {
    match f.modifiers.spec_get(kind) {
        Some(v) => empty_mods(v@, kind, f.name@),
        None => Seq::empty(),
    }
}

/// The empty `local()` and `instance()` modifiers of `f` (an empty `global()` is fine).
pub open spec fn fun_issues(f: Fun) -> Seq<IssueSpec> {
    kind_issues(f, ModifierKind::Local) + kind_issues(f, ModifierKind::Instance)
}

fn warn_kind(fun_def: &Fun, kind: ModifierKind, issues: &mut IssueTracker)
    requires
        old(issues).wf(),
        old(issues).registers(IssueKind::EmptyModifier),
    ensures
        final(issues).extends(old(issues), kind_issues(*fun_def, kind)),
{
    proof {
        lemma_extends_refl(*issues);
    }
    let ms = match fun_def.modifiers.get(&kind) {
        Some(m) => m,
        None => {
            return;
        },
    };
    let ghost n = fun_def.name@;
    let mut i: usize = 0;
    assert(ms@.take(0) =~= Seq::<Modifier>::empty());
    while i < ms.len()
        invariant
            i <= ms@.len(),
            n == fun_def.name@,
            old(issues).wf(),
            old(issues).registers(IssueKind::EmptyModifier),
            issues.extends(old(issues), empty_mods(ms@.take(i as int), kind, n)),
        decreases ms@.len() - i,
    {
        let ghost m = *issues;
        assert(ms@.take(i + 1).drop_last() =~= ms@.take(i as int));
        if ms[i].args.len() == 0 {
            let mut text = String::from_str("Empty ");
            text.append(kind.name());
            text.append("() for ");
            text.append(fun_def.name.as_str());
            text.append("()");
            let ghost x = seq![(IssueKind::EmptyModifier, ms@[i as int].location, text@)];
            issues.add(IssueKind::EmptyModifier, &ms[i].location, text);
            proof {
                lemma_extends_trans(*old(issues), m, *issues, empty_mods(ms@.take(i as int), kind, n), x);
            }
        } else {
            assert(empty_mods(ms@.take(i + 1), kind, n) =~= empty_mods(ms@.take(i as int), kind, n));
        }
        i += 1;
    }
    assert(ms@.take(i as int) =~= ms@);
}

fn warn_fun(fun_def: &Fun, issues: &mut IssueTracker)
    requires
        old(issues).wf(),
        old(issues).registers(IssueKind::EmptyModifier),
    ensures
        final(issues).extends(old(issues), fun_issues(*fun_def)),
{
    let ghost m0 = *issues;
    warn_kind(fun_def, ModifierKind::Local, issues);
    let ghost m1 = *issues;
    warn_kind(fun_def, ModifierKind::Instance, issues);
    proof {
        lemma_extends_trans(m0, m1, *issues, kind_issues(*fun_def, ModifierKind::Local), kind_issues(*fun_def, ModifierKind::Instance));
    }
}

/// What the lint reports for the function definitions `fs`, in order.
pub open spec fn defs_issues(fs: Seq<Fun>) -> Seq<IssueSpec>
    decreases fs.len(),
{
    if fs.len() == 0 {
        Seq::empty()
    } else {
        defs_issues(fs.drop_last()) + fun_issues(fs.last())
    }
}

/// What the lint reports for the sections `ss`, in order.
pub open spec fn sections_issues(ss: Seq<Section>) -> Seq<IssueSpec>
    decreases ss.len(),
{
    if ss.len() == 0 {
        Seq::empty()
    } else {
        sections_issues(ss.drop_last()) + defs_issues(ss.last().fun_defs@)
    }
}

/// What the lint reports on `program`: each empty `local()` or `instance()` modifier.
pub open spec fn empty_modifier_issues(program: Program) -> Seq<IssueSpec> {
    sections_issues(program.sections@)
}

/// Warns about empty modifiers, except `global()`.
pub fn lint(program: &Program, issues: &mut IssueTracker)
    requires
        old(issues).wf(),
        old(issues).registers(IssueKind::EmptyModifier),
    ensures
        final(issues).extends(old(issues), empty_modifier_issues(*program)),
{
    let ss = &program.sections;
    proof {
        lemma_extends_refl(*old(issues));
        assert(ss@.take(0) =~= Seq::<Section>::empty());
    }
    let mut i: usize = 0;
    while i < ss.len()
        invariant
            i <= ss@.len(),
            ss@ == program.sections@,
            old(issues).wf(),
            old(issues).registers(IssueKind::EmptyModifier),
            issues.extends(old(issues), sections_issues(ss@.take(i as int))),
        decreases ss@.len() - i,
    {
        let defs = &ss[i].fun_defs;
        let ghost before = sections_issues(ss@.take(i as int));
        proof {
            assert(ss@.take(i + 1).drop_last() =~= ss@.take(i as int));
            assert(defs@.take(0) =~= Seq::<Fun>::empty());
            assert(before + defs_issues(defs@.take(0)) =~= before);
        }
        let mut j: usize = 0;
        while j < defs.len()
            invariant
                j <= defs@.len(),
                i < ss@.len(),
                defs@ == ss@[i as int].fun_defs@,
                ss@ == program.sections@,
                old(issues).wf(),
                old(issues).registers(IssueKind::EmptyModifier),
                issues.extends(old(issues), before + defs_issues(defs@.take(j as int))),
            decreases defs@.len() - j,
        {
            let ghost m = *issues;
            proof {
                assert(defs@.take(j + 1).drop_last() =~= defs@.take(j as int));
            }
            warn_fun(&defs[j], issues);
            proof {
                lemma_extends_trans(*old(issues), m, *issues, before + defs_issues(defs@.take(j as int)), fun_issues(defs@[j as int]));
                assert(before + defs_issues(defs@.take(j as int)) + fun_issues(defs@[j as int]) =~= before + defs_issues(defs@.take(j + 1)));
            }
            j += 1;
        }
        proof {
            assert(defs@.take(j as int) =~= defs@);
        }
        i += 1;
    }
    proof {
        assert(ss@.take(i as int) =~= ss@);
    }
}

} // verus!
