use vstd::prelude::*;

use crate::functions::{collect_flat_args, flat_args, modifier_name, Arg, Fun, Modifier, ModifierKind};
use crate::issue::{lemma_extends_refl, lemma_extends_trans, IssueSpec, IssueTracker};
use crate::issue_kind::IssueKind;
use crate::location::Location;
use crate::numbers::{decimal, decimal_string};
use crate::program::{all_located, defs_located, defs_located_at, fun_located, opt_flat, Program, Section};
use crate::text::{concat, lower, eq_ignore_case};

verus! {

/// A second modifier of kind `kind` in `f`.
pub open spec fn kind_issues(f: Fun, kind: ModifierKind) -> Seq<IssueSpec> {
    match f.modifiers.spec_get(kind) {
        Some(v) => if v@.len() > 1 {
            seq![
                (
                    IssueKind::DuplicateModifier,
                    v@[1].location,
                    "Duplicate "@ + modifier_name(kind) + "() modifier for "@ + f.name@ + "()"@,
                ),
            ]
        } else {
            Seq::empty()
        },
        None => Seq::empty(),
    }
}

/// The duplicated `local()`, `global()` and `instance()` modifiers of `f`.
pub open spec fn fun_issues(f: Fun) -> Seq<IssueSpec> {
    kind_issues(f, ModifierKind::Local) + kind_issues(f, ModifierKind::Global) + kind_issues(
        f,
        ModifierKind::Instance,
    )
}

fn warn_duplicate_mod(fun_def: &Fun, kind: &ModifierKind, issues: &mut IssueTracker)
    requires
        old(issues).wf(),
        old(issues).registers(IssueKind::DuplicateModifier),
    ensures
        final(issues).extends(old(issues), kind_issues(*fun_def, *kind)),
{
    if let Some(modifiers) = fun_def.modifiers.get(kind) {
        if modifiers.len() > 1 {
            let mut text = String::from_str("Duplicate ");
            text.append(kind.name());
            text.append("() modifier for ");
            text.append(fun_def.name.as_str());
            text.append("()");
            issues.add(IssueKind::DuplicateModifier, &modifiers[1].location, text);
            return;
        }
    }
    proof {
        lemma_extends_refl(*issues);
    }
}

fn warn_fun(fun_def: &Fun, issues: &mut IssueTracker)
    requires
        old(issues).wf(),
        old(issues).registers(IssueKind::DuplicateModifier),
    ensures
        final(issues).extends(old(issues), fun_issues(*fun_def)),
{
    let ghost m0 = *issues;
    warn_duplicate_mod(fun_def, &ModifierKind::Local, issues);
    let ghost m1 = *issues;
    warn_duplicate_mod(fun_def, &ModifierKind::Global, issues);
    let ghost m2 = *issues;
    warn_duplicate_mod(fun_def, &ModifierKind::Instance, issues);
    proof {
        lemma_extends_trans(m0, m1, m2, kind_issues(*fun_def, ModifierKind::Local), kind_issues(*fun_def, ModifierKind::Global));
        lemma_extends_trans(m0, m2, *issues, kind_issues(*fun_def, ModifierKind::Local) + kind_issues(*fun_def, ModifierKind::Global), kind_issues(*fun_def, ModifierKind::Instance));
    }
}

/// What the lint reports for the function definitions `fs`, in order.
pub open spec fn defs_issues(fs: Seq<Fun>) -> Seq<IssueSpec>
    decreases fs.len(),
{
    if fs.len() == 0 {
        Seq::empty()
    } else {
        defs_issues(fs.drop_last()) + fun_issues(fs.last())
    }
}

/// What the lint reports for the sections `ss`, in order.
pub open spec fn sections_issues(ss: Seq<Section>) -> Seq<IssueSpec>
    decreases ss.len(),
{
    if ss.len() == 0 {
        Seq::empty()
    } else {
        sections_issues(ss.drop_last()) + defs_issues(ss.last().fun_defs@)
    }
}

/// What the lint reports on `program`: each second modifier of a kind in a function definition.
pub open spec fn duplicate_modifier_issues(program: Program) -> Seq<IssueSpec> {
    sections_issues(program.sections@)
}

/// Warns about modifiers that occur twice in a function definition.
pub fn lint(program: &Program, issues: &mut IssueTracker)
    requires
        old(issues).wf(),
        old(issues).registers(IssueKind::DuplicateModifier),
    ensures
        final(issues).extends(old(issues), duplicate_modifier_issues(*program)),
{
    let ss = &program.sections;
    proof {
        lemma_extends_refl(*old(issues));
        assert(ss@.take(0) =~= Seq::<Section>::empty());
    }
    let mut i: usize = 0;
    while i < ss.len()
        invariant
            i <= ss@.len(),
            ss@ == program.sections@,
            old(issues).wf(),
            old(issues).registers(IssueKind::DuplicateModifier),
            issues.extends(old(issues), sections_issues(ss@.take(i as int))),
        decreases ss@.len() - i,
    {
        let defs = &ss[i].fun_defs;
        let ghost before = sections_issues(ss@.take(i as int));
        proof {
            assert(ss@.take(i + 1).drop_last() =~= ss@.take(i as int));
            assert(defs@.take(0) =~= Seq::<Fun>::empty());
            assert(before + defs_issues(defs@.take(0)) =~= before);
        }
        let mut j: usize = 0;
        while j < defs.len()
            invariant
                j <= defs@.len(),
                i < ss@.len(),
                defs@ == ss@[i as int].fun_defs@,
                ss@ == program.sections@,
                old(issues).wf(),
                old(issues).registers(IssueKind::DuplicateModifier),
                issues.extends(old(issues), before + defs_issues(defs@.take(j as int))),
            decreases defs@.len() - j,
        {
            let ghost m = *issues;
            proof {
                assert(defs@.take(j + 1).drop_last() =~= defs@.take(j as int));
            }
            warn_fun(&defs[j], issues);
            proof {
                lemma_extends_trans(*old(issues), m, *issues, before + defs_issues(defs@.take(j as int)), fun_issues(defs@[j as int]));
                assert(before + defs_issues(defs@.take(j as int)) + fun_issues(defs@[j as int]) =~= before + defs_issues(defs@.take(j + 1)));
            }
            j += 1;
        }
        proof {
            assert(defs@.take(j as int) =~= defs@);
        }
        i += 1;
    }
    proof {
        assert(ss@.take(i as int) =~= ss@);
    }
}

} // verus!
