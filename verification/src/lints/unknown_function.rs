use vstd::prelude::*;

use crate::functions::{collect_flat_args, flat_args, modifier_name, Arg, Fun, Modifier, ModifierKind};
use crate::issue::{lemma_extends_refl, lemma_extends_trans, IssueSpec, IssueTracker};
use crate::issue_kind::IssueKind;
use crate::location::Location;
use crate::numbers::{decimal, decimal_string};
use crate::program::{all_located, defs_located, defs_located_at, fun_located, opt_flat, Program, Section};
use crate::text::{concat, lower, eq_ignore_case};
use crate::functions::FunCall;

verus! {

/// The calls of `cs` to unknown functions, in order.
pub open spec fn calls_issues(cs: Seq<FunCall>) -> Seq<IssueSpec>
    decreases cs.len(),
{
    if cs.len() == 0 {
        Seq::empty()
    } else {
        calls_issues(cs.drop_last()) + if cs.last().fun is None {
            seq![
                (
                    IssueKind::UnknownFunction,
                    cs.last().location,
                    "Unknown function "@ + cs.last().accessed_as@ + "()"@,
                ),
            ]
        } else {
            Seq::empty()
        }
    }
}

/// The calls to unknown functions in the sections `ss`, in order.
pub open spec fn sections_issues(ss: Seq<Section>) -> Seq<IssueSpec>
    decreases ss.len(),
{
    if ss.len() == 0 {
        Seq::empty()
    } else {
        sections_issues(ss.drop_last()) + calls_issues(ss.last().fun_calls@)
    }
}

/// What the lint reports on `program`: each call to a function that is not known.
pub open spec fn unknown_function_issues(program: Program) -> Seq<IssueSpec> {
    sections_issues(program.sections@)
}

/// Reports calls to unknown functions.
pub fn lint(program: &Program, issues: &mut IssueTracker)
    requires
        old(issues).wf(),
        old(issues).registers(IssueKind::UnknownFunction),
    ensures
        final(issues).extends(old(issues), unknown_function_issues(*program)),
{
    let ss = &program.sections;
    proof {
        lemma_extends_refl(*old(issues));
        assert(ss@.take(0) =~= Seq::<Section>::empty());
    }
    let mut i: usize = 0;
    while i < ss.len()
        invariant
            i <= ss@.len(),
            ss@ == program.sections@,
            old(issues).wf(),
            old(issues).registers(IssueKind::UnknownFunction),
            issues.extends(old(issues), sections_issues(ss@.take(i as int))),
        decreases ss@.len() - i,
    {
        let calls = &ss[i].fun_calls;
        let ghost before = sections_issues(ss@.take(i as int));
        proof {
            assert(ss@.take(i + 1).drop_last() =~= ss@.take(i as int));
            assert(calls@.take(0) =~= Seq::<FunCall>::empty());
            assert(before + calls_issues(calls@.take(0)) =~= before);
        }
        let mut j: usize = 0;
        while j < calls.len()
            invariant
                j <= calls@.len(),
                i < ss@.len(),
                calls@ == ss@[i as int].fun_calls@,
                old(issues).wf(),
                old(issues).registers(IssueKind::UnknownFunction),
                issues.extends(old(issues), before + calls_issues(calls@.take(j as int))),
            decreases calls@.len() - j,
        {
            let ghost m = *issues;
            let fun_call = &calls[j];
            assert(calls@.take(j + 1).drop_last() =~= calls@.take(j as int));
            if fun_call.fun.is_none() {
                let mut text = String::from_str("Unknown function ");
                text.append(fun_call.accessed_as.as_str());
                text.append("()");
                let ghost x = seq![(IssueKind::UnknownFunction, fun_call.location, text@)];
                issues.add(IssueKind::UnknownFunction, &fun_call.location, text);
                proof {
                    lemma_extends_trans(*old(issues), m, *issues, before + calls_issues(calls@.take(j as int)), x);
                    assert(before + calls_issues(calls@.take(j as int)) + x =~= before + calls_issues(calls@.take(j + 1)));
                }
            } else {
                assert(before + calls_issues(calls@.take(j + 1)) =~= before + calls_issues(calls@.take(j as int)));
            }
            j += 1;
        }
        proof {
            assert(calls@.take(j as int) =~= calls@);
        }
        i += 1;
    }
    proof {
        assert(ss@.take(i as int) =~= ss@);
    }
}

} // verus!
