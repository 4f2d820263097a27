use vstd::prelude::*;

use crate::functions::FunCall;
use crate::issue::{lemma_extends_refl, lemma_extends_trans, IssueSpec, IssueTracker};
use crate::issue_kind::IssueKind;
use crate::program::{Program, Section};
use crate::text::{chars_until, eq_ignore_case, lower, starts_with_ignore_case, str_eq};

verus! {

/// Whether the call `c` is written as its prefix, a dot and the function name (when it
/// has a prefix).
pub open spec fn call_ok(c: FunCall) -> bool {
    c.prefix matches Some(p) ==> (p@.len() + 1 <= c.accessed_as@.len() && c.accessed_as@.take(
        p@.len() + 1int,
    ) == p@.push('.'))
}

/// Whether the call `j` of section `i` of `program` is written as its prefix, a dot and
/// the function name.
pub open spec fn call_ok_at(program: Program, i: int, j: int) -> bool {
    call_ok(program.sections@[i].fun_calls@[j])
}

/// Whether every call of `program` is written as its prefix, a dot and the function name.
pub open spec fn calls_ok(program: Program) -> bool {
    forall|i: int, j: int|
        0 <= i < program.sections@.len() && 0 <= j < program.sections@[i].fun_calls@.len()
            ==> #[trigger] call_ok_at(program, i, j)
}

/// The function name as written at the call `c`, without its prefix.
pub open spec fn called_name(c: FunCall) -> Seq<char> {
    match c.prefix {
        None => c.accessed_as@,
        Some(p) => c.accessed_as@.subrange(p@.len() + 1int, c.accessed_as@.len() as int),
    }
}

/// What the lint reports for the call `c`: a call of a known function written with
/// another casing than its definition.
pub open spec fn call_issues(c: FunCall) -> Seq<IssueSpec> {
    match c.fun {
        Some(f) => if called_name(c) != f.name@ {
            seq![
                (
                    IssueKind::InconsistentCasing,
                    c.location,
                    "Casing is inconsistent: function `"@ + f.name@ + "()` was invoked as `"@
                        + called_name(c) + "()`"@,
                ),
            ]
        } else {
            Seq::empty()
        },
        None => Seq::empty(),
    }
}

/// What the lint reports for the calls `cs`, in order.
pub open spec fn calls_issues(cs: Seq<FunCall>) -> Seq<IssueSpec>
    decreases cs.len(),
{
    if cs.len() == 0 {
        Seq::empty()
    } else {
        calls_issues(cs.drop_last()) + call_issues(cs.last())
    }
}

/// What the lint reports for the sections `ss`, in order.
pub open spec fn sections_issues(ss: Seq<Section>) -> Seq<IssueSpec>
    decreases ss.len(),
{
    if ss.len() == 0 {
        Seq::empty()
    } else {
        sections_issues(ss.drop_last()) + calls_issues(ss.last().fun_calls@)
    }
}

/// What the lint reports on `program`: each call of a known function written with another
/// casing than its definition.
pub open spec fn function_casing_issues(program: Program) -> Seq<IssueSpec> {
    sections_issues(program.sections@)
}

/// Warns about calls that write a function's name with another casing than its definition.
pub fn function_casing(program: &Program, issues: &mut IssueTracker)
    requires
        old(issues).wf(),
        old(issues).registers(IssueKind::InconsistentCasing),
        calls_ok(*program),
    ensures
        final(issues).extends(old(issues), function_casing_issues(*program)),
{
    let ss = &program.sections;
    proof {
        lemma_extends_refl(*old(issues));
        assert(ss@.take(0) =~= Seq::<Section>::empty());
    }
    let mut i: usize = 0;
    while i < ss.len()
        invariant
            i <= ss@.len(),
            ss@ == program.sections@,
            calls_ok(*program),
            old(issues).wf(),
            old(issues).registers(IssueKind::InconsistentCasing),
            issues.extends(old(issues), sections_issues(ss@.take(i as int))),
        decreases ss@.len() - i,
    {
        let calls = &ss[i].fun_calls;
        let ghost before = sections_issues(ss@.take(i as int));
        proof {
            assert(ss@.take(i + 1).drop_last() =~= ss@.take(i as int));
            assert(calls@.take(0) =~= Seq::<FunCall>::empty());
            assert(before + calls_issues(calls@.take(0)) =~= before);
        }
        let mut j: usize = 0;
        while j < calls.len()
            invariant
                j <= calls@.len(),
                i < ss@.len(),
                calls@ == ss@[i as int].fun_calls@,
                ss@ == program.sections@,
                calls_ok(*program),
                old(issues).wf(),
                old(issues).registers(IssueKind::InconsistentCasing),
                issues.extends(old(issues), before + calls_issues(calls@.take(j as int))),
            decreases calls@.len() - j,
        {
            let ghost m = *issues;
            let fun_call = &calls[j];
            proof {
                assert(call_ok_at(*program, i as int, j as int));
            }
            assert(calls@.take(j + 1).drop_last() =~= calls@.take(j as int));
            assert(calls@.take(j + 1).last() == *fun_call);
            match &fun_call.fun {
                Some(fun) => {
                    let called = fun_call.fun_name();
                    if !str_eq(called.as_str(), fun.name.as_str()) {
                        let mut text = String::from_str("Casing is inconsistent: function `");
                        text.append(fun.name.as_str());
                        text.append("()` was invoked as `");
                        text.append(called.as_str());
                        text.append("()`");
                        let ghost x = seq![(IssueKind::InconsistentCasing, fun_call.location, text@)];
                        issues.add(IssueKind::InconsistentCasing, &fun_call.location, text);
                        proof {
                            lemma_extends_trans(*old(issues), m, *issues, before + calls_issues(calls@.take(j as int)), x);
                            assert(before + calls_issues(calls@.take(j as int)) + x =~= before + calls_issues(calls@.take(j + 1)));
                        }
                    } else {
                        assert(before + calls_issues(calls@.take(j + 1)) =~= before + calls_issues(calls@.take(j as int)));
                    }
                },
                None => {
                    assert(before + calls_issues(calls@.take(j + 1)) =~= before + calls_issues(calls@.take(j as int)));
                },
            }
            j += 1;
        }
        proof {
            assert(calls@.take(j as int) =~= calls@);
        }
        i += 1;
    }
    proof {
        assert(ss@.take(i as int) =~= ss@);
    }
}

} // verus!
