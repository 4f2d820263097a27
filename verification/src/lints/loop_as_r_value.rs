use vstd::prelude::*;

use crate::ast::{Ast, LocatedAst};
use crate::issue::{lemma_extends_refl, lemma_extends_trans, IssueSpec, IssueTracker};
use crate::issue_kind::IssueKind;
use crate::lints::invalid_lhs_assignment::assignments;
use crate::program::Program;

verus! {

/// What the lint reports for `ret`, a value that the right-hand side of an assignment
/// returns: a `while` always gives 0, a `loop` always 1.
pub open spec fn loop_issues(ret: LocatedAst) -> Seq<IssueSpec> {
    match ret.ast {
        Ast::While { .. } => seq![(IssueKind::LoopAsRValue, ret.location, "While always return 0"@)],
        Ast::Loop { .. } => seq![(IssueKind::LoopAsRValue, ret.location, "Loop always return 1"@)],
        _ => Seq::empty(),
    }
}

/// What the lint reports for the return values `rets` of one right-hand side, in order.
pub open spec fn rvalue_issues(rets: Seq<&LocatedAst>) -> Seq<IssueSpec>
    decreases rets.len(),
{
    if rets.len() == 0 {
        Seq::empty()
    } else {
        rvalue_issues(rets.drop_last()) + loop_issues(*rets.last())
    }
}

/// What the lint reports for the return values of the right-hand sides `lists`, in order.
pub open spec fn rhs_issues(lists: Seq<Vec<&LocatedAst>>) -> Seq<IssueSpec>
    decreases lists.len(),
{
    if lists.len() == 0 {
        Seq::empty()
    } else {
        rhs_issues(lists.drop_last()) + rvalue_issues(lists.last()@)
    }
}

/// Warns about each loop among `rets_b`, the values the right-hand side of an assignment
/// may return.
pub fn warn_loop_as_rvalue(rets_b: &Vec<&LocatedAst>, issues: &mut IssueTracker)
    requires
        old(issues).wf(),
        old(issues).registers(IssueKind::LoopAsRValue),
    ensures
        final(issues).extends(old(issues), rvalue_issues(rets_b@)),
{
    proof {
        lemma_extends_refl(*old(issues));
        assert(rets_b@.take(0) =~= Seq::<&LocatedAst>::empty());
    }
    let mut j: usize = 0;
    while j < rets_b.len()
        invariant
            j <= rets_b@.len(),
            old(issues).wf(),
            old(issues).registers(IssueKind::LoopAsRValue),
            issues.extends(old(issues), rvalue_issues(rets_b@.take(j as int))),
        decreases rets_b@.len() - j,
    {
        let ret_b = rets_b[j];
        let ghost m = *issues;
        proof {
            assert(rets_b@.take(j + 1).drop_last() =~= rets_b@.take(j as int));
        }
        match &ret_b.ast {
            Ast::While { .. } => {
                issues.add(IssueKind::LoopAsRValue, &ret_b.location, String::from_str("While always return 0"));
            },
            Ast::Loop { .. } => {
                issues.add(IssueKind::LoopAsRValue, &ret_b.location, String::from_str("Loop always return 1"));
            },
            _ => {
                proof {
                    lemma_extends_refl(*issues);
                }
            },
        }
        proof {
            lemma_extends_trans(*old(issues), m, *issues, rvalue_issues(rets_b@.take(j as int)), loop_issues(*ret_b));
        }
        j += 1;
    }
    proof {
        assert(rets_b@.take(j as int) =~= rets_b@);
    }
}

/// Reports loops used as values: `rhs_returns[k]` holds the values that the right-hand
/// side of the `k`-th assignment of `program` (see `collect_assignments`) may return;
/// each `while` or `loop` among them is reported.
pub fn lint(program: &Program, rhs_returns: &Vec<Vec<&LocatedAst>>, issues: &mut IssueTracker)
    requires
        old(issues).wf(),
        old(issues).registers(IssueKind::LoopAsRValue),
        rhs_returns@.len() == assignments(*program).len(),
    ensures
        final(issues).extends(old(issues), rhs_issues(rhs_returns@)),
{
    proof {
        lemma_extends_refl(*old(issues));
        assert(rhs_returns@.take(0) =~= Seq::<Vec<&LocatedAst>>::empty());
    }
    let mut k: usize = 0;
    while k < rhs_returns.len()
        invariant
            k <= rhs_returns@.len(),
            old(issues).wf(),
            old(issues).registers(IssueKind::LoopAsRValue),
            issues.extends(old(issues), rhs_issues(rhs_returns@.take(k as int))),
        decreases rhs_returns@.len() - k,
    {
        let ghost m = *issues;
        proof {
            assert(rhs_returns@.take(k + 1).drop_last() =~= rhs_returns@.take(k as int));
        }
        warn_loop_as_rvalue(&rhs_returns[k], issues);
        proof {
            lemma_extends_trans(*old(issues), m, *issues, rhs_issues(rhs_returns@.take(k as int)), rvalue_issues(rhs_returns@[k as int]@));
        }
        k += 1;
    }
    proof {
        assert(rhs_returns@.take(k as int) =~= rhs_returns@);
    }
}

} // verus!
