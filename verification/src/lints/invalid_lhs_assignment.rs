use vstd::prelude::*;

use crate::ast::{identifier_of, Ast, LocatedAst};
use crate::issue::{lemma_extends_refl, lemma_extends_trans, IssueSpec, IssueTracker};
use crate::issue_kind::IssueKind;
use crate::iterators::ast_walk::{visit_order, AstWalk};
use crate::program::{Chunk, Program, Section};
use crate::text::{eq_ignore_case, lower};

verus! {

/// Whether `n` is an assignment.
pub open spec fn is_assignment(n: LocatedAst) -> bool {
    n.ast is Assignment
}

/// The assignments of a chunk, in walk order.
pub open spec fn chunk_assignments(c: Chunk) -> Seq<LocatedAst> {
    match c.ast {
        Some(root) => visit_order(root).filter(|n: LocatedAst| is_assignment(n)),
        None => Seq::empty(),
    }
}

/// The assignments of the chunks `cs`, in order.
pub open spec fn chunks_assignments(cs: Seq<Chunk>) -> Seq<LocatedAst>
    decreases cs.len(),
{
    if cs.len() == 0 {
        Seq::empty()
    } else {
        chunks_assignments(cs.drop_last()) + chunk_assignments(cs.last())
    }
}

/// The assignments of the sections `ss`, in order.
pub open spec fn sections_assignments(ss: Seq<Section>) -> Seq<LocatedAst>
    decreases ss.len(),
{
    if ss.len() == 0 {
        Seq::empty()
    } else {
        sections_assignments(ss.drop_last()) + chunks_assignments(ss.last().chunks@)
    }
}

/// The assignments of `program`, in the order the assignment lints visit them: sections,
/// their chunks, the nodes of each chunk in walk order.
pub open spec fn assignments(program: Program) -> Seq<LocatedAst> {
    sections_assignments(program.sections@)
}

/// Appends the assignments of `chunk` to `out`.
fn push_chunk_assignments<'a>(chunk: &'a Chunk, out: &mut Vec<&'a LocatedAst>)
    ensures
        final(out)@.map_values(|n: &LocatedAst| *n) == old(out)@.map_values(|n: &LocatedAst| *n)
            + chunk_assignments(*chunk),
{
    let ghost before = out@.map_values(|n: &LocatedAst| *n);
    let root = match &chunk.ast {
        Some(r) => r,
        None => {
            assert(out@.map_values(|n: &LocatedAst| *n) =~= before + chunk_assignments(*chunk));
            return;
        },
    };
    let ghost all = visit_order(*root);
    let mut walk = AstWalk::new(root);
    let ghost mut k: int = 0;
    proof {
        reveal(Seq::filter);
        assert(all.skip(0) =~= all);
        assert(all.take(0) =~= Seq::<LocatedAst>::empty());
        assert(out@.map_values(|n: &LocatedAst| *n) =~= before + all.take(0).filter(
            |n: LocatedAst| is_assignment(n),
        ));
    }
    loop
        invariant
            0 <= k <= all.len(),
            all == visit_order(*root),
            chunk.ast == Some(*root),
            walk@ == all.skip(k),
            out@.map_values(|n: &LocatedAst| *n) == before + all.take(k).filter(
                |n: LocatedAst| is_assignment(n),
            ),
        ensures
            out@.map_values(|n: &LocatedAst| *n) == before + all.filter(|n: LocatedAst| is_assignment(n)),
        decreases all.len() - k,
    {
        let n = match walk.next() {
            Some(n) => n,
            None => {
                proof {
                    assert(all.take(k) =~= all);
                }
                break;
            },
        };
        proof {
            reveal(Seq::filter);
            assert(all.skip(k)[0] == all[k]);
            assert(all.take(k + 1).drop_last() =~= all.take(k));
            assert(all.take(k + 1).last() == all[k]);
            assert(all.skip(k).drop_first() =~= all.skip(k + 1));
        }
        let ghost mid = out@;
        if let Ast::Assignment { .. } = &n.ast {
            out.push(n);
            proof {
                assert(out@.map_values(|n: &LocatedAst| *n) =~= mid.map_values(|n: &LocatedAst| *n).push(*n));
            }
        }
        proof {
            k = k + 1;
        }
    }
}

/// The assignments of `program` (see `assignments`), in order: the assignments whose
/// operands the assignment lints are told the return values of.
pub fn collect_assignments(program: &Program) -> (r: Vec<&LocatedAst>)
    ensures
        r@.map_values(|n: &LocatedAst| *n) == assignments(*program),
{
    let ss = &program.sections;
    let mut out: Vec<&LocatedAst> = Vec::new();
    let mut i: usize = 0;
    assert(out@.map_values(|n: &LocatedAst| *n) =~= sections_assignments(ss@.take(0)));
    while i < ss.len()
        invariant
            i <= ss@.len(),
            ss@ == program.sections@,
            out@.map_values(|n: &LocatedAst| *n) == sections_assignments(ss@.take(i as int)),
        decreases ss@.len() - i,
    {
        let cs = &ss[i].chunks;
        let ghost before = sections_assignments(ss@.take(i as int));
        proof {
            assert(ss@.take(i + 1).drop_last() =~= ss@.take(i as int));
            assert(before + chunks_assignments(cs@.take(0)) =~= before);
        }
        let mut j: usize = 0;
        while j < cs.len()
            invariant
                j <= cs@.len(),
                i < ss@.len(),
                cs@ == ss@[i as int].chunks@,
                out@.map_values(|n: &LocatedAst| *n) == before + chunks_assignments(cs@.take(j as int)),
            decreases cs@.len() - j,
        {
            assert(cs@.take(j + 1).drop_last() =~= cs@.take(j as int));
            push_chunk_assignments(&cs[j], &mut out);
            assert(before + chunks_assignments(cs@.take(j as int)) + chunk_assignments(cs@[j as int])
                =~= before + chunks_assignments(cs@.take(j + 1)));
            j += 1;
        }
        assert(cs@.take(j as int) =~= cs@);
        i += 1;
    }
    assert(ss@.take(i as int) =~= ss@);
    out
}

/// Whether a value of kind `a` cannot be assigned to: an operation, a number, a string,
/// a loop or a character literal.
pub open spec fn not_assignable(a: Ast) -> bool {
    ||| a is LogicalAndOr
    ||| a is Cmp
    ||| a is AndOr
    ||| a is Add
    ||| a is Sub
    ||| a is Mul
    ||| a is Div
    ||| a is Pow
    ||| a is Unary
    ||| a is Number
    ||| a is ModShift
    ||| a is String
    ||| a is While
    ||| a is Loop
    ||| a is CharLit
}

/// What the lint reports for `ret`, a value that the left-hand side of an assignment
/// lists: a value that cannot be assigned to, or a call to a function other than
/// `spl` and `slider` (ASCII case ignored).
pub open spec fn ret_issues(ret: LocatedAst) -> Seq<IssueSpec> {
    let issue = seq![(IssueKind::InvalidLhsAssignment, ret.location, "Invalid LHS operand"@)];
    match ret.ast {
        Ast::FunCall { name, .. } => if lower(identifier_of(name.ast)->0) != lower("spl"@) && lower(
            identifier_of(name.ast)->0,
        ) != lower("slider"@) {
            issue
        } else {
            Seq::empty()
        },
        _ => if not_assignable(ret.ast) {
            issue
        } else {
            Seq::empty()
        },
    }
}

/// What the lint reports for the return values `rets` of one left-hand side, in order.
pub open spec fn rets_issues(rets: Seq<&LocatedAst>) -> Seq<IssueSpec>
    decreases rets.len(),
{
    if rets.len() == 0 {
        Seq::empty()
    } else {
        rets_issues(rets.drop_last()) + ret_issues(*rets.last())
    }
}

/// What the lint reports for the return values of the left-hand sides `lists`, in order.
pub open spec fn lhs_issues(lists: Seq<Vec<&LocatedAst>>) -> Seq<IssueSpec>
    decreases lists.len(),
{
    if lists.len() == 0 {
        Seq::empty()
    } else {
        lhs_issues(lists.drop_last()) + rets_issues(lists.last()@)
    }
}

/// Whether the lint can judge the return value `ret`: a call's name is an identifier.
pub open spec fn ret_ok(ret: LocatedAst) -> bool {
    ret.ast matches Ast::FunCall { name, .. } ==> identifier_of(name.ast) is Some
}

/// Whether the lint can judge every return value of `lists`.
pub open spec fn lhs_ok(lists: Seq<Vec<&LocatedAst>>) -> bool {
    forall|k: int, j: int| 0 <= k < lists.len() && 0 <= j < lists[k]@.len() ==> ret_ok(*#[trigger] lists[k]@[j])
}

fn warn_ret(ret: &LocatedAst, issues: &mut IssueTracker)
    requires
        old(issues).wf(),
        old(issues).registers(IssueKind::InvalidLhsAssignment),
        ret_ok(*ret),
    ensures
        final(issues).extends(old(issues), ret_issues(*ret)),
{
    proof {
        lemma_extends_refl(*issues);
    }
    let report = match &ret.ast {
        Ast::FunCall { name, .. } => {
            let identifier = name.ast.identifier().unwrap();
            !eq_ignore_case(identifier.as_str(), "spl") && !eq_ignore_case(identifier.as_str(), "slider")
        },
        Ast::LogicalAndOr { .. } | Ast::Cmp { .. } | Ast::AndOr { .. } | Ast::Add { .. } | Ast::Sub { .. }
        | Ast::Mul { .. } | Ast::Div { .. } | Ast::Pow { .. } | Ast::Unary { .. } | Ast::Number(_)
        | Ast::ModShift { .. } | Ast::String { .. } | Ast::While { .. } | Ast::Loop { .. }
        | Ast::CharLit(_) => true,
        _ => false,
    };
    if report {
        issues.add(IssueKind::InvalidLhsAssignment, &ret.location, String::from_str("Invalid LHS operand"));
    }
}

/// Warns about assignments to what cannot be assigned to: `lhs_returns[k]` holds the
/// values that the left-hand side of the `k`-th assignment of `program` (see
/// `collect_assignments`) may return; each one that is an operation, a literal, a loop,
/// or a call to a function other than `spl` and `slider`, is reported.
pub fn lint(program: &Program, lhs_returns: &Vec<Vec<&LocatedAst>>, issues: &mut IssueTracker)
    requires
        old(issues).wf(),
        old(issues).registers(IssueKind::InvalidLhsAssignment),
        lhs_returns@.len() == assignments(*program).len(),
        lhs_ok(lhs_returns@),
    ensures
        final(issues).extends(old(issues), lhs_issues(lhs_returns@)),
{
    proof {
        lemma_extends_refl(*old(issues));
        assert(lhs_returns@.take(0) =~= Seq::<Vec<&LocatedAst>>::empty());
    }
    let mut k: usize = 0;
    while k < lhs_returns.len()
        invariant
            k <= lhs_returns@.len(),
            lhs_ok(lhs_returns@),
            old(issues).wf(),
            old(issues).registers(IssueKind::InvalidLhsAssignment),
            issues.extends(old(issues), lhs_issues(lhs_returns@.take(k as int))),
        decreases lhs_returns@.len() - k,
    {
        let rets = &lhs_returns[k];
        let ghost base = lhs_issues(lhs_returns@.take(k as int));
        proof {
            assert(lhs_returns@.take(k + 1).drop_last() =~= lhs_returns@.take(k as int));
            assert(rets@.take(0) =~= Seq::<&LocatedAst>::empty());
            assert(base + rets_issues(rets@.take(0)) =~= base);
        }
        let mut j: usize = 0;
        while j < rets.len()
            invariant
                j <= rets@.len(),
                k < lhs_returns@.len(),
                *rets == lhs_returns@[k as int],
                lhs_ok(lhs_returns@),
                old(issues).wf(),
                old(issues).registers(IssueKind::InvalidLhsAssignment),
                issues.extends(old(issues), base + rets_issues(rets@.take(j as int))),
            decreases rets@.len() - j,
        {
            let ghost m = *issues;
            proof {
                assert(ret_ok(*lhs_returns@[k as int]@[j as int]));
                assert(rets@.take(j + 1).drop_last() =~= rets@.take(j as int));
            }
            warn_ret(rets[j], issues);
            proof {
                lemma_extends_trans(*old(issues), m, *issues, base + rets_issues(rets@.take(j as int)), ret_issues(*rets@[j as int]));
                assert(base + rets_issues(rets@.take(j as int)) + ret_issues(*rets@[j as int]) =~= base + rets_issues(rets@.take(j + 1)));
            }
            j += 1;
        }
        proof {
            assert(rets@.take(j as int) =~= rets@);
        }
        k += 1;
    }
    proof {
        assert(lhs_returns@.take(k as int) =~= lhs_returns@);
    }
}

} // verus!
