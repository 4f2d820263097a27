use vstd::prelude::*;

use crate::access::propagation::{call_index, find_call};
use crate::ast::{Ast, LocatedAst};
use crate::functions::FunCall;
use crate::issue::{lemma_extends_refl, lemma_extends_trans, IssueSpec, IssueTracker};
use crate::issue_kind::IssueKind;
use crate::iterators::ast_walk::{visit_order, AstWalk};
use crate::program::{Chunk, Program, Section};

verus! {

/// Whether the lint judges an expression of kind `a` by what it does: operators, unary
/// operations, memory accesses and comparisons.
pub open spec fn judged_by_effects(a: Ast) -> bool {
    ||| a is LogicalAndOr
    ||| a is ModShift
    ||| a is AndOr
    ||| a is Add
    ||| a is Sub
    ||| a is Mul
    ||| a is Div
    ||| a is Pow
    ||| a is Unary
    ||| a is MemoryAccess
    ||| a is Cmp
}

/// The expressions of the node `n` whose value is dropped: all but the last of a block.
pub open spec fn dropped(n: LocatedAst) -> Seq<LocatedAst> {
    match n.ast {
        Ast::Compound { expressions, .. } => if expressions@.len() > 0 {
            expressions@.drop_last()
        } else {
            Seq::empty()
        },
        _ => Seq::empty(),
    }
}

/// The dropped expressions of the nodes `ns`, in order, each with the section index `i`.
pub open spec fn nodes_dropped(ns: Seq<LocatedAst>, i: int) -> Seq<(LocatedAst, int)>
    decreases ns.len(),
{
    if ns.len() == 0 {
        Seq::empty()
    } else {
        nodes_dropped(ns.drop_last(), i) + dropped(ns.last()).map_values(|e: LocatedAst| (e, i))
    }
}

/// The dropped expressions of a chunk of section `i`: those of its nodes, in walk order.
pub open spec fn chunk_dropped(c: Chunk, i: int) -> Seq<(LocatedAst, int)> {
    match c.ast {
        Some(root) => nodes_dropped(visit_order(root), i),
        None => Seq::empty(),
    }
}

/// The dropped expressions of the chunks `cs` of section `i`, in order.
pub open spec fn chunks_dropped(cs: Seq<Chunk>, i: int) -> Seq<(LocatedAst, int)>
    decreases cs.len(),
{
    if cs.len() == 0 {
        Seq::empty()
    } else {
        chunks_dropped(cs.drop_last(), i) + chunk_dropped(cs.last(), i)
    }
}

/// The dropped expressions of the sections `ss`, in order, each with its section's index.
pub open spec fn sections_dropped(ss: Seq<Section>) -> Seq<(LocatedAst, int)>
    decreases ss.len(),
{
    if ss.len() == 0 {
        Seq::empty()
    } else {
        sections_dropped(ss.drop_last()) + chunks_dropped(ss.last().chunks@, ss.len() - 1)
    }
}

/// The expressions of `program` whose value is dropped, in the order the lint visits
/// them (sections, their chunks, the nodes of each chunk in walk order), each with the
/// index of its section.
pub open spec fn dropped_expressions(program: Program) -> Seq<(LocatedAst, int)> {
    sections_dropped(program.sections@)
}

/// Going through the nodes `ns` in order, looking for a call to a function with side
/// effects among `calls`: `Some(true)` at the first such call, `None` at the first call
/// that `calls` does not hold, `Some(false)` when neither comes.
pub open spec fn side_effect_scan(ns: Seq<LocatedAst>, calls: Seq<FunCall>) -> Option<bool>
    decreases ns.len(),
{
    if ns.len() == 0 {
        Some(false)
    } else {
        match ns[0].ast {
            Ast::FunCall { uuid, .. } => match call_index(calls, uuid) {
                None => None,
                Some(k) => if calls[k].fun matches Some(f) && f.has_side_effects {
                    Some(true)
                } else {
                    side_effect_scan(ns.drop_first(), calls)
                },
            },
            _ => side_effect_scan(ns.drop_first(), calls),
        }
    }
}

/// The issue reported for the expression `e`.
pub open spec fn useless(e: LocatedAst) -> Seq<IssueSpec> {
    seq![(IssueKind::UselessExpression, e.location, "Useless expression"@)]
}

/// What the lint reports for the dropped expression `e` of section `s`, `writes` telling
/// whether `e` writes anything: a name or a literal always; a call to a known function
/// without side effects; an operation that writes nothing and calls no function with
/// side effects.
pub open spec fn expr_issues(e: LocatedAst, s: Section, writes: bool) -> Seq<IssueSpec> {
    match e.ast {
        Ast::Identifier { .. } => useless(e),
        Ast::StringIdentifier { .. } => useless(e),
        Ast::Number(_) => useless(e),
        Ast::String { .. } => useless(e),
        Ast::CharLit(_) => useless(e),
        Ast::FunCall { uuid, .. } => match call_index(s.fun_calls@, uuid) {
            Some(k) => match s.fun_calls@[k].fun {
                Some(f) => if f.has_side_effects {
                    Seq::empty()
                } else {
                    useless(e)
                },
                None => Seq::empty(),
            },
            None => Seq::empty(),
        },
        _ => if judged_by_effects(e.ast) && !writes && side_effect_scan(visit_order(e), s.fun_calls@)
            == Some(false) {
            useless(e)
        } else {
            Seq::empty()
        },
    }
}

/// Whether the lint can judge the dropped expression `e` of section `s`: the calls it
/// looks up are in the section.
pub open spec fn expr_ok(e: LocatedAst, s: Section, writes: bool) -> bool {
    match e.ast {
        Ast::FunCall { uuid, .. } => call_index(s.fun_calls@, uuid) is Some,
        _ => judged_by_effects(e.ast) && !writes ==> side_effect_scan(visit_order(e), s.fun_calls@) is Some,
    }
}

/// What the lint reports for the dropped expressions `es` of `program` (a prefix of them),
/// `writes[k]` telling whether expression `k` writes anything.
pub open spec fn exprs_issues(es: Seq<(LocatedAst, int)>, program: Program, writes: Seq<bool>) -> Seq<IssueSpec>
    decreases es.len(),
{
    if es.len() == 0 {
        Seq::empty()
    } else {
        exprs_issues(es.drop_last(), program, writes) + expr_issues(
            es.last().0,
            program.sections@[es.last().1],
            writes[es.len() - 1],
        )
    }
}

/// What the lint reports on `program`: each expression whose value is dropped and that
/// has no effect, `writes[k]` telling whether the `k`-th dropped expression (see
/// `dropped_expressions`) writes anything.
pub open spec fn useless_expression_issues(program: Program, writes: Seq<bool>) -> Seq<IssueSpec> {
    exprs_issues(dropped_expressions(program), program, writes)
}

/// Whether every dropped expression of `program` can be judged.
pub open spec fn program_ok(program: Program, writes: Seq<bool>) -> bool {
    let es = dropped_expressions(program);
    forall|k: int| 0 <= k < es.len() ==> #[trigger] expr_ok(es[k].0, program.sections@[es[k].1], writes[k])
}

/// A dropped expression with the index of its section, as the specification sees it.
pub open spec fn pair_view(p: (&LocatedAst, usize)) -> (LocatedAst, int) {
    (*p.0, p.1 as int)
}

/// Appends the dropped expressions of `n`, with the section index `i`, to `out`.
fn push_dropped<'a>(n: &'a LocatedAst, i: usize, out: &mut Vec<(&'a LocatedAst, usize)>)
    ensures
        final(out)@.map_values(|p: (&LocatedAst, usize)| pair_view(p)) == old(out)@.map_values(
            |p: (&LocatedAst, usize)| pair_view(p),
        ) + dropped(*n).map_values(|e: LocatedAst| (e, i as int)),
        final(out)@.len() == old(out)@.len() + dropped(*n).len(),
        forall|k: int| 0 <= k < old(out)@.len() ==> #[trigger] final(out)@[k] == old(out)@[k],
        forall|k: int| old(out)@.len() <= k < final(out)@.len() ==> (#[trigger] final(out)@[k]).1 == i,
{
    let ghost before = out@;
    match &n.ast {
        Ast::Compound { expressions, .. } => {
            let len = expressions.len();
            let mut k: usize = 0;
            while k + 1 < len
                invariant
                    len == expressions@.len(),
                    k <= len,
                    len > 0 ==> k < len,
                    out@.len() == before.len() + k,
                    forall|x: int| 0 <= x < before.len() ==> #[trigger] out@[x] == before[x],
                    forall|x: int| 0 <= x < k ==> #[trigger] out@[before.len() + x] == (&expressions@[x], i),
                decreases len - k,
            {
                out.push((&expressions[k], i));
                k += 1;
            }
            proof {
                let d = dropped(*n);
                if len > 0 {
                    assert(k == len - 1);
                    assert(d =~= expressions@.drop_last());
                } else {
                    assert(k == 0);
                    assert(d =~= Seq::<LocatedAst>::empty());
                }
                assert(d.len() == k);
                assert forall|x: int| before.len() <= x < out@.len() implies (#[trigger] out@[x]).1 == i by {
                    assert(out@[before.len() + (x - before.len())] == (&expressions@[x - before.len()], i));
                }
                let lhs = out@.map_values(|p: (&LocatedAst, usize)| pair_view(p));
                let rhs = before.map_values(|p: (&LocatedAst, usize)| pair_view(p)) + d.map_values(|e: LocatedAst| (e, i as int));
                assert forall|x: int| 0 <= x < lhs.len() implies lhs[x] == rhs[x] by {
                    if x >= before.len() {
                        assert(out@[before.len() + (x - before.len())] == (&expressions@[x - before.len()], i));
                        assert(d[x - before.len()] == expressions@[x - before.len()]);
                    } else {
                        assert(out@[x] == before[x]);
                    }
                }
                assert(out@.map_values(|p: (&LocatedAst, usize)| pair_view(p)) =~= before.map_values(
                    |p: (&LocatedAst, usize)| pair_view(p),
                ) + d.map_values(|e: LocatedAst| (e, i as int)));
            }
        },
        _ => {
            proof {
                assert(dropped(*n) =~= Seq::<LocatedAst>::empty());
                assert(out@.map_values(|p: (&LocatedAst, usize)| pair_view(p)) =~= before.map_values(
                    |p: (&LocatedAst, usize)| pair_view(p),
                ) + dropped(*n).map_values(|e: LocatedAst| (e, i as int)));
            }
        },
    }
}

/// Appends the dropped expressions of `chunk`, with the section index `i`, to `out`.
fn push_chunk_dropped<'a>(chunk: &'a Chunk, i: usize, out: &mut Vec<(&'a LocatedAst, usize)>)
    ensures
        final(out)@.map_values(|p: (&LocatedAst, usize)| pair_view(p)) == old(out)@.map_values(
            |p: (&LocatedAst, usize)| pair_view(p),
        ) + chunk_dropped(*chunk, i as int),
        forall|k: int| 0 <= k < old(out)@.len() ==> #[trigger] final(out)@[k] == old(out)@[k],
        forall|k: int| old(out)@.len() <= k < final(out)@.len() ==> (#[trigger] final(out)@[k]).1 == i,
{
    let ghost before = out@;
    let root = match &chunk.ast {
        Some(r) => r,
        None => {
            assert(out@.map_values(|p: (&LocatedAst, usize)| pair_view(p)) =~= before.map_values(
                |p: (&LocatedAst, usize)| pair_view(p),
            ) + chunk_dropped(*chunk, i as int));
            return;
        },
    };
    let ghost all = visit_order(*root);
    let mut walk = AstWalk::new(root);
    let ghost mut k: int = 0;
    assert(all.skip(0) =~= all);
    assert(out@.map_values(|p: (&LocatedAst, usize)| pair_view(p)) =~= before.map_values(
        |p: (&LocatedAst, usize)| pair_view(p),
    ) + nodes_dropped(all.take(0), i as int));
    loop
        invariant
            0 <= k <= all.len(),
            all == visit_order(*root),
            chunk.ast == Some(*root),
            walk@ == all.skip(k),
            out@.map_values(|p: (&LocatedAst, usize)| pair_view(p)) == before.map_values(
                |p: (&LocatedAst, usize)| pair_view(p),
            ) + nodes_dropped(all.take(k), i as int),
            out@.len() >= before.len(),
            forall|x: int| 0 <= x < before.len() ==> #[trigger] out@[x] == before[x],
            forall|x: int| before.len() <= x < out@.len() ==> (#[trigger] out@[x]).1 == i,
        ensures
            out@.map_values(|p: (&LocatedAst, usize)| pair_view(p)) == before.map_values(
                |p: (&LocatedAst, usize)| pair_view(p),
            ) + nodes_dropped(all, i as int),
            forall|x: int| 0 <= x < before.len() ==> #[trigger] out@[x] == before[x],
            forall|x: int| before.len() <= x < out@.len() ==> (#[trigger] out@[x]).1 == i,
        decreases all.len() - k,
    {
        let n = match walk.next() {
            Some(n) => n,
            None => {
                proof {
                    assert(all.take(k) =~= all);
                }
                break;
            },
        };
        let ghost mid = out@;
        proof {
            assert(all.skip(k)[0] == all[k]);
            assert(all.take(k + 1).drop_last() =~= all.take(k));
            assert(all.skip(k).drop_first() =~= all.skip(k + 1));
        }
        push_dropped(n, i, out);
        proof {
            assert(before.map_values(|p: (&LocatedAst, usize)| pair_view(p)) + nodes_dropped(all.take(k), i as int)
                + dropped(all[k]).map_values(|e: LocatedAst| (e, i as int)) =~= before.map_values(
                |p: (&LocatedAst, usize)| pair_view(p),
            ) + nodes_dropped(all.take(k + 1), i as int));
            k = k + 1;
        }
    }
}

/// The expressions of `program` whose value is dropped (see `dropped_expressions`), each
/// with the index of its section: the expressions that `lint` is told the writes of.
pub fn collect_dropped(program: &Program) -> (r: Vec<(&LocatedAst, usize)>)
    ensures
        r@.map_values(|p: (&LocatedAst, usize)| pair_view(p)) == dropped_expressions(*program),
        forall|k: int| 0 <= k < r@.len() ==> (#[trigger] r@[k]).1 < program.sections@.len(),
{
    let ss = &program.sections;
    let mut out: Vec<(&LocatedAst, usize)> = Vec::new();
    let mut i: usize = 0;
    assert(out@.map_values(|p: (&LocatedAst, usize)| pair_view(p)) =~= sections_dropped(ss@.take(0)));
    while i < ss.len()
        invariant
            i <= ss@.len(),
            ss@ == program.sections@,
            out@.map_values(|p: (&LocatedAst, usize)| pair_view(p)) == sections_dropped(ss@.take(i as int)),
            forall|k: int| 0 <= k < out@.len() ==> (#[trigger] out@[k]).1 < i,
        decreases ss@.len() - i,
    {
        let cs = &ss[i].chunks;
        let ghost start = out@;
        let ghost before = sections_dropped(ss@.take(i as int));
        proof {
            assert(ss@.take(i + 1).drop_last() =~= ss@.take(i as int));
            assert(before + chunks_dropped(cs@.take(0), i as int) =~= before);
        }
        let mut j: usize = 0;
        while j < cs.len()
            invariant
                j <= cs@.len(),
                i < ss@.len(),
                cs@ == ss@[i as int].chunks@,
                out@.map_values(|p: (&LocatedAst, usize)| pair_view(p)) == before + chunks_dropped(
                    cs@.take(j as int),
                    i as int,
                ),
                forall|k: int| 0 <= k < out@.len() ==> (#[trigger] out@[k]).1 <= i,
            decreases cs@.len() - j,
        {
            assert(cs@.take(j + 1).drop_last() =~= cs@.take(j as int));
            let ghost m = out@;
            push_chunk_dropped(&cs[j], i, &mut out);
            proof {
                assert forall|k: int| 0 <= k < out@.len() implies (#[trigger] out@[k]).1 <= i by {
                    if k < m.len() {
                        assert(out@[k] == m[k]);
                    }
                }
                assert(before + chunks_dropped(cs@.take(j as int), i as int) + chunk_dropped(cs@[j as int], i as int)
                    =~= before + chunks_dropped(cs@.take(j + 1), i as int));
            }
            j += 1;
        }
        proof {
            assert(cs@.take(j as int) =~= cs@);
        }
        i += 1;
    }
    proof {
        assert(ss@.take(i as int) =~= ss@);
    }
    out
}

/// Where the walk through `e` stands on calls (see `side_effect_scan`): whether it meets
/// a call to a function with side effects, or nothing when it first meets a call that
/// the section does not hold.
fn side_effect_call(e: &LocatedAst, s: &Section) -> (r: Option<bool>)
    ensures
        r == side_effect_scan(visit_order(*e), s.fun_calls@),
{
    let ghost calls = s.fun_calls@;
    let mut walk = AstWalk::new(e);
    loop
        invariant
            calls == s.fun_calls@,
            side_effect_scan(walk@, calls) == side_effect_scan(visit_order(*e), calls),
        decreases walk@.len(),
    {
        let ghost w = walk@;
        match walk.next() {
            None => {
                return Some(false);
            },
            Some(n) => {
                if let Ast::FunCall { uuid, .. } = &n.ast {
                    match find_call(&s.fun_calls, *uuid) {
                        Some(fc) => {
                            let side = match &fc.fun {
                                Some(f) => f.has_side_effects,
                                None => false,
                            };
                            if side {
                                return Some(true);
                            }
                        },
                        None => {
                            return None;
                        },
                    }
                }
                assert(w.drop_first() == walk@);
            },
        }
    }
}

/// Whether the lint can judge the dropped expression `e` of section `s` (see `expr_ok`).
fn judgeable_expr(e: &LocatedAst, s: &Section, writes: bool) -> (r: bool)
    ensures
        r == expr_ok(*e, *s, writes),
{
    match &e.ast {
        Ast::FunCall { uuid, .. } => find_call(&s.fun_calls, *uuid).is_some(),
        Ast::LogicalAndOr { .. } | Ast::ModShift { .. } | Ast::AndOr { .. } | Ast::Add { .. }
        | Ast::Sub { .. } | Ast::Mul { .. } | Ast::Div { .. } | Ast::Pow { .. } | Ast::Unary { .. }
        | Ast::MemoryAccess { .. } | Ast::Cmp { .. } => writes || side_effect_call(e, s).is_some(),
        _ => true,
    }
}

/// Whether the lint can judge every dropped expression of `program` (see `program_ok`),
/// `writes` being told for each: whether the calls it looks up are all in their sections.
pub fn judgeable(program: &Program, writes: &Vec<bool>) -> (r: bool)
    requires
        writes@.len() == dropped_expressions(*program).len(),
    ensures
        r == program_ok(*program, writes@),
{
    let es = collect_dropped(program);
    let ghost all = dropped_expressions(*program);
    let mut k: usize = 0;
    while k < es.len()
        invariant
            k <= es@.len(),
            all == dropped_expressions(*program),
            es@.map_values(|p: (&LocatedAst, usize)| pair_view(p)) == all,
            forall|x: int| 0 <= x < es@.len() ==> (#[trigger] es@[x]).1 < program.sections@.len(),
            writes@.len() == all.len(),
            forall|x: int| 0 <= x < k ==> #[trigger] expr_ok(all[x].0, program.sections@[all[x].1], writes@[x]),
        decreases es@.len() - k,
    {
        let (e, i) = es[k];
        proof {
            assert(all[k as int] == pair_view(es@[k as int]));
        }
        if !judgeable_expr(e, &program.sections[i], writes[k]) {
            return false;
        }
        k += 1;
    }
    true
}

fn warn_expr(e: &LocatedAst, s: &Section, writes: bool, issues: &mut IssueTracker)
    requires
        old(issues).wf(),
        old(issues).registers(IssueKind::UselessExpression),
        expr_ok(*e, *s, writes),
    ensures
        final(issues).extends(old(issues), expr_issues(*e, *s, writes)),
{
    proof {
        lemma_extends_refl(*issues);
    }
    let report = match &e.ast {
        Ast::Identifier { .. } => true,
        Ast::StringIdentifier { .. } => true,
        Ast::Number(_) => true,
        Ast::String { .. } => true,
        Ast::CharLit(_) => true,
        Ast::FunCall { uuid, .. } => match find_call(&s.fun_calls, *uuid) {
            Some(fc) => match &fc.fun {
                Some(f) => !f.has_side_effects,
                None => false,
            },
            None => false,
        },
        Ast::LogicalAndOr { .. } | Ast::ModShift { .. } | Ast::AndOr { .. } | Ast::Add { .. }
        | Ast::Sub { .. } | Ast::Mul { .. } | Ast::Div { .. } | Ast::Pow { .. } | Ast::Unary { .. }
        | Ast::MemoryAccess { .. } | Ast::Cmp { .. } => !writes && matches!(side_effect_call(e, s), Some(false)),
        _ => false,
    };
    if report {
        issues.add(IssueKind::UselessExpression, &e.location, String::from_str("Useless expression"));
    }
}

/// Warns about expressions whose value is dropped and that have no effect: a name or a
/// literal, a call to a known function without side effects, an operation that writes
/// nothing (`writes[k]` tells whether the `k`-th expression of `collect_dropped` writes
/// anything) and calls no function with side effects.
pub fn lint(program: &Program, writes: &Vec<bool>, issues: &mut IssueTracker)
    requires
        old(issues).wf(),
        old(issues).registers(IssueKind::UselessExpression),
        writes@.len() == dropped_expressions(*program).len(),
        program_ok(*program, writes@),
    ensures
        final(issues).extends(old(issues), useless_expression_issues(*program, writes@)),
{
    let es = collect_dropped(program);
    let ghost all = dropped_expressions(*program);
    proof {
        lemma_extends_refl(*old(issues));
        assert(all.take(0) =~= Seq::<(LocatedAst, int)>::empty());
    }
    let mut k: usize = 0;
    while k < es.len()
        invariant
            k <= es@.len(),
            all == dropped_expressions(*program),
            es@.map_values(|p: (&LocatedAst, usize)| pair_view(p)) == all,
            forall|x: int| 0 <= x < es@.len() ==> (#[trigger] es@[x]).1 < program.sections@.len(),
            writes@.len() == all.len(),
            program_ok(*program, writes@),
            old(issues).wf(),
            old(issues).registers(IssueKind::UselessExpression),
            issues.extends(old(issues), exprs_issues(all.take(k as int), *program, writes@)),
        decreases es@.len() - k,
    {
        let (e, i) = es[k];
        let ghost m = *issues;
        proof {
            assert(all[k as int] == pair_view(es@[k as int]));
            assert(expr_ok(all[k as int].0, program.sections@[all[k as int].1], writes@[k as int]));
            assert(all.take(k + 1).drop_last() =~= all.take(k as int));
        }
        warn_expr(e, &program.sections[i], writes[k], issues);
        proof {
            lemma_extends_trans(*old(issues), m, *issues, exprs_issues(all.take(k as int), *program, writes@), expr_issues(*e, program.sections@[i as int], writes@[k as int]));
        }
        k += 1;
    }
    proof {
        assert(all.take(k as int) =~= all);
    }
}

} // verus!
