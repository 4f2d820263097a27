use vstd::prelude::*;

use crate::ast::{identifier_of, Ast, LocatedAst};
use crate::issue::{lemma_extends_refl, lemma_extends_trans, IssueSpec, IssueTracker};
use crate::issue_kind::IssueKind;
use crate::iterators::ast_walk::{visit_order, AstWalk};
use crate::location::{LineCol, Location};
use crate::program::{Chunk, Program, Section};

verus! {

/// What the lint reports for the node `n` of a chunk of `file`.
pub open spec fn node_issues(n: LocatedAst, file: usize) -> Seq<IssueSpec> {
    match n.ast {
        Ast::Fun { identifier, parens, .. } => if !parens {
            seq![
                (
                    IssueKind::ImplicitParens,
                    n.location,
                    "Implicit parens for "@ + identifier_of(identifier.ast)->0 + " definition"@,
                ),
            ]
        } else {
            Seq::empty()
        },
        _ => Seq::empty(),
    }
}

/// Whether the lint can handle the node `n`.
pub open spec fn node_ok(n: LocatedAst) -> bool {
    match n.ast {
        Ast::Fun { identifier, parens, .. } => parens || identifier_of(identifier.ast) is Some,
        _ => true,
    }
}

/// What the lint reports for the nodes `ns`, in order.
pub open spec fn nodes_issues(ns: Seq<LocatedAst>, file: usize) -> Seq<IssueSpec>
    decreases ns.len(),
{
    if ns.len() == 0 {
        Seq::empty()
    } else {
        nodes_issues(ns.drop_last(), file) + node_issues(ns.last(), file)
    }
}

/// What the lint reports for a chunk: its nodes, in the order a walk visits them.
pub open spec fn chunk_issues(c: Chunk) -> Seq<IssueSpec> {
    match c.ast {
        Some(root) => nodes_issues(visit_order(root), c.file),
        None => Seq::empty(),
    }
}

/// What the lint reports for the chunks `cs`, in order.
pub open spec fn chunks_issues(cs: Seq<Chunk>) -> Seq<IssueSpec>
    decreases cs.len(),
{
    if cs.len() == 0 {
        Seq::empty()
    } else {
        chunks_issues(cs.drop_last()) + chunk_issues(cs.last())
    }
}

/// What the lint reports for the sections `ss`, in order.
pub open spec fn sections_issues(ss: Seq<Section>) -> Seq<IssueSpec>
    decreases ss.len(),
{
    if ss.len() == 0 {
        Seq::empty()
    } else {
        sections_issues(ss.drop_last()) + chunks_issues(ss.last().chunks@)
    }
}

/// What the lint reports on `program`: each function definition written without parentheses around its arguments.
pub open spec fn implicit_parens_issues(program: Program) -> Seq<IssueSpec> {
    sections_issues(program.sections@)
}

/// Whether every node of the chunk `c` can be handled.
pub open spec fn chunk_ok(c: Chunk) -> bool {
    c.ast matches Some(root) ==> forall|k: int| 0 <= k < visit_order(root).len() ==> node_ok(#[trigger] visit_order(root)[k])
}

/// Whether chunk `j` of section `i` of `program` can be handled.
pub open spec fn chunk_ok_at(program: Program, i: int, j: int) -> bool {
    chunk_ok(program.sections@[i].chunks@[j])
}

/// Whether every node of `program` can be handled.
pub open spec fn program_ok(program: Program) -> bool {
    forall|i: int, j: int|
        0 <= i < program.sections@.len() && 0 <= j < program.sections@[i].chunks@.len()
            ==> #[trigger] chunk_ok_at(program, i, j)
}

fn warn_node(n: &LocatedAst, file: usize, issues: &mut IssueTracker)
    requires
        old(issues).wf(),
        old(issues).registers(IssueKind::ImplicitParens),
        node_ok(*n),
    ensures
        final(issues).extends(old(issues), node_issues(*n, file)),
{
    match &n.ast {
        Ast::Fun { identifier, parens, .. } => {
            if !*parens {
                let fn_name = identifier.ast.identifier().unwrap();
                let mut text = String::from_str("Implicit parens for ");
                text.append(fn_name.as_str());
                text.append(" definition");
                issues.add(IssueKind::ImplicitParens, &n.location, text);
                return;
            }
        },
        _ => {},
    }
    proof {
        lemma_extends_refl(*issues);
    }
}

fn warn_chunk(chunk: &Chunk, issues: &mut IssueTracker)
    requires
        old(issues).wf(),
        old(issues).registers(IssueKind::ImplicitParens),
        chunk_ok(*chunk),
    ensures
        final(issues).extends(old(issues), chunk_issues(*chunk)),
{
    proof {
        lemma_extends_refl(*issues);
    }
    let root = match &chunk.ast {
        Some(r) => r,
        None => {
            return;
        },
    };
    let ghost all = visit_order(*root);
    let mut walk = AstWalk::new(root);
    let ghost mut k: int = 0;
    assert(all.take(0) =~= Seq::<LocatedAst>::empty());
    assert(all.skip(0) =~= all);
    loop
        invariant
            0 <= k <= all.len(),
            all == visit_order(*root),
            chunk.ast == Some(*root),
            chunk_ok(*chunk),
            walk@ == all.skip(k),
            old(issues).wf(),
            old(issues).registers(IssueKind::ImplicitParens),
            issues.extends(old(issues), nodes_issues(all.take(k), chunk.file)),
        ensures
            issues.extends(old(issues), nodes_issues(all, chunk.file)),
        decreases all.len() - k,
    {
        let n = match walk.next() {
            Some(n) => n,
            None => {
                proof {
                    assert(all.take(k) =~= all);
                }
                break;
            },
        };
        let ghost m = *issues;
        proof {
            assert(all.skip(k)[0] == all[k]);
            assert(node_ok(all[k]));
            assert(all.take(k + 1).drop_last() =~= all.take(k));
            assert(all.skip(k).drop_first() =~= all.skip(k + 1));
        }
        warn_node(n, chunk.file, issues);
        proof {
            lemma_extends_trans(*old(issues), m, *issues, nodes_issues(all.take(k), chunk.file), node_issues(*n, chunk.file));
            k = k + 1;
        }
    }
}

/// Warns about function definitions without parentheses (e.g. `function foo local(bar) (0)`).
pub fn lint(program: &Program, issues: &mut IssueTracker)
    requires
        old(issues).wf(),
        old(issues).registers(IssueKind::ImplicitParens),
        program_ok(*program),
    ensures
        final(issues).extends(old(issues), implicit_parens_issues(*program)),
{
    let ss = &program.sections;
    proof {
        lemma_extends_refl(*old(issues));
        assert(ss@.take(0) =~= Seq::<Section>::empty());
    }
    let mut i: usize = 0;
    while i < ss.len()
        invariant
            i <= ss@.len(),
            ss@ == program.sections@,
            program_ok(*program),
            old(issues).wf(),
            old(issues).registers(IssueKind::ImplicitParens),
            issues.extends(old(issues), sections_issues(ss@.take(i as int))),
        decreases ss@.len() - i,
    {
        let cs = &ss[i].chunks;
        let ghost before = sections_issues(ss@.take(i as int));
        proof {
            assert(ss@.take(i + 1).drop_last() =~= ss@.take(i as int));
            assert(cs@.take(0) =~= Seq::<Chunk>::empty());
            assert(before + chunks_issues(cs@.take(0)) =~= before);
        }
        let mut j: usize = 0;
        while j < cs.len()
            invariant
                j <= cs@.len(),
                i < ss@.len(),
                cs@ == ss@[i as int].chunks@,
                ss@ == program.sections@,
                program_ok(*program),
                old(issues).wf(),
                old(issues).registers(IssueKind::ImplicitParens),
                issues.extends(old(issues), before + chunks_issues(cs@.take(j as int))),
            decreases cs@.len() - j,
        {
            let ghost m = *issues;
            proof {
                assert(chunk_ok_at(*program, i as int, j as int));
                assert(cs@.take(j + 1).drop_last() =~= cs@.take(j as int));
            }
            warn_chunk(&cs[j], issues);
            proof {
                lemma_extends_trans(*old(issues), m, *issues, before + chunks_issues(cs@.take(j as int)), chunk_issues(cs@[j as int]));
                assert(before + chunks_issues(cs@.take(j as int)) + chunk_issues(cs@[j as int]) =~= before + chunks_issues(cs@.take(j + 1)));
            }
            j += 1;
        }
        proof {
            assert(cs@.take(j as int) =~= cs@);
        }
        i += 1;
    }
    proof {
        assert(ss@.take(i as int) =~= ss@);
    }
}

} // verus!
