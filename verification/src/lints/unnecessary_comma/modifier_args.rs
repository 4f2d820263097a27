use vstd::prelude::*;

use crate::ast::{identifier_of, Ast, LocatedAst};
use crate::issue::{lemma_extends_refl, lemma_extends_trans, IssueSpec, IssueTracker};
use crate::issue_kind::IssueKind;
use crate::iterators::ast_walk::{visit_order, AstWalk};
use crate::location::{LineCol, Location};
use crate::program::{Chunk, Program, Section};
use crate::functions::{modifier_name, ModifierKind};
use crate::lints::unnecessary_comma::{comma_issues, commas_ok, warn_commas};

verus! {

/// What the lint reports for the argument `a` of a modifier of `kind` of the function
/// named `name`.
pub open spec fn marg_issues(a: LocatedAst, name: Seq<char>, kind: ModifierKind) -> Seq<IssueSpec> {
    match a.ast {
        Ast::Arg { leading_commas, trailing_comma, .. } => comma_issues(
            leading_commas,
            " in "@ + name + "() "@ + modifier_name(kind) + "() arg list"@,
        ) + comma_issues(
            trailing_comma,
            " at the end of "@ + name + "() "@ + modifier_name(kind) + "() arg list"@,
        ),
        _ => Seq::empty(),
    }
}

/// What the lint reports for the arguments `args` of a modifier, in order.
pub open spec fn margs_issues(args: Seq<LocatedAst>, name: Seq<char>, kind: ModifierKind) -> Seq<IssueSpec>
    decreases args.len(),
{
    if args.len() == 0 {
        Seq::empty()
    } else {
        margs_issues(args.drop_last(), name, kind) + marg_issues(args.last(), name, kind)
    }
}

/// What the lint reports for the modifier `m` of the function named `name`.
pub open spec fn mod_args_issues(m: LocatedAst, name: Seq<char>) -> Seq<IssueSpec> {
    match m.ast {
        Ast::FunMod { args, kind, .. } => match args {
            Some(a) => margs_issues(a@, name, kind),
            None => Seq::empty(),
        },
        _ => Seq::empty(),
    }
}

/// What the lint reports for the modifiers `ms` of the function named `name`, in order.
pub open spec fn mods_args_issues(ms: Seq<LocatedAst>, name: Seq<char>) -> Seq<IssueSpec>
    decreases ms.len(),
{
    if ms.len() == 0 {
        Seq::empty()
    } else {
        mods_args_issues(ms.drop_last(), name) + mod_args_issues(ms.last(), name)
    }
}

/// Whether the lint can handle the argument `a`.
pub open spec fn marg_ok(a: LocatedAst) -> bool {
    match a.ast {
        Ast::Arg { leading_commas, trailing_comma, .. } => commas_ok(leading_commas) && commas_ok(
            trailing_comma,
        ),
        _ => true,
    }
}

/// Whether the lint can handle the modifier `m`: a modifier with arguments needs the
/// function's name (`named`).
pub open spec fn mod_ok(m: LocatedAst, named: bool) -> bool {
    match m.ast {
        Ast::FunMod { args, .. } => args matches Some(a) ==> named && forall|k: int|
            0 <= k < a@.len() ==> #[trigger] marg_ok(a@[k]),
        _ => true,
    }
}

fn warn_margs(args: &Vec<LocatedAst>, name: &str, kind: &ModifierKind, issues: &mut IssueTracker)
    requires
        old(issues).wf(),
        old(issues).registers(IssueKind::UnnecessaryComma),
        forall|k: int| 0 <= k < args@.len() ==> #[trigger] marg_ok(args@[k]),
    ensures
        final(issues).extends(old(issues), margs_issues(args@, name@, *kind)),
{
    proof {
        lemma_extends_refl(*issues);
        assert(args@.take(0) =~= Seq::<LocatedAst>::empty());
    }
    let mut i: usize = 0;
    while i < args.len()
        invariant
            i <= args@.len(),
            forall|k: int| 0 <= k < args@.len() ==> #[trigger] marg_ok(args@[k]),
            old(issues).wf(),
            old(issues).registers(IssueKind::UnnecessaryComma),
            issues.extends(old(issues), margs_issues(args@.take(i as int), name@, *kind)),
        decreases args@.len() - i,
    {
        let ghost m = *issues;
        let a = &args[i];
        assert(args@.take(i + 1).drop_last() =~= args@.take(i as int));
        assert(args@.take(i + 1).last() == *a);
        assert(marg_ok(args@[i as int]));
        if let Ast::Arg { leading_commas, trailing_comma, .. } = &a.ast {
            let mut lead = String::from_str(" in ");
            lead.append(name);
            lead.append("() ");
            lead.append(kind.name());
            lead.append("() arg list");
            let mut trail = String::from_str(" at the end of ");
            trail.append(name);
            trail.append("() ");
            trail.append(kind.name());
            trail.append("() arg list");
            warn_commas(leading_commas, lead.as_str(), issues);
            let ghost m2 = *issues;
            warn_commas(trailing_comma, trail.as_str(), issues);
            proof {
                lemma_extends_trans(m, m2, *issues, comma_issues(*leading_commas, lead@), comma_issues(*trailing_comma, trail@));
            }
        } else {
            proof {
                lemma_extends_refl(*issues);
            }
        }
        proof {
            lemma_extends_trans(*old(issues), m, *issues, margs_issues(args@.take(i as int), name@, *kind), marg_issues(*a, name@, *kind));
        }
        i += 1;
    }
    assert(args@.take(i as int) =~= args@);
}

fn warn_mods_args(ms: &Vec<LocatedAst>, identifier: &LocatedAst, issues: &mut IssueTracker)
    requires
        old(issues).wf(),
        old(issues).registers(IssueKind::UnnecessaryComma),
        forall|k: int| 0 <= k < ms@.len() ==> #[trigger] mod_ok(ms@[k], identifier_of(identifier.ast) is Some),
    ensures
        final(issues).extends(old(issues), mods_args_issues(ms@, identifier_of(identifier.ast)->0)),
{
    let ghost name = identifier_of(identifier.ast)->0;
    proof {
        lemma_extends_refl(*issues);
        assert(ms@.take(0) =~= Seq::<LocatedAst>::empty());
    }
    let mut i: usize = 0;
    while i < ms.len()
        invariant
            i <= ms@.len(),
            name == identifier_of(identifier.ast)->0,
            forall|k: int| 0 <= k < ms@.len() ==> #[trigger] mod_ok(ms@[k], identifier_of(identifier.ast) is Some),
            old(issues).wf(),
            old(issues).registers(IssueKind::UnnecessaryComma),
            issues.extends(old(issues), mods_args_issues(ms@.take(i as int), name)),
        decreases ms@.len() - i,
    {
        let ghost m = *issues;
        let md = &ms[i];
        assert(ms@.take(i + 1).drop_last() =~= ms@.take(i as int));
        assert(ms@.take(i + 1).last() == *md);
        assert(mod_ok(ms@[i as int], identifier_of(identifier.ast) is Some));
        if let Ast::FunMod { args: Some(args), kind, .. } = &md.ast {
            let fun_name = identifier.ast.identifier().unwrap();
            warn_margs(args, fun_name.as_str(), kind, issues);
        } else {
            proof {
                lemma_extends_refl(*issues);
            }
        }
        proof {
            lemma_extends_trans(*old(issues), m, *issues, mods_args_issues(ms@.take(i as int), name), mod_args_issues(*md, name));
        }
        i += 1;
    }
    assert(ms@.take(i as int) =~= ms@);
}

/// What the lint reports for the node `n` of a chunk of `file`.
pub open spec fn node_issues(n: LocatedAst, file: usize) -> Seq<IssueSpec> {
    match n.ast {
        Ast::Fun { modifiers, identifier, .. } => match modifiers {
            Some(ms) => mods_args_issues(ms@, identifier_of(identifier.ast)->0),
            None => Seq::empty(),
        },
        _ => Seq::empty(),
    }
}

/// Whether the lint can handle the node `n`.
pub open spec fn node_ok(n: LocatedAst) -> bool {
    match n.ast {
        Ast::Fun { modifiers, identifier, .. } => modifiers matches Some(ms) ==> (
        forall|k: int| 0 <= k < ms@.len() ==> #[trigger] mod_ok(ms@[k], identifier_of(identifier.ast) is Some)),
        _ => true,
    }
}

/// What the lint reports for the nodes `ns`, in order.
pub open spec fn nodes_issues(ns: Seq<LocatedAst>, file: usize) -> Seq<IssueSpec>
    decreases ns.len(),
{
    if ns.len() == 0 {
        Seq::empty()
    } else {
        nodes_issues(ns.drop_last(), file) + node_issues(ns.last(), file)
    }
}

/// What the lint reports for a chunk: its nodes, in the order a walk visits them.
pub open spec fn chunk_issues(c: Chunk) -> Seq<IssueSpec> {
    match c.ast {
        Some(root) => nodes_issues(visit_order(root), c.file),
        None => Seq::empty(),
    }
}

/// What the lint reports for the chunks `cs`, in order.
pub open spec fn chunks_issues(cs: Seq<Chunk>) -> Seq<IssueSpec>
    decreases cs.len(),
{
    if cs.len() == 0 {
        Seq::empty()
    } else {
        chunks_issues(cs.drop_last()) + chunk_issues(cs.last())
    }
}

/// What the lint reports for the sections `ss`, in order.
pub open spec fn sections_issues(ss: Seq<Section>) -> Seq<IssueSpec>
    decreases ss.len(),
{
    if ss.len() == 0 {
        Seq::empty()
    } else {
        sections_issues(ss.drop_last()) + chunks_issues(ss.last().chunks@)
    }
}

/// What the lint reports on `program`: the repeated commas before or after the arguments of each modifier.
pub open spec fn unnecessary_comma_in_modifier_arg_issues(program: Program) -> Seq<IssueSpec> {
    sections_issues(program.sections@)
}

/// Whether every node of the chunk `c` can be handled.
pub open spec fn chunk_ok(c: Chunk) -> bool {
    c.ast matches Some(root) ==> forall|k: int| 0 <= k < visit_order(root).len() ==> node_ok(#[trigger] visit_order(root)[k])
}

/// Whether chunk `j` of section `i` of `program` can be handled.
pub open spec fn chunk_ok_at(program: Program, i: int, j: int) -> bool {
    chunk_ok(program.sections@[i].chunks@[j])
}

/// Whether every node of `program` can be handled.
pub open spec fn program_ok(program: Program) -> bool {
    forall|i: int, j: int|
        0 <= i < program.sections@.len() && 0 <= j < program.sections@[i].chunks@.len()
            ==> #[trigger] chunk_ok_at(program, i, j)
}

fn warn_node(n: &LocatedAst, file: usize, issues: &mut IssueTracker)
    requires
        old(issues).wf(),
        old(issues).registers(IssueKind::UnnecessaryComma),
        node_ok(*n),
    ensures
        final(issues).extends(old(issues), node_issues(*n, file)),
{
    if let Ast::Fun { modifiers: Some(ms), identifier, .. } = &n.ast {
        warn_mods_args(ms, identifier, issues);
        return;
    }
    proof {
        lemma_extends_refl(*issues);
    }
}

fn warn_chunk(chunk: &Chunk, issues: &mut IssueTracker)
    requires
        old(issues).wf(),
        old(issues).registers(IssueKind::UnnecessaryComma),
        chunk_ok(*chunk),
    ensures
        final(issues).extends(old(issues), chunk_issues(*chunk)),
{
    proof {
        lemma_extends_refl(*issues);
    }
    let root = match &chunk.ast {
        Some(r) => r,
        None => {
            return;
        },
    };
    let ghost all = visit_order(*root);
    let mut walk = AstWalk::new(root);
    let ghost mut k: int = 0;
    assert(all.take(0) =~= Seq::<LocatedAst>::empty());
    assert(all.skip(0) =~= all);
    loop
        invariant
            0 <= k <= all.len(),
            all == visit_order(*root),
            chunk.ast == Some(*root),
            chunk_ok(*chunk),
            walk@ == all.skip(k),
            old(issues).wf(),
            old(issues).registers(IssueKind::UnnecessaryComma),
            issues.extends(old(issues), nodes_issues(all.take(k), chunk.file)),
        ensures
            issues.extends(old(issues), nodes_issues(all, chunk.file)),
        decreases all.len() - k,
    {
        let n = match walk.next() {
            Some(n) => n,
            None => {
                proof {
                    assert(all.take(k) =~= all);
                }
                break;
            },
        };
        let ghost m = *issues;
        proof {
            assert(all.skip(k)[0] == all[k]);
            assert(node_ok(all[k]));
            assert(all.take(k + 1).drop_last() =~= all.take(k));
            assert(all.skip(k).drop_first() =~= all.skip(k + 1));
        }
        warn_node(n, chunk.file, issues);
        proof {
            lemma_extends_trans(*old(issues), m, *issues, nodes_issues(all.take(k), chunk.file), node_issues(*n, chunk.file));
            k = k + 1;
        }
    }
}

/// Warns about repeated commas in the argument lists of modifiers.
pub fn warn_unnecessary_comma_in_modifier_arg(program: &Program, issues: &mut IssueTracker)
    requires
        old(issues).wf(),
        old(issues).registers(IssueKind::UnnecessaryComma),
        program_ok(*program),
    ensures
        final(issues).extends(old(issues), unnecessary_comma_in_modifier_arg_issues(*program)),
{
    let ss = &program.sections;
    proof {
        lemma_extends_refl(*old(issues));
        assert(ss@.take(0) =~= Seq::<Section>::empty());
    }
    let mut i: usize = 0;
    while i < ss.len()
        invariant
            i <= ss@.len(),
            ss@ == program.sections@,
            program_ok(*program),
            old(issues).wf(),
            old(issues).registers(IssueKind::UnnecessaryComma),
            issues.extends(old(issues), sections_issues(ss@.take(i as int))),
        decreases ss@.len() - i,
    {
        let cs = &ss[i].chunks;
        let ghost before = sections_issues(ss@.take(i as int));
        proof {
            assert(ss@.take(i + 1).drop_last() =~= ss@.take(i as int));
            assert(cs@.take(0) =~= Seq::<Chunk>::empty());
            assert(before + chunks_issues(cs@.take(0)) =~= before);
        }
        let mut j: usize = 0;
        while j < cs.len()
            invariant
                j <= cs@.len(),
                i < ss@.len(),
                cs@ == ss@[i as int].chunks@,
                ss@ == program.sections@,
                program_ok(*program),
                old(issues).wf(),
                old(issues).registers(IssueKind::UnnecessaryComma),
                issues.extends(old(issues), before + chunks_issues(cs@.take(j as int))),
            decreases cs@.len() - j,
        {
            let ghost m = *issues;
            proof {
                assert(chunk_ok_at(*program, i as int, j as int));
                assert(cs@.take(j + 1).drop_last() =~= cs@.take(j as int));
            }
            warn_chunk(&cs[j], issues);
            proof {
                lemma_extends_trans(*old(issues), m, *issues, before + chunks_issues(cs@.take(j as int)), chunk_issues(cs@[j as int]));
                assert(before + chunks_issues(cs@.take(j as int)) + chunk_issues(cs@[j as int]) =~= before + chunks_issues(cs@.take(j + 1)));
            }
            j += 1;
        }
        proof {
            assert(cs@.take(j as int) =~= cs@);
        }
        i += 1;
    }
    proof {
        assert(ss@.take(i as int) =~= ss@);
    }
}

} // verus!
