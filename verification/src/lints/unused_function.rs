use vstd::prelude::*;

use crate::functions::{collect_flat_args, flat_args, modifier_name, Arg, Fun, Modifier, ModifierKind};
use crate::issue::{lemma_extends_refl, lemma_extends_trans, IssueSpec, IssueTracker};
use crate::issue_kind::IssueKind;
use crate::location::Location;
use crate::numbers::{decimal, decimal_string};
use crate::program::{all_located, defs_located, defs_located_at, fun_located, opt_flat, Program, Section};
use crate::text::{concat, lower, eq_ignore_case};
use crate::functions::FunCall;

verus! {

/// The identifiers of the functions that the calls `cs` reach, in order (calls to
/// unknown functions left out).
pub open spec fn calls_uuids(cs: Seq<FunCall>) -> Seq<u128>
    decreases cs.len(),
{
    if cs.len() == 0 {
        Seq::empty()
    } else {
        calls_uuids(cs.drop_last()) + match cs.last().fun {
            Some(f) => seq![f.uuid],
            None => Seq::empty(),
        }
    }
}

/// The identifiers of the functions that the calls of the sections `ss` reach.
pub open spec fn called_uuids(ss: Seq<Section>) -> Seq<u128>
    decreases ss.len(),
{
    if ss.len() == 0 {
        Seq::empty()
    } else {
        called_uuids(ss.drop_last()) + calls_uuids(ss.last().fun_calls@)
    }
}

/// A function definition of the entry file (file 0) that no call reaches.
pub open spec fn fun_issues(called: Seq<u128>, f: Fun) -> Seq<IssueSpec> {
    if !called.contains(f.uuid) && f.location is Some && (f.location->0).file == 0 {
        seq![(IssueKind::UnusedFunction, f.location->0, "function "@ + f.name@ + "() is never used"@)]
    } else {
        Seq::empty()
    }
}

/// What the lint reports for the function definitions `fs`, in order.
pub open spec fn defs_issues(called: Seq<u128>, fs: Seq<Fun>) -> Seq<IssueSpec>
    decreases fs.len(),
{
    if fs.len() == 0 {
        Seq::empty()
    } else {
        defs_issues(called, fs.drop_last()) + fun_issues(called, fs.last())
    }
}

/// What the lint reports for the sections `ss`, in order.
pub open spec fn sections_issues(called: Seq<u128>, ss: Seq<Section>) -> Seq<IssueSpec>
    decreases ss.len(),
{
    if ss.len() == 0 {
        Seq::empty()
    } else {
        sections_issues(called, ss.drop_last()) + defs_issues(called, ss.last().fun_defs@)
    }
}

/// What the lint reports on `program`: each function defined in the entry file that no
/// call of the program reaches.
pub open spec fn unused_function_issues(program: Program) -> Seq<IssueSpec> {
    sections_issues(called_uuids(program.sections@), program.sections@)
}

/// The identifiers of the functions that the calls of `ss` reach.
fn collect_called(ss: &Vec<Section>) -> (r: Vec<u128>)
    ensures
        r@ == called_uuids(ss@),
{
    let mut out: Vec<u128> = Vec::new();
    let mut i: usize = 0;
    assert(ss@.take(0) =~= Seq::<Section>::empty());
    while i < ss.len()
        invariant
            i <= ss@.len(),
            out@ == called_uuids(ss@.take(i as int)),
        decreases ss@.len() - i,
    {
        let calls = &ss[i].fun_calls;
        let ghost before = out@;
        assert(ss@.take(i + 1).drop_last() =~= ss@.take(i as int));
        let mut j: usize = 0;
        assert(calls@.take(0) =~= Seq::<FunCall>::empty());
        assert(before + calls_uuids(calls@.take(0)) =~= before);
        while j < calls.len()
            invariant
                j <= calls@.len(),
                i < ss@.len(),
                calls@ == ss@[i as int].fun_calls@,
                out@ == before + calls_uuids(calls@.take(j as int)),
            decreases calls@.len() - j,
        {
            assert(calls@.take(j + 1).drop_last() =~= calls@.take(j as int));
            match &calls[j].fun {
                Some(f) => {
                    out.push(f.uuid);
                    assert(out@ =~= before + calls_uuids(calls@.take(j + 1)));
                },
                None => {
                    assert(before + calls_uuids(calls@.take(j + 1)) =~= before + calls_uuids(calls@.take(j as int)));
                },
            }
            j += 1;
        }
        assert(calls@.take(j as int) =~= calls@);
        i += 1;
    }
    assert(ss@.take(i as int) =~= ss@);
    out
}

fn contains_uuid(v: &Vec<u128>, u: u128) -> (r: bool)
    ensures
        r == v@.contains(u),
{
    let mut i: usize = 0;
    while i < v.len()
        invariant
            i <= v@.len(),
            forall|k: int| 0 <= k < i ==> v@[k] != u,
        decreases v@.len() - i,
    {
        if v[i] == u {
            return true;
        }
        i += 1;
    }
    false
}

/// Warns about functions of the entry file that are never called.
pub fn lint(program: &Program, issues: &mut IssueTracker)
    requires
        old(issues).wf(),
        old(issues).registers(IssueKind::UnusedFunction),
    ensures
        final(issues).extends(old(issues), unused_function_issues(*program)),
{
    let ss = &program.sections;
    let called = collect_called(ss);
    let ghost c = called@;
    proof {
        lemma_extends_refl(*old(issues));
        assert(ss@.take(0) =~= Seq::<Section>::empty());
    }
    let mut i: usize = 0;
    while i < ss.len()
        invariant
            i <= ss@.len(),
            ss@ == program.sections@,
            c == called@,
            c == called_uuids(program.sections@),
            old(issues).wf(),
            old(issues).registers(IssueKind::UnusedFunction),
            issues.extends(old(issues), sections_issues(c, ss@.take(i as int))),
        decreases ss@.len() - i,
    {
        let defs = &ss[i].fun_defs;
        let ghost before = sections_issues(c, ss@.take(i as int));
        proof {
            assert(ss@.take(i + 1).drop_last() =~= ss@.take(i as int));
            assert(defs@.take(0) =~= Seq::<Fun>::empty());
            assert(before + defs_issues(c, defs@.take(0)) =~= before);
        }
        let mut j: usize = 0;
        while j < defs.len()
            invariant
                j <= defs@.len(),
                i < ss@.len(),
                defs@ == ss@[i as int].fun_defs@,
                c == called@,
                old(issues).wf(),
                old(issues).registers(IssueKind::UnusedFunction),
                issues.extends(old(issues), before + defs_issues(c, defs@.take(j as int))),
            decreases defs@.len() - j,
        {
            let ghost m = *issues;
            let fun_def = &defs[j];
            assert(defs@.take(j + 1).drop_last() =~= defs@.take(j as int));
            let used = contains_uuid(&called, fun_def.uuid);
            let in_entry = match &fun_def.location {
                Some(l) => l.file == 0,
                None => false,
            };
            if !used && in_entry {
                let mut text = String::from_str("function ");
                text.append(fun_def.name.as_str());
                text.append("() is never used");
                let loc = fun_def.location.unwrap();
                let ghost x = seq![(IssueKind::UnusedFunction, loc, text@)];
                issues.add(IssueKind::UnusedFunction, &loc, text);
                proof {
                    lemma_extends_trans(*old(issues), m, *issues, before + defs_issues(c, defs@.take(j as int)), x);
                    assert(before + defs_issues(c, defs@.take(j as int)) + x =~= before + defs_issues(c, defs@.take(j + 1)));
                }
            } else {
                assert(before + defs_issues(c, defs@.take(j + 1)) =~= before + defs_issues(c, defs@.take(j as int)));
            }
            j += 1;
        }
        proof {
            assert(defs@.take(j as int) =~= defs@);
        }
        i += 1;
    }
    proof {
        assert(ss@.take(i as int) =~= ss@);
    }
}

} // verus!
