use vstd::prelude::*;

use crate::access::{VarKind, WithinFunction};
use crate::functions::{collect_flat_args, modifier_args, Arg, Depth, Fun, FunCall, ModifierKind};
use crate::issue::{lemma_extends_refl, lemma_extends_trans, IssueSpec, IssueTracker};
use crate::issue_kind::IssueKind;
use crate::lints::shadowed_args::{arg_loc, deref_args};
use crate::program::{all_located, defs_located, defs_located_at, fun_located, opt_flat, Program, Section};
use crate::text::{eq_ignore_case, lower, starts_with_ignore_case};

verus! {

/// Whether `s` starts with `p`, ignoring ASCII case.
pub open spec fn starts_ci(s: Seq<char>, p: Seq<char>) -> bool {
    p.len() <= s.len() && lower(s.take(p.len() as int)) == lower(p)
}

/// Whether `w` accesses the local variable `name` (ASCII case ignored), writing it
/// (`write`) or reading it.
pub open spec fn local_hit(w: WithinFunction, name: Seq<char>, write: bool) -> bool {
    &&& w.var_kind is Local
    &&& if write {
        w.info.kind is Write
    } else {
        w.info.kind is Read
    }
    &&& lower(w.info.accessed_as@) == lower(name)
}

/// Whether one of `acc` accesses the local variable `name`, writing it (`write`) or
/// reading it.
pub open spec fn local_used(acc: Seq<WithinFunction>, name: Seq<char>, write: bool) -> bool {
    exists|k: int| 0 <= k < acc.len() && #[trigger] local_hit(acc[k], name, write)
}

/// Whether `w` accesses the global variable of the argument `a`: the variable itself, or
/// (for a reference argument) a name that starts like it, ASCII case ignored.
pub open spec fn global_hit(w: WithinFunction, a: Arg) -> bool {
    &&& w.var_kind is Global
    &&& (a.is_ref && starts_ci(w.info.accessed_as@, a.name@)) || lower(w.info.accessed_as@) == lower(
        a.name@,
    )
}

/// Whether `w` reads or writes an instance variable whose name starts like `name`, ASCII
/// case ignored.
pub open spec fn instance_hit(w: WithinFunction, name: Seq<char>) -> bool {
    &&& w.var_kind is Instance
    &&& (w.info.kind is Write || w.info.kind is Read)
    &&& starts_ci(w.info.accessed_as@, name)
}

/// Whether the call `c`, nested in the function `uuid`, is named `name` (ASCII case
/// ignored) and matches a `global()` argument (`global`) or an `instance()` argument.
pub open spec fn call_hit(c: FunCall, uuid: u128, name: Seq<char>, global: bool) -> bool {
    &&& c.depth matches Depth::Nested { parent_fun } && parent_fun == uuid
    &&& if global {
        c.name_matches_global_arg
    } else {
        c.name_matches_instance_arg
    }
    &&& lower(c.accessed_as@) == lower(name)
}

/// Whether one of the calls `cs` uses the modifier argument `name` of the function `uuid`
/// as a function name.
pub open spec fn calls_use(cs: Seq<FunCall>, uuid: u128, name: Seq<char>, global: bool) -> bool {
    exists|k: int| 0 <= k < cs.len() && #[trigger] call_hit(cs[k], uuid, name, global)
}

/// What the lint reports for the `local()` argument `a` of `f`: a local variable never
/// used, never written (always 0), or never read.
pub open spec fn local_issues(f: Fun, a: Arg) -> Seq<IssueSpec> {
    let acc = f.scope.accesses@;
    let written = local_used(acc, a.name@, true);
    let read = local_used(acc, a.name@, false);
    if !written && !read {
        seq![
            (
                IssueKind::UnusedModifierArg,
                arg_loc(a),
                "local variable `"@ + a.name@ + "` is not used in "@ + f.name@ + "()"@,
            ),
        ]
    } else if !written {
        seq![
            (
                IssueKind::UnusedModifierArg,
                arg_loc(a),
                "local variable "@ + a.name@ + " is always 0 in "@ + f.name@,
            ),
        ]
    } else if !read {
        seq![
            (
                IssueKind::UnusedModifierArg,
                arg_loc(a),
                "local variable "@ + a.name@ + " is never read in "@ + f.name@ + "()"@,
            ),
        ]
    } else {
        Seq::empty()
    }
}

/// What the lint reports for the `global()` argument `a` of `f`, whose section makes the
/// calls `cs`: a global variable that `f` never accesses and never calls as a function.
pub open spec fn global_issues(f: Fun, cs: Seq<FunCall>, a: Arg) -> Seq<IssueSpec> {
    if !(exists|k: int| 0 <= k < f.scope.accesses@.len() && #[trigger] global_hit(f.scope.accesses@[k], a))
        && !calls_use(cs, f.uuid, a.name@, true) {
        seq![
            (
                IssueKind::UnusedModifierArg,
                arg_loc(a),
                "global variable `"@ + a.name@ + "` is not used in "@ + f.name@ + "()"@,
            ),
        ]
    } else {
        Seq::empty()
    }
}

/// What the lint reports for the `instance()` argument `a` of `f`, whose section makes
/// the calls `cs`: an instance variable that `f` never accesses and never calls as a
/// function.
pub open spec fn instance_issues(f: Fun, cs: Seq<FunCall>, a: Arg) -> Seq<IssueSpec> {
    if !(exists|k: int|
        0 <= k < f.scope.accesses@.len() && #[trigger] instance_hit(f.scope.accesses@[k], a.name@))
        && !calls_use(cs, f.uuid, a.name@, false) {
        seq![
            (
                IssueKind::UnusedModifierArg,
                arg_loc(a),
                "instance variable `"@ + a.name@ + "` is not used in "@ + f.name@ + "()"@,
            ),
        ]
    } else {
        Seq::empty()
    }
}

/// What the lint reports for the arguments `args` of the modifiers of `kind` of `f`, in
/// order.
pub open spec fn kind_fold(f: Fun, cs: Seq<FunCall>, kind: ModifierKind, args: Seq<Arg>) -> Seq<IssueSpec>
    decreases args.len(),
{
    if args.len() == 0 {
        Seq::empty()
    } else {
        kind_fold(f, cs, kind, args.drop_last()) + match kind {
            ModifierKind::Local => local_issues(f, args.last()),
            ModifierKind::Global => global_issues(f, cs, args.last()),
            ModifierKind::Instance => instance_issues(f, cs, args.last()),
        }
    }
}

/// What the lint reports for the modifiers of `kind` of `f`.
pub open spec fn kind_issues(f: Fun, cs: Seq<FunCall>, kind: ModifierKind) -> Seq<IssueSpec> {
    kind_fold(f, cs, kind, modifier_args(f.modifiers, kind))
}

/// What the lint reports for `f`, whose section makes the calls `cs`: its `global()`, then
/// `local()`, then `instance()` arguments that it does not use.
pub open spec fn fun_issues(f: Fun, cs: Seq<FunCall>) -> Seq<IssueSpec> {
    kind_issues(f, cs, ModifierKind::Global) + kind_issues(f, cs, ModifierKind::Local) + kind_issues(
        f,
        cs,
        ModifierKind::Instance,
    )
}

/// Whether one of `acc` accesses the local variable `name`, writing it (`write`) or
/// reading it.
fn find_local(acc: &Vec<WithinFunction>, name: &str, write: bool) -> (r: bool)
    ensures
        r == local_used(acc@, name@, write),
{
    let mut i: usize = 0;
    while i < acc.len()
        invariant
            i <= acc@.len(),
            forall|k: int| 0 <= k < i ==> !#[trigger] local_hit(acc@[k], name@, write),
        decreases acc@.len() - i,
    {
        let w = &acc[i];
        let kind_ok = if write {
            w.info.is_write()
        } else {
            w.info.is_read()
        };
        let hit = match w.var_kind {
            VarKind::Local => true,
            _ => false,
        } && kind_ok && eq_ignore_case(w.info.accessed_as.as_str(), name);
        if hit {
            assert(local_hit(acc@[i as int], name@, write));
            return true;
        }
        i += 1;
    }
    false
}

/// Whether one of `acc` accesses the global variable of the argument `a`.
fn find_global(acc: &Vec<WithinFunction>, a: &Arg) -> (r: bool)
    ensures
        r == exists|k: int| 0 <= k < acc@.len() && #[trigger] global_hit(acc@[k], *a),
{
    let mut i: usize = 0;
    while i < acc.len()
        invariant
            i <= acc@.len(),
            forall|k: int| 0 <= k < i ==> !#[trigger] global_hit(acc@[k], *a),
        decreases acc@.len() - i,
    {
        let w = &acc[i];
        let hit = match w.var_kind {
            VarKind::Global { .. } => (a.is_ref && starts_with_ignore_case(w.info.accessed_as.as_str(), a.name.as_str()))
                || eq_ignore_case(w.info.accessed_as.as_str(), a.name.as_str()),
            _ => false,
        };
        if hit {
            assert(global_hit(acc@[i as int], *a));
            return true;
        }
        i += 1;
    }
    false
}

/// Whether one of `acc` reads or writes an instance variable whose name starts like `name`.
fn find_instance(acc: &Vec<WithinFunction>, name: &str) -> (r: bool)
    ensures
        r == exists|k: int| 0 <= k < acc@.len() && #[trigger] instance_hit(acc@[k], name@),
{
    let mut i: usize = 0;
    while i < acc.len()
        invariant
            i <= acc@.len(),
            forall|k: int| 0 <= k < i ==> !#[trigger] instance_hit(acc@[k], name@),
        decreases acc@.len() - i,
    {
        let w = &acc[i];
        let hit = match w.var_kind {
            VarKind::Instance { .. } => (w.info.is_write() || w.info.is_read()) && starts_with_ignore_case(
                w.info.accessed_as.as_str(),
                name,
            ),
            _ => false,
        };
        if hit {
            assert(instance_hit(acc@[i as int], name@));
            return true;
        }
        i += 1;
    }
    false
}

/// Whether one of the calls `cs` uses the modifier argument `name` of the function `uuid`
/// as a function name.
fn find_call(cs: &Vec<FunCall>, uuid: u128, name: &str, global: bool) -> (r: bool)
    ensures
        r == calls_use(cs@, uuid, name@, global),
{
    let mut i: usize = 0;
    while i < cs.len()
        invariant
            i <= cs@.len(),
            forall|k: int| 0 <= k < i ==> !#[trigger] call_hit(cs@[k], uuid, name@, global),
        decreases cs@.len() - i,
    {
        let c = &cs[i];
        let matches_arg = if global {
            c.name_matches_global_arg
        } else {
            c.name_matches_instance_arg
        };
        let hit = match c.depth {
            Depth::Nested { parent_fun } => parent_fun == uuid,
            _ => false,
        } && matches_arg && eq_ignore_case(c.accessed_as.as_str(), name);
        if hit {
            assert(call_hit(cs@[i as int], uuid, name@, global));
            return true;
        }
        i += 1;
    }
    false
}

/// Reports the argument `a`, of a modifier of `kind` of `fun`, if `fun` does not use it.
fn warn_arg(fun: &Fun, calls: &Vec<FunCall>, kind: ModifierKind, a: &Arg, issues: &mut IssueTracker)
    requires
        old(issues).wf(),
        old(issues).registers(IssueKind::UnusedModifierArg),
        a.location is Some,
    ensures
        final(issues).extends(
            old(issues),
            match kind {
                ModifierKind::Local => local_issues(*fun, *a),
                ModifierKind::Global => global_issues(*fun, calls@, *a),
                ModifierKind::Instance => instance_issues(*fun, calls@, *a),
            },
        ),
{
    let acc = &fun.scope.accesses;
    let name = a.name.as_str();
    let location = a.location.unwrap();
    match kind {
        ModifierKind::Local => {
            let is_written = find_local(acc, name, true);
            let is_read = find_local(acc, name, false);
            if !is_written && !is_read {
                let mut text = String::from_str("local variable `");
                text.append(name);
                text.append("` is not used in ");
                text.append(fun.name.as_str());
                text.append("()");
                issues.add(IssueKind::UnusedModifierArg, &location, text);
            } else if !is_written {
                let mut text = String::from_str("local variable ");
                text.append(name);
                text.append(" is always 0 in ");
                text.append(fun.name.as_str());
                issues.add(IssueKind::UnusedModifierArg, &location, text);
            } else if !is_read {
                let mut text = String::from_str("local variable ");
                text.append(name);
                text.append(" is never read in ");
                text.append(fun.name.as_str());
                text.append("()");
                issues.add(IssueKind::UnusedModifierArg, &location, text);
            } else {
                proof {
                    lemma_extends_refl(*issues);
                }
            }
        },
        ModifierKind::Global => {
            if !find_global(acc, a) && !find_call(calls, fun.uuid, name, true) {
                let mut text = String::from_str("global variable `");
                text.append(name);
                text.append("` is not used in ");
                text.append(fun.name.as_str());
                text.append("()");
                issues.add(IssueKind::UnusedModifierArg, &location, text);
            } else {
                proof {
                    lemma_extends_refl(*issues);
                }
            }
        },
        ModifierKind::Instance => {
            if !find_instance(acc, name) && !find_call(calls, fun.uuid, name, false) {
                let mut text = String::from_str("instance variable `");
                text.append(name);
                text.append("` is not used in ");
                text.append(fun.name.as_str());
                text.append("()");
                issues.add(IssueKind::UnusedModifierArg, &location, text);
            } else {
                proof {
                    lemma_extends_refl(*issues);
                }
            }
        },
    }
}

/// Reports the arguments of the modifiers of `kind` of `fun` that it does not use.
fn warn_kind(fun: &Fun, calls: &Vec<FunCall>, kind: ModifierKind, issues: &mut IssueTracker)
    requires
        old(issues).wf(),
        old(issues).registers(IssueKind::UnusedModifierArg),
        fun_located(*fun),
    ensures
        final(issues).extends(old(issues), kind_issues(*fun, calls@, kind)),
{
    proof {
        lemma_extends_refl(*issues);
    }
    let ms = match fun.modifiers.get(&kind) {
        Some(m) => m,
        None => {
            return;
        },
    };
    let args = collect_flat_args(ms);
    let ghost a = deref_args(args@);
    proof {
        assert(a == modifier_args(fun.modifiers, kind));
        assert(kind == ModifierKind::Local || kind == ModifierKind::Instance || kind == ModifierKind::Global);
        assert(all_located(a));
        assert(a.take(0) =~= Seq::<Arg>::empty());
    }
    let mut i: usize = 0;
    while i < args.len()
        invariant
            i <= args@.len(),
            a == deref_args(args@),
            a == modifier_args(fun.modifiers, kind),
            all_located(a),
            old(issues).wf(),
            old(issues).registers(IssueKind::UnusedModifierArg),
            issues.extends(old(issues), kind_fold(*fun, calls@, kind, a.take(i as int))),
        decreases args@.len() - i,
    {
        let ghost m = *issues;
        let arg = args[i];
        assert(a[i as int] == *arg);
        assert(a.take(i + 1).drop_last() =~= a.take(i as int));
        assert(a.take(i + 1).last() == *arg);
        warn_arg(fun, calls, kind, arg, issues);
        proof {
            lemma_extends_trans(
                *old(issues),
                m,
                *issues,
                kind_fold(*fun, calls@, kind, a.take(i as int)),
                match kind {
                    ModifierKind::Local => local_issues(*fun, *arg),
                    ModifierKind::Global => global_issues(*fun, calls@, *arg),
                    ModifierKind::Instance => instance_issues(*fun, calls@, *arg),
                },
            );
        }
        i += 1;
    }
    assert(a.take(i as int) =~= a);
}

fn warn_fun(fun: &Fun, calls: &Vec<FunCall>, issues: &mut IssueTracker)
    requires
        old(issues).wf(),
        old(issues).registers(IssueKind::UnusedModifierArg),
        fun_located(*fun),
    ensures
        final(issues).extends(old(issues), fun_issues(*fun, calls@)),
{
    let ghost m0 = *issues;
    warn_kind(fun, calls, ModifierKind::Global, issues);
    let ghost m1 = *issues;
    warn_kind(fun, calls, ModifierKind::Local, issues);
    proof {
        lemma_extends_trans(m0, m1, *issues, kind_issues(*fun, calls@, ModifierKind::Global), kind_issues(*fun, calls@, ModifierKind::Local));
    }
    let ghost m2 = *issues;
    warn_kind(fun, calls, ModifierKind::Instance, issues);
    proof {
        lemma_extends_trans(
            m0,
            m2,
            *issues,
            kind_issues(*fun, calls@, ModifierKind::Global) + kind_issues(*fun, calls@, ModifierKind::Local),
            kind_issues(*fun, calls@, ModifierKind::Instance),
        );
    }
}

/// What the lint reports for the function definitions `fs` of a section that makes the
/// calls `cs`, in order.
pub open spec fn defs_issues(fs: Seq<Fun>, cs: Seq<FunCall>) -> Seq<IssueSpec>
    decreases fs.len(),
{
    if fs.len() == 0 {
        Seq::empty()
    } else {
        defs_issues(fs.drop_last(), cs) + fun_issues(fs.last(), cs)
    }
}

/// What the lint reports for the sections `ss`, in order.
pub open spec fn sections_issues(ss: Seq<Section>) -> Seq<IssueSpec>
    decreases ss.len(),
{
    if ss.len() == 0 {
        Seq::empty()
    } else {
        sections_issues(ss.drop_last()) + defs_issues(ss.last().fun_defs@, ss.last().fun_calls@)
    }
}

/// What the lint reports on `program`: the modifier arguments that their function does not
/// use.
pub open spec fn unused_modifier_arg_issues(program: Program) -> Seq<IssueSpec> {
    sections_issues(program.sections@)
}

/// Warns about arguments of `local()`, `global()` and `instance()` that their function does
/// not use.
pub fn lint(program: &Program, issues: &mut IssueTracker)
    requires
        old(issues).wf(),
        old(issues).registers(IssueKind::UnusedModifierArg),
        defs_located(*program),
    ensures
        final(issues).extends(old(issues), unused_modifier_arg_issues(*program)),
{
    let ss = &program.sections;
    proof {
        lemma_extends_refl(*old(issues));
        assert(ss@.take(0) =~= Seq::<Section>::empty());
    }
    let mut i: usize = 0;
    while i < ss.len()
        invariant
            i <= ss@.len(),
            ss@ == program.sections@,
            defs_located(*program),
            old(issues).wf(),
            old(issues).registers(IssueKind::UnusedModifierArg),
            issues.extends(old(issues), sections_issues(ss@.take(i as int))),
        decreases ss@.len() - i,
    {
        let defs = &ss[i].fun_defs;
        let calls = &ss[i].fun_calls;
        let ghost before = sections_issues(ss@.take(i as int));
        proof {
            assert(ss@.take(i + 1).drop_last() =~= ss@.take(i as int));
            assert(defs@.take(0) =~= Seq::<Fun>::empty());
            assert(before + defs_issues(defs@.take(0), calls@) =~= before);
        }
        let mut j: usize = 0;
        while j < defs.len()
            invariant
                j <= defs@.len(),
                i < ss@.len(),
                defs@ == ss@[i as int].fun_defs@,
                calls@ == ss@[i as int].fun_calls@,
                ss@ == program.sections@,
                defs_located(*program),
                old(issues).wf(),
                old(issues).registers(IssueKind::UnusedModifierArg),
                issues.extends(old(issues), before + defs_issues(defs@.take(j as int), calls@)),
            decreases defs@.len() - j,
        {
            let ghost m = *issues;
            proof {
                assert(defs_located_at(*program, i as int, j as int));
                assert(defs@.take(j + 1).drop_last() =~= defs@.take(j as int));
            }
            warn_fun(&defs[j], calls, issues);
            proof {
                lemma_extends_trans(*old(issues), m, *issues, before + defs_issues(defs@.take(j as int), calls@), fun_issues(defs@[j as int], calls@));
                assert(before + defs_issues(defs@.take(j as int), calls@) + fun_issues(defs@[j as int], calls@) =~= before + defs_issues(defs@.take(j + 1), calls@));
            }
            j += 1;
        }
        proof {
            assert(defs@.take(j as int) =~= defs@);
        }
        i += 1;
    }
    proof {
        assert(ss@.take(i as int) =~= ss@);
    }
}

} // verus!
