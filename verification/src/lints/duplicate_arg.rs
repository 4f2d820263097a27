use vstd::prelude::*;

use crate::functions::{collect_flat_args, flat_args, modifier_name, Arg, Fun, Modifier, ModifierKind};
use crate::issue::{lemma_extends_refl, lemma_extends_trans, IssueSpec, IssueTracker};
use crate::issue_kind::IssueKind;
use crate::location::Location;
use crate::numbers::{decimal, decimal_string};
use crate::program::{all_located, defs_located, defs_located_at, fun_located, opt_flat, Program, Section};
use crate::text::{concat, lower, eq_ignore_case};
use crate::lints::shadowed_args::{arg_refs, arg_loc, deref_args};

verus! {

/// Whether two arguments are the same: names equal ignoring ASCII case, and both or
/// neither references.
pub open spec fn same_arg(a: Arg, b: Arg) -> bool {
    lower(a.name@) == lower(b.name@) && a.is_ref == b.is_ref
}

/// The duplicates of `args[i]` among `args[i + 1..j]`, in order; each is reported at
/// the later argument with the text `prefix`, the name and a closing backtick.
pub open spec fn dup_inner(args: Seq<Arg>, i: int, j: int, prefix: Seq<char>) -> Seq<IssueSpec>
    decreases j - i,
{
    if j <= i + 1 {
        Seq::empty()
    } else {
        dup_inner(args, i, j - 1, prefix) + if same_arg(args[i], args[j - 1]) {
            seq![(IssueKind::DuplicateArgument, arg_loc(args[j - 1]), prefix + args[i].name@ + "`"@)]
        } else {
            Seq::empty()
        }
    }
}

/// The duplicates among `args`, pair by pair (`i` before `j`), for `i` below `n`.
pub open spec fn dup_outer(args: Seq<Arg>, n: int, prefix: Seq<char>) -> Seq<IssueSpec>
    decreases n,
{
    if n <= 0 {
        Seq::empty()
    } else {
        dup_outer(args, n - 1, prefix) + dup_inner(args, n - 1, args.len() as int, prefix)
    }
}

/// Every pair of the same argument in `args`.
pub open spec fn dups(args: Seq<Arg>, prefix: Seq<char>) -> Seq<IssueSpec> {
    dup_outer(args, args.len() as int, prefix)
}

/// The text that starts the warning about a duplicate in modifiers of `kind`.
pub open spec fn mod_prefix(kind: ModifierKind) -> Seq<char> {
    "duplicate "@ + modifier_name(kind) + " argument: `"@
}

/// The duplicate arguments in the modifiers of `kind` of `m`.
pub open spec fn mod_issues(m: crate::functions::Modifiers, kind: ModifierKind) -> Seq<IssueSpec> {
    match opt_flat(m.spec_get(kind)) {
        Some(l) => dups(l, mod_prefix(kind)),
        None => Seq::empty(),
    }
}

/// The duplicate arguments of `f`: among its arguments, then in its `local()`,
/// `global()` and `instance()` modifiers.
pub open spec fn fun_issues(f: Fun) -> Seq<IssueSpec> {
    dups(f.args@, "duplicate argument `"@) + mod_issues(f.modifiers, ModifierKind::Local) + mod_issues(
        f.modifiers,
        ModifierKind::Global,
    ) + mod_issues(f.modifiers, ModifierKind::Instance)
}

/// Reports every pair of the same argument in `args`.
fn warn_dups(args: &Vec<&Arg>, prefix: &str, issues: &mut IssueTracker)
    requires
        old(issues).wf(),
        old(issues).registers(IssueKind::DuplicateArgument),
        all_located(deref_args(args@)),
    ensures
        final(issues).extends(old(issues), dups(deref_args(args@), prefix@)),
{
    let ghost a = deref_args(args@);
    let ghost p = prefix@;
    let n = args.len();
    proof {
        lemma_extends_refl(*issues);
    }
    let mut i: usize = 0;
    while i < n
        invariant
            n == args@.len(),
            a == deref_args(args@),
            p == prefix@,
            i <= n,
            all_located(a),
            old(issues).wf(),
            old(issues).registers(IssueKind::DuplicateArgument),
            issues.extends(old(issues), dup_outer(a, i as int, p)),
        decreases n - i,
    {
        let ghost before = dup_outer(a, i as int, p);
        let mut j: usize = i + 1;
        proof {
            assert(dup_inner(a, i as int, j as int, p) =~= Seq::<IssueSpec>::empty());
            assert(before + dup_inner(a, i as int, j as int, p) =~= before);
        }
        while j < n
            invariant
                n == args@.len(),
                a == deref_args(args@),
                p == prefix@,
                i < n,
                i + 1 <= j <= n,
                all_located(a),
                old(issues).wf(),
                old(issues).registers(IssueKind::DuplicateArgument),
                issues.extends(old(issues), before + dup_inner(a, i as int, j as int, p)),
            decreases n - j,
        {
            let ghost m = *issues;
            let arg = args[i];
            let other = args[j];
            assert(a[i as int] == *arg && a[j as int] == *other);
            if eq_ignore_case(arg.name.as_str(), other.name.as_str()) && arg.is_ref == other.is_ref {
                let mut text = String::from_str(prefix);
                text.append(arg.name.as_str());
                text.append("`");
                let loc = other.location.unwrap();
                let ghost x = seq![(IssueKind::DuplicateArgument, loc, text@)];
                issues.add(IssueKind::DuplicateArgument, &loc, text);
                proof {
                    lemma_extends_trans(*old(issues), m, *issues, before + dup_inner(a, i as int, j as int, p), x);
                    assert(before + dup_inner(a, i as int, j as int, p) + x =~= before + dup_inner(a, i as int, j + 1, p));
                }
            } else {
                assert(before + dup_inner(a, i as int, j + 1, p) =~= before + dup_inner(a, i as int, j as int, p));
            }
            j += 1;
        }
        i += 1;
    }
}

/// Reports the duplicate arguments in the modifiers of `kind` of `modifiers`.
pub fn warn_duplicate_arg_in_modifier(
    kind: &ModifierKind,
    modifiers: &crate::functions::Modifiers,
    issues: &mut IssueTracker,
)
    requires
        old(issues).wf(),
        old(issues).registers(IssueKind::DuplicateArgument),
        opt_flat(modifiers.spec_get(*kind)) matches Some(l) ==> all_located(l),
    ensures
        final(issues).extends(old(issues), mod_issues(*modifiers, *kind)),
{
    let modifier = match modifiers.get(kind) {
        Some(m) => m,
        None => {
            proof {
                lemma_extends_refl(*issues);
            }
            return;
        },
    };
    let args = collect_flat_args(modifier);
    let mut prefix = String::from_str("duplicate ");
    prefix.append(kind.name());
    prefix.append(" argument: `");
    warn_dups(&args, prefix.as_str(), issues);
}

fn warn_fun(fun_def: &Fun, issues: &mut IssueTracker)
    requires
        old(issues).wf(),
        old(issues).registers(IssueKind::DuplicateArgument),
        fun_located(*fun_def),
    ensures
        final(issues).extends(old(issues), fun_issues(*fun_def)),
{
    let ghost f = *fun_def;
    let args = arg_refs(&fun_def.args);
    let ghost m0 = *issues;
    warn_dups(&args, "duplicate argument `", issues);
    let ghost m1 = *issues;
    warn_duplicate_arg_in_modifier(&ModifierKind::Local, &fun_def.modifiers, issues);
    let ghost m2 = *issues;
    warn_duplicate_arg_in_modifier(&ModifierKind::Global, &fun_def.modifiers, issues);
    let ghost m3 = *issues;
    warn_duplicate_arg_in_modifier(&ModifierKind::Instance, &fun_def.modifiers, issues);
    proof {
        let s0 = dups(f.args@, "duplicate argument `"@);
        let s1 = mod_issues(f.modifiers, ModifierKind::Local);
        let s2 = mod_issues(f.modifiers, ModifierKind::Global);
        let s3 = mod_issues(f.modifiers, ModifierKind::Instance);
        lemma_extends_trans(m0, m1, m2, s0, s1);
        lemma_extends_trans(m0, m2, m3, s0 + s1, s2);
        lemma_extends_trans(m0, m3, *issues, s0 + s1 + s2, s3);
    }
}

/// What the lint reports for the function definitions `fs`, in order.
pub open spec fn defs_issues(fs: Seq<Fun>) -> Seq<IssueSpec>
    decreases fs.len(),
{
    if fs.len() == 0 {
        Seq::empty()
    } else {
        defs_issues(fs.drop_last()) + fun_issues(fs.last())
    }
}

/// What the lint reports for the sections `ss`, in order.
pub open spec fn sections_issues(ss: Seq<Section>) -> Seq<IssueSpec>
    decreases ss.len(),
{
    if ss.len() == 0 {
        Seq::empty()
    } else {
        sections_issues(ss.drop_last()) + defs_issues(ss.last().fun_defs@)
    }
}

/// What the lint reports on `program`: each argument of a function definition, or of one kind of its modifiers, that repeats an earlier one.
pub open spec fn duplicate_arg_issues(program: Program) -> Seq<IssueSpec> {
    sections_issues(program.sections@)
}

/// Warns about arguments given twice, in a function definition or in its modifiers.
pub fn lint(program: &Program, issues: &mut IssueTracker)
    requires
        old(issues).wf(),
        old(issues).registers(IssueKind::DuplicateArgument),
        defs_located(*program),
    ensures
        final(issues).extends(old(issues), duplicate_arg_issues(*program)),
{
    let ss = &program.sections;
    proof {
        lemma_extends_refl(*old(issues));
        assert(ss@.take(0) =~= Seq::<Section>::empty());
    }
    let mut i: usize = 0;
    while i < ss.len()
        invariant
            i <= ss@.len(),
            ss@ == program.sections@,
            defs_located(*program),
            old(issues).wf(),
            old(issues).registers(IssueKind::DuplicateArgument),
            issues.extends(old(issues), sections_issues(ss@.take(i as int))),
        decreases ss@.len() - i,
    {
        let defs = &ss[i].fun_defs;
        let ghost before = sections_issues(ss@.take(i as int));
        proof {
            assert(ss@.take(i + 1).drop_last() =~= ss@.take(i as int));
            assert(defs@.take(0) =~= Seq::<Fun>::empty());
            assert(before + defs_issues(defs@.take(0)) =~= before);
        }
        let mut j: usize = 0;
        while j < defs.len()
            invariant
                j <= defs@.len(),
                i < ss@.len(),
                defs@ == ss@[i as int].fun_defs@,
                ss@ == program.sections@,
                defs_located(*program),
                old(issues).wf(),
                old(issues).registers(IssueKind::DuplicateArgument),
                issues.extends(old(issues), before + defs_issues(defs@.take(j as int))),
            decreases defs@.len() - j,
        {
            let ghost m = *issues;
            proof {
                assert(defs_located_at(*program, i as int, j as int));
                assert(defs@.take(j + 1).drop_last() =~= defs@.take(j as int));
            }
            warn_fun(&defs[j], issues);
            proof {
                lemma_extends_trans(*old(issues), m, *issues, before + defs_issues(defs@.take(j as int)), fun_issues(defs@[j as int]));
                assert(before + defs_issues(defs@.take(j as int)) + fun_issues(defs@[j as int]) =~= before + defs_issues(defs@.take(j + 1)));
            }
            j += 1;
        }
        proof {
            assert(defs@.take(j as int) =~= defs@);
        }
        i += 1;
    }
    proof {
        assert(ss@.take(i as int) =~= ss@);
    }
}

} // verus!
