use vstd::prelude::*;

use crate::functions::{
    collect_flat_args, flat_args, modifier_name, Arg, Fun, Modifier, ModifierKind,
};
use crate::issue::{lemma_extends_refl, lemma_extends_trans, IssueSpec, IssueTracker};
use crate::issue_kind::IssueKind;
use crate::location::Location;
use crate::program::{all_located, defs_located, defs_located_at, fun_located, opt_flat, Program, Section};
use crate::text::{eq_ignore_case, lower, starts_with_ignore_case, str_eq};

verus! {

/// The arguments that a list of references points to.
pub open spec fn deref_args(v: Seq<&Arg>) -> Seq<Arg> {
    v.map_values(|a: &Arg| *a)
}

/// Whether `name` is `this` or starts with `this.`, ignoring ASCII case: the `this`
/// keyword hides such an argument.
pub open spec fn is_this_name(name: Seq<char>) -> bool {
    lower(name) == lower("this"@) || (5 <= name.len() && lower(name.take(5)) == lower("this."@))
}

/// Where an argument stands.
pub open spec fn arg_loc(a: Arg) -> Location {
    a.location->0
}

/// Whether an argument of `args` is named `name`.
pub open spec fn has_name(args: Seq<Arg>, name: Seq<char>) -> bool {
    exists|i: int| 0 <= i < args.len() && (#[trigger] args[i]).name@ == name
}

/// Whether an argument of `args` is named `name` and is (or is not) a reference.
pub open spec fn has_name_ref(args: Seq<Arg>, name: Seq<char>, is_ref: bool) -> bool {
    exists|i: int| 0 <= i < args.len() && (#[trigger] args[i]).name@ == name && args[i].is_ref == is_ref
}

/// Whether an argument of `args` is named `name`, ignoring ASCII case.
pub open spec fn has_name_ci(args: Seq<Arg>, name: Seq<char>) -> bool {
    exists|i: int| 0 <= i < args.len() && lower((#[trigger] args[i]).name@) == lower(name)
}

/// Whether a reference argument of `args` is named `name`, ignoring ASCII case.
pub open spec fn has_ref_ci(args: Seq<Arg>, name: Seq<char>) -> bool {
    exists|i: int| 0 <= i < args.len() && (#[trigger] args[i]).is_ref && lower(args[i].name@) == lower(name)
}

/// A function argument that the `this` keyword hides.
pub open spec fn this_arg_issues(a: Arg, fun_name: Seq<char>) -> Seq<IssueSpec> {
    if is_this_name(a.name@) {
        seq![
            (
                IssueKind::FullyShadowedArgument,
                arg_loc(a),
                "`"@ + fun_name + "()` arg `"@ + a.name@ + "` is fully shadowed by the `this` keyword"@,
            ),
        ]
    } else {
        Seq::empty()
    }
}

/// A modifier argument of `kind` that the `this` keyword hides.
pub open spec fn this_keyword_issues(name: Seq<char>, loc: Location, kind: ModifierKind) -> Seq<IssueSpec> {
    if is_this_name(name) {
        seq![
            (
                IssueKind::FullyShadowedArgument,
                loc,
                modifier_name(kind) + " arg `"@ + name + "` is fully shadowed by the `this` keyword"@,
            ),
        ]
    } else {
        Seq::empty()
    }
}

/// A local argument hidden by the `this` keyword or by a function argument of the same name.
pub open spec fn local_arg_issues(a: Arg, fun_args: Seq<Arg>, fun_name: Seq<char>) -> Seq<IssueSpec> {
    let n = a.name@;
    this_keyword_issues(n, arg_loc(a), ModifierKind::Local) + if has_name(fun_args, n) {
        seq![
            (
                IssueKind::FullyShadowedArgument,
                arg_loc(a),
                "local arg "@ + n + " is fully shadowed by `"@ + fun_name + "()` arg `"@ + n + "`"@,
            ),
        ]
    } else {
        Seq::empty()
    }
}

/// An instance argument hidden by the `this` keyword, by a function argument of the same
/// name (fully by a reference argument, partially by another), or partially by a local
/// argument of the same name (ignoring case).
pub open spec fn instance_arg_issues(
    a: Arg,
    fun_args: Seq<Arg>,
    local: Option<Seq<Arg>>,
    fun_name: Seq<char>,
) -> Seq<IssueSpec> {
    let n = a.name@;
    let loc = arg_loc(a);
    this_keyword_issues(n, loc, ModifierKind::Instance) + if has_name_ref(fun_args, n, true) {
        seq![
            (
                IssueKind::FullyShadowedArgument,
                loc,
                "instance arg `"@ + n + "` is fully shadowed by `"@ + fun_name + "()` arg `"@ + n + "`"@,
            ),
        ]
    } else if has_name_ref(fun_args, n, false) {
        seq![
            (
                IssueKind::PartiallyShadowedArgument,
                loc,
                "instance arg `"@ + n + "` is partially shadowed by "@ + fun_name + "() arg `"@ + n
                    + "`"@,
            ),
        ]
    } else {
        Seq::empty()
    } + match local {
        Some(l) => if has_name_ci(l, n) {
            seq![
                (
                    IssueKind::PartiallyShadowedArgument,
                    loc,
                    "instance arg `"@ + n + "` is partially shadowed by local arg `"@ + n + "`"@,
                ),
            ]
        } else {
            Seq::empty()
        },
        None => Seq::empty(),
    }
}

/// A global argument hidden by the `this` keyword, by a function argument of the same
/// name (ignoring case; fully when the global argument is not a reference, partially
/// when both are), by an instance argument, or (when it is not a reference) by a local
/// argument of the same name.
pub open spec fn global_arg_issues(
    g: Arg,
    fun_args: Seq<Arg>,
    local: Option<Seq<Arg>>,
    instance: Option<Seq<Arg>>,
    fun_name: Seq<char>,
) -> Seq<IssueSpec> {
    let n = g.name@;
    let loc = arg_loc(g);
    this_keyword_issues(n, loc, ModifierKind::Global) + if !g.is_ref && has_name_ci(fun_args, n) {
        seq![
            (
                IssueKind::FullyShadowedArgument,
                loc,
                "global arg `"@ + n + "` is fully shadowed by `"@ + fun_name + "()` arg `"@ + n + "`"@,
            ),
        ]
    } else if g.is_ref && has_ref_ci(fun_args, n) {
        seq![
            (
                IssueKind::PartiallyShadowedArgument,
                loc,
                "global arg `"@ + n + "` is partially shadowed by `"@ + fun_name + "()` arg "@ + n,
            ),
        ]
    } else {
        Seq::empty()
    } + match instance {
        Some(ia) => if has_name_ci(ia, n) {
            seq![
                (
                    IssueKind::FullyShadowedArgument,
                    loc,
                    "global arg `"@ + n + "` is fully shadowed by instance arg `"@ + n + "`"@,
                ),
            ]
        } else {
            Seq::empty()
        },
        None => Seq::empty(),
    } + if !g.is_ref {
        match local {
            Some(l) => if has_name_ci(l, n) {
                seq![
                    (
                        IssueKind::FullyShadowedArgument,
                        loc,
                        "global arg `"@ + n + "` is fully shadowed by local arg `"@ + n + "`"@,
                    ),
                ]
            } else {
                Seq::empty()
            },
            None => Seq::empty(),
        }
    } else {
        Seq::empty()
    }
}

/// `this_arg_issues` of each argument of `args`, in order.
pub open spec fn this_fold(args: Seq<Arg>, n: Seq<char>) -> Seq<IssueSpec>
    decreases args.len(),
{
    if args.len() == 0 {
        Seq::empty()
    } else {
        this_fold(args.drop_last(), n) + this_arg_issues(args.last(), n)
    }
}

/// `local_arg_issues` of each argument of `args`, in order.
pub open spec fn local_fold(args: Seq<Arg>, fa: Seq<Arg>, n: Seq<char>) -> Seq<IssueSpec>
    decreases args.len(),
{
    if args.len() == 0 {
        Seq::empty()
    } else {
        local_fold(args.drop_last(), fa, n) + local_arg_issues(args.last(), fa, n)
    }
}

/// `instance_arg_issues` of each argument of `args`, in order.
pub open spec fn instance_fold(args: Seq<Arg>, fa: Seq<Arg>, local: Option<Seq<Arg>>, n: Seq<char>) -> Seq<IssueSpec>
    decreases args.len(),
{
    if args.len() == 0 {
        Seq::empty()
    } else {
        instance_fold(args.drop_last(), fa, local, n) + instance_arg_issues(args.last(), fa, local, n)
    }
}

/// `global_arg_issues` of each argument of `args`, in order.
pub open spec fn global_fold(
    args: Seq<Arg>,
    fa: Seq<Arg>,
    local: Option<Seq<Arg>>,
    instance: Option<Seq<Arg>>,
    n: Seq<char>,
) -> Seq<IssueSpec>
    decreases args.len(),
{
    if args.len() == 0 {
        Seq::empty()
    } else {
        global_fold(args.drop_last(), fa, local, instance, n) + global_arg_issues(args.last(), fa, local, instance, n)
    }
}

/// What the lint reports for one function definition: its arguments hidden by `this`,
/// then its local, instance and global arguments that something hides.
pub open spec fn fun_issues(f: Fun) -> Seq<IssueSpec> {
    let fa = f.args@;
    let n = f.name@;
    let local = opt_flat(f.modifiers.local);
    let instance = opt_flat(f.modifiers.instance);
    this_fold(fa, n) + match local {
        Some(l) => local_fold(l, fa, n),
        None => Seq::empty(),
    } + match instance {
        Some(ia) => instance_fold(ia, fa, local, n),
        None => Seq::empty(),
    } + match opt_flat(f.modifiers.global) {
        Some(ga) => global_fold(ga, fa, local, instance, n),
        None => Seq::empty(),
    }
}

/// What the lint reports for the function definitions `fs`, in order.
pub open spec fn defs_issues(fs: Seq<Fun>) -> Seq<IssueSpec>
    decreases fs.len(),
{
    if fs.len() == 0 {
        Seq::empty()
    } else {
        defs_issues(fs.drop_last()) + fun_issues(fs.last())
    }
}

/// What the lint reports for the sections `ss`, in order.
pub open spec fn sections_issues(ss: Seq<Section>) -> Seq<IssueSpec>
    decreases ss.len(),
{
    if ss.len() == 0 {
        Seq::empty()
    } else {
        sections_issues(ss.drop_last()) + defs_issues(ss.last().fun_defs@)
    }
}

/// What the lint reports on `program`.
pub open spec fn shadowed_args_issues(program: Program) -> Seq<IssueSpec> {
    sections_issues(program.sections@)
}

pub fn arg_refs(args: &Vec<Arg>) -> (r: Vec<&Arg>)
    ensures
        deref_args(r@) == args@,
{
    let mut out: Vec<&Arg> = Vec::new();
    let mut i: usize = 0;
    while i < args.len()
        invariant
            i <= args@.len(),
            deref_args(out@) == args@.take(i as int),
        decreases args@.len() - i,
    {
        let ghost prev = out@;
        out.push(&args[i]);
        assert(deref_args(out@) =~= deref_args(prev).push(args@[i as int]));
        assert(args@.take(i + 1) =~= args@.take(i as int).push(args@[i as int]));
        i += 1;
    }
    assert(args@.take(i as int) =~= args@);
    out
}

fn has_name_exec(args: &Vec<&Arg>, name: &str) -> (r: bool)
    ensures
        r == has_name(deref_args(args@), name@),
{
    let mut i: usize = 0;
    while i < args.len()
        invariant
            i <= args@.len(),
            forall|k: int| 0 <= k < i ==> (#[trigger] deref_args(args@)[k]).name@ != name@,
        decreases args@.len() - i,
    {
        if str_eq(args[i].name.as_str(), name) {
            assert(deref_args(args@)[i as int].name@ == name@);
            return true;
        }
        i += 1;
    }
    false
}

fn has_name_ref_exec(args: &Vec<&Arg>, name: &str, is_ref: bool) -> (r: bool)
    ensures
        r == has_name_ref(deref_args(args@), name@, is_ref),
{
    let mut i: usize = 0;
    while i < args.len()
        invariant
            i <= args@.len(),
            forall|k: int| 0 <= k < i ==> !((#[trigger] deref_args(args@)[k]).name@ == name@ && deref_args(args@)[k].is_ref == is_ref),
        decreases args@.len() - i,
    {
        if str_eq(args[i].name.as_str(), name) && args[i].is_ref == is_ref {
            assert(deref_args(args@)[i as int].name@ == name@);
            return true;
        }
        i += 1;
    }
    false
}

fn has_name_ci_exec(args: &Vec<&Arg>, name: &str) -> (r: bool)
    ensures
        r == has_name_ci(deref_args(args@), name@),
{
    let mut i: usize = 0;
    while i < args.len()
        invariant
            i <= args@.len(),
            forall|k: int| 0 <= k < i ==> lower((#[trigger] deref_args(args@)[k]).name@) != lower(name@),
        decreases args@.len() - i,
    {
        if eq_ignore_case(args[i].name.as_str(), name) {
            assert(lower(deref_args(args@)[i as int].name@) == lower(name@));
            return true;
        }
        i += 1;
    }
    false
}

fn has_ref_ci_exec(args: &Vec<&Arg>, name: &str) -> (r: bool)
    ensures
        r == has_ref_ci(deref_args(args@), name@),
{
    let mut i: usize = 0;
    while i < args.len()
        invariant
            i <= args@.len(),
            forall|k: int| 0 <= k < i ==> !((#[trigger] deref_args(args@)[k]).is_ref && lower(deref_args(args@)[k].name@) == lower(name@)),
        decreases args@.len() - i,
    {
        if args[i].is_ref && eq_ignore_case(args[i].name.as_str(), name) {
            assert(deref_args(args@)[i as int].is_ref);
            return true;
        }
        i += 1;
    }
    false
}

/// Whether `name` is hidden by the `this` keyword (see `is_this_name`).
fn is_this_name_exec(name: &str) -> (r: bool)
    ensures
        r == is_this_name(name@),
{
    proof {
        reveal_strlit("this.");
    }
    eq_ignore_case(name, "this") || starts_with_ignore_case(name, "this.")
}

/// Five pieces of text, one after the other.
fn join5(a: &str, b: &str, c: &str, d: &str, e: &str) -> (r: String)
    ensures
        r@ == a@ + b@ + c@ + d@ + e@,
{
    let mut r = String::from_str(a);
    r.append(b);
    r.append(c);
    r.append(d);
    r.append(e);
    r
}

/// Seven pieces of text, one after the other.
fn join7(a: &str, b: &str, c: &str, d: &str, e: &str, f: &str, g: &str) -> (r: String)
    ensures
        r@ == a@ + b@ + c@ + d@ + e@ + f@ + g@,
{
    let mut r = join5(a, b, c, d, e);
    r.append(f);
    r.append(g);
    r
}

/// Reports that the `this` keyword hides the modifier argument `name` of `mod_kind`.
pub fn warn_mod_arg_shadowed_by_this_keyword(
    name: &str,
    issues: &mut IssueTracker,
    location: &Location,
    mod_kind: &ModifierKind,
)
    requires
        old(issues).wf(),
        old(issues).registers(IssueKind::FullyShadowedArgument),
    ensures
        final(issues).extends(old(issues), this_keyword_issues(name@, *location, *mod_kind)),
{
    if is_this_name_exec(name) {
        let text = join5("", mod_kind.name(), " arg `", name, "` is fully shadowed by the `this` keyword");
        proof {
            reveal_strlit("");
            assert(text@ =~= modifier_name(*mod_kind) + " arg `"@ + name@ + "` is fully shadowed by the `this` keyword"@);
        }
        issues.add(IssueKind::FullyShadowedArgument, location, text);
    } else {
        proof {
            lemma_extends_refl(*issues);
        }
    }
}


/// Reports the function arguments that the `this` keyword hides.
fn warn_this_args(fun_args: &Vec<&Arg>, fn_name: &str, issues: &mut IssueTracker)
    requires
        old(issues).wf(),
        old(issues).registers(IssueKind::FullyShadowedArgument),
        all_located(deref_args(fun_args@)),
    ensures
        final(issues).extends(old(issues), this_fold(deref_args(fun_args@), fn_name@)),
{
    let ghost a = deref_args(fun_args@);
    let ghost n = fn_name@;
    proof {
        lemma_extends_refl(*old(issues));
        assert(a.take(0) =~= Seq::<Arg>::empty());
    }
    let mut i: usize = 0;
    while i < fun_args.len()
        invariant
            i <= fun_args@.len(),
            a == deref_args(fun_args@),
            n == fn_name@,
            all_located(a),
            old(issues).wf(),
            old(issues).registers(IssueKind::FullyShadowedArgument),
            issues.extends(old(issues), this_fold(a.take(i as int), n)),
        decreases fun_args@.len() - i,
    {
        let arg = fun_args[i];
        proof {
            assert(a.take(i + 1).drop_last() =~= a.take(i as int));
            assert(a[i as int] == *arg);
        }
        let ghost mid = *issues;
        if is_this_name_exec(arg.name.as_str()) {
            let loc = arg.location.unwrap();
            let text = join5("`", fn_name, "()` arg `", arg.name.as_str(), "` is fully shadowed by the `this` keyword");
            assert(loc == arg_loc(*arg));
            assert(seq![(IssueKind::FullyShadowedArgument, loc, text@)] == this_arg_issues(*arg, n));
            issues.add(IssueKind::FullyShadowedArgument, &loc, text);
            proof {
                lemma_extends_trans(*old(issues), mid, *issues, this_fold(a.take(i as int), n), this_arg_issues(*arg, n));
            }
        } else {
            proof {
                lemma_extends_refl(mid);
                lemma_extends_trans(*old(issues), mid, *issues, this_fold(a.take(i as int), n), this_arg_issues(*arg, n));
            }
        }
        i += 1;
    }
    proof {
        assert(a.take(i as int) =~= a);
    }
}

/// Reports the local arguments that the `this` keyword or a function argument hides.
fn warn_shadowed_local_args(
    local_args: &Vec<&Arg>,
    fun_args: &Vec<&Arg>,
    fn_name: &str,
    issues: &mut IssueTracker,
)
    requires
        old(issues).wf(),
        old(issues).registers(IssueKind::FullyShadowedArgument),
        all_located(deref_args(local_args@)),
    ensures
        final(issues).extends(
            old(issues),
            local_fold(deref_args(local_args@), deref_args(fun_args@), fn_name@),
        ),
{
    let ghost a = deref_args(local_args@);
    let ghost fa = deref_args(fun_args@);
    let ghost n = fn_name@;
    proof {
        lemma_extends_refl(*old(issues));
        assert(a.take(0) =~= Seq::<Arg>::empty());
    }
    let mut i: usize = 0;
    while i < local_args.len()
        invariant
            i <= local_args@.len(),
            a == deref_args(local_args@),
            fa == deref_args(fun_args@),
            n == fn_name@,
            all_located(a),
            old(issues).wf(),
            old(issues).registers(IssueKind::FullyShadowedArgument),
            issues.extends(old(issues), local_fold(a.take(i as int), fa, n)),
        decreases local_args@.len() - i,
    {
        let arg = local_args[i];
        proof {
            assert(a.take(i + 1).drop_last() =~= a.take(i as int));
            assert(a[i as int] == *arg);
        }
        let ghost mid = *issues;
        let loc = arg.location.unwrap();
        warn_mod_arg_shadowed_by_this_keyword(arg.name.as_str(), issues, &loc, &ModifierKind::Local);
        let ghost mid2 = *issues;
        proof {
            lemma_extends_trans(*old(issues), mid, mid2, local_fold(a.take(i as int), fa, n), this_keyword_issues(arg.name@, loc, ModifierKind::Local));
        }
        let ghost acc = local_fold(a.take(i as int), fa, n) + this_keyword_issues(arg.name@, loc, ModifierKind::Local);
        if has_name_exec(fun_args, arg.name.as_str()) {
            let text = join7("local arg ", arg.name.as_str(), " is fully shadowed by `", fn_name, "()` arg `", arg.name.as_str(), "`");
            let ghost x = seq![(IssueKind::FullyShadowedArgument, loc, text@)];
            assert(loc == arg_loc(*arg));
            assert(local_fold(a.take(i + 1), fa, n) == local_fold(a.take(i as int), fa, n) + local_arg_issues(*arg, fa, n));
            assert(local_arg_issues(*arg, fa, n) == this_keyword_issues(arg.name@, loc, ModifierKind::Local) + x);
            issues.add(IssueKind::FullyShadowedArgument, &loc, text);
            proof {
                lemma_extends_trans(*old(issues), mid2, *issues, acc, x);
                assert(acc + x =~= local_fold(a.take(i + 1), fa, n));
            }
        } else {
            proof {
                lemma_extends_refl(mid2);
                lemma_extends_trans(*old(issues), mid2, *issues, acc, Seq::empty());
                assert(acc + Seq::<IssueSpec>::empty() =~= local_fold(a.take(i + 1), fa, n));
            }
        }
        i += 1;
    }
    proof {
        assert(a.take(i as int) =~= a);
    }
}


/// The arguments that an optional list of references points to.
pub open spec fn opt_deref(v: Option<&Vec<&Arg>>) -> Option<Seq<Arg>> {
    match v {
        Some(x) => Some(deref_args(x@)),
        None => None,
    }
}

/// Reports an issue of `kind` at `location` with `text` when `cond` holds.
fn report_if(issues: &mut IssueTracker, cond: bool, kind: IssueKind, location: &Location, text: String)
    requires
        old(issues).wf(),
        old(issues).registers(kind),
    ensures
        final(issues).extends(
            old(issues),
            if cond {
                seq![(kind, *location, text@)]
            } else {
                Seq::empty()
            },
        ),
{
    if cond {
        issues.add(kind, location, text);
    } else {
        proof {
            lemma_extends_refl(*issues);
        }
    }
}

/// Reports the instance arguments that the `this` keyword, a function argument or a
/// local argument hides.
fn warn_shadowed_instance_args(
    instance_args: &Vec<&Arg>,
    fun_args: &Vec<&Arg>,
    local_args: Option<&Vec<&Arg>>,
    fn_name: &str,
    issues: &mut IssueTracker,
)
    requires
        old(issues).wf(),
        old(issues).registers(IssueKind::FullyShadowedArgument),
        old(issues).registers(IssueKind::PartiallyShadowedArgument),
        all_located(deref_args(instance_args@)),
    ensures
        final(issues).extends(
            old(issues),
            instance_fold(deref_args(instance_args@), deref_args(fun_args@), opt_deref(local_args), fn_name@),
        ),
{
    let ghost a = deref_args(instance_args@);
    let ghost fa = deref_args(fun_args@);
    let ghost la = opt_deref(local_args);
    let ghost n = fn_name@;
    proof {
        lemma_extends_refl(*old(issues));
        assert(a.take(0) =~= Seq::<Arg>::empty());
    }
    let mut i: usize = 0;
    while i < instance_args.len()
        invariant
            i <= instance_args@.len(),
            a == deref_args(instance_args@),
            fa == deref_args(fun_args@),
            la == opt_deref(local_args),
            n == fn_name@,
            all_located(a),
            old(issues).wf(),
            old(issues).registers(IssueKind::FullyShadowedArgument),
            old(issues).registers(IssueKind::PartiallyShadowedArgument),
            issues.extends(old(issues), instance_fold(a.take(i as int), fa, la, n)),
        decreases instance_args@.len() - i,
    {
        let arg = instance_args[i];
        let name = arg.name.as_str();
        proof {
            assert(a.take(i + 1).drop_last() =~= a.take(i as int));
            assert(a[i as int] == *arg);
        }
        let ghost acc = instance_fold(a.take(i as int), fa, la, n);
        let loc = arg.location.unwrap();
        let ghost m0 = *issues;
        warn_mod_arg_shadowed_by_this_keyword(name, issues, &loc, &ModifierKind::Instance);
        let ghost m1 = *issues;
        let ghost t = this_keyword_issues(arg.name@, loc, ModifierKind::Instance);
        let full = has_name_ref_exec(fun_args, name, true);
        let part = !full && has_name_ref_exec(fun_args, name, false);
        let full_text = join7("instance arg `", name, "` is fully shadowed by `", fn_name, "()` arg `", name, "`");
        let ghost f = if full { seq![(IssueKind::FullyShadowedArgument, loc, full_text@)] } else { Seq::<IssueSpec>::empty() };
        report_if(issues, full, IssueKind::FullyShadowedArgument, &loc, full_text);
        let ghost m2 = *issues;
        let part_text = join7("instance arg `", name, "` is partially shadowed by ", fn_name, "() arg `", name, "`");
        let ghost p = if part { seq![(IssueKind::PartiallyShadowedArgument, loc, part_text@)] } else { Seq::<IssueSpec>::empty() };
        report_if(issues, part, IssueKind::PartiallyShadowedArgument, &loc, part_text);
        let ghost m3 = *issues;
        let by_local = match local_args {
            Some(l) => has_name_ci_exec(l, name),
            None => false,
        };
        let local_text = join5("instance arg `", name, "` is partially shadowed by local arg `", name, "`");
        let ghost q = if by_local { seq![(IssueKind::PartiallyShadowedArgument, loc, local_text@)] } else { Seq::<IssueSpec>::empty() };
        report_if(issues, by_local, IssueKind::PartiallyShadowedArgument, &loc, local_text);
        proof {
            lemma_extends_trans(*old(issues), m0, m1, acc, t);
            lemma_extends_trans(*old(issues), m1, m2, acc + t, f);
            lemma_extends_trans(*old(issues), m2, m3, acc + t + f, p);
            lemma_extends_trans(*old(issues), m3, *issues, acc + t + f + p, q);
            assert(loc == arg_loc(*arg));
            assert(instance_fold(a.take(i + 1), fa, la, n) == acc + instance_arg_issues(*arg, fa, la, n));
            assert(acc + t + f + p + q =~= acc + instance_arg_issues(*arg, fa, la, n));
        }
        i += 1;
    }
    proof {
        assert(a.take(i as int) =~= a);
    }
}

/// Reports the global arguments that the `this` keyword, a function argument, an
/// instance argument or a local argument hides.
fn warn_shadowed_global_args(
    global_args: &Vec<&Arg>,
    fun_args: &Vec<&Arg>,
    local_args: Option<&Vec<&Arg>>,
    instance_args: Option<&Vec<&Arg>>,
    fn_name: &str,
    issues: &mut IssueTracker,
)
    requires
        old(issues).wf(),
        old(issues).registers(IssueKind::FullyShadowedArgument),
        old(issues).registers(IssueKind::PartiallyShadowedArgument),
        all_located(deref_args(global_args@)),
    ensures
        final(issues).extends(
            old(issues),
            global_fold(
                deref_args(global_args@),
                deref_args(fun_args@),
                opt_deref(local_args),
                opt_deref(instance_args),
                fn_name@,
            ),
        ),
{
    // Is Y shadowed by X ?
    //               |  fun(arg)  |    fun(arg*)   | local(arg) | instance(arg)
    // global(arg)   :   Fully    |      Fully     |    Fully   |    Fully
    // global(arg*)  :     No     |   Partially    |     No     |    Fully
    let ghost a = deref_args(global_args@);
    let ghost fa = deref_args(fun_args@);
    let ghost la = opt_deref(local_args);
    let ghost ia = opt_deref(instance_args);
    let ghost n = fn_name@;
    proof {
        lemma_extends_refl(*old(issues));
        assert(a.take(0) =~= Seq::<Arg>::empty());
    }
    let mut i: usize = 0;
    while i < global_args.len()
        invariant
            i <= global_args@.len(),
            a == deref_args(global_args@),
            fa == deref_args(fun_args@),
            la == opt_deref(local_args),
            ia == opt_deref(instance_args),
            n == fn_name@,
            all_located(a),
            old(issues).wf(),
            old(issues).registers(IssueKind::FullyShadowedArgument),
            old(issues).registers(IssueKind::PartiallyShadowedArgument),
            issues.extends(old(issues), global_fold(a.take(i as int), fa, la, ia, n)),
        decreases global_args@.len() - i,
    {
        let arg = global_args[i];
        let name = arg.name.as_str();
        proof {
            assert(a.take(i + 1).drop_last() =~= a.take(i as int));
            assert(a[i as int] == *arg);
        }
        let ghost acc = global_fold(a.take(i as int), fa, la, ia, n);
        let loc = arg.location.unwrap();
        let ghost m0 = *issues;
        warn_mod_arg_shadowed_by_this_keyword(name, issues, &loc, &ModifierKind::Global);
        let ghost m1 = *issues;
        let ghost t = this_keyword_issues(arg.name@, loc, ModifierKind::Global);
        let full = !arg.is_ref && has_name_ci_exec(fun_args, name);
        let part = !full && arg.is_ref && has_ref_ci_exec(fun_args, name);
        let full_text = join7("global arg `", name, "` is fully shadowed by `", fn_name, "()` arg `", name, "`");
        let ghost f = if full { seq![(IssueKind::FullyShadowedArgument, loc, full_text@)] } else { Seq::<IssueSpec>::empty() };
        report_if(issues, full, IssueKind::FullyShadowedArgument, &loc, full_text);
        let ghost m2 = *issues;
        let part_text = join5("global arg `", name, "` is partially shadowed by `", fn_name, "()` arg ");
        let mut part_text = part_text;
        part_text.append(name);
        let ghost p = if part { seq![(IssueKind::PartiallyShadowedArgument, loc, part_text@)] } else { Seq::<IssueSpec>::empty() };
        report_if(issues, part, IssueKind::PartiallyShadowedArgument, &loc, part_text);
        let ghost m3 = *issues;
        let by_instance = match instance_args {
            Some(l) => has_name_ci_exec(l, name),
            None => false,
        };
        let instance_text = join5("global arg `", name, "` is fully shadowed by instance arg `", name, "`");
        let ghost q = if by_instance { seq![(IssueKind::FullyShadowedArgument, loc, instance_text@)] } else { Seq::<IssueSpec>::empty() };
        report_if(issues, by_instance, IssueKind::FullyShadowedArgument, &loc, instance_text);
        let ghost m4 = *issues;
        let by_local = !arg.is_ref && match local_args {
            Some(l) => has_name_ci_exec(l, name),
            None => false,
        };
        let local_text = join5("global arg `", name, "` is fully shadowed by local arg `", name, "`");
        let ghost w = if by_local { seq![(IssueKind::FullyShadowedArgument, loc, local_text@)] } else { Seq::<IssueSpec>::empty() };
        report_if(issues, by_local, IssueKind::FullyShadowedArgument, &loc, local_text);
        proof {
            lemma_extends_trans(*old(issues), m0, m1, acc, t);
            lemma_extends_trans(*old(issues), m1, m2, acc + t, f);
            lemma_extends_trans(*old(issues), m2, m3, acc + t + f, p);
            lemma_extends_trans(*old(issues), m3, m4, acc + t + f + p, q);
            lemma_extends_trans(*old(issues), m4, *issues, acc + t + f + p + q, w);
            assert(loc == arg_loc(*arg));
            assert(global_fold(a.take(i + 1), fa, la, ia, n) == acc + global_arg_issues(*arg, fa, la, ia, n));
            assert(acc + t + f + p + q + w =~= acc + global_arg_issues(*arg, fa, la, ia, n));
        }
        i += 1;
    }
    proof {
        assert(a.take(i as int) =~= a);
    }
}


/// The arguments of the modifiers of `kind` of a function, if any occurs.
fn kind_args(f: &Fun, kind: ModifierKind) -> (r: Option<Vec<&Arg>>)
    ensures
        match r {
            Some(v) => opt_flat(f.modifiers.spec_get(kind)) == Some(deref_args(v@)),
            None => opt_flat(f.modifiers.spec_get(kind)) is None,
        },
{
    match f.modifiers.get(&kind) {
        Some(m) => Some(collect_flat_args(m)),
        None => None,
    }
}

/// Reports what the lint finds in one function definition.
fn warn_fun(fun_def: &Fun, issues: &mut IssueTracker)
    requires
        old(issues).wf(),
        old(issues).registers(IssueKind::FullyShadowedArgument),
        old(issues).registers(IssueKind::PartiallyShadowedArgument),
        fun_located(*fun_def),
    ensures
        final(issues).extends(old(issues), fun_issues(*fun_def)),
{
    let fa = arg_refs(&fun_def.args);
    let name = fun_def.name.as_str();
    let local = kind_args(fun_def, ModifierKind::Local);
    let instance = kind_args(fun_def, ModifierKind::Instance);
    let global = kind_args(fun_def, ModifierKind::Global);
    let ghost n = fun_def.name@;
    let ghost fav = fun_def.args@;
    let ghost la = opt_flat(fun_def.modifiers.local);
    let ghost ia = opt_flat(fun_def.modifiers.instance);
    let ghost m0 = *issues;
    warn_this_args(&fa, name, issues);
    let ghost m1 = *issues;
    let ghost s1 = this_fold(fav, n);
    let ghost s2 = match la {
        Some(l) => local_fold(l, fav, n),
        None => Seq::<IssueSpec>::empty(),
    };
    match &local {
        Some(l) => {
            warn_shadowed_local_args(l, &fa, name, issues);
        },
        None => {
            proof {
                lemma_extends_refl(*issues);
            }
        },
    }
    let ghost m2 = *issues;
    let ghost s3 = match ia {
        Some(l) => instance_fold(l, fav, la, n),
        None => Seq::<IssueSpec>::empty(),
    };
    match &instance {
        Some(l) => {
            warn_shadowed_instance_args(l, &fa, local.as_ref(), name, issues);
        },
        None => {
            proof {
                lemma_extends_refl(*issues);
            }
        },
    }
    let ghost m3 = *issues;
    let ghost s4 = match opt_flat(fun_def.modifiers.global) {
        Some(l) => global_fold(l, fav, la, ia, n),
        None => Seq::<IssueSpec>::empty(),
    };
    match &global {
        Some(l) => {
            warn_shadowed_global_args(l, &fa, local.as_ref(), instance.as_ref(), name, issues);
        },
        None => {
            proof {
                lemma_extends_refl(*issues);
            }
        },
    }
    proof {
        lemma_extends_trans(m0, m1, m2, s1, s2);
        lemma_extends_trans(m0, m2, m3, s1 + s2, s3);
        lemma_extends_trans(m0, m3, *issues, s1 + s2 + s3, s4);
    }
}

/// Warns about the arguments of function definitions that something else hides: the
/// `this` keyword, or an argument of the same name in the function's arguments or
/// another of its modifiers.
pub fn lint(program: &Program, issues: &mut IssueTracker)
    requires
        old(issues).wf(),
        old(issues).registers(IssueKind::FullyShadowedArgument),
        old(issues).registers(IssueKind::PartiallyShadowedArgument),
        defs_located(*program),
    ensures
        final(issues).extends(old(issues), shadowed_args_issues(*program)),
{
    let ss = &program.sections;
    proof {
        lemma_extends_refl(*old(issues));
        assert(ss@.take(0) =~= Seq::<Section>::empty());
    }
    let mut i: usize = 0;
    while i < ss.len()
        invariant
            i <= ss@.len(),
            ss@ == program.sections@,
            defs_located(*program),
            old(issues).wf(),
            old(issues).registers(IssueKind::FullyShadowedArgument),
            old(issues).registers(IssueKind::PartiallyShadowedArgument),
            issues.extends(old(issues), sections_issues(ss@.take(i as int))),
        decreases ss@.len() - i,
    {
        let defs = &ss[i].fun_defs;
        let ghost before = sections_issues(ss@.take(i as int));
        proof {
            assert(ss@.take(i + 1).drop_last() =~= ss@.take(i as int));
            assert(defs@.take(0) =~= Seq::<Fun>::empty());
            lemma_extends_refl(*issues);
            assert(before + defs_issues(defs@.take(0)) =~= before);
        }
        let mut j: usize = 0;
        while j < defs.len()
            invariant
                j <= defs@.len(),
                i < ss@.len(),
                defs@ == ss@[i as int].fun_defs@,
                ss@ == program.sections@,
                defs_located(*program),
                old(issues).wf(),
                old(issues).registers(IssueKind::FullyShadowedArgument),
                old(issues).registers(IssueKind::PartiallyShadowedArgument),
                issues.extends(old(issues), before + defs_issues(defs@.take(j as int))),
            decreases defs@.len() - j,
        {
            let ghost m = *issues;
            proof {
                assert(defs_located_at(*program, i as int, j as int));
                assert(defs@.take(j + 1).drop_last() =~= defs@.take(j as int));
            }
            warn_fun(&defs[j], issues);
            proof {
                lemma_extends_trans(*old(issues), m, *issues, before + defs_issues(defs@.take(j as int)), fun_issues(defs@[j as int]));
                assert(before + defs_issues(defs@.take(j as int)) + fun_issues(defs@[j as int]) =~= before + defs_issues(defs@.take(j + 1)));
            }
            j += 1;
        }
        proof {
            assert(defs@.take(j as int) =~= defs@);
        }
        i += 1;
    }
    proof {
        assert(ss@.take(i as int) =~= ss@);
    }
}

} // verus!
