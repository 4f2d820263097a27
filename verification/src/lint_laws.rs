use vstd::prelude::*;

use crate::access::origin_uuid;
use crate::issue::IssueSpec;
use crate::issue_kind::IssueKind;
use crate::lints::unused_variable::{unused_variable_issues, var_issues, vars_issues};
use crate::program::{bound_slider, Meta, Program, Variable};
use crate::variables::{builtin_of, BuiltinVar};

verus! {

/// Whether none of the issues `s` is of kind `k`.
pub open spec fn none_of_kind(s: Seq<IssueSpec>, k: IssueKind) -> bool {
    forall|j: int| 0 <= j < s.len() ==> (#[trigger] s[j]).0 != k
}

/// Whether one of the accesses of `v` writes it, for certain or only potentially.
pub open spec fn has_write(v: Variable) -> bool {
    exists|k: int| 0 <= k < v.accesses@.len() && (#[trigger] v.accesses@[k]).info.kind is Write
}

/// A global variable that one of its accesses writes, for certain or only potentially (in
/// a branch of a condition), is never reported as never written.
pub proof fn law_written_variable_not_reported_unwritten(
    metas: Seq<Meta>,
    builtins: Seq<BuiltinVar>,
    v: Variable,
    k: int,
)
    requires
        0 <= k < v.accesses@.len(),
        v.accesses@[k].info.kind is Write,
    ensures
        none_of_kind(var_issues(metas, builtins, v), IssueKind::GlobalNeverWritten),
{
    assert(v.accesses@[k].info.kind is Write);
    let s = var_issues(metas, builtins, v);
    assert forall|j: int| 0 <= j < s.len() implies (#[trigger] s[j]).0 != IssueKind::GlobalNeverWritten by {}
}

proof fn lemma_vars_none_unwritten(metas: Seq<Meta>, builtins: Seq<BuiltinVar>, vs: Seq<Variable>)
    requires
        forall|i: int| 0 <= i < vs.len() ==> has_write(#[trigger] vs[i]),
    ensures
        none_of_kind(vars_issues(metas, builtins, vs), IssueKind::GlobalNeverWritten),
    decreases vs.len(),
{
    if vs.len() > 0 {
        let u = vs.drop_last();
        assert forall|i: int| 0 <= i < u.len() implies has_write(#[trigger] u[i]) by {
            assert(u[i] == vs[i]);
        }
        lemma_vars_none_unwritten(metas, builtins, u);
        let v = vs.last();
        assert(v == vs[vs.len() - 1]);
        assert(has_write(v));
        let k = choose|k: int| 0 <= k < v.accesses@.len() && (#[trigger] v.accesses@[k]).info.kind is Write;
        law_written_variable_not_reported_unwritten(metas, builtins, v, k);
        let a = vars_issues(metas, builtins, u);
        let b = var_issues(metas, builtins, v);
        assert(vars_issues(metas, builtins, vs) == a + b);
        assert forall|j: int| 0 <= j < (a + b).len() implies (#[trigger] (a + b)[j]).0 != IssueKind::GlobalNeverWritten by {
            if j < a.len() {
                assert((a + b)[j] == a[j]);
            } else {
                assert((a + b)[j] == b[j - a.len()]);
            }
        }
    }
}

/// When every global variable of a program is written somewhere, for certain or only
/// potentially, the unused-variable lint reports none of them as never written.
pub proof fn law_written_program_has_no_unwritten_issue(program: Program, builtins: Seq<BuiltinVar>)
    requires
        forall|i: int| 0 <= i < program.scope.variables@.len() ==> has_write(#[trigger] program.scope.variables@[i]),
    ensures
        none_of_kind(unused_variable_issues(program, builtins), IssueKind::GlobalNeverWritten),
{
    lemma_vars_none_unwritten(program.metas@, builtins, program.scope.variables@);
}

/// A global variable that one of its accesses reads is never reported as never read.
pub proof fn law_read_variable_not_reported_unread(metas: Seq<Meta>, builtins: Seq<BuiltinVar>, v: Variable, k: int)
    requires
        0 <= k < v.accesses@.len(),
        v.accesses@[k].info.kind is Read,
    ensures
        none_of_kind(var_issues(metas, builtins, v), IssueKind::GlobalNeverRead),
{
    assert(v.accesses@[k].info.kind is Read);
    let s = var_issues(metas, builtins, v);
    assert forall|j: int| 0 <= j < s.len() implies (#[trigger] s[j]).0 != IssueKind::GlobalNeverRead by {}
}

/// A global variable of the program's own, accessed directly, that is read but that no
/// access writes, even potentially, is reported once: never written and always 0, at its
/// first access.
pub proof fn law_read_only_variable_reported_unwritten(
    metas: Seq<Meta>,
    builtins: Seq<BuiltinVar>,
    v: Variable,
    r: int,
)
    requires
        0 <= r < v.accesses@.len(),
        v.accesses@[r].info.kind is Read,
        forall|k: int| 0 <= k < v.accesses@.len() ==> !((#[trigger] v.accesses@[k]).info.kind is Write),
        forall|k: int| 0 <= k < v.accesses@.len() ==> (#[trigger] origin_uuid(v.accesses@[k].origin)) is None,
        v.name@ != "_"@,
        v.name@ != "#"@,
        bound_slider(metas, v.name@) is None,
        builtin_of(metas, builtins, v.name@) is None,
    ensures
        var_issues(metas, builtins, v) == seq![
            (
                IssueKind::GlobalNeverWritten,
                v.accesses@[0].info.location,
                "`"@ + v.name@ + "` is never assigned to and is always 0"@,
            ),
        ],
{
    assert(v.accesses@[r].info.kind is Read);
    assert(!(exists|k: int| 0 <= k < v.accesses@.len() && (#[trigger] origin_uuid(v.accesses@[k].origin)) is Some));
    assert(!(exists|k: int| 0 <= k < v.accesses@.len() && (#[trigger] v.accesses@[k]).info.kind is Write));
    let e = Seq::<IssueSpec>::empty();
    assert(e + seq![
        (
            IssueKind::GlobalNeverWritten,
            v.accesses@[0].info.location,
            "`"@ + v.name@ + "` is never assigned to and is always 0"@,
        ),
    ] =~= seq![
        (
            IssueKind::GlobalNeverWritten,
            v.accesses@[0].info.location,
            "`"@ + v.name@ + "` is never assigned to and is always 0"@,
        ),
    ]);
}

} // verus!

verus! {

use crate::ast::{children, lemma_children_smaller, lemma_size_positive, walk, walk_list, Ast, LocatedAst, SpecSignal};

/// Whether `m` is among the trees of the optional box `o`.
pub open spec fn in_opt_box(o: Option<Box<LocatedAst>>, m: LocatedAst) -> bool {
    o matches Some(b) && *b == m
}

/// Whether `m` is among the trees of the optional vector `o`.
pub open spec fn in_opt_vec(o: Option<Vec<LocatedAst>>, m: LocatedAst) -> bool {
    o matches Some(v) && v@.contains(m)
}

/// Whether `m` is one of the trees that the node `n` is directly made of: any field of `n`
/// that holds a tree, the commas of a function definition aside.
pub open spec fn is_part(n: LocatedAst, m: LocatedAst) -> bool {
    match n.ast {
        Ast::Program(e) => m == *e,
        Ast::Fun { identifier, modifiers, body, args, .. } => m == *identifier || m == *body || in_opt_vec(args, m)
            || in_opt_vec(modifiers, m),
        Ast::FunMod { args, commas, .. } => in_opt_vec(args, m) || in_opt_box(commas, m),
        Ast::Arg { identifier, .. } => m == *identifier,
        Ast::If { condition, yes, no } => m == *condition || in_opt_box(yes, m) || in_opt_box(no, m),
        Ast::LogicalAndOr { lhs, rhs, .. } => m == *lhs || m == *rhs,
        Ast::ModShift { lhs, rhs, .. } => m == *lhs || m == *rhs,
        Ast::Cmp { lhs, rhs, .. } => m == *lhs || m == *rhs,
        Ast::AndOr { lhs, rhs, .. } => m == *lhs || m == *rhs,
        Ast::Add { lhs, rhs } => m == *lhs || m == *rhs,
        Ast::Sub { lhs, rhs } => m == *lhs || m == *rhs,
        Ast::Mul { lhs, rhs } => m == *lhs || m == *rhs,
        Ast::Div { lhs, rhs } => m == *lhs || m == *rhs,
        Ast::Pow { lhs, rhs } => m == *lhs || m == *rhs,
        Ast::Assignment { lhs, rhs, .. } => m == *lhs || m == *rhs,
        Ast::Unary { operand, .. } => m == *operand,
        Ast::String { next, .. } => in_opt_box(next, m),
        Ast::Compound { expressions, .. } => expressions@.contains(m),
        Ast::While { condition, body } => in_opt_box(condition, m) || in_opt_box(body, m),
        Ast::FunCall { name, params, .. } => m == *name || in_opt_vec(params, m),
        Ast::MemoryAccess { rvalue, index } => m == *rvalue || in_opt_box(index, m),
        Ast::Loop { count, body } => m == *count || m == *body,
        _ => false,
    }
}

proof fn lemma_walk_list_enters(s: Seq<LocatedAst>)
    ensures
        forall|i: int| 0 <= i < s.len() ==> walk_list(s).contains(SpecSignal::Enter(#[trigger] s[i])),
    decreases s.len(),
{
    if s.len() > 0 {
        lemma_size_positive(s[0]);
        let rest = s.subrange(1, s.len() as int);
        lemma_walk_list_enters(rest);
        let w = walk(s[0]);
        let x = seq![SpecSignal::Exit(s[0])];
        let r = walk_list(rest);
        assert(walk_list(s) == w + x + r);
        assert forall|i: int| 0 <= i < s.len() implies walk_list(s).contains(SpecSignal::Enter(#[trigger] s[i])) by {
            if i == 0 {
                assert(w[0] == SpecSignal::Enter(s[0]));
                assert(walk_list(s)[0] == w[0]);
            } else {
                assert(s[i] == rest[i - 1]);
                let j = choose|j: int| 0 <= j < r.len() && r[j] == SpecSignal::Enter(rest[i - 1]);
                assert(walk_list(s)[w.len() + 1 + j] == r[j]);
            }
        }
    }
}

proof fn lemma_part_is_child(n: LocatedAst, m: LocatedAst)
    requires
        is_part(n, m),
    ensures
        children(n).contains(m),
{
    let c = children(n);
    match n.ast {
        Ast::Fun { identifier, modifiers, body, args, .. } => {
            let a = opt_vec_of(args);
            let md = opt_vec_of(modifiers);
            assert(c == seq![*identifier] + a + md + seq![*body]);
            if m == *identifier {
                assert(c[0] == m);
            } else if m == *body {
                assert(c[c.len() - 1] == m);
            } else if in_opt_vec(args, m) {
                let j = choose|j: int| 0 <= j < a.len() && a[j] == m;
                assert(c[1 + j] == m);
            } else {
                let j = choose|j: int| 0 <= j < md.len() && md[j] == m;
                assert(c[1 + a.len() + j] == m);
            }
        },
        Ast::FunMod { args, commas, .. } => {
            let a = opt_vec_of(args);
            if in_opt_vec(args, m) {
                let j = choose|j: int| 0 <= j < a.len() && a[j] == m;
                assert(c[j] == m);
            } else {
                assert(c[a.len() as int] == m);
            }
        },
        Ast::If { condition, yes, no } => {
            if m == *condition {
                assert(c[0] == m);
            } else if in_opt_box(yes, m) {
                assert(c[1] == m);
            } else {
                assert(c[c.len() - 1] == m);
            }
        },
        Ast::Compound { expressions, .. } => {},
        Ast::While { condition, body } => {
            if in_opt_box(condition, m) {
                assert(c[0] == m);
            } else {
                assert(c[c.len() - 1] == m);
            }
        },
        Ast::FunCall { name, params, .. } => {
            if m == *name {
                assert(c[0] == m);
            } else {
                let a = opt_vec_of(params);
                let j = choose|j: int| 0 <= j < a.len() && a[j] == m;
                assert(c[1 + j] == m);
            }
        },
        Ast::MemoryAccess { rvalue, index } => {
            if m == *rvalue {
                assert(c[0] == m);
            } else {
                assert(c[1] == m);
            }
        },
        Ast::String { next, .. } => {
            assert(c[0] == m);
        },
        _ => {
            if c.len() > 0 && c[0] == m {
                assert(c[0] == m);
            } else if c.len() > 1 {
                assert(c[1] == m);
            }
        },
    }
}

/// The trees of an optional vector, as a sequence.
pub open spec fn opt_vec_of(o: Option<Vec<LocatedAst>>) -> Seq<LocatedAst> {
    match o {
        Some(v) => v@,
        None => Seq::empty(),
    }
}

/// The walk through a node enters every tree the node is directly made of (every field
/// that holds a tree, the commas of a function definition aside): no part of the code,
/// such as the `else` branch of a condition, is skipped by the lints that walk it.
pub proof fn law_walk_enters_every_part(n: LocatedAst, m: LocatedAst)
    requires
        is_part(n, m),
    ensures
        walk(n).contains(SpecSignal::Enter(m)),
{
    lemma_part_is_child(n, m);
    lemma_children_smaller(n);
    let c = children(n);
    lemma_walk_list_enters(c);
    let i = choose|i: int| 0 <= i < c.len() && c[i] == m;
    assert(walk_list(c).contains(SpecSignal::Enter(c[i])));
    let j = choose|j: int| 0 <= j < walk_list(c).len() && walk_list(c)[j] == SpecSignal::Enter(c[i]);
    assert(walk(n) == seq![SpecSignal::Enter(n)] + walk_list(c));
    assert(walk(n)[1 + j] == walk_list(c)[j]);
}

} // verus!

verus! {

use crate::access::TopLevel;
use crate::lints::inconsistent_casing::variables::var_access_fold;

/// Whether the access `a` is made directly to the variable named `name`, not through an
/// object, under another casing.
pub open spec fn miscased(a: TopLevel, name: Seq<char>) -> bool {
    origin_uuid(a.origin) is None && a.info.accessed_as@ != name
}

/// Of the accesses `acc` to the variable named `name`, each one made directly under
/// another casing is reported, whatever its kind (read, write or passing by reference):
/// an inconsistent-casing issue at its location, naming both casings. There are as many
/// issues as such accesses.
pub proof fn law_miscased_accesses_reported(acc: Seq<TopLevel>, name: Seq<char>)
    ensures
        forall|k: int|
            0 <= k < acc.len() && miscased(#[trigger] acc[k], name) ==> exists|j: int|
                0 <= j < var_access_fold(acc, name).len() && #[trigger] var_access_fold(acc, name)[j] == (
                IssueKind::InconsistentCasing,
                acc[k].info.location,
                "Casing is inconsistent: `"@ + acc[k].info.accessed_as@ + "` was originally declared as `"@
                    + name + "`"@,
            ),
        var_access_fold(acc, name).len() == acc.filter(|a: TopLevel| miscased(a, name)).len(),
    decreases acc.len(),
{
    reveal(Seq::filter);
    if acc.len() > 0 {
        let u = acc.drop_last();
        law_miscased_accesses_reported(u, name);
        let f = var_access_fold(u, name);
        let g = var_access_fold(acc, name);
        assert forall|k: int| 0 <= k < acc.len() && miscased(#[trigger] acc[k], name) implies exists|j: int|
            0 <= j < g.len() && #[trigger] g[j] == (
            IssueKind::InconsistentCasing,
            acc[k].info.location,
            "Casing is inconsistent: `"@ + acc[k].info.accessed_as@ + "` was originally declared as `"@ + name
                + "`"@,
        ) by {
            if k < u.len() {
                assert(u[k] == acc[k]);
                assert(miscased(u[k], name));
                let j = choose|j: int| 0 <= j < f.len() && #[trigger] f[j] == (
                    IssueKind::InconsistentCasing,
                    u[k].info.location,
                    "Casing is inconsistent: `"@ + u[k].info.accessed_as@ + "` was originally declared as `"@
                        + name + "`"@,
                );
                assert(g[j] == f[j]);
            } else {
                assert(acc[k] == acc.last());
                assert(g[f.len() as int] == g[g.len() - 1]);
            }
        }
    }
}

} // verus!

verus! {

use crate::location::SectionKind;
use crate::functions::FunCall;
use crate::lints::sample_section_without_audio_io::{header_location, sample_section_issues};
use crate::program::section_index;
use crate::text::lower;

/// Whether the access `a` is made in `@sample` under a name that starts with `spl`, in any
/// case.
pub open spec fn spl_named_in_sample(a: TopLevel) -> bool {
    a.section == SectionKind::Sample && lower(a.info.accessed_as@).len() >= 3 && lower(a.info.accessed_as@).take(3)
        == seq!['s', 'p', 'l']
}

/// Whether the call `c` calls the builtin `spl` or `slider_next_chg`.
pub open spec fn calls_audio_builtin(c: FunCall) -> bool {
    c.fun matches Some(f) && f.is_builtin && (f.name@ == "slider_next_chg"@ || f.name@ == "spl"@)
}

/// Only builtin variables count as audio input or output. When `@sample` calls neither
/// `spl` nor `slider_next_chg`, and every variable accessed there under a name that starts
/// with `spl` is one of the program's own (not a builtin), the section is reported, once,
/// on its header.
pub proof fn law_sample_without_builtin_audio_is_reported(program: Program, builtins: Seq<BuiltinVar>, i: int)
    requires
        section_index(program.sections@, SectionKind::Sample) == Some(i),
        forall|k: int|
            0 <= k < program.sections@[i].fun_calls@.len() ==> !calls_audio_builtin(
                #[trigger] program.sections@[i].fun_calls@[k],
            ),
        forall|v: int, k: int|
            0 <= v < program.scope.variables@.len() && 0 <= k < program.scope.variables@[v].accesses@.len()
                && spl_named_in_sample(#[trigger] program.scope.variables@[v].accesses@[k]) ==> builtin_of(
                program.metas@,
                builtins,
                program.scope.variables@[v].name@,
            ) is None,
    ensures
        sample_section_issues(program, builtins) == seq![
            (
                IssueKind::SampleSectionWithoutAudioIo,
                header_location(program.sections@[i]),
                "@sample section doesn't contain any audio input/output operations. This kind of work should be done in @block"@,
            ),
        ],
{
    reveal_strlit("spl");
    assert("spl"@ =~= seq!['s', 'p', 'l']);
}

/// A builtin variable accessed in `@sample` under a name that starts with `spl` is audio
/// input or output: the section is then not reported.
pub proof fn law_sample_with_builtin_audio_not_reported(
    program: Program,
    builtins: Seq<BuiltinVar>,
    v: int,
    k: int,
)
    requires
        0 <= v < program.scope.variables@.len(),
        0 <= k < program.scope.variables@[v].accesses@.len(),
        spl_named_in_sample(program.scope.variables@[v].accesses@[k]),
        builtin_of(program.metas@, builtins, program.scope.variables@[v].name@) is Some,
    ensures
        sample_section_issues(program, builtins) == Seq::<IssueSpec>::empty(),
{
    reveal_strlit("spl");
    assert("spl"@ =~= seq!['s', 'p', 'l']);
    assert(crate::lints::sample_section_without_audio_io::audio_access(program.scope.variables@[v].accesses@[k]));
    assert(crate::lints::sample_section_without_audio_io::audio_var(
        program.metas@,
        builtins,
        program.scope.variables@[v],
    ));
}

} // verus!

verus! {

use crate::access::navigation::within_this_spec;
use crate::functions::{call_prefix, starts_with_dotted, this_word};

/// A `this` member accessed in a function is seen, at a call `p.f()` whose prefix `p`
/// involves no `this` (neither `this` nor `this.` and more), as the member of `p`: the
/// access `this.s`, with `s` a name that does not start with a dot, is seen as `p.s`,
/// replacing no scope and not reaching past the global one. Calls with different prefixes
/// thus see different variables.
pub proof fn law_this_member_seen_on_call_prefix(fc: FunCall, called_fun_name: Seq<char>, s: Seq<char>)
    requires
        !fc.name_matches_instance_arg,
        lower(call_prefix(fc.accessed_as@)) != this_word(),
        !starts_with_dotted(call_prefix(fc.accessed_as@), this_word()),
        s.len() > 0,
        s[0] != '.',
    ensures
        within_this_spec(fc, called_fun_name, Some(s)) == (call_prefix(fc.accessed_as@) + seq!['.'] + s, None::<
            Seq<char>,
        >, false),
        within_this_spec(fc, called_fun_name, Some(s)).0.take(call_prefix(fc.accessed_as@).len() + 1int)
            == call_prefix(fc.accessed_as@) + seq!['.'],
{
    let p = call_prefix(fc.accessed_as@);
    assert(crate::text::leading_dots(s) == 0);
    assert((p + seq!['.'] + s).take(p.len() + 1int) =~= p + seq!['.']);
}

/// A `this` member accessed in a function is seen, at a call `this.f()` made inside
/// another function, as a member of that function's own `this`: the access `this.s`, with
/// `s` a name that does not start with a dot, is seen as `this.s` again.
pub proof fn law_this_member_seen_on_this_call(fc: FunCall, called_fun_name: Seq<char>, s: Seq<char>)
    requires
        !fc.name_matches_instance_arg,
        fc.prefix is Some,
        !(fc.depth is TopLevel),
        lower(call_prefix(fc.accessed_as@)) == this_word(),
        s.len() > 0,
        s[0] != '.',
    ensures
        within_this_spec(fc, called_fun_name, Some(s)) == (this_word() + seq!['.'] + s, None::<Seq<char>>, false),
{
    assert(crate::text::leading_dots(s) == 0);
}

} // verus!

verus! {

use crate::ast::{walk as walk_of, walk_list as walk_list_of};

/// The walk through a tree followed by leaving it.
pub open spec fn walk_and_leave(t: LocatedAst) -> Seq<SpecSignal> {
    walk_of(t) + seq![SpecSignal::Exit(t)]
}

/// The walk through an optional tree followed by leaving it; nothing without a tree.
pub open spec fn opt_walk_and_leave(o: Option<Box<LocatedAst>>) -> Seq<SpecSignal> {
    match o {
        Some(b) => walk_and_leave(*b),
        None => Seq::empty(),
    }
}

proof fn lemma_walk_list_cons(t: LocatedAst, rest: Seq<LocatedAst>)
    ensures
        walk_list_of(seq![t] + rest) == walk_and_leave(t) + walk_list_of(rest),
{
    let s = seq![t] + rest;
    crate::ast::lemma_size_positive(t);
    assert(s[0] == t);
    assert(s.subrange(1, s.len() as int) =~= rest);
}

proof fn lemma_walk_list_opt(o: Option<Box<LocatedAst>>, rest: Seq<LocatedAst>)
    ensures
        walk_list_of(crate::ast::opt_box(o) + rest) == opt_walk_and_leave(o) + walk_list_of(rest),
{
    match o {
        Some(b) => {
            lemma_walk_list_cons(*b, rest);
        },
        None => {
            assert(crate::ast::opt_box(o) + rest =~= rest);
            assert(opt_walk_and_leave(o) + walk_list_of(rest) =~= walk_list_of(rest));
        },
    }
}

/// The walk through a condition `c ? y : n` enters the node, then walks the condition,
/// then the `yes` branch if any, then the `no` branch if any, leaving each after its walk.
pub proof fn law_walk_of_condition(n: LocatedAst)
    requires
        n.ast is If,
    ensures
        n.ast matches Ast::If { condition, yes, no } && walk_of(n) == seq![SpecSignal::Enter(n)] + walk_and_leave(
            *condition,
        ) + opt_walk_and_leave(yes) + opt_walk_and_leave(no),
{
    match n.ast {
        Ast::If { condition, yes, no } => {
            let e = Seq::<LocatedAst>::empty();
            assert(walk_list_of(e) == Seq::<SpecSignal>::empty());
            lemma_walk_list_opt(no, e);
            lemma_walk_list_opt(yes, crate::ast::opt_box(no) + e);
            lemma_walk_list_cons(*condition, crate::ast::opt_box(yes) + (crate::ast::opt_box(no) + e));
            assert(children(n) =~= seq![*condition] + (crate::ast::opt_box(yes) + (crate::ast::opt_box(no) + e)));
            assert(walk_of(n) =~= seq![SpecSignal::Enter(n)] + walk_and_leave(*condition) + opt_walk_and_leave(yes)
                + opt_walk_and_leave(no));
        },
        _ => {},
    }
}

/// The walk through an operation with two operands enters the node, then walks the left
/// operand, then the right one, leaving each after its walk.
pub proof fn law_walk_of_binary(n: LocatedAst, lhs: LocatedAst, rhs: LocatedAst)
    requires
        match n.ast {
            Ast::LogicalAndOr { lhs: l, rhs: r, .. } => *l == lhs && *r == rhs,
            Ast::ModShift { lhs: l, rhs: r, .. } => *l == lhs && *r == rhs,
            Ast::Cmp { lhs: l, rhs: r, .. } => *l == lhs && *r == rhs,
            Ast::AndOr { lhs: l, rhs: r, .. } => *l == lhs && *r == rhs,
            Ast::Add { lhs: l, rhs: r } => *l == lhs && *r == rhs,
            Ast::Sub { lhs: l, rhs: r } => *l == lhs && *r == rhs,
            Ast::Mul { lhs: l, rhs: r } => *l == lhs && *r == rhs,
            Ast::Div { lhs: l, rhs: r } => *l == lhs && *r == rhs,
            Ast::Pow { lhs: l, rhs: r } => *l == lhs && *r == rhs,
            Ast::Assignment { lhs: l, rhs: r, .. } => *l == lhs && *r == rhs,
            _ => false,
        },
    ensures
        walk_of(n) == seq![SpecSignal::Enter(n)] + walk_and_leave(lhs) + walk_and_leave(rhs),
{
    let e = Seq::<LocatedAst>::empty();
    assert(walk_list_of(e) == Seq::<SpecSignal>::empty());
    lemma_walk_list_cons(rhs, e);
    lemma_walk_list_cons(lhs, seq![rhs] + e);
    assert(children(n) =~= seq![lhs] + (seq![rhs] + e));
    assert(walk_of(n) =~= seq![SpecSignal::Enter(n)] + walk_and_leave(lhs) + walk_and_leave(rhs));
}

} // verus!
