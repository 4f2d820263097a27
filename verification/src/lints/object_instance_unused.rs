use vstd::prelude::*;

use crate::access::{origin_uuid, Kind, TopLevel, VarKind, WithinFunction};
use crate::functions::Fun;
use crate::issue::{lemma_extends_refl, lemma_extends_trans, IssueSpec, IssueTracker};
use crate::issue_kind::IssueKind;
use crate::numbers::{decimal, decimal_string};
use crate::program::{
    bound_slider, has_top_level_call, is_bound_to_slider, var_read, var_written, Program, Section,
    Variable,
};
use crate::text::{eq_ignore_case, lower};

verus! {

/// The accesses among `acc` made through the object `o`, in order.
pub open spec fn via_origin(acc: Seq<TopLevel>, o: u128) -> Seq<TopLevel>
    decreases acc.len(),
{
    if acc.len() == 0 {
        Seq::empty()
    } else {
        via_origin(acc.drop_last(), o) + if origin_uuid(acc.last().origin) == Some(o) {
            seq![acc.last()]
        } else {
            Seq::empty()
        }
    }
}

/// Whether the variable `v` of `p` keeps an access named `name` from being reported:
/// `v` is bound to a slider, or it is that variable (ASCII case ignored) and it is
/// written, for a read access (`read`), or read, for a write access.
pub open spec fn saves(p: Program, v: Variable, name: Seq<char>, read: bool) -> bool {
    ||| bound_slider(p.metas@, v.name@) is Some
    ||| lower(v.name@) == lower(name) && if read {
        var_written(v)
    } else {
        var_read(v)
    }
}

/// Whether one of the variables `vs` of `p` keeps an access named `name` from being reported.
pub open spec fn saved(p: Program, vs: Seq<Variable>, name: Seq<char>, read: bool) -> bool
    decreases vs.len(),
{
    vs.len() > 0 && (saved(p, vs.drop_last(), name, read) || saves(p, vs.last(), name, read))
}

/// Whether one of the accesses `acc` is kept from being reported by a variable of `p`.
pub open spec fn any_saved(p: Program, acc: Seq<TopLevel>, read: bool) -> bool
    decreases acc.len(),
{
    acc.len() > 0 && (any_saved(p, acc.drop_last(), read) || saved(
        p,
        p.scope.variables@,
        acc.last().info.accessed_as@,
        read,
    ))
}

/// What scanning the first `n` global variables of `p` for the object `o` gives, from the
/// marks `w` of the variables already reported: the marks after the scan, the accesses
/// made through `o`, and whether the scan was given up. A variable accessed through `o`
/// gives the scan up if it was already reported, or if one of those accesses is kept from
/// being reported; otherwise it is marked.
pub open spec fn scan(p: Program, n: int, o: u128, read: bool, w: Seq<bool>) -> (Seq<bool>, Seq<TopLevel>, bool)
    decreases n,
{
    if n <= 0 {
        (w, Seq::empty(), false)
    } else {
        let prev = scan(p, n - 1, o, read, w);
        let oa = via_origin(p.scope.variables@[n - 1].accesses@, o);
        if prev.2 || oa.len() == 0 {
            prev
        } else if prev.0[n - 1] {
            (prev.0, prev.1, true)
        } else {
            (prev.0.update(n - 1, true), prev.1 + oa, any_saved(p, oa, read))
        }
    }
}

/// How the kind of variable that `w` accesses is named in the warning, for the function
/// named `f_name`.
pub open spec fn var_kind_name(f_name: Seq<char>, k: VarKind) -> Seq<char> {
    match k {
        VarKind::Instance { .. } => f_name + "() instance variable"@,
        VarKind::This { .. } => f_name + "()"@,
        _ => f_name + "() ref argument"@,
    }
}

/// How many names the warning shows, of `len`.
pub open spec fn shown(len: int) -> int {
    if len < 5 {
        len
    } else {
        5
    }
}

/// What follows the name at `i`, of `len` names of which `end` are shown.
pub open spec fn name_sep(i: int, len: int, end: int) -> Seq<char> {
    if i + 2 == len && i + 1 < end {
        " and "@
    } else if i + 1 < end {
        ", "@
    } else {
        Seq::empty()
    }
}

/// The first `k` names of `l`, each between backquotes, with their separators.
pub open spec fn names_upto(l: Seq<TopLevel>, k: int) -> Seq<char>
    decreases k,
{
    if k <= 0 {
        Seq::empty()
    } else {
        names_upto(l, k - 1) + "`"@ + l[k - 1].info.accessed_as@ + "`"@ + name_sep(
            k - 1,
            l.len() as int,
            shown(l.len() as int),
        )
    }
}

/// How many names are left out of `len`, if any.
pub open spec fn others(len: int) -> Seq<char> {
    if len > 5 {
        ", and "@ + decimal((len - 5) as nat) + " other"@ + if len - 5 > 1 {
            "s"@
        } else {
            Seq::empty()
        }
    } else {
        Seq::empty()
    }
}

/// The verb for `len` variables.
pub open spec fn verb(len: int) -> Seq<char> {
    if len > 1 {
        "are"@
    } else {
        "is"@
    }
}

/// The plural mark for `len` variables.
pub open spec fn plural(len: int) -> Seq<char> {
    if len > 1 {
        "s"@
    } else {
        Seq::empty()
    }
}

/// What is wrong with `len` variables reached by a read access (`read`) or a write access.
pub open spec fn unused_message(read: bool, len: int) -> Seq<char> {
    if read {
        verb(len) + " never assigned to and "@ + verb(len) + " always 0"@
    } else {
        verb(len) + " never read"@
    }
}

/// The warning about the access `w` of the function named `f_name`, which reaches the
/// global accesses `l`.
pub open spec fn report_text(f_name: Seq<char>, w: WithinFunction, read: bool, l: Seq<TopLevel>) -> Seq<char> {
    "variable"@ + plural(l.len() as int) + " "@ + names_upto(l, shown(l.len() as int)) + others(
        l.len() as int,
    ) + " "@ + unused_message(read, l.len() as int) + " (accessed via "@ + var_kind_name(
        f_name,
        w.var_kind,
    ) + " `"@ + w.info.accessed_as@ + "`)"@
}

/// Whether `w` accesses a variable through an object: an instance variable, `this`, or a
/// reference argument.
pub open spec fn through_object(w: WithinFunction) -> bool {
    w.var_kind is Instance || w.var_kind is This || w.var_kind is RefArg
}

/// What checking the access `w` of `f` gives, from the marks `m` of the variables already
/// reported: the new marks and the warnings.
pub open spec fn access_step(p: Program, f: Fun, w: WithinFunction, m: Seq<bool>) -> (Seq<bool>, Seq<IssueSpec>) {
    if !through_object(w) || origin_uuid(w.origin) != Some(w.uuid) || w.info.kind is PassedByRef {
        (m, Seq::empty())
    } else {
        let read = w.info.kind is Read;
        let s = scan(p, p.scope.variables@.len() as int, w.uuid, read, m);
        if s.2 {
            (s.0, Seq::empty())
        } else {
            (
                s.0,
                seq![(IssueKind::ObjectAccessUnused, w.info.location, report_text(f.name@, w, read, s.1))],
            )
        }
    }
}

/// What checking the accesses `acc` of `f` in order gives, from the marks `m`.
pub open spec fn accesses_step(p: Program, f: Fun, acc: Seq<WithinFunction>, m: Seq<bool>) -> (Seq<bool>, Seq<IssueSpec>)
    decreases acc.len(),
{
    if acc.len() == 0 {
        (m, Seq::empty())
    } else {
        let prev = accesses_step(p, f, acc.drop_last(), m);
        let s = access_step(p, f, acc.last(), prev.0);
        (s.0, prev.1 + s.1)
    }
}

/// What checking the function `f` gives, from the marks `m`: only functions called at the
/// top level are checked.
pub open spec fn fun_step(p: Program, f: Fun, m: Seq<bool>) -> (Seq<bool>, Seq<IssueSpec>) {
    if has_top_level_call(p, f.uuid) {
        accesses_step(p, f, f.scope.accesses@, m)
    } else {
        (m, Seq::empty())
    }
}

/// What checking the functions `fs` in order gives, from the marks `m`.
pub open spec fn defs_step(p: Program, fs: Seq<Fun>, m: Seq<bool>) -> (Seq<bool>, Seq<IssueSpec>)
    decreases fs.len(),
{
    if fs.len() == 0 {
        (m, Seq::empty())
    } else {
        let prev = defs_step(p, fs.drop_last(), m);
        let s = fun_step(p, fs.last(), prev.0);
        (s.0, prev.1 + s.1)
    }
}

/// What checking the functions of the sections `ss` in order gives, from the marks `m`.
pub open spec fn sections_step(p: Program, ss: Seq<Section>, m: Seq<bool>) -> (Seq<bool>, Seq<IssueSpec>)
    decreases ss.len(),
{
    if ss.len() == 0 {
        (m, Seq::empty())
    } else {
        let prev = sections_step(p, ss.drop_last(), m);
        let s = defs_step(p, ss.last().fun_defs@, prev.0);
        (s.0, prev.1 + s.1)
    }
}

/// What the lint reports on `program`: each access through an object, in a function called
/// at the top level, to variables that are never read (for a write) or never written (for
/// a read); a variable is reported once.
pub open spec fn object_instance_unused_issues(program: Program) -> Seq<IssueSpec> {
    sections_step(
        program,
        program.sections@,
        Seq::new(program.scope.variables@.len(), |i: int| false),
    ).1
}

/// Once a scan is given up, it stays given up and nothing changes.
proof fn lemma_scan_given_up(p: Program, a: int, b: int, o: u128, read: bool, w: Seq<bool>)
    requires
        0 <= a <= b,
        scan(p, a, o, read, w).2,
    ensures
        scan(p, b, o, read, w) == scan(p, a, o, read, w),
    decreases b - a,
{
    if b > a {
        lemma_scan_given_up(p, a, b - 1, o, read, w);
    }
}

/// The marks keep their length through a scan.
proof fn lemma_scan_len(p: Program, n: int, o: u128, read: bool, w: Seq<bool>)
    requires
        n <= w.len(),
    ensures
        scan(p, n, o, read, w).0.len() == w.len(),
    decreases n,
{
    if n > 0 {
        lemma_scan_len(p, n - 1, o, read, w);
    }
}

/// The accesses of `acc` made through the object `o`.
fn accesses_via<'a>(acc: &'a Vec<TopLevel>, o: u128) -> (r: Vec<&'a TopLevel>)
    ensures
        r@.map_values(|a: &TopLevel| *a) == via_origin(acc@, o),
{
    let mut out: Vec<&TopLevel> = Vec::new();
    let mut i: usize = 0;
    while i < acc.len()
        invariant
            i <= acc@.len(),
            out@.map_values(|a: &TopLevel| *a) == via_origin(acc@.take(i as int), o),
        decreases acc@.len() - i,
    {
        assert(acc@.take(i + 1).drop_last() =~= acc@.take(i as int));
        let ghost before = out@;
        if acc[i].origin.get_uuid() == Some(o) {
            out.push(&acc[i]);
            assert(out@.map_values(|a: &TopLevel| *a) =~= before.map_values(|a: &TopLevel| *a).push(acc@[i as int]));
        }
        assert(out@.map_values(|a: &TopLevel| *a) =~= via_origin(acc@.take(i + 1), o));
        i += 1;
    }
    assert(acc@.take(i as int) =~= acc@);
    out
}

/// Whether a variable of `program` keeps an access named `name` from being reported.
fn is_saved(program: &Program, name: &str, read: bool) -> (r: bool)
    ensures
        r == saved(*program, program.scope.variables@, name@, read),
{
    let vs = &program.scope.variables;
    let mut i: usize = 0;
    assert(!saved(*program, vs@.take(0), name@, read));
    while i < vs.len()
        invariant
            i <= vs@.len(),
            vs@ == program.scope.variables@,
            !saved(*program, vs@.take(i as int), name@, read),
        decreases vs@.len() - i,
    {
        let v = &vs[i];
        assert(vs@.take(i + 1).drop_last() =~= vs@.take(i as int));
        assert(vs@.take(i + 1).last() == *v);
        let bound = is_bound_to_slider(&program.metas, v.name.as_str()).is_some();
        let hit = bound || (eq_ignore_case(v.name.as_str(), name) && if read {
            v.is_written()
        } else {
            v.is_read()
        });
        if hit {
            proof {
                assert(saved(*program, vs@.take(i + 1), name@, read));
                lemma_saved_prefix(*program, vs@, name@, read, i + 1);
            }
            return true;
        }
        i += 1;
    }
    assert(vs@.take(i as int) =~= vs@);
    false
}

/// A variable that saves an access among a prefix of the variables saves it among all.
proof fn lemma_saved_prefix(p: Program, vs: Seq<Variable>, name: Seq<char>, read: bool, k: int)
    requires
        0 <= k <= vs.len(),
        saved(p, vs.take(k), name, read),
    ensures
        saved(p, vs, name, read),
    decreases vs.len() - k,
{
    if k < vs.len() {
        assert(vs.take(k + 1).drop_last() =~= vs.take(k));
        lemma_saved_prefix(p, vs, name, read, k + 1);
    } else {
        assert(vs.take(k) =~= vs);
    }
}

/// Whether one of the accesses `acc` is kept from being reported by a variable of `program`.
fn is_any_saved(program: &Program, acc: &Vec<&TopLevel>, read: bool) -> (r: bool)
    ensures
        r == any_saved(*program, acc@.map_values(|a: &TopLevel| *a), read),
{
    let ghost a = acc@.map_values(|x: &TopLevel| *x);
    let mut i: usize = 0;
    assert(!any_saved(*program, a.take(0), read));
    while i < acc.len()
        invariant
            i <= acc@.len(),
            a == acc@.map_values(|x: &TopLevel| *x),
            !any_saved(*program, a.take(i as int), read),
        decreases acc@.len() - i,
    {
        assert(a.take(i + 1).drop_last() =~= a.take(i as int));
        assert(a.take(i + 1).last() == *acc@[i as int]);
        if is_saved(program, acc[i].info.accessed_as.as_str(), read) {
            proof {
                lemma_any_saved_prefix(*program, a, read, i + 1);
            }
            return true;
        }
        i += 1;
    }
    assert(a.take(i as int) =~= a);
    false
}

/// An access saved among a prefix of the accesses is saved among all.
proof fn lemma_any_saved_prefix(p: Program, acc: Seq<TopLevel>, read: bool, k: int)
    requires
        0 <= k <= acc.len(),
        any_saved(p, acc.take(k), read),
    ensures
        any_saved(p, acc, read),
    decreases acc.len() - k,
{
    if k < acc.len() {
        assert(acc.take(k + 1).drop_last() =~= acc.take(k));
        lemma_any_saved_prefix(p, acc, read, k + 1);
    } else {
        assert(acc.take(k) =~= acc);
    }
}

/// Scans the global variables of `program` for the object `o`, marking the variables
/// reported in `warned`; `None` when the scan is given up, otherwise the accesses made
/// through `o`.
fn scan_variables<'a>(program: &'a Program, o: u128, read: bool, warned: &mut Vec<bool>) -> (r: Option<Vec<&'a TopLevel>>)
    requires
        old(warned)@.len() == program.scope.variables@.len(),
    ensures
        ({
            let s = scan(*program, program.scope.variables@.len() as int, o, read, old(warned)@);
            &&& final(warned)@ == s.0
            &&& (r is None) == s.2
            &&& r matches Some(l) ==> l@.map_values(|a: &TopLevel| *a) == s.1
        }),
{
    let vs = &program.scope.variables;
    let ghost w0 = warned@;
    let mut found: Vec<&TopLevel> = Vec::new();
    let mut i: usize = 0;
    assert(found@.map_values(|a: &TopLevel| *a) =~= Seq::<TopLevel>::empty());
    while i < vs.len()
        invariant
            i <= vs@.len(),
            vs@ == program.scope.variables@,
            w0 == old(warned)@,
            w0.len() == vs@.len(),
            scan(*program, i as int, o, read, w0) == (warned@, found@.map_values(|a: &TopLevel| *a), false),
        decreases vs@.len() - i,
    {
        let ghost prev = scan(*program, i as int, o, read, w0);
        proof {
            lemma_scan_len(*program, i as int, o, read, w0);
        }
        let oa = accesses_via(&vs[i].accesses, o);
        if oa.len() == 0 {
            i += 1;
            continue;
        }
        if warned[i] {
            proof {
                lemma_scan_given_up(*program, i + 1, vs@.len() as int, o, read, w0);
            }
            return None;
        }
        warned.set(i, true);
        if is_any_saved(program, &oa, read) {
            proof {
                lemma_scan_given_up(*program, i + 1, vs@.len() as int, o, read, w0);
            }
            return None;
        }
        let ghost before = found@;
        let mut k: usize = 0;
        while k < oa.len()
            invariant
                k <= oa@.len(),
                found@.map_values(|a: &TopLevel| *a) == before.map_values(|a: &TopLevel| *a)
                    + oa@.map_values(|a: &TopLevel| *a).take(k as int),
            decreases oa@.len() - k,
        {
            let ghost f0 = found@;
            found.push(oa[k]);
            assert(found@.map_values(|a: &TopLevel| *a) =~= f0.map_values(|a: &TopLevel| *a).push(*oa@[k as int]));
            assert(oa@.map_values(|a: &TopLevel| *a).take(k + 1) =~= oa@.map_values(|a: &TopLevel| *a).take(k as int).push(*oa@[k as int]));
            k += 1;
        }
        assert(oa@.map_values(|a: &TopLevel| *a).take(k as int) =~= oa@.map_values(|a: &TopLevel| *a));
        i += 1;
    }
    Some(found)
}

/// Reports the access `fun_access` of `fun_def`, which reaches the global accesses
/// `found`, as reaching variables never read (for a write) or never written (for a read).
fn report(
    fun_def: &Fun,
    issues: &mut IssueTracker,
    fun_access: &WithinFunction,
    is_read_access: bool,
    found: &Vec<&TopLevel>,
)
    requires
        old(issues).wf(),
        old(issues).registers(IssueKind::ObjectAccessUnused),
    ensures
        final(issues).extends(
            old(issues),
            seq![
                (
                    IssueKind::ObjectAccessUnused,
                    fun_access.info.location,
                    report_text(fun_def.name@, *fun_access, is_read_access, found@.map_values(|a: &TopLevel| *a)),
                ),
            ],
        ),
{
    let ghost l = found@.map_values(|a: &TopLevel| *a);
    let len = found.len();
    let mut kind_name = String::from_str(fun_def.name.as_str());
    match fun_access.var_kind {
        VarKind::Instance { .. } => kind_name.append("() instance variable"),
        VarKind::This { .. } => kind_name.append("()"),
        _ => kind_name.append("() ref argument"),
    }
    let end = if len < 5 {
        len
    } else {
        5
    };
    let mut names = String::new();
    let mut i: usize = 0;
    while i < end
        invariant
            i <= end,
            end == shown(len as int),
            len == l.len(),
            l == found@.map_values(|a: &TopLevel| *a),
            names@ == names_upto(l, i as int),
        decreases end - i,
    {
        assert(l[i as int] == *found@[i as int]);
        names.append("`");
        names.append(found[i].info.accessed_as.as_str());
        names.append("`");
        if i + 2 == len && i + 1 < end {
            names.append(" and ");
        } else if i + 1 < end {
            names.append(", ");
        }
        assert(names@ =~= names_upto(l, i + 1));
        i += 1;
    }
    let ghost names_part = names@;
    if len > 5 {
        let rest = len - 5;
        names.append(", and ");
        names.append(decimal_string(rest).as_str());
        names.append(" other");
        if rest > 1 {
            names.append("s");
        }
    }
    assert(names@ =~= names_part + others(len as int));
    let verb_text: &str = if len > 1 {
        "are"
    } else {
        "is"
    };
    assert(verb_text@ == verb(len as int));
    let mut message = String::from_str(verb_text);
    if is_read_access {
        message.append(" never assigned to and ");
        message.append(verb_text);
        message.append(" always 0");
    } else {
        message.append(" never read");
    }
    assert(message@ =~= unused_message(is_read_access, len as int));
    let mut text = String::from_str("variable");
    if len > 1 {
        text.append("s");
    }
    text.append(" ");
    text.append(names.as_str());
    text.append(" ");
    text.append(message.as_str());
    text.append(" (accessed via ");
    text.append(kind_name.as_str());
    text.append(" `");
    text.append(fun_access.info.accessed_as.as_str());
    text.append("`)");
    assert(text@ =~= report_text(fun_def.name@, *fun_access, is_read_access, l));
    issues.add(IssueKind::ObjectAccessUnused, &fun_access.info.location, text);
}

/// Whether every access through an object of `f` has the object's identifier.
pub open spec fn fun_origins_ok(f: Fun) -> bool {
    forall|k: int|
        0 <= k < f.scope.accesses@.len() && through_object(#[trigger] f.scope.accesses@[k])
            ==> origin_uuid(f.scope.accesses@[k].origin) is Some
}

/// Whether the function `j` of section `i` of `p` has its objects' identifiers.
pub open spec fn fun_origins_ok_at(p: Program, i: int, j: int) -> bool {
    fun_origins_ok(p.sections@[i].fun_defs@[j])
}

/// Whether every access through an object, in every function of `p`, has the object's
/// identifier.
pub open spec fn origins_ok(p: Program) -> bool {
    forall|i: int, j: int|
        0 <= i < p.sections@.len() && 0 <= j < p.sections@[i].fun_defs@.len()
            ==> #[trigger] fun_origins_ok_at(p, i, j)
}

/// Checks the accesses through an object of `fun_def`, if it is called at the top level,
/// marking the variables reported in `already_warned_variable`.
fn check_fun_def(
    program: &Program,
    fun_def: &Fun,
    already_warned_variable: &mut Vec<bool>,
    issues: &mut IssueTracker,
)
    requires
        old(issues).wf(),
        old(issues).registers(IssueKind::ObjectAccessUnused),
        old(already_warned_variable)@.len() == program.scope.variables@.len(),
        fun_origins_ok(*fun_def),
    ensures
        ({
            let s = fun_step(*program, *fun_def, old(already_warned_variable)@);
            &&& final(already_warned_variable)@ == s.0
            &&& final(already_warned_variable)@.len() == old(already_warned_variable)@.len()
            &&& final(issues).extends(old(issues), s.1)
        }),
{
    proof {
        lemma_extends_refl(*issues);
    }
    if !program.has_top_level_calls(fun_def) {
        return;
    }
    let acc = &fun_def.scope.accesses;
    let ghost f = *fun_def;
    let ghost m0 = old(already_warned_variable)@;
    assert(acc@.take(0) =~= Seq::<WithinFunction>::empty());
    let mut i: usize = 0;
    while i < acc.len()
        invariant
            i <= acc@.len(),
            f == *fun_def,
            acc@ == f.scope.accesses@,
            fun_origins_ok(f),
            m0 == old(already_warned_variable)@,
            accesses_step(*program, f, acc@.take(i as int), m0).0 == already_warned_variable@,
            already_warned_variable@.len() == program.scope.variables@.len(),
            old(issues).wf(),
            old(issues).registers(IssueKind::ObjectAccessUnused),
            issues.extends(old(issues), accesses_step(*program, f, acc@.take(i as int), m0).1),
        decreases acc@.len() - i,
    {
        let ghost mi = *issues;
        let ghost prev = accesses_step(*program, f, acc@.take(i as int), m0);
        let fun_access = &acc[i];
        assert(acc@.take(i + 1).drop_last() =~= acc@.take(i as int));
        assert(acc@.take(i + 1).last() == *fun_access);
        let ghost step = access_step(*program, f, *fun_access, prev.0);
        let relevant = match fun_access.var_kind {
            VarKind::Instance { .. } => true,
            VarKind::This { .. } => true,
            VarKind::RefArg { .. } => true,
            _ => false,
        };
        let mut skip = !relevant;
        if relevant {
            assert(through_object(acc@[i as int]));
            let origin = fun_access.origin.get_uuid().unwrap();
            if origin != fun_access.uuid {
                skip = true;
            }
        }
        let is_read_access = match fun_access.info.kind {
            Kind::Read => true,
            Kind::Write { .. } => false,
            Kind::PassedByRef => {
                skip = true;
                false
            },
        };
        if skip {
            assert(step == (prev.0, Seq::<IssueSpec>::empty()));
            assert(prev.1 + step.1 =~= prev.1);
        } else {
            let found = scan_variables(program, fun_access.uuid, is_read_access, already_warned_variable);
            match found {
                Some(l) => {
                    report(fun_def, issues, fun_access, is_read_access, &l);
                    proof {
                        lemma_extends_trans(*old(issues), mi, *issues, prev.1, step.1);
                    }
                },
                None => {
                    assert(prev.1 + step.1 =~= prev.1);
                },
            }
            proof {
                lemma_scan_len(*program, program.scope.variables@.len() as int, fun_access.uuid, is_read_access, prev.0);
            }
        }
        i += 1;
    }
    assert(acc@.take(i as int) =~= acc@);
}

/// Warns about accesses through objects (instance variables, `this`, reference arguments)
/// to variables that are never read, or never written.
pub fn lint(program: &Program, issues: &mut IssueTracker)
    requires
        old(issues).wf(),
        old(issues).registers(IssueKind::ObjectAccessUnused),
        origins_ok(*program),
    ensures
        final(issues).extends(old(issues), object_instance_unused_issues(*program)),
{
    let n = program.scope.variables.len();
    let mut warned: Vec<bool> = Vec::new();
    let mut k: usize = 0;
    while k < n
        invariant
            k <= n,
            n == program.scope.variables@.len(),
            warned@ == Seq::new(k as nat, |i: int| false),
        decreases n - k,
    {
        warned.push(false);
        assert(warned@ =~= Seq::new((k + 1) as nat, |i: int| false));
        k += 1;
    }
    let ghost m0 = warned@;
    let ss = &program.sections;
    proof {
        lemma_extends_refl(*old(issues));
        assert(ss@.take(0) =~= Seq::<Section>::empty());
    }
    let mut i: usize = 0;
    while i < ss.len()
        invariant
            i <= ss@.len(),
            ss@ == program.sections@,
            origins_ok(*program),
            m0 == Seq::new(program.scope.variables@.len(), |i: int| false),
            sections_step(*program, ss@.take(i as int), m0).0 == warned@,
            warned@.len() == program.scope.variables@.len(),
            old(issues).wf(),
            old(issues).registers(IssueKind::ObjectAccessUnused),
            issues.extends(old(issues), sections_step(*program, ss@.take(i as int), m0).1),
        decreases ss@.len() - i,
    {
        let defs = &ss[i].fun_defs;
        let ghost prev = sections_step(*program, ss@.take(i as int), m0);
        proof {
            assert(ss@.take(i + 1).drop_last() =~= ss@.take(i as int));
            assert(defs@.take(0) =~= Seq::<Fun>::empty());
            assert(prev.1 + defs_step(*program, defs@.take(0), prev.0).1 =~= prev.1);
        }
        let mut j: usize = 0;
        while j < defs.len()
            invariant
                j <= defs@.len(),
                i < ss@.len(),
                defs@ == ss@[i as int].fun_defs@,
                ss@ == program.sections@,
                origins_ok(*program),
                prev == sections_step(*program, ss@.take(i as int), m0),
                defs_step(*program, defs@.take(j as int), prev.0).0 == warned@,
                warned@.len() == program.scope.variables@.len(),
                old(issues).wf(),
                old(issues).registers(IssueKind::ObjectAccessUnused),
                issues.extends(old(issues), prev.1 + defs_step(*program, defs@.take(j as int), prev.0).1),
            decreases defs@.len() - j,
        {
            let ghost mj = *issues;
            let ghost before = defs_step(*program, defs@.take(j as int), prev.0);
            proof {
                assert(fun_origins_ok_at(*program, i as int, j as int));
                assert(defs@.take(j + 1).drop_last() =~= defs@.take(j as int));
                assert(defs@.take(j + 1).last() == defs@[j as int]);
            }
            check_fun_def(program, &defs[j], &mut warned, issues);
            proof {
                let s = fun_step(*program, defs@[j as int], before.0);
                lemma_extends_trans(*old(issues), mj, *issues, prev.1 + before.1, s.1);
                assert(prev.1 + before.1 + s.1 =~= prev.1 + defs_step(*program, defs@.take(j + 1), prev.0).1);
            }
            j += 1;
        }
        proof {
            assert(defs@.take(j as int) =~= defs@);
        }
        i += 1;
    }
    proof {
        assert(ss@.take(i as int) =~= ss@);
    }
}

} // verus!
