use vstd::prelude::*;

use crate::functions::{FunCall, Param, ParamKind};
use crate::issue::{lemma_extends_refl, lemma_extends_trans, IssueSpec, IssueTracker};
use crate::issue_kind::IssueKind;
use crate::numbers::{decimal, decimal_string};
use crate::program::{Program, Section};
use crate::text::str_eq;

verus! {

/// Whether `c` may follow '%' in a format specifier: anything but '{', '%' and ' '.
pub open spec fn specifier_char(c: char) -> bool {
    c != '{' && c != '%' && c != ' '
}

/// Where the run of specifier characters of `s` that starts at `p` ends.
pub open spec fn run_end(s: Seq<char>, p: int) -> int
    decreases s.len() - p,
{
    if 0 <= p < s.len() && specifier_char(s[p]) {
        run_end(s, p + 1)
    } else {
        p
    }
}

pub proof fn lemma_run_end(s: Seq<char>, p: int)
    requires
        0 <= p,
    ensures
        p <= run_end(s, p),
        p <= s.len() ==> run_end(s, p) <= s.len(),
    decreases s.len() - p,
{
    if 0 <= p < s.len() && specifier_char(s[p]) {
        lemma_run_end(s, p + 1);
    }
}

/// The matches of the regular expression `(%%[^{% ]+)|(%[^{% ]+)` in `s` from position `i`,
/// leftmost first and not overlapping: for each, whether its first group (a `%%` escape)
/// matched.
pub open spec fn specifier_matches_from(s: Seq<char>, i: int) -> Seq<bool>
    decreases s.len() - i,
{
    if i < 0 || i + 1 >= s.len() {
        Seq::empty()
    } else if s[i] == '%' && s[i + 1] == '%' && i + 2 < s.len() && specifier_char(s[i + 2]) {
        proof {
            lemma_run_end(s, i + 2);
        }
        seq![true] + specifier_matches_from(s, run_end(s, i + 2))
    } else if s[i] == '%' && specifier_char(s[i + 1]) {
        proof {
            lemma_run_end(s, i + 1);
        }
        seq![false] + specifier_matches_from(s, run_end(s, i + 1))
    } else {
        specifier_matches_from(s, i + 1)
    }
}

/// For each match of the regular expression `(%%[^{% ]+)|(%[^{% ]+)` in `format`, as
/// `regex::Regex::captures_iter` yields them (leftmost first, not overlapping), whether its
/// first group matched. Calls `regex::Regex::new` on that valid pattern, then
/// `captures_iter` and `regex::Captures::get`.
#[verifier::external_body]
fn specifier_matches(format: &str) -> (r: Vec<bool>)
    ensures
        r@ == specifier_matches_from(format@, 0),
{
    let re = regex::Regex::new(r"(%%[^{% ]+)|(%[^{% ]+)").unwrap();
    let mut out = Vec::new();
    for cap in re.captures_iter(format) {
        out.push(cap.get(1).is_some());
    }
    out
}

/// How many of `ms` are false.
pub open spec fn count_false(ms: Seq<bool>) -> nat
    decreases ms.len(),
{
    if ms.len() == 0 {
        0
    } else {
        count_false(ms.drop_last()) + if ms.last() {
            0nat
        } else {
            1nat
        }
    }
}

/// The number of format specifiers of `format` that take a parameter: the matches of
/// `(%%[^{% ]+)|(%[^{% ]+)` that are not `%%` escapes.
pub open spec fn specifier_count(format: Seq<char>) -> nat {
    count_false(specifier_matches_from(format, 0))
}

/// How many of `ms` are false.
fn count_unescaped(ms: &Vec<bool>) -> (r: usize)
    ensures
        r == count_false(ms@),
{
    let mut n: usize = 0;
    let mut i: usize = 0;
    while i < ms.len()
        invariant
            i <= ms@.len(),
            n == count_false(ms@.take(i as int)),
            n <= i,
        decreases ms@.len() - i,
    {
        assert(ms@.take(i + 1).drop_last() =~= ms@.take(i as int));
        if !ms[i] {
            n += 1;
        }
        i += 1;
    }
    assert(ms@.take(i as int) =~= ms@);
    n
}

/// What the lint reports for the format string `p` of the `sprintf` call `fc`: a count of
/// specifiers that differs from the count of the parameters after the format.
pub open spec fn format_issues(fc: FunCall, p: Param) -> Seq<IssueSpec> {
    match p.kind {
        ParamKind::StringValue { value } => {
            let n = specifier_count(value@);
            if fc.params@.len() != n + 2 {
                seq![
                    (
                        IssueKind::SprintfParams,
                        fc.location,
                        "sprintf format string has "@ + decimal(n) + " parameters but was called with "@
                            + decimal((fc.params@.len() - 2) as nat),
                    ),
                ]
            } else {
                Seq::empty()
            }
        },
        _ => Seq::empty(),
    }
}

/// What the lint reports for the possible format strings `ps` of the `sprintf` call `fc`,
/// in order.
pub open spec fn formats_issues(fc: FunCall, ps: Seq<Param>) -> Seq<IssueSpec>
    decreases ps.len(),
{
    if ps.len() == 0 {
        Seq::empty()
    } else {
        formats_issues(fc, ps.drop_last()) + format_issues(fc, ps.last())
    }
}

/// What the lint reports for the call `fc`: for a call to `sprintf` with a format string,
/// each possible format string whose specifiers do not match the parameters.
pub open spec fn call_issues(fc: FunCall) -> Seq<IssueSpec> {
    match fc.fun {
        Some(f) => if f.name@ == "sprintf"@ && fc.params@.len() > 1 {
            formats_issues(fc, fc.params@[1]@)
        } else {
            Seq::empty()
        },
        None => Seq::empty(),
    }
}

/// Reports the format strings of the call `fun_call` to `sprintf`, if it is one, whose
/// specifiers do not match its parameters.
fn warn_sprintf_args(fun_call: &FunCall, issues: &mut IssueTracker)
    requires
        old(issues).wf(),
        old(issues).registers(IssueKind::SprintfParams),
    ensures
        final(issues).extends(old(issues), call_issues(*fun_call)),
{
    proof {
        lemma_extends_refl(*issues);
    }
    let fun = match &fun_call.fun {
        Some(f) => f,
        None => {
            return;
        },
    };
    if !str_eq(fun.name.as_str(), "sprintf") {
        return;
    }
    if fun_call.params.len() <= 1 {
        return;
    }
    let formats = &fun_call.params[1];
    let ghost fc = *fun_call;
    assert(formats@.take(0) =~= Seq::<Param>::empty());
    let mut i: usize = 0;
    while i < formats.len()
        invariant
            i <= formats@.len(),
            fc == *fun_call,
            fc.params@.len() > 1,
            formats@ == fc.params@[1]@,
            old(issues).wf(),
            old(issues).registers(IssueKind::SprintfParams),
            issues.extends(old(issues), formats_issues(fc, formats@.take(i as int))),
        decreases formats@.len() - i,
    {
        let ghost m = *issues;
        let format = &formats[i];
        assert(formats@.take(i + 1).drop_last() =~= formats@.take(i as int));
        assert(formats@.take(i + 1).last() == *format);
        if let ParamKind::StringValue { value } = &format.kind {
            let ms = specifier_matches(value.as_str());
            let matches = count_unescaped(&ms);
            let differs = matches >= usize::MAX - 1 || fun_call.params.len() != matches + 2;
            if differs {
                let mut text = String::from_str("sprintf format string has ");
                text.append(decimal_string(matches).as_str());
                text.append(" parameters but was called with ");
                text.append(decimal_string(fun_call.params.len() - 2).as_str());
                issues.add(IssueKind::SprintfParams, &fun_call.location, text);
            } else {
                proof {
                    lemma_extends_refl(*issues);
                }
            }
        } else {
            proof {
                lemma_extends_refl(*issues);
            }
        }
        proof {
            lemma_extends_trans(*old(issues), m, *issues, formats_issues(fc, formats@.take(i as int)), format_issues(fc, *format));
        }
        i += 1;
    }
    assert(formats@.take(i as int) =~= formats@);
}

/// What the lint reports for the calls `cs`, in order.
pub open spec fn calls_issues(cs: Seq<FunCall>) -> Seq<IssueSpec>
    decreases cs.len(),
{
    if cs.len() == 0 {
        Seq::empty()
    } else {
        calls_issues(cs.drop_last()) + call_issues(cs.last())
    }
}

/// What the lint reports for the sections `ss`, in order.
pub open spec fn sections_issues(ss: Seq<Section>) -> Seq<IssueSpec>
    decreases ss.len(),
{
    if ss.len() == 0 {
        Seq::empty()
    } else {
        sections_issues(ss.drop_last()) + calls_issues(ss.last().fun_calls@)
    }
}

/// What the lint reports on `program`: each format string given to `sprintf` whose
/// specifiers do not match the parameters that follow it.
pub open spec fn sprintf_args_issues(program: Program) -> Seq<IssueSpec> {
    sections_issues(program.sections@)
}

/// Reports mistakes with `sprintf` parameters.
pub fn lint(program: &Program, issues: &mut IssueTracker)
    requires
        old(issues).wf(),
        old(issues).registers(IssueKind::SprintfParams),
    ensures
        final(issues).extends(old(issues), sprintf_args_issues(*program)),
{
    let ss = &program.sections;
    proof {
        lemma_extends_refl(*old(issues));
        assert(ss@.take(0) =~= Seq::<Section>::empty());
    }
    let mut i: usize = 0;
    while i < ss.len()
        invariant
            i <= ss@.len(),
            ss@ == program.sections@,
            old(issues).wf(),
            old(issues).registers(IssueKind::SprintfParams),
            issues.extends(old(issues), sections_issues(ss@.take(i as int))),
        decreases ss@.len() - i,
    {
        let calls = &ss[i].fun_calls;
        let ghost before = sections_issues(ss@.take(i as int));
        proof {
            assert(ss@.take(i + 1).drop_last() =~= ss@.take(i as int));
            assert(calls@.take(0) =~= Seq::<FunCall>::empty());
            assert(before + calls_issues(calls@.take(0)) =~= before);
        }
        let mut j: usize = 0;
        while j < calls.len()
            invariant
                j <= calls@.len(),
                i < ss@.len(),
                calls@ == ss@[i as int].fun_calls@,
                old(issues).wf(),
                old(issues).registers(IssueKind::SprintfParams),
                issues.extends(old(issues), before + calls_issues(calls@.take(j as int))),
            decreases calls@.len() - j,
        {
            let ghost m = *issues;
            assert(calls@.take(j + 1).drop_last() =~= calls@.take(j as int));
            warn_sprintf_args(&calls[j], issues);
            proof {
                lemma_extends_trans(*old(issues), m, *issues, before + calls_issues(calls@.take(j as int)), call_issues(calls@[j as int]));
                assert(before + calls_issues(calls@.take(j as int)) + call_issues(calls@[j as int]) =~= before + calls_issues(calls@.take(j + 1)));
            }
            j += 1;
        }
        proof {
            assert(calls@.take(j as int) =~= calls@);
        }
        i += 1;
    }
    proof {
        assert(ss@.take(i as int) =~= ss@);
    }
}

} // verus!
