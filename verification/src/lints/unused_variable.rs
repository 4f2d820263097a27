use vstd::prelude::*;

use crate::access::origin_uuid;
use crate::issue::{lemma_extends_refl, lemma_extends_trans, IssueSpec, IssueTracker};
use crate::issue_kind::IssueKind;
use crate::program::{bound_slider, is_bound_to_slider, var_read, var_written, Meta, Program, Variable};
use crate::text::str_eq;
use crate::variables::{builtin_of, builtin_var, BuiltinVar};

verus! {

/// Whether one of the accesses of `v` goes through an object (`this`, an instance or a
/// reference), which the lints of objects take care of.
pub open spec fn has_object_origin(v: Variable) -> bool {
    exists|k: int| 0 <= k < v.accesses@.len() && (#[trigger] origin_uuid(v.accesses@[k].origin)) is Some
}

/// Whether the lint leaves the variable `v` alone: `_`, the temporary string `#`, a
/// variable bound to a slider, a builtin variable, a variable only passed by reference,
/// or one accessed through an object.
pub open spec fn ignored(metas: Seq<Meta>, builtins: Seq<BuiltinVar>, v: Variable) -> bool {
    ||| v.name@ == "_"@
    ||| v.name@ == "#"@
    ||| bound_slider(metas, v.name@) is Some
    ||| builtin_of(metas, builtins, v.name@) is Some
    ||| (!var_read(v) && !var_written(v))
    ||| has_object_origin(v)
}

/// What the lint reports for the global variable `v`, at its first access: never read,
/// never written (always 0).
pub open spec fn var_issues(metas: Seq<Meta>, builtins: Seq<BuiltinVar>, v: Variable) -> Seq<IssueSpec> {
    if ignored(metas, builtins, v) {
        Seq::empty()
    } else {
        (if !var_read(v) {
            seq![(IssueKind::GlobalNeverRead, v.accesses@[0].info.location, "`"@ + v.name@ + "` is never read"@)]
        } else {
            Seq::empty()
        }) + (if !var_written(v) {
            seq![
                (
                    IssueKind::GlobalNeverWritten,
                    v.accesses@[0].info.location,
                    "`"@ + v.name@ + "` is never assigned to and is always 0"@,
                ),
            ]
        } else {
            Seq::empty()
        })
    }
}

/// What the lint reports for the variables `vs`, in order.
pub open spec fn vars_issues(metas: Seq<Meta>, builtins: Seq<BuiltinVar>, vs: Seq<Variable>) -> Seq<IssueSpec>
    decreases vs.len(),
{
    if vs.len() == 0 {
        Seq::empty()
    } else {
        vars_issues(metas, builtins, vs.drop_last()) + var_issues(metas, builtins, vs.last())
    }
}

/// What the lint reports on `program`, whose builtin variables are `builtins`: each
/// global variable of the program's own that is never read, or never written.
pub open spec fn unused_variable_issues(program: Program, builtins: Seq<BuiltinVar>) -> Seq<IssueSpec> {
    vars_issues(program.metas@, builtins, program.scope.variables@)
}

/// Whether an access of `v` goes through an object (see `has_object_origin`).
fn object_origin(v: &Variable) -> (r: bool)
    ensures
        r == has_object_origin(*v),
{
    let mut i: usize = 0;
    while i < v.accesses.len()
        invariant
            i <= v.accesses@.len(),
            forall|k: int| 0 <= k < i ==> (#[trigger] origin_uuid(v.accesses@[k].origin)) is None,
        decreases v.accesses@.len() - i,
    {
        if v.accesses[i].origin.get_uuid().is_some() {
            return true;
        }
        i += 1;
    }
    false
}

fn warn_var(metas: &Vec<Meta>, builtins: &Vec<BuiltinVar>, v: &Variable, issues: &mut IssueTracker)
    requires
        old(issues).wf(),
        old(issues).registers(IssueKind::GlobalNeverRead),
        old(issues).registers(IssueKind::GlobalNeverWritten),
    ensures
        final(issues).extends(old(issues), var_issues(metas@, builtins@, *v)),
{
    proof {
        lemma_extends_refl(*issues);
        reveal_strlit("_");
        reveal_strlit("#");
    }
    let read = v.is_read();
    let written = v.is_written();
    if str_eq(v.name.as_str(), "_") || str_eq(v.name.as_str(), "#") || is_bound_to_slider(metas, v.name.as_str()).is_some()
        || builtin_var(metas, builtins, v.name.as_str()).is_some() || (!read && !written) || object_origin(v) {
        return;
    }
    assert(v.accesses@.len() > 0);
    let location = v.accesses[0].info.location;
    let ghost x = if !read {
        seq![(IssueKind::GlobalNeverRead, location, "`"@ + v.name@ + "` is never read"@)]
    } else {
        Seq::empty()
    };
    let ghost y = if !written {
        seq![(IssueKind::GlobalNeverWritten, location, "`"@ + v.name@ + "` is never assigned to and is always 0"@)]
    } else {
        Seq::empty()
    };
    let ghost m0 = *issues;
    if !read {
        let mut text = String::from_str("`");
        text.append(v.name.as_str());
        text.append("` is never read");
        issues.add(IssueKind::GlobalNeverRead, &location, text);
    }
    let ghost m1 = *issues;
    assert(m1.extends(&m0, x));
    if !written {
        let mut text = String::from_str("`");
        text.append(v.name.as_str());
        text.append("` is never assigned to and is always 0");
        issues.add(IssueKind::GlobalNeverWritten, &location, text);
    } else {
        proof {
            lemma_extends_refl(*issues);
        }
    }
    proof {
        lemma_extends_trans(m0, m1, *issues, x, y);
    }
}

/// Reports the global variables of the program's own (not `_`, `#`, builtin variables,
/// sliders' variables, nor variables used through objects) that are never read, or never
/// written; `builtins` are the builtin variables.
pub fn lint(program: &Program, builtins: &Vec<BuiltinVar>, issues: &mut IssueTracker)
    requires
        old(issues).wf(),
        old(issues).registers(IssueKind::GlobalNeverRead),
        old(issues).registers(IssueKind::GlobalNeverWritten),
    ensures
        final(issues).extends(old(issues), unused_variable_issues(*program, builtins@)),
{
    let vs = &program.scope.variables;
    proof {
        lemma_extends_refl(*old(issues));
        assert(vs@.take(0) =~= Seq::<Variable>::empty());
    }
    let mut i: usize = 0;
    while i < vs.len()
        invariant
            i <= vs@.len(),
            vs@ == program.scope.variables@,
            old(issues).wf(),
            old(issues).registers(IssueKind::GlobalNeverRead),
            old(issues).registers(IssueKind::GlobalNeverWritten),
            issues.extends(old(issues), vars_issues(program.metas@, builtins@, vs@.take(i as int))),
        decreases vs@.len() - i,
    {
        let ghost m = *issues;
        assert(vs@.take(i + 1).drop_last() =~= vs@.take(i as int));
        warn_var(&program.metas, builtins, &vs[i], issues);
        proof {
            lemma_extends_trans(*old(issues), m, *issues, vars_issues(program.metas@, builtins@, vs@.take(i as int)), var_issues(program.metas@, builtins@, vs@[i as int]));
        }
        i += 1;
    }
    proof {
        assert(vs@.take(i as int) =~= vs@);
    }
}

} // verus!
