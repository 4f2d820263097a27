use vstd::prelude::*;

use crate::access::{origin_uuid, TopLevel};
use crate::issue::{lemma_extends_refl, lemma_extends_trans, IssueSpec, IssueTracker};
use crate::issue_kind::IssueKind;
use crate::program::{Program, Variable};
use crate::text::{chars_until, eq_ignore_case, lower, starts_with_ignore_case, str_eq};

verus! {

/// The accesses among `acc`, made directly and not through an object, that spell the
/// variable `name` with another casing, whatever their kind.
pub open spec fn var_access_fold(acc: Seq<TopLevel>, name: Seq<char>) -> Seq<IssueSpec>
    decreases acc.len(),
{
    if acc.len() == 0 {
        Seq::empty()
    } else {
        var_access_fold(acc.drop_last(), name) + if origin_uuid(acc.last().origin) is None
            && acc.last().info.accessed_as@ != name {
            seq![
                (
                    IssueKind::InconsistentCasing,
                    acc.last().info.location,
                    "Casing is inconsistent: `"@ + acc.last().info.accessed_as@
                        + "` was originally declared as `"@ + name + "`"@,
                ),
            ]
        } else {
            Seq::empty()
        }
    }
}

/// What the lint reports for the variables `vs`, in order.
pub open spec fn vars_fold(vs: Seq<Variable>) -> Seq<IssueSpec>
    decreases vs.len(),
{
    if vs.len() == 0 {
        Seq::empty()
    } else {
        vars_fold(vs.drop_last()) + var_access_fold(vs.last().accesses@, vs.last().name@)
    }
}

/// What the lint reports on `program`: each direct access to a global variable written
/// otherwise than the variable was first written.
pub open spec fn variable_casing_issues(program: Program) -> Seq<IssueSpec> {
    vars_fold(program.scope.variables@)
}

fn warn_variable(v: &Variable, issues: &mut IssueTracker)
    requires
        old(issues).wf(),
        old(issues).registers(IssueKind::InconsistentCasing),
    ensures
        final(issues).extends(old(issues), var_access_fold(v.accesses@, v.name@)),
{
    let acc = &v.accesses;
    let name = &v.name;
    proof {
        lemma_extends_refl(*issues);
        assert(acc@.take(0) =~= Seq::<TopLevel>::empty());
    }
    let mut i: usize = 0;
    while i < acc.len()
        invariant
            i <= acc@.len(),
            acc@ == v.accesses@,
            name@ == v.name@,
            old(issues).wf(),
            old(issues).registers(IssueKind::InconsistentCasing),
            issues.extends(old(issues), var_access_fold(acc@.take(i as int), name@)),
        decreases acc@.len() - i,
    {
        let ghost m = *issues;
        let access = &acc[i];
        assert(acc@.take(i + 1).drop_last() =~= acc@.take(i as int));
        assert(acc@.take(i + 1).last() == *access);
        if access.origin.get_uuid().is_none() && !str_eq(access.info.accessed_as.as_str(), name.as_str()) {
            let mut text = String::from_str("Casing is inconsistent: `");
            text.append(access.info.accessed_as.as_str());
            text.append("` was originally declared as `");
            text.append(name.as_str());
            text.append("`");
            let ghost x = seq![(IssueKind::InconsistentCasing, access.info.location, text@)];
            issues.add(IssueKind::InconsistentCasing, &access.info.location, text);
            proof {
                lemma_extends_trans(*old(issues), m, *issues, var_access_fold(acc@.take(i as int), name@), x);
                assert(var_access_fold(acc@.take(i + 1), name@) =~= var_access_fold(acc@.take(i as int), name@) + x);
            }
        } else {
            assert(var_access_fold(acc@.take(i + 1), name@) =~= var_access_fold(acc@.take(i as int), name@));
        }
        i += 1;
    }
    assert(acc@.take(i as int) =~= acc@);
}

/// Warns about direct accesses to global variables written with another casing than the
/// variable's.
pub fn variable_casing(program: &Program, issues: &mut IssueTracker)
    requires
        old(issues).wf(),
        old(issues).registers(IssueKind::InconsistentCasing),
    ensures
        final(issues).extends(old(issues), variable_casing_issues(*program)),
{
    let vs = &program.scope.variables;
    proof {
        lemma_extends_refl(*issues);
        assert(vs@.take(0) =~= Seq::<Variable>::empty());
    }
    let mut i: usize = 0;
    while i < vs.len()
        invariant
            i <= vs@.len(),
            vs@ == program.scope.variables@,
            old(issues).wf(),
            old(issues).registers(IssueKind::InconsistentCasing),
            issues.extends(old(issues), vars_fold(vs@.take(i as int))),
        decreases vs@.len() - i,
    {
        let ghost m = *issues;
        assert(vs@.take(i + 1).drop_last() =~= vs@.take(i as int));
        warn_variable(&vs[i], issues);
        proof {
            lemma_extends_trans(*old(issues), m, *issues, vars_fold(vs@.take(i as int)), var_access_fold(vs@[i as int].accesses@, vs@[i as int].name@));
        }
        i += 1;
    }
    assert(vs@.take(i as int) =~= vs@);
}

} // verus!
