use vstd::prelude::*;

use crate::access::TopLevel;
use crate::issue::{lemma_extends_refl, lemma_extends_trans, IssueSpec, IssueTracker};
use crate::issue_kind::IssueKind;
use crate::program::{Meta, Program, Variable};
use crate::text::{first_where, lemma_first_where_is, lemma_first_where_none};
use crate::variables::{builtin_of, builtin_var, BuiltinVar};

verus! {

/// Whether the access `a` reads (`read`) or writes.
pub open spec fn access_is(a: TopLevel, read: bool) -> bool {
    if read {
        a.info.kind is Read
    } else {
        a.info.kind is Write
    }
}

/// The position among `acc` of the first access that reads (`read`) or writes.
pub open spec fn first_access(acc: Seq<TopLevel>, read: bool) -> Option<int> {
    first_where(acc.len() as int, |k: int| access_is(acc[k], read))
}

/// The first access of `v` that reads (`read`) or writes.
pub fn first_access_of(v: &Variable, read: bool) -> (r: Option<&TopLevel>)
    ensures
        match first_access(v.accesses@, read) {
            Some(k) => r == Some(&v.accesses@[k]),
            None => r is None,
        },
{
    let ghost acc = v.accesses@;
    let ghost p = |k: int| access_is(acc[k], read);
    let mut i: usize = 0;
    while i < v.accesses.len()
        invariant
            i <= acc.len(),
            acc == v.accesses@,
            p == (|k: int| access_is(acc[k], read)),
            forall|j: int| 0 <= j < i ==> !#[trigger] p(j),
        decreases acc.len() - i,
    {
        let a = &v.accesses[i];
        let hit = if read {
            a.info.is_read()
        } else {
            a.info.is_write()
        };
        if hit {
            proof {
                assert(p(i as int));
                lemma_first_where_is(acc.len() as int, p, i as int);
            }
            return Some(a);
        }
        assert(!p(i as int));
        i += 1;
    }
    proof {
        lemma_first_where_none(acc.len() as int, p);
    }
    None
}

/// What the lint reports for the global variable `v`, when it is a builtin variable: its
/// first read when the builtin cannot be read, its first write when it cannot be written.
pub open spec fn var_issues(metas: Seq<Meta>, builtins: Seq<BuiltinVar>, v: Variable) -> Seq<IssueSpec> {
    match builtin_of(metas, builtins, v.name@) {
        Some(j) => (match first_access(v.accesses@, true) {
            Some(k) => if !builtins[j].readable {
                seq![
                    (
                        IssueKind::ReadUnreadable,
                        v.accesses@[k].info.location,
                        "Reading from non-readable variable "@ + v.name@,
                    ),
                ]
            } else {
                Seq::empty()
            },
            None => Seq::empty(),
        }) + (match first_access(v.accesses@, false) {
            Some(k) => if !builtins[j].writable {
                seq![
                    (
                        IssueKind::WriteToNonWritable,
                        v.accesses@[k].info.location,
                        "Writing to non-writable variable "@ + v.name@,
                    ),
                ]
            } else {
                Seq::empty()
            },
            None => Seq::empty(),
        }),
        None => Seq::empty(),
    }
}

/// What the lint reports for the variables `vs`, in order.
pub open spec fn vars_issues(metas: Seq<Meta>, builtins: Seq<BuiltinVar>, vs: Seq<Variable>) -> Seq<IssueSpec>
    decreases vs.len(),
{
    if vs.len() == 0 {
        Seq::empty()
    } else {
        vars_issues(metas, builtins, vs.drop_last()) + var_issues(metas, builtins, vs.last())
    }
}

/// What the lint reports on `program`, whose builtin variables are `builtins`: each
/// builtin variable read although it cannot be read, or written although it cannot be
/// written.
pub open spec fn inaccessible_builtin_issues(program: Program, builtins: Seq<BuiltinVar>) -> Seq<IssueSpec> {
    vars_issues(program.metas@, builtins, program.scope.variables@)
}

fn warn_var(metas: &Vec<Meta>, builtins: &Vec<BuiltinVar>, v: &Variable, issues: &mut IssueTracker)
    requires
        old(issues).wf(),
        old(issues).registers(IssueKind::ReadUnreadable),
        old(issues).registers(IssueKind::WriteToNonWritable),
    ensures
        final(issues).extends(old(issues), var_issues(metas@, builtins@, *v)),
{
    let builtin = match builtin_var(metas, builtins, v.name.as_str()) {
        Some(b) => b,
        None => {
            proof {
                lemma_extends_refl(*issues);
            }
            return;
        },
    };
    let ghost j = builtin_of(metas@, builtins@, v.name@)->0;
    let ghost read_issues = match first_access(v.accesses@, true) {
        Some(k) => if !builtins@[j].readable {
            seq![(IssueKind::ReadUnreadable, v.accesses@[k].info.location, "Reading from non-readable variable "@ + v.name@)]
        } else {
            Seq::empty()
        },
        None => Seq::empty(),
    };
    let ghost write_issues = match first_access(v.accesses@, false) {
        Some(k) => if !builtins@[j].writable {
            seq![(IssueKind::WriteToNonWritable, v.accesses@[k].info.location, "Writing to non-writable variable "@ + v.name@)]
        } else {
            Seq::empty()
        },
        None => Seq::empty(),
    };
    let ghost m0 = *issues;
    if !builtin.readable {
        match first_access_of(v, true) {
            Some(a) => {
                let mut text = String::from_str("Reading from non-readable variable ");
                text.append(v.name.as_str());
                issues.add(IssueKind::ReadUnreadable, &a.info.location, text);
            },
            None => {
                proof {
                    lemma_extends_refl(*issues);
                }
            },
        }
    } else {
        proof {
            lemma_extends_refl(*issues);
        }
    }
    let ghost m1 = *issues;
    assert(m1.extends(&m0, read_issues));
    if !builtin.writable {
        match first_access_of(v, false) {
            Some(a) => {
                let mut text = String::from_str("Writing to non-writable variable ");
                text.append(v.name.as_str());
                issues.add(IssueKind::WriteToNonWritable, &a.info.location, text);
            },
            None => {
                proof {
                    lemma_extends_refl(*issues);
                }
            },
        }
    } else {
        proof {
            lemma_extends_refl(*issues);
        }
    }
    proof {
        lemma_extends_trans(*old(issues), m1, *issues, read_issues, write_issues);
    }
}

/// Reports writing to builtin variables that cannot be written, and reading builtin
/// variables that cannot be read; `builtins` are the builtin variables.
pub fn lint(program: &Program, builtins: &Vec<BuiltinVar>, issues: &mut IssueTracker)
    requires
        old(issues).wf(),
        old(issues).registers(IssueKind::ReadUnreadable),
        old(issues).registers(IssueKind::WriteToNonWritable),
    ensures
        final(issues).extends(old(issues), inaccessible_builtin_issues(*program, builtins@)),
{
    let vs = &program.scope.variables;
    proof {
        lemma_extends_refl(*old(issues));
        assert(vs@.take(0) =~= Seq::<Variable>::empty());
    }
    let mut i: usize = 0;
    while i < vs.len()
        invariant
            i <= vs@.len(),
            vs@ == program.scope.variables@,
            old(issues).wf(),
            old(issues).registers(IssueKind::ReadUnreadable),
            old(issues).registers(IssueKind::WriteToNonWritable),
            issues.extends(old(issues), vars_issues(program.metas@, builtins@, vs@.take(i as int))),
        decreases vs@.len() - i,
    {
        let ghost m = *issues;
        assert(vs@.take(i + 1).drop_last() =~= vs@.take(i as int));
        warn_var(&program.metas, builtins, &vs[i], issues);
        proof {
            lemma_extends_trans(*old(issues), m, *issues, vars_issues(program.metas@, builtins@, vs@.take(i as int)), var_issues(program.metas@, builtins@, vs@[i as int]));
        }
        i += 1;
    }
    proof {
        assert(vs@.take(i as int) =~= vs@);
    }
}

} // verus!
