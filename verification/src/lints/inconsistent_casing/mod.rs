pub mod arguments;
pub mod functions;
pub mod instance;
pub mod modifiers;
pub mod refs;
pub mod variables;

use vstd::prelude::*;

use crate::issue::{lemma_extends_trans, IssueSpec, IssueTracker};
use crate::issue_kind::IssueKind;
use crate::program::Program;

verus! {

/// What the lint reports on `program`: names written with another casing than where they
/// are defined, for functions, global variables, arguments, reference arguments, `local()`
/// and `global()` arguments, and `instance()` arguments, in that order.
pub open spec fn inconsistent_casing_issues(program: Program) -> Seq<IssueSpec> {
    functions::function_casing_issues(program) + variables::variable_casing_issues(program)
        + arguments::argument_casing_issues(program) + refs::ref_arg_casing_issues(program)
        + modifiers::local_global_arg_casing_issues(program) + instance::instance_arg_casing_issues(program)
}

/// Warns about names written with another casing than where they are defined.
pub fn lint(program: &Program, issues: &mut IssueTracker)
    requires
        old(issues).wf(),
        old(issues).registers(IssueKind::InconsistentCasing),
        functions::calls_ok(*program),
    ensures
        final(issues).extends(old(issues), inconsistent_casing_issues(*program)),
{
    let ghost m0 = *issues;
    functions::function_casing(program, issues);
    let ghost m1 = *issues;
    variables::variable_casing(program, issues);
    proof {
        lemma_extends_trans(m0, m1, *issues, functions::function_casing_issues(*program), variables::variable_casing_issues(*program));
    }
    let ghost m2 = *issues;
    let ghost s2 = functions::function_casing_issues(*program) + variables::variable_casing_issues(*program);
    arguments::argument_casing(program, issues);
    proof {
        lemma_extends_trans(m0, m2, *issues, s2, arguments::argument_casing_issues(*program));
    }
    let ghost m3 = *issues;
    let ghost s3 = s2 + arguments::argument_casing_issues(*program);
    refs::ref_arg_casing(program, issues);
    proof {
        lemma_extends_trans(m0, m3, *issues, s3, refs::ref_arg_casing_issues(*program));
    }
    let ghost m4 = *issues;
    let ghost s4 = s3 + refs::ref_arg_casing_issues(*program);
    modifiers::local_global_arg_casing(program, issues);
    proof {
        lemma_extends_trans(m0, m4, *issues, s4, modifiers::local_global_arg_casing_issues(*program));
    }
    let ghost m5 = *issues;
    let ghost s5 = s4 + modifiers::local_global_arg_casing_issues(*program);
    instance::instance_arg_casing(program, issues);
    proof {
        lemma_extends_trans(m0, m5, *issues, s5, instance::instance_arg_casing_issues(*program));
    }
}

} // verus!
