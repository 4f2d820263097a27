use vstd::prelude::*;

use crate::issue::{lemma_report_none, lemma_report_one, IssueSpec, IssueTracker};
use crate::issue_kind::IssueKind;
use crate::numbers::{decimal, decimal_string};
use crate::program::{Meta, Program};

verus! {

/// The text of the warning about a slider without description.
pub open spec fn no_description_message(id: nat) -> Seq<char> {
    "slider"@ + decimal(id)
        + " has no description. It will not be visible in the default UI and will not be automatable."@
}

/// The warnings about the sliders of `ms` that have no description, in order.
pub open spec fn metas_issues(ms: Seq<Meta>) -> Seq<IssueSpec>
    decreases ms.len(),
{
    if ms.len() == 0 {
        Seq::empty()
    } else {
        metas_issues(ms.drop_last()) + match ms.last() {
            Meta::Slider { id, desc, location, .. } => if desc@.len() == 0 {
                seq![(IssueKind::SliderWithoutDescription, location, no_description_message(id as nat))]
            } else {
                Seq::empty()
            },
            _ => Seq::empty(),
        }
    }
}

/// What the lint reports: each slider of the program that has no description.
pub open spec fn slider_without_description_issues(program: Program) -> Seq<IssueSpec> {
    metas_issues(program.metas@)
}

/// Warns about sliders without a description: they are neither shown in the default
/// interface nor automatable.
pub fn lint(program: &Program, issues: &mut IssueTracker)
    requires
        old(issues).wf(),
        old(issues).registers(IssueKind::SliderWithoutDescription),
    ensures
        final(issues).extends(old(issues), slider_without_description_issues(*program)),
{
    let ms = &program.metas;
    let mut i: usize = 0;
    proof {
        lemma_report_none(old(issues).reported(), old(issues).config());
        assert(ms@.take(0) =~= Seq::<Meta>::empty());
    }
    while i < ms.len()
        invariant
            i <= ms@.len(),
            issues.wf(),
            old(issues).wf(),
            old(issues).registers(IssueKind::SliderWithoutDescription),
            issues.extends(old(issues), metas_issues(ms@.take(i as int))),
        decreases ms@.len() - i,
    {
        let ghost before = metas_issues(ms@.take(i as int));
        assert(ms@.take(i + 1).drop_last() =~= ms@.take(i as int));
        if let Meta::Slider { id, desc, location, .. } = &ms[i] {
            if desc.unicode_len() == 0 {
                let mut text = String::from_str("slider");
                let d = decimal_string(*id);
                text.append(d.as_str());
                text.append(
                    " has no description. It will not be visible in the default UI and will not be automatable.",
                );
                let ghost x = (IssueKind::SliderWithoutDescription, *location, text@);
                issues.add(IssueKind::SliderWithoutDescription, location, text);
                proof {
                    lemma_report_one(old(issues).reported(), old(issues).config(), before, x);
                    assert(before + seq![x] =~= before.push(x));
                }
            } else {
                assert(before + Seq::<IssueSpec>::empty() =~= before);
            }
        } else {
            assert(before + Seq::<IssueSpec>::empty() =~= before);
        }
        i += 1;
    }
    proof {
        assert(ms@.take(i as int) =~= ms@);
    }
}

} // verus!
