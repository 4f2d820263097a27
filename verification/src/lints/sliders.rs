use vstd::prelude::*;

use crate::functions::FunCall;
use crate::issue::{lemma_extends_refl, lemma_extends_trans, IssueSpec, IssueTracker};
use crate::issue_kind::IssueKind;
use crate::numbers::{decimal, push_decimal};
use crate::program::{var_read, var_written, Meta, Program, Section, Variable};
use crate::text::{first_where, lemma_first_where_is, lemma_first_where_none, lower, str_eq, to_lower};
use crate::variables::{looks_like_slider_n_var, slider_n_var, MaybeSliderNVar};

verus! {

/// Whether the call `c` calls the builtin `slider`, which reaches sliders by a number
/// only known when the code runs.
pub open spec fn slider_call(c: FunCall) -> bool {
    c.fun matches Some(f) && f.is_builtin && f.name@ == "slider"@
}

/// Whether some section of `p` calls the builtin `slider`.
pub open spec fn has_slider_calls(p: Program) -> bool {
    exists|i: int, k: int|
        0 <= i < p.sections@.len() && 0 <= k < p.sections@[i].fun_calls@.len() && #[trigger] slider_call(
            p.sections@[i].fun_calls@[k],
        )
}

/// The position among `vs` of the first variable named `name`.
pub open spec fn var_named(vs: Seq<Variable>, name: Seq<char>) -> Option<int> {
    first_where(vs.len() as int, |k: int| vs[k].name@ == name)
}

/// Whether the variable named `name` among `vs` is read or written.
pub open spec fn used(vs: Seq<Variable>, name: Seq<char>) -> bool {
    match var_named(vs, name) {
        Some(k) => var_read(vs[k]) || var_written(vs[k]),
        None => false,
    }
}

/// The `sliderN` name of slider number `id`.
pub open spec fn slider_id_name(id: usize) -> Seq<char> {
    "slider"@ + decimal(id as nat)
}

/// What the lint reports for the meta `m` of `p`: a slider that is used neither through
/// its `sliderN` name (when that reaches it) nor through the variable it is bound to.
pub open spec fn meta_issues(p: Program, m: Meta) -> Seq<IssueSpec> {
    let vs = p.scope.variables@;
    match m {
        Meta::Slider { id, identifier, location, .. } => {
            let sn = slider_id_name(id);
            let by_n = slider_n_var(p.metas@, sn) is Reaches && used(vs, sn);
            let by_variable = match identifier {
                Some(x) => used(vs, lower(x@)),
                None => false,
            };
            let shown = match identifier {
                Some(x) => "("@ + x@ + ") "@,
                None => Seq::empty(),
            };
            if by_n || by_variable {
                Seq::empty()
            } else {
                seq![(IssueKind::UnusedSlider, location, sn + " "@ + shown + "is never used"@)]
            }
        },
        _ => Seq::empty(),
    }
}

/// What the lint reports for the metas `ms` of `p`, in order.
pub open spec fn metas_issues(p: Program, ms: Seq<Meta>) -> Seq<IssueSpec>
    decreases ms.len(),
{
    if ms.len() == 0 {
        Seq::empty()
    } else {
        metas_issues(p, ms.drop_last()) + meta_issues(p, ms.last())
    }
}

/// The sliders of `p` that are never used; none when `p` calls the builtin `slider`.
pub open spec fn not_accessed_issues(p: Program) -> Seq<IssueSpec> {
    if has_slider_calls(p) {
        Seq::empty()
    } else {
        metas_issues(p, p.metas@)
    }
}

/// What the lint reports for the global variable `v` of `p`, at its first access: a
/// `sliderN` name of an undeclared slider; a `sliderN` name of a slider bound to a
/// variable; `slider` and digits that are no slider number.
pub open spec fn var_issues(p: Program, v: Variable) -> Seq<IssueSpec> {
    let loc = v.accesses@[0].info.location;
    match slider_n_var(p.metas@, v.name@) {
        MaybeSliderNVar::NonExisting => seq![(IssueKind::UnknownSlider, loc, v.name@ + " doesn't exist"@)],
        MaybeSliderNVar::Shadowed(k) => match p.metas@[k as int] {
            Meta::Slider { identifier: Some(x), .. } => seq![
                (
                    IssueKind::ShadowedSliderN,
                    loc,
                    v.name@ + " looks like a slider variable, but isn't bound to the "@ + x@
                        + " slider. Slider that are bound to a variable can't be accessed using sliderN variables."@,
                ),
            ],
            _ => Seq::empty(),
        },
        MaybeSliderNVar::LooksLike => seq![
            (
                IssueKind::LooksLikeSliderN,
                loc,
                v.name@ + " looks like a slider variable, but sliders only go from slider1 to slider256."@,
            ),
        ],
        _ => Seq::empty(),
    }
}

/// The issues of the variables `vs` of `p`, in order: those about undeclared sliders when
/// `unknown`, the others otherwise.
pub open spec fn vars_issues(p: Program, vs: Seq<Variable>, unknown: bool) -> Seq<IssueSpec>
    decreases vs.len(),
{
    if vs.len() == 0 {
        Seq::empty()
    } else {
        let x = var_issues(p, vs.last());
        vars_issues(p, vs.drop_last(), unknown) + if unknown == (slider_n_var(p.metas@, vs.last().name@) is NonExisting) {
            x
        } else {
            Seq::empty()
        }
    }
}

/// What the lint reports on `p`: sliders never used; then accesses to sliders that do
/// not exist; then variables that look like `sliderN` but do not reach a slider.
pub open spec fn sliders_issues(p: Program) -> Seq<IssueSpec> {
    not_accessed_issues(p) + vars_issues(p, p.scope.variables@, true) + vars_issues(
        p,
        p.scope.variables@,
        false,
    )
}

/// Whether every global variable of `p` has an access, where its issues are reported.
pub open spec fn vars_accessed(p: Program) -> bool {
    forall|k: int| 0 <= k < p.scope.variables@.len() ==> (#[trigger] p.scope.variables@[k]).accesses@.len() > 0
}

/// The first variable named `name` among `vs`.
fn find_var<'a>(vs: &'a Vec<Variable>, name: &str) -> (r: Option<&'a Variable>)
    ensures
        match var_named(vs@, name@) {
            Some(k) => r == Some(&vs@[k]),
            None => r is None,
        },
{
    let ghost p = |k: int| vs@[k].name@ == name@;
    let mut i: usize = 0;
    while i < vs.len()
        invariant
            i <= vs@.len(),
            p == (|k: int| vs@[k].name@ == name@),
            forall|j: int| 0 <= j < i ==> !#[trigger] p(j),
        decreases vs@.len() - i,
    {
        if str_eq(vs[i].name.as_str(), name) {
            proof {
                assert(p(i as int));
                lemma_first_where_is(vs@.len() as int, p, i as int);
            }
            return Some(&vs[i]);
        }
        assert(!p(i as int));
        i += 1;
    }
    proof {
        lemma_first_where_none(vs@.len() as int, p);
    }
    None
}

/// Whether the variable named `name` among `vs` is read or written (see `used`).
fn is_used(vs: &Vec<Variable>, name: &str) -> (r: bool)
    ensures
        r == used(vs@, name@),
{
    match find_var(vs, name) {
        Some(v) => v.is_read() || v.is_written(),
        None => false,
    }
}

/// Whether some section of `p` calls the builtin `slider`.
fn calls_slider(p: &Program) -> (r: bool)
    ensures
        r == has_slider_calls(*p),
{
    let ss = &p.sections;
    let mut i: usize = 0;
    while i < ss.len()
        invariant
            i <= ss@.len(),
            ss@ == p.sections@,
            forall|a: int, k: int|
                0 <= a < i && 0 <= k < ss@[a].fun_calls@.len() ==> !#[trigger] slider_call(ss@[a].fun_calls@[k]),
        decreases ss@.len() - i,
    {
        let cs = &ss[i].fun_calls;
        let mut k: usize = 0;
        while k < cs.len()
            invariant
                i < ss@.len(),
                ss@ == p.sections@,
                k <= cs@.len(),
                cs@ == ss@[i as int].fun_calls@,
                forall|j: int| 0 <= j < k ==> !#[trigger] slider_call(cs@[j]),
            decreases cs@.len() - k,
        {
            let hit = match &cs[k].fun {
                Some(f) => f.is_builtin && str_eq(f.name.as_str(), "slider"),
                None => false,
            };
            if hit {
                assert(slider_call(p.sections@[i as int].fun_calls@[k as int]));
                return true;
            }
            k += 1;
        }
        i += 1;
    }
    false
}

fn warn_meta(p: &Program, m: &Meta, issues: &mut IssueTracker)
    requires
        old(issues).wf(),
        old(issues).registers(IssueKind::UnusedSlider),
    ensures
        final(issues).extends(old(issues), meta_issues(*p, *m)),
{
    proof {
        lemma_extends_refl(*issues);
    }
    match m {
        Meta::Slider { id, identifier, location, .. } => {
            let mut sn = String::from_str("slider");
            push_decimal(&mut sn, *id);
            proof {
                reveal_strlit("slider");
                assert(sn@ == slider_id_name(*id));
            }
            let by_n = match looks_like_slider_n_var(&p.metas, sn.as_str()) {
                MaybeSliderNVar::Reaches(_) => is_used(&p.scope.variables, sn.as_str()),
                _ => false,
            };
            let by_variable = match identifier {
                Some(x) => {
                    let l = to_lower(x.as_str());
                    is_used(&p.scope.variables, l.as_str())
                },
                None => false,
            };
            if !by_n && !by_variable {
                let mut text = sn;
                text.append(" ");
                match identifier {
                    Some(x) => {
                        text.append("(");
                        text.append(x.as_str());
                        text.append(") ");
                    },
                    None => {},
                }
                text.append("is never used");
                let ghost t = text@;
                issues.add(IssueKind::UnusedSlider, location, text);
                proof {
                    let shown = match identifier {
                        Some(x) => "("@ + x@ + ") "@,
                        None => Seq::<char>::empty(),
                    };
                    assert(t =~= slider_id_name(*id) + " "@ + shown + "is never used"@);
                }
            }
        },
        _ => {},
    }
}

fn warn_var(p: &Program, v: &Variable, unknown: bool, issues: &mut IssueTracker)
    requires
        old(issues).wf(),
        old(issues).registers(IssueKind::UnknownSlider),
        old(issues).registers(IssueKind::ShadowedSliderN),
        old(issues).registers(IssueKind::LooksLikeSliderN),
        v.accesses@.len() > 0,
    ensures
        final(issues).extends(
            old(issues),
            if unknown == (slider_n_var(p.metas@, v.name@) is NonExisting) {
                var_issues(*p, *v)
            } else {
                Seq::empty()
            },
        ),
{
    proof {
        lemma_extends_refl(*issues);
    }
    let kind = looks_like_slider_n_var(&p.metas, v.name.as_str());
    let non_existing = match kind {
        MaybeSliderNVar::NonExisting => true,
        _ => false,
    };
    if unknown != non_existing {
        return;
    }
    let location = v.accesses[0].info.location;
    match kind {
        MaybeSliderNVar::NonExisting => {
            let mut text = v.name.clone();
            text.append(" doesn't exist");
            issues.add(IssueKind::UnknownSlider, &location, text);
        },
        MaybeSliderNVar::Shadowed(k) => {
            proof {
                assert(p.metas@.len() == p.metas.len());
                crate::variables::lemma_slider_n_var_bounds(p.metas@, v.name@);
            }
            match &p.metas[k] {
                Meta::Slider { identifier: Some(x), .. } => {
                    let mut text = v.name.clone();
                    text.append(" looks like a slider variable, but isn't bound to the ");
                    text.append(x.as_str());
                    text.append(
                        " slider. Slider that are bound to a variable can't be accessed using sliderN variables.",
                    );
                    issues.add(IssueKind::ShadowedSliderN, &location, text);
                },
                _ => {},
            }
        },
        MaybeSliderNVar::LooksLike => {
            let mut text = v.name.clone();
            text.append(" looks like a slider variable, but sliders only go from slider1 to slider256.");
            issues.add(IssueKind::LooksLikeSliderN, &location, text);
        },
        _ => {},
    }
}

fn warn_vars(p: &Program, unknown: bool, issues: &mut IssueTracker)
    requires
        old(issues).wf(),
        old(issues).registers(IssueKind::UnknownSlider),
        old(issues).registers(IssueKind::ShadowedSliderN),
        old(issues).registers(IssueKind::LooksLikeSliderN),
        vars_accessed(*p),
    ensures
        final(issues).extends(old(issues), vars_issues(*p, p.scope.variables@, unknown)),
{
    let vs = &p.scope.variables;
    proof {
        lemma_extends_refl(*old(issues));
        assert(vs@.take(0) =~= Seq::<Variable>::empty());
    }
    let mut i: usize = 0;
    while i < vs.len()
        invariant
            i <= vs@.len(),
            vs@ == p.scope.variables@,
            vars_accessed(*p),
            old(issues).wf(),
            old(issues).registers(IssueKind::UnknownSlider),
            old(issues).registers(IssueKind::ShadowedSliderN),
            old(issues).registers(IssueKind::LooksLikeSliderN),
            issues.extends(old(issues), vars_issues(*p, vs@.take(i as int), unknown)),
        decreases vs@.len() - i,
    {
        let ghost m = *issues;
        assert(vs@.take(i + 1).drop_last() =~= vs@.take(i as int));
        assert(vs@[i as int].accesses@.len() > 0);
        warn_var(p, &vs[i], unknown, issues);
        proof {
            let v = vs@[i as int];
            let x = if unknown == (slider_n_var(p.metas@, v.name@) is NonExisting) {
                var_issues(*p, v)
            } else {
                Seq::empty()
            };
            lemma_extends_trans(*old(issues), m, *issues, vars_issues(*p, vs@.take(i as int), unknown), x);
        }
        i += 1;
    }
    proof {
        assert(vs@.take(i as int) =~= vs@);
    }
}

/// Reports sliders that are never used (unless the builtin `slider` is called), accesses
/// to `sliderN` of sliders that are not declared, and variables that look like `sliderN`
/// but do not reach a slider.
pub fn lint(program: &Program, issues: &mut IssueTracker)
    requires
        old(issues).wf(),
        old(issues).registers(IssueKind::UnusedSlider),
        old(issues).registers(IssueKind::UnknownSlider),
        old(issues).registers(IssueKind::ShadowedSliderN),
        old(issues).registers(IssueKind::LooksLikeSliderN),
        vars_accessed(*program),
    ensures
        final(issues).extends(old(issues), sliders_issues(*program)),
{
    let ghost m0 = *issues;
    proof {
        lemma_extends_refl(*issues);
    }
    if !calls_slider(program) {
        let ms = &program.metas;
        assert(ms@.take(0) =~= Seq::<Meta>::empty());
        let mut i: usize = 0;
        while i < ms.len()
            invariant
                i <= ms@.len(),
                ms@ == program.metas@,
                old(issues).wf(),
                old(issues).registers(IssueKind::UnusedSlider),
                issues.extends(old(issues), metas_issues(*program, ms@.take(i as int))),
            decreases ms@.len() - i,
        {
            let ghost m = *issues;
            assert(ms@.take(i + 1).drop_last() =~= ms@.take(i as int));
            warn_meta(program, &ms[i], issues);
            proof {
                lemma_extends_trans(*old(issues), m, *issues, metas_issues(*program, ms@.take(i as int)), meta_issues(*program, ms@[i as int]));
            }
            i += 1;
        }
        assert(ms@.take(i as int) =~= ms@);
    }
    let ghost m1 = *issues;
    assert(m1.extends(&m0, not_accessed_issues(*program)));
    warn_vars(program, true, issues);
    let ghost m2 = *issues;
    proof {
        lemma_extends_trans(m0, m1, m2, not_accessed_issues(*program), vars_issues(*program, program.scope.variables@, true));
    }
    warn_vars(program, false, issues);
    proof {
        lemma_extends_trans(m0, m2, *issues, not_accessed_issues(*program) + vars_issues(*program, program.scope.variables@, true), vars_issues(*program, program.scope.variables@, false));
    }
}

} // verus!
