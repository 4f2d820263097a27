use vstd::prelude::*;

use crate::access::navigation::{opt_view, resolve_within_this_access, within_this_spec};
use crate::access::{Info, Kind, Origin, OriginDetails, Undetermined, VarKind, WithinFunction};
use crate::functions::{fun_arg_at, ref_arg_names, Fun, FunCall, Param, ParamKind};
use crate::access::{Return, Value};
use crate::access::{reads_of};
use std::rc::Rc;
use crate::location::Location;
use crate::text::{concat, join_dot};

verus! {

/// An origin, its texts taken as characters.
pub enum OriginView {
    Global,
    This(u128, Option<Seq<char>>),
    Instance(u128, Option<Seq<char>>),
    Ref(u128, Option<Seq<char>>),
    Undetermined,
}

/// What an origin says.
pub open spec fn origin_view(o: Origin) -> OriginView {
    match o {
        Origin::Global => OriginView::Global,
        Origin::This(d) => OriginView::This(d.uuid, opt_view(d.global_scope_navigation_override)),
        Origin::Instance(d) => OriginView::Instance(d.uuid, opt_view(d.global_scope_navigation_override)),
        Origin::Ref(d) => OriginView::Ref(d.uuid, opt_view(d.global_scope_navigation_override)),
        Origin::Undetermined => OriginView::Undetermined,
    }
}

/// What an undetermined access says: its origin, the name it was accessed as, where,
/// how, and whether it is forced into the global scope and bypasses `global()`.
pub open spec fn und_view(u: Undetermined) -> (OriginView, Seq<char>, Location, Kind, bool, bool) {
    (
        origin_view(u.origin),
        u.info.accessed_as@,
        u.info.location,
        u.info.kind,
        u.force_global_scope,
        u.bypass_global_modifier,
    )
}

/// What a list of undetermined accesses says, in order.
pub open spec fn und_views(s: Seq<Undetermined>) -> Seq<(OriginView, Seq<char>, Location, Kind, bool, bool)> {
    s.map_values(|u: Undetermined| und_view(u))
}

/// An override `o` given to an origin that has none.
pub open spec fn override_if_none(v: Option<Seq<char>>, o: Option<Seq<char>>) -> Option<Seq<char>> {
    if v is None {
        o
    } else {
        v
    }
}

/// The origin of a `this` access seen from the caller: a new `this` origin for the access
/// `uuid` when it had none, else its origin with the navigation override `o` when it had
/// none.
pub open spec fn this_origin(o: OriginView, uuid: u128, nav: Option<Seq<char>>) -> OriginView {
    match o {
        OriginView::Undetermined => OriginView::This(uuid, nav),
        OriginView::This(u, v) => OriginView::This(u, override_if_none(v, nav)),
        OriginView::Instance(u, v) => OriginView::Instance(u, override_if_none(v, nav)),
        OriginView::Ref(u, v) => OriginView::Ref(u, override_if_none(v, nav)),
        OriginView::Global => OriginView::Global,
    }
}

/// The navigation override of an origin.
pub open spec fn origin_override(o: OriginView) -> Option<Seq<char>> {
    match o {
        OriginView::This(_, v) => v,
        OriginView::Instance(_, v) => v,
        OriginView::Ref(_, v) => v,
        _ => None,
    }
}

/// The access that a `this` (or instance) access `w` of the called function, with the
/// suffix `suffix`, makes at the call `fc`.
pub open spec fn within_this_view(
    w: WithinFunction,
    fc: FunCall,
    called_name: Seq<char>,
    suffix: Option<Seq<char>>,
) -> (OriginView, Seq<char>, Location, Kind, bool, bool) {
    let (accessed, nav, reached_global) = within_this_spec(fc, called_name, suffix);
    let o = origin_view(w.origin);
    let name = if reached_global && origin_override(o) is Some {
        origin_override(o)->0 + seq!['.'] + accessed
    } else {
        accessed
    };
    let force = !fc.name_matches_instance_arg && !(fc.depth is Nested && fc.prefix is Some);
    (this_origin(o, w.uuid, nav), name, fc.location, w.info.kind, force, force || fc.name_matches_global_arg)
}

/// Adds the access that a `this` (or instance) access of the called function makes at the
/// call (see `within_this_view`).
pub fn get_access_from_within_this(
    within_function: &WithinFunction,
    fun_call: &FunCall,
    called_fun: &Fun,
    suffix: Option<&String>,
    accesses: &mut Vec<Undetermined>,
)
    ensures
        und_views(final(accesses)@) == und_views(old(accesses)@).push(
            within_this_view(
                *within_function,
                *fun_call,
                called_fun.name@,
                match suffix {
                    Some(s) => Some(s@),
                    None => None,
                },
            ),
        ),
{
    let origin = &within_function.origin;
    let nested_this_access = resolve_within_this_access(fun_call, called_fun, suffix);
    let accessed_as = if nested_this_access.navigation_reached_global {
        match origin.global_scope_navigation_override() {
            Some(navigation_override) => join_dot(navigation_override.as_str(), nested_this_access.accessed_as.as_str()),
            None => nested_this_access.accessed_as.clone(),
        }
    } else {
        nested_this_access.accessed_as.clone()
    };
    let new_origin = match origin {
        Origin::Undetermined => Origin::This(
            OriginDetails {
                uuid: within_function.uuid,
                global_scope_navigation_override: nested_this_access.navigation_override,
            },
        ),
        _ => {
            let mut o = origin.clone();
            o.set_navigation_override_if_none(nested_this_access.navigation_override);
            o
        },
    };
    let force_global_scope = !fun_call.name_matches_instance_arg && !fun_call.is_nested_and_has_prefix();
    let ghost before = accesses@;
    accesses.push(
        Undetermined {
            origin: new_origin,
            force_global_scope,
            bypass_global_modifier: force_global_scope || fun_call.name_matches_global_arg,
            info: Info {
                accessed_as,
                location: fun_call.location,
                kind: within_function.info.kind.clone(),
            },
        },
    );
    assert(und_views(accesses@) =~= und_views(before).push(und_view(accesses@.last())));
}

/// The accesses, at the call `fc`, that a reference-argument access `w` of the called
/// function makes: one per name that the argument `arg_index` (with `suffix`) stands for.
pub open spec fn ref_arg_views(
    w: WithinFunction,
    fc: FunCall,
    arg_index: int,
    suffix: Seq<char>,
) -> Seq<(OriginView, Seq<char>, Location, Kind, bool, bool)> {
    match ref_arg_names(fc, suffix, arg_index) {
        Some(names) => names.map_values(
            |n: Seq<char>|
                (
                    match origin_view(w.origin) {
                        OriginView::Undetermined => OriginView::Ref(w.uuid, None),
                        o => o,
                    },
                    n,
                    fc.location,
                    w.info.kind,
                    false,
                    false,
                ),
        ),
        None => Seq::empty(),
    }
}

/// Adds the accesses that a reference-argument access of the called function makes at
/// the call (see `ref_arg_views`).
pub fn get_access_from_ref_arg(
    within_function: &WithinFunction,
    fun_call: &FunCall,
    arg_index: usize,
    suffix: &String,
    accesses: &mut Vec<Undetermined>,
)
    ensures
        und_views(final(accesses)@) == und_views(old(accesses)@) + ref_arg_views(
            *within_function,
            *fun_call,
            arg_index as int,
            suffix@,
        ),
{
    let names = fun_call.ref_arg_to_accessed_as(suffix.as_str(), arg_index);
    let names = match names {
        Some(n) => n,
        None => {
            assert(und_views(accesses@) =~= und_views(old(accesses)@) + Seq::empty());
            return;
        },
    };
    let ghost all = ref_arg_views(*within_function, *fun_call, arg_index as int, suffix@);
    let mut i: usize = 0;
    while i < names.len()
        invariant
            i <= names@.len(),
            all.len() == names@.len(),
            forall|k: int| 0 <= k < names@.len() ==> #[trigger] all[k] == (
                match origin_view(within_function.origin) {
                    OriginView::Undetermined => OriginView::Ref(within_function.uuid, None),
                    o => o,
                },
                names@[k]@,
                fun_call.location,
                within_function.info.kind,
                false,
                false,
            ),
            und_views(accesses@) == und_views(old(accesses)@) + all.take(i as int),
        decreases names@.len() - i,
    {
        let origin = match &within_function.origin {
            Origin::Undetermined => Origin::Ref(
                OriginDetails { uuid: within_function.uuid, global_scope_navigation_override: None },
            ),
            o => o.clone(),
        };
        let ghost before = accesses@;
        accesses.push(
            Undetermined {
                origin,
                info: Info {
                    accessed_as: names[i].clone(),
                    location: fun_call.location,
                    kind: within_function.info.kind.clone(),
                },
                force_global_scope: false,
                bypass_global_modifier: false,
            },
        );
        proof {
            let u = accesses@.last();
            assert(origin_view(u.origin) == match origin_view(within_function.origin) {
                OriginView::Undetermined => OriginView::Ref(within_function.uuid, None),
                o => o,
            });
            assert(und_view(u) == all[i as int]);
            assert(und_views(accesses@) =~= und_views(before).push(und_view(u)));
            assert(all.take(i + 1) =~= all.take(i as int).push(all[i as int]));
        }
        assert(und_views(accesses@) =~= und_views(old(accesses)@) + all.take(i + 1));
        i += 1;
    }
    assert(all.take(i as int) =~= all);
}

/// The accesses, at the call `fc`, that the access `w` of the called function `cf` makes:
/// `this` and instance accesses resolved through the call, reference-argument accesses
/// turned into the names passed, accessible globals kept (forced into the global scope);
/// the others stay within the function.
pub open spec fn call_access_views(w: WithinFunction, fc: FunCall, cf: Fun) -> Seq<(OriginView, Seq<char>, Location, Kind, bool, bool)> {
    match w.var_kind {
        VarKind::This { suffix } => seq![within_this_view(w, fc, cf.name@, opt_view(suffix))],
        VarKind::Instance { .. } => seq![within_this_view(w, fc, cf.name@, Some(w.info.accessed_as@))],
        VarKind::RefArg { suffix, arg_index } => ref_arg_views(w, fc, arg_index as int, suffix@),
        VarKind::Global { accessible } => if accessible {
            seq![(OriginView::Global, w.info.accessed_as@, w.info.location, w.info.kind, true, true)]
        } else {
            Seq::empty()
        },
        _ => Seq::empty(),
    }
}

/// The accesses, at the call `fc`, that the accesses `ws` of the called function make.
pub open spec fn call_views(ws: Seq<WithinFunction>, fc: FunCall, cf: Fun) -> Seq<(OriginView, Seq<char>, Location, Kind, bool, bool)>
    decreases ws.len(),
{
    if ws.len() == 0 {
        Seq::empty()
    } else {
        call_views(ws.drop_last(), fc, cf) + call_access_views(ws.last(), fc, cf)
    }
}

/// Adds the accesses that a call to the user function `called_fun` makes (see `call_views`).
pub fn get_accesses_from_user_fun_call(
    fun_call: &FunCall,
    called_fun: &Fun,
    accesses: &mut Vec<Undetermined>,
)
    ensures
        und_views(final(accesses)@) == und_views(old(accesses)@) + call_views(
            called_fun.scope.accesses@,
            *fun_call,
            *called_fun,
        ),
{
    let ws = &called_fun.scope.accesses;
    let mut i: usize = 0;
    assert(ws@.take(0) =~= Seq::<WithinFunction>::empty());
    assert(und_views(accesses@) =~= und_views(old(accesses)@) + Seq::empty());
    while i < ws.len()
        invariant
            i <= ws@.len(),
            ws@ == called_fun.scope.accesses@,
            und_views(accesses@) == und_views(old(accesses)@) + call_views(ws@.take(i as int), *fun_call, *called_fun),
        decreases ws@.len() - i,
    {
        let within_fun = &ws[i];
        let ghost before = und_views(accesses@);
        assert(ws@.take(i + 1).drop_last() =~= ws@.take(i as int));
        match &within_fun.var_kind {
            VarKind::This { suffix } => {
                get_access_from_within_this(within_fun, fun_call, called_fun, suffix.as_ref(), accesses);
                assert(und_views(accesses@) =~= before + call_access_views(*within_fun, *fun_call, *called_fun));
            },
            VarKind::Instance { .. } => {
                get_access_from_within_this(within_fun, fun_call, called_fun, Some(&within_fun.info.accessed_as), accesses);
                assert(und_views(accesses@) =~= before + call_access_views(*within_fun, *fun_call, *called_fun));
            },
            VarKind::RefArg { suffix, arg_index } => {
                get_access_from_ref_arg(within_fun, fun_call, *arg_index, suffix, accesses);
            },
            VarKind::Global { accessible } => {
                if *accessible {
                    let ghost b = accesses@;
                    accesses.push(
                        Undetermined {
                            origin: Origin::Global,
                            info: within_fun.info.clone(),
                            force_global_scope: true,
                            bypass_global_modifier: true,
                        },
                    );
                    assert(und_views(accesses@) =~= und_views(b).push(und_view(accesses@.last())));
                    assert(und_views(accesses@) =~= before + call_access_views(*within_fun, *fun_call, *called_fun));
                } else {
                    assert(und_views(accesses@) =~= before + call_access_views(*within_fun, *fun_call, *called_fun));
                }
            },
            _ => {
                assert(und_views(accesses@) =~= before + call_access_views(*within_fun, *fun_call, *called_fun));
            },
        }
        assert(und_views(accesses@) =~= und_views(old(accesses)@) + call_views(ws@.take(i + 1), *fun_call, *called_fun));
        i += 1;
    }
    assert(ws@.take(i as int) =~= ws@);
}

/// The position of the first '}' in `s` at or after `p`.
pub open spec fn closing_brace(s: Seq<char>, p: int) -> Option<int>
    decreases s.len() - p,
{
    if p < 0 || p >= s.len() {
        None
    } else if s[p] == '}' {
        Some(p)
    } else {
        closing_brace(s, p + 1)
    }
}

/// The names inside the `%{name}` placeholders of `s` from position `i` on: the matches
/// of `%\{([^}]+?)}`, leftmost first and not overlapping.
pub open spec fn format_vars_from(s: Seq<char>, i: int) -> Seq<Seq<char>>
    decreases s.len() - i,
{
    if i < 0 || i + 1 >= s.len() {
        Seq::empty()
    } else {
        let k = match closing_brace(s, i + 2) {
            Some(k) => k,
            None => -1,
        };
        if s[i] == '%' && s[i + 1] == '{' && k > i + 2 {
            proof {
                lemma_closing_brace(s, i + 2);
            }
            seq![s.subrange(i + 2, k)] + format_vars_from(s, k + 1)
        } else {
            format_vars_from(s, i + 1)
        }
    }
}

pub proof fn lemma_closing_brace(s: Seq<char>, p: int)
    requires
        0 <= p,
    ensures
        closing_brace(s, p) matches Some(k) ==> p <= k < s.len(),
    decreases s.len() - p,
{
    if p < s.len() && s[p] != '}' {
        lemma_closing_brace(s, p + 1);
    }
}

/// The names inside the `%{name}` placeholders of the format string `value`: the first
/// capture group of each match of the regular expression `%\{([^}]+?)}` as
/// `regex::Regex::captures_iter` yields them (leftmost first, not overlapping). Calls
/// `regex::Regex::new` on that valid pattern, then `captures_iter`.
#[verifier::external_body]
fn format_vars(value: &str) -> (r: Vec<String>)
    ensures
        r@.map_values(|x: String| x@) == format_vars_from(value@, 0),
{
    let re = regex::Regex::new(r"%\{([^}]+?)}").unwrap();
    let mut out = Vec::new();
    for cap in re.captures_iter(value) {
        out.push(cap[1].to_string());
    }
    out
}

/// The reads that the format strings among `formats` make of the variables their
/// placeholders name, at `loc`.
pub open spec fn format_reads(formats: Seq<Param>, loc: Location) -> Seq<(OriginView, Seq<char>, Location, Kind, bool, bool)>
    decreases formats.len(),
{
    if formats.len() == 0 {
        Seq::empty()
    } else {
        format_reads(formats.drop_last(), loc) + match formats.last().kind {
            ParamKind::StringValue { value } => format_vars_from(value@, 0).map_values(
                |n: Seq<char>| (OriginView::Global, n, loc, Kind::Read, true, true),
            ),
            _ => Seq::empty(),
        }
    }
}

/// The reads that a call to `sprintf` makes through the placeholders of its format
/// strings (its second parameter), at `loc`.
pub open spec fn sprintf_views(fc: FunCall, cf: Fun, loc: Location) -> Seq<(OriginView, Seq<char>, Location, Kind, bool, bool)> {
    if cf.name@ == "sprintf"@ && fc.params@.len() > 1 {
        format_reads(fc.params@[1]@, loc)
    } else {
        Seq::empty()
    }
}

/// Adds the reads that a call to `sprintf` makes through its format strings.
fn get_accesses_from_sprintf(
    called_fun: &Fun,
    fun_call: &FunCall,
    accesses: &mut Vec<Undetermined>,
    location: &Location,
)
    ensures
        und_views(final(accesses)@) == und_views(old(accesses)@) + sprintf_views(*fun_call, *called_fun, *location),
{
    if !crate::text::str_eq(called_fun.name.as_str(), "sprintf") || fun_call.params.len() <= 1 {
        assert(und_views(accesses@) =~= und_views(old(accesses)@) + Seq::empty());
        return;
    }
    let formats = &fun_call.params[1];
    let mut i: usize = 0;
    assert(formats@.take(0) =~= Seq::<Param>::empty());
    assert(und_views(accesses@) =~= und_views(old(accesses)@) + format_reads(formats@.take(0), *location));
    while i < formats.len()
        invariant
            i <= formats@.len(),
            und_views(accesses@) == und_views(old(accesses)@) + format_reads(formats@.take(i as int), *location),
        decreases formats@.len() - i,
    {
        assert(formats@.take(i + 1).drop_last() =~= formats@.take(i as int));
        let ghost before = und_views(accesses@);
        if let ParamKind::StringValue { value } = &formats[i].kind {
            let names = format_vars(value.as_str());
            let ghost all = format_vars_from(value@, 0);
            let mut j: usize = 0;
            while j < names.len()
                invariant
                    j <= names@.len(),
                    names@.map_values(|x: String| x@) == all,
                    und_views(accesses@) == before + all.take(j as int).map_values(
                        |n: Seq<char>| (OriginView::Global, n, *location, Kind::Read, true, true),
                    ),
                decreases names@.len() - j,
            {
                let ghost b = accesses@;
                assert(all[j as int] == names@[j as int]@);
                accesses.push(
                    Undetermined {
                        origin: Origin::Global,
                        info: Info { accessed_as: names[j].clone(), location: *location, kind: Kind::Read },
                        force_global_scope: true,
                        bypass_global_modifier: true,
                    },
                );
                assert(und_views(accesses@) =~= und_views(b).push(und_view(accesses@.last())));
                assert(all.take(j + 1) =~= all.take(j as int).push(all[j as int]));
                assert(und_views(accesses@) =~= before + all.take(j + 1).map_values(
                    |n: Seq<char>| (OriginView::Global, n, *location, Kind::Read, true, true),
                ));
                j += 1;
            }
            assert(all.take(j as int) =~= all);
        } else {
            assert(und_views(accesses@) =~= before + Seq::empty());
        }
        assert(und_views(accesses@) =~= und_views(old(accesses)@) + format_reads(formats@.take(i + 1), *location));
        i += 1;
    }
    assert(formats@.take(i as int) =~= formats@);
}

/// The reads and writes that a call `fc` to the builtin `cf` makes of the names passed
/// to its reference arguments among its first `n`: each is read, then written with an
/// unknown value.
pub open spec fn builtin_ref_views(fc: FunCall, cf: Fun, n: int) -> Seq<(OriginView, Seq<char>, Location, Kind, bool, bool)>
    decreases n,
{
    if n <= 0 {
        Seq::empty()
    } else {
        let i = n - 1;
        builtin_ref_views(fc, cf, i) + if i < fc.params@.len() && i < cf.args@.len() && cf.args@[i].is_ref {
            param_rw_views(fc.params@[i]@)
        } else {
            Seq::empty()
        }
    }
}

/// A read then a write (of an unknown value) of each name among the parameters `ps`.
pub open spec fn param_rw_views(ps: Seq<Param>) -> Seq<(OriginView, Seq<char>, Location, Kind, bool, bool)>
    decreases ps.len(),
{
    if ps.len() == 0 {
        Seq::empty()
    } else {
        param_rw_views(ps.drop_last()) + match ps.last().kind {
            ParamKind::Identifier { name } => seq![
                (OriginView::Undetermined, name@, ps.last().location, Kind::Read, false, false),
                (
                    OriginView::Undetermined,
                    name@,
                    ps.last().location,
                    Kind::Write { value: Value::Unknown, potential: false },
                    false,
                    false,
                ),
            ],
            _ => Seq::empty(),
        }
    }
}

/// The accesses that a call `fc` to the builtin `cf` makes: its reference arguments are
/// taken as read and written (a builtin's body was never parsed), then the placeholders
/// of `sprintf`'s format strings are read at `loc`.
pub open spec fn builtin_views(fc: FunCall, cf: Fun, loc: Location) -> Seq<(OriginView, Seq<char>, Location, Kind, bool, bool)> {
    builtin_ref_views(fc, cf, cf.args@.len() as int) + sprintf_views(fc, cf, loc)
}

/// Adds the accesses that a call to a builtin makes (see `builtin_views`); `location` is
/// where the call stands.
pub fn get_accesses_from_builtin_fun_call(
    accesses: &mut Vec<Undetermined>,
    fun_call: &FunCall,
    called_fun: &Fun,
    location: &Location,
)
    ensures
        und_views(final(accesses)@) == und_views(old(accesses)@) + builtin_views(*fun_call, *called_fun, *location),
{
    let mut i: usize = 0;
    assert(und_views(accesses@) =~= und_views(old(accesses)@) + builtin_ref_views(*fun_call, *called_fun, 0));
    while i < called_fun.args.len()
        invariant
            i <= called_fun.args@.len(),
            und_views(accesses@) == und_views(old(accesses)@) + builtin_ref_views(*fun_call, *called_fun, i as int),
        decreases called_fun.args@.len() - i,
    {
        let ghost before = und_views(accesses@);
        if i < fun_call.params.len() && called_fun.args[i].is_ref {
            let params = &fun_call.params[i];
            let mut j: usize = 0;
            assert(params@.take(0) =~= Seq::<Param>::empty());
            assert(und_views(accesses@) =~= before + param_rw_views(params@.take(0)));
            while j < params.len()
                invariant
                    j <= params@.len(),
                    und_views(accesses@) == before + param_rw_views(params@.take(j as int)),
                decreases params@.len() - j,
            {
                assert(params@.take(j + 1).drop_last() =~= params@.take(j as int));
                let ghost b = accesses@;
                if let ParamKind::Identifier { name } = &params[j].kind {
                    accesses.push(
                        Undetermined {
                            origin: Origin::Undetermined,
                            info: Info { location: params[j].location, accessed_as: name.clone(), kind: Kind::Read },
                            force_global_scope: false,
                            bypass_global_modifier: false,
                        },
                    );
                    accesses.push(
                        Undetermined {
                            origin: Origin::Undetermined,
                            info: Info {
                                location: params[j].location,
                                accessed_as: name.clone(),
                                kind: Kind::Write { value: Value::Unknown, potential: false },
                            },
                            force_global_scope: false,
                            bypass_global_modifier: false,
                        },
                    );
                    assert(und_views(accesses@) =~= und_views(b).push(und_view(accesses@[accesses@.len() - 2])).push(und_view(accesses@.last())));
                }
                assert(und_views(accesses@) =~= before + param_rw_views(params@.take(j + 1)));
                j += 1;
            }
            assert(params@.take(j as int) =~= params@);
        }
        assert(und_views(accesses@) =~= und_views(old(accesses)@) + builtin_ref_views(*fun_call, *called_fun, i + 1));
        i += 1;
    }
    let ghost mid = und_views(accesses@);
    get_accesses_from_sprintf(called_fun, fun_call, accesses, location);
    assert(und_views(accesses@) =~= und_views(old(accesses)@) + builtin_views(*fun_call, *called_fun, *location));
}

/// The accesses that the returns `rets` of the parameter at `idx` of a call to `fun` make:
/// passed by reference when it goes to a reference argument, else read.
pub open spec fn param_returns_views(rets: Seq<Return>, fun: Option<Fun>, idx: int) -> Seq<(OriginView, Seq<char>, Location, Kind, bool, bool)> {
    let is_ref = match fun {
        Some(f) => fun_arg_at(f, idx) matches Some(a) && a.is_ref,
        None => false,
    };
    und_views(
        rets_accesses(rets, if is_ref {
            Kind::PassedByRef
        } else {
            Kind::Read
        }),
    )
}

/// The accesses of kind `kind` to the names among `rets`, in order.
pub open spec fn rets_accesses(rets: Seq<Return>, kind: Kind) -> Seq<Undetermined>
    decreases rets.len(),
{
    if rets.len() == 0 {
        Seq::empty()
    } else {
        rets_accesses(rets.drop_last(), kind) + match rets.last().spec_to_undetermined(kind) {
            Some(u) => seq![u],
            None => Seq::empty(),
        }
    }
}

/// Adds the accesses that the parameter at `param_idx` of a call to `fun` makes through
/// what it returns (`rets`, once the parameter was explored): names passed to a reference
/// argument are passed by reference, the others read.
pub fn get_accesses_from_param_returns(
    rets: &Option<Vec<Return>>,
    param_idx: usize,
    accesses: &mut Vec<Undetermined>,
    fun: Option<&Fun>,
)
    ensures
        und_views(final(accesses)@) == und_views(old(accesses)@) + match *rets {
            Some(v) => param_returns_views(
                v@,
                match fun {
                    Some(f) => Some(*f),
                    None => None,
                },
                param_idx as int,
            ),
            None => Seq::empty(),
        },
{
    let ghost before = und_views(accesses@);
    if let Some(rets) = rets {
        let is_ref = match fun {
            Some(f) => match f.get_arg(param_idx) {
                Some(a) => a.is_ref,
                None => false,
            },
            None => false,
        };
        let ghost kind = if is_ref {
            Kind::PassedByRef
        } else {
            Kind::Read
        };
        let mut j: usize = 0;
        assert(rets@.take(0) =~= Seq::<Return>::empty());
        assert(und_views(accesses@) =~= before + und_views(rets_accesses(rets@.take(0), kind)));
        while j < rets.len()
            invariant
                j <= rets@.len(),
                kind == if is_ref {
                    Kind::PassedByRef
                } else {
                    Kind::Read
                },
                und_views(accesses@) == before + und_views(rets_accesses(rets@.take(j as int), kind)),
            decreases rets@.len() - j,
        {
            assert(rets@.take(j + 1).drop_last() =~= rets@.take(j as int));
            let ghost b = accesses@;
            let access = if is_ref {
                rets[j].to_passed_by_ref()
            } else {
                rets[j].to_read()
            };
            if let Some(a) = access {
                accesses.push(a);
                assert(und_views(accesses@) =~= und_views(b).push(und_view(a)));
            }
            assert(und_views(accesses@) =~= before + und_views(rets_accesses(rets@.take(j + 1), kind)));
            j += 1;
        }
        assert(rets@.take(j as int) =~= rets@);
    } else {
        assert(und_views(accesses@) =~= before + Seq::empty());
    }
}

/// The position of the call with identifier `uuid` among `calls`.
pub open spec fn call_index(calls: Seq<FunCall>, uuid: u128) -> Option<int>
    decreases calls.len(),
{
    if calls.len() == 0 {
        None
    } else {
        match call_index(calls.drop_last(), uuid) {
            Some(i) => Some(i),
            None => if calls.last().uuid == uuid {
                Some(calls.len() - 1)
            } else {
                None
            },
        }
    }
}

pub proof fn lemma_call_index(calls: Seq<FunCall>, uuid: u128)
    ensures
        call_index(calls, uuid) matches Some(i) ==> 0 <= i < calls.len() && calls[i].uuid == uuid
            && forall|j: int| 0 <= j < i ==> calls[j].uuid != uuid,
        call_index(calls, uuid) is None ==> forall|j: int| 0 <= j < calls.len() ==> calls[j].uuid != uuid,
    decreases calls.len(),
{
    if calls.len() > 0 {
        let t = calls.drop_last();
        lemma_call_index(t, uuid);
        assert forall|j: int| 0 <= j < t.len() implies t[j] == calls[j] by {}
    }
}

/// The call with identifier `uuid` among `calls`.
pub fn find_call<'a>(calls: &'a Vec<FunCall>, uuid: u128) -> (r: Option<&'a FunCall>)
    ensures
        match call_index(calls@, uuid) {
            Some(i) => r == Some(&calls@[i]),
            None => r is None,
        },
{
    proof {
        lemma_call_index(calls@, uuid);
    }
    let mut i: usize = 0;
    while i < calls.len()
        invariant
            i <= calls@.len(),
            forall|j: int| 0 <= j < i ==> calls@[j].uuid != uuid,
        decreases calls@.len() - i,
    {
        if calls[i].uuid == uuid {
            proof {
                lemma_call_index(calls@, uuid);
            }
            return Some(&calls[i]);
        }
        i += 1;
    }
    None
}

/// The accesses that the call `fc` itself makes, once its parameters were explored, when
/// the called function is known (see `builtin_views` and `call_views`).
pub open spec fn fun_call_views(fc: FunCall, loc: Location) -> Seq<(OriginView, Seq<char>, Location, Kind, bool, bool)> {
    match fc.fun {
        Some(cf) => if cf.is_builtin {
            builtin_views(fc, *cf, loc)
        } else {
            call_views(cf.scope.accesses@, fc, *cf)
        },
        None => Seq::empty(),
    }
}

/// Adds the accesses that the call with identifier `uuid` (standing at `location`) makes,
/// once its parameters were explored (see `fun_call_views`); returns what the called
/// function returns, if it is known and returns anything.
pub fn get_accesses_from_fun_call(
    accesses: &mut Vec<Undetermined>,
    fun_calls: &Vec<FunCall>,
    uuid: u128,
    location: &Location,
) -> (r: Option<Vec<Return>>)
    requires
        call_index(fun_calls@, uuid) is Some,
    ensures
        ({
            let fc = fun_calls@[call_index(fun_calls@, uuid)->0];
            &&& und_views(final(accesses)@) == und_views(old(accesses)@) + fun_call_views(fc, *location)
            &&& match fc.fun {
                Some(cf) => if cf.scope.returns@.len() == 0 {
                    r is None
                } else {
                    r matches Some(v) && v@ == cf.scope.returns@
                },
                None => r is None,
            }
        }),
{
    let fun_call = find_call(fun_calls, uuid).unwrap();
    let ghost before = und_views(accesses@);
    let called_fun = match &fun_call.fun {
        Some(f) => f,
        None => {
            assert(und_views(accesses@) =~= before + fun_call_views(*fun_call, *location));
            return None;
        },
    };
    if called_fun.is_builtin {
        get_accesses_from_builtin_fun_call(accesses, fun_call, called_fun, location);
    } else {
        get_accesses_from_user_fun_call(fun_call, called_fun, accesses);
    }
    assert(und_views(accesses@) =~= before + fun_call_views(*fun_call, *location));
    if called_fun.scope.returns.len() == 0 {
        return None;
    }
    let mut copied: Vec<Return> = Vec::new();
    let mut i: usize = 0;
    while i < called_fun.scope.returns.len()
        invariant
            i <= called_fun.scope.returns@.len(),
            copied@ == called_fun.scope.returns@.take(i as int),
        decreases called_fun.scope.returns@.len() - i,
    {
        copied.push(called_fun.scope.returns[i].clone());
        assert(copied@ =~= called_fun.scope.returns@.take(i + 1));
        i += 1;
    }
    assert(copied@ =~= called_fun.scope.returns@);
    Some(copied)
}

} // verus!
