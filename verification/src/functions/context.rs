use vstd::prelude::*;

use crate::access::{VarKind, WithinFunction};
use crate::context::{Context, ContextDemander, MaybeContext};
use crate::functions::{Fun, FunCall};
use crate::text::{lower, str_eq, to_lower};
use crate::variables::BuiltinVar;

verus! {

/// What is known of the sections some code may run in, as plain values.
pub enum Outcome {
    Known(u8),
    Incompatible(Seq<ContextDemander>),
    Unknown,
    NoRestriction,
}

/// What a `MaybeContext` says.
pub open spec fn outcome_of(m: MaybeContext) -> Outcome {
    match m {
        MaybeContext::Known(c) => Outcome::Known(c.bits()),
        MaybeContext::HasIncompatibleDemanders(v) => Outcome::Incompatible(v@),
        MaybeContext::Unknown => Outcome::Unknown,
        MaybeContext::NoRestriction => Outcome::NoRestriction,
    }
}

/// Where gathering a function's context stands: still going, with the sections allowed
/// so far and what restricted them, or settled.
pub enum Gather {
    Going(u8, Seq<ContextDemander>),
    Settled(Outcome),
}

/// One more restriction `c` from `d`: the allowed sections shrink; none left settles it.
pub open spec fn restrict(bits: u8, ds: Seq<ContextDemander>, c: u8, d: ContextDemander) -> Gather {
    let b = bits & c;
    if b == 0 {
        Gather::Settled(Outcome::Incompatible(ds.push(d)))
    } else {
        Gather::Going(b, ds.push(d))
    }
}

/// What the calls `cs` make of the gathering: a call to an unknown function or to a
/// function without restriction changes nothing, one to a function of unknown or
/// incompatible context settles it as unknown, one to a function with a context
/// restricts it.
pub open spec fn calls_fold(cs: Seq<FunCall>) -> Gather
    decreases cs.len(),
{
    if cs.len() == 0 {
        Gather::Going(63, Seq::empty())
    } else {
        match calls_fold(cs.drop_last()) {
            Gather::Settled(o) => Gather::Settled(o),
            Gather::Going(bits, ds) => match cs.last().fun {
                None => Gather::Going(bits, ds),
                Some(f) => match f.context {
                    MaybeContext::NoRestriction => Gather::Going(bits, ds),
                    MaybeContext::Unknown => Gather::Settled(Outcome::Unknown),
                    MaybeContext::HasIncompatibleDemanders(_) => Gather::Settled(Outcome::Unknown),
                    MaybeContext::Known(c) => restrict(
                        bits,
                        ds,
                        c.bits(),
                        ContextDemander::FunctionCall { context: c, fun_name: f.name },
                    ),
                },
            },
        }
    }
}

/// The position of the builtin variable named `name` among `vars`.
pub open spec fn builtin_index(vars: Seq<BuiltinVar>, name: Seq<char>) -> Option<int>
    decreases vars.len(),
{
    if vars.len() == 0 {
        None
    } else {
        match builtin_index(vars.drop_last(), name) {
            Some(i) => Some(i),
            None => if vars.last().name@ == name {
                Some(vars.len() - 1)
            } else {
                None
            },
        }
    }
}

pub proof fn lemma_builtin_index(vars: Seq<BuiltinVar>, name: Seq<char>)
    ensures
        builtin_index(vars, name) matches Some(i) ==> 0 <= i < vars.len() && vars[i].name@ == name
            && forall|j: int| 0 <= j < i ==> vars[j].name@ != name,
        builtin_index(vars, name) is None ==> forall|j: int| 0 <= j < vars.len() ==> vars[j].name@ != name,
    decreases vars.len(),
{
    if vars.len() > 0 {
        let t = vars.drop_last();
        lemma_builtin_index(t, name);
        assert forall|j: int| 0 <= j < t.len() implies t[j] == vars[j] by {}
    }
}

/// What the accesses `acc` make of the gathering `g`: an access to a global that is a
/// builtin variable with a context restricts it.
pub open spec fn accesses_fold(g: Gather, acc: Seq<WithinFunction>, vars: Seq<BuiltinVar>) -> Gather
    decreases acc.len(),
{
    if acc.len() == 0 {
        g
    } else {
        match accesses_fold(g, acc.drop_last(), vars) {
            Gather::Settled(o) => Gather::Settled(o),
            Gather::Going(bits, ds) => if acc.last().var_kind is Global {
                match builtin_index(vars, lower(acc.last().info.accessed_as@)) {
                    Some(j) => match vars[j].context {
                        Some(c) => restrict(bits, ds, c.bits(), ContextDemander::Variable(vars[j])),
                        None => Gather::Going(bits, ds),
                    },
                    None => Gather::Going(bits, ds),
                }
            } else {
                Gather::Going(bits, ds)
            },
        }
    }
}

/// The context of a function: the intersection of the contexts of the functions it
/// calls and of the builtin variables it accesses, what made it empty if it is, unknown
/// if a called function's context is, and no restriction if nothing restricts it.
pub open spec fn fun_context(calls: Seq<FunCall>, fun: Fun, vars: Seq<BuiltinVar>) -> Outcome {
    match accesses_fold(calls_fold(calls), fun.scope.accesses@, vars) {
        Gather::Settled(o) => o,
        Gather::Going(bits, _) => if bits == 63 {
            Outcome::NoRestriction
        } else {
            Outcome::Known(bits)
        },
    }
}

/// The builtin variable named `name` among `vars`.
pub fn find_builtin<'a>(vars: &'a Vec<BuiltinVar>, name: &str) -> (r: Option<&'a BuiltinVar>)
    ensures
        match builtin_index(vars@, name@) {
            Some(j) => r == Some(&vars@[j]),
            None => r is None,
        },
{
    proof {
        lemma_builtin_index(vars@, name@);
    }
    let mut i: usize = 0;
    while i < vars.len()
        invariant
            i <= vars@.len(),
            forall|j: int| 0 <= j < i ==> vars@[j].name@ != name@,
        decreases vars@.len() - i,
    {
        if str_eq(vars[i].name.as_str(), name) {
            proof {
                lemma_builtin_index(vars@, name@);
            }
            return Some(&vars[i]);
        }
        i += 1;
    }
    None
}

/// Gathers the context of `fun`, whose body makes the calls `fun_calls_in_this_fn`,
/// given the builtin variables `builtin_vars` (see `fun_context`).
pub fn collect(
    fun_calls_in_this_fn: &Vec<FunCall>,
    builtin_vars: &Vec<BuiltinVar>,
    fun: &Fun,
) -> (r: MaybeContext)
    ensures
        outcome_of(r) == fun_context(fun_calls_in_this_fn@, *fun, builtin_vars@),
{
    let ghost cs = fun_calls_in_this_fn@;
    let mut context = Context::new();
    let mut contexts: Vec<ContextDemander> = Vec::new();
    let mut i: usize = 0;
    assert(cs.take(0) =~= Seq::<FunCall>::empty());
    while i < fun_calls_in_this_fn.len()
        invariant
            i <= cs.len(),
            cs == fun_calls_in_this_fn@,
            calls_fold(cs.take(i as int)) == Gather::Going(context.bits(), contexts@),
        decreases cs.len() - i,
    {
        assert(cs.take(i + 1).drop_last() =~= cs.take(i as int));
        let called = &fun_calls_in_this_fn[i];
        match &called.fun {
            None => {},
            Some(called_fun) => {
                match &called_fun.context {
                    MaybeContext::NoRestriction => {},
                    MaybeContext::Unknown => {
                        proof {
                            lemma_settled_calls(cs, i as int + 1);
                            lemma_settled_stays(Outcome::Unknown, fun.scope.accesses@, builtin_vars@);
                        }
                        return MaybeContext::Unknown;
                    },
                    MaybeContext::HasIncompatibleDemanders(_) => {
                        proof {
                            lemma_settled_calls(cs, i as int + 1);
                            lemma_settled_stays(Outcome::Unknown, fun.scope.accesses@, builtin_vars@);
                        }
                        return MaybeContext::Unknown;
                    },
                    MaybeContext::Known(called_fun_context) => {
                        contexts.push(
                            ContextDemander::FunctionCall {
                                context: called_fun_context.clone(),
                                fun_name: called_fun.name.clone(),
                            },
                        );
                        context = context.intersect(called_fun_context);
                        if context.is_empty() {
                            proof {
                                lemma_settled_calls(cs, i as int + 1);
                                lemma_settled_stays(Outcome::Incompatible(contexts@), fun.scope.accesses@, builtin_vars@);
                            }
                            return MaybeContext::HasIncompatibleDemanders(contexts);
                        }
                    },
                }
            },
        }
        i += 1;
    }
    assert(cs.take(i as int) =~= cs);
    let ghost g0 = calls_fold(cs);
    let acc = &fun.scope.accesses;
    let mut k: usize = 0;
    assert(acc@.take(0) =~= Seq::<WithinFunction>::empty());
    while k < acc.len()
        invariant
            k <= acc@.len(),
            acc@ == fun.scope.accesses@,
            g0 == calls_fold(fun_calls_in_this_fn@),
            accesses_fold(g0, acc@.take(k as int), builtin_vars@) == Gather::Going(context.bits(), contexts@),
        decreases acc@.len() - k,
    {
        assert(acc@.take(k + 1).drop_last() =~= acc@.take(k as int));
        let access = &acc[k];
        if let VarKind::Global { .. } = &access.var_kind {
            let name = to_lower(access.info.accessed_as.as_str());
            match find_builtin(builtin_vars, name.as_str()) {
                None => {},
                Some(builtin) => {
                    match &builtin.context {
                        None => {},
                        Some(builtin_context) => {
                            contexts.push(ContextDemander::Variable(builtin.clone()));
                            context = context.intersect(builtin_context);
                            if context.is_empty() {
                                proof {
                                    lemma_settled_accesses(g0, acc@, builtin_vars@, k as int + 1);
                                }
                                return MaybeContext::HasIncompatibleDemanders(contexts);
                            }
                        },
                    }
                },
            }
        }
        k += 1;
    }
    assert(acc@.take(k as int) =~= acc@);
    if context.is_compatible_with_all() {
        MaybeContext::NoRestriction
    } else {
        MaybeContext::Known(context)
    }
}

/// A settled gathering stays settled whatever the accesses.
proof fn lemma_settled_stays(o: Outcome, acc: Seq<WithinFunction>, vars: Seq<BuiltinVar>)
    ensures
        accesses_fold(Gather::Settled(o), acc, vars) == Gather::Settled(o),
    decreases acc.len(),
{
    if acc.len() > 0 {
        lemma_settled_stays(o, acc.drop_last(), vars);
    }
}

/// Once settled by the first `n` calls, the gathering stays settled.
proof fn lemma_settled_calls(cs: Seq<FunCall>, n: int)
    requires
        0 <= n <= cs.len(),
        calls_fold(cs.take(n)) is Settled,
    ensures
        calls_fold(cs) == calls_fold(cs.take(n)),
        accesses_fold(calls_fold(cs), Seq::empty(), Seq::empty()) == calls_fold(cs),
    decreases cs.len() - n,
{
    if n < cs.len() {
        assert(cs.take(n + 1).drop_last() =~= cs.take(n));
        lemma_settled_calls(cs, n + 1);
    } else {
        assert(cs.take(n) =~= cs);
    }
}

/// Once settled by the first `n` accesses, the gathering stays settled.
proof fn lemma_settled_accesses(g: Gather, acc: Seq<WithinFunction>, vars: Seq<BuiltinVar>, n: int)
    requires
        0 <= n <= acc.len(),
        accesses_fold(g, acc.take(n), vars) is Settled,
    ensures
        accesses_fold(g, acc, vars) == accesses_fold(g, acc.take(n), vars),
    decreases acc.len() - n,
{
    if n < acc.len() {
        assert(acc.take(n + 1).drop_last() =~= acc.take(n));
        lemma_settled_accesses(g, acc, vars, n + 1);
    } else {
        assert(acc.take(n) =~= acc);
    }
}

} // verus!
