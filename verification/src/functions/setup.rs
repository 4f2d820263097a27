use vstd::prelude::*;

use crate::access::undetermined::{seen_kind, seen_origin};
use crate::access::{
    fun_returns_to_read_accesses, previous_value, reads_of, Return, ReturnKind, Undetermined, WithinFunction,
};
use crate::functions::context::{collect, fun_context, outcome_of};
use crate::ast::{identifier_of, Ast, LocatedAst};
use crate::context::MaybeContext;
use crate::functions::args::{arg_node_ok, arg_of, collect_args, collect_fn_mods, mod_node_ok, modifiers_from};
use crate::functions::{var_kind_view, Fun, FunCall, FunScope};
use crate::variables::BuiltinVar;

verus! {

/// The return `r` of a function body as the function keeps it: a name replaced by the value
/// it was last written with among `accesses`.
pub open spec fn valued(r: Return, accesses: Seq<Undetermined>) -> Return {
    Return {
        kind: match r.kind {
            ReturnKind::Named(name) => ReturnKind::Value(previous_value(name@, accesses)),
            ReturnKind::Value(v) => ReturnKind::Value(v),
        },
        ..r
    }
}

/// Whether `w` is the access `a` as seen from within `f`, with the identifier `uuid`.
pub open spec fn seen_as(w: WithinFunction, f: Fun, a: Undetermined, uuid: u128) -> bool {
    &&& var_kind_view(w.var_kind) == seen_kind(f, a)
    &&& w.origin == seen_origin(seen_kind(f, a), a.origin, uuid)
    &&& w.info == a.info
    &&& w.uuid == uuid
}

/// The accesses that a function body adds to its function: its own accesses, then a read
/// of each name it returns.
pub open spec fn body_accesses(accesses: Seq<Undetermined>, rets: Option<Vec<Return>>) -> Seq<Undetermined> {
    accesses + match rets {
        Some(v) => reads_of(v@),
        None => Seq::empty(),
    }
}

impl Fun {
    /// Completes the definition once its body was explored: `fun_accesses` and
    /// `fun_returns` are what the body accesses and returns, `uuids` the fresh identifiers
    /// of the accesses the function gains (see `body_accesses`), in order. The function
    /// keeps each of these accesses as seen from within itself; its returns, names replaced
    /// by their values; it has side effects when the body writes anything; its context is
    /// gathered from `fun_calls_in_this_fn` and the builtin variables `builtin_vars`.
    pub fn finish_setup(
        &mut self,
        fun_accesses: &Vec<Undetermined>,
        fun_returns: &Option<Vec<Return>>,
        uuids: &Vec<u128>,
        fun_calls_in_this_fn: &Vec<FunCall>,
        builtin_vars: &Vec<BuiltinVar>,
    )
        requires
            uuids@.len() == body_accesses(fun_accesses@, *fun_returns).len(),
        ensures
            ({
                let all = body_accesses(fun_accesses@, *fun_returns);
                let before = old(self).scope.accesses@;
                let after = final(self).scope.accesses@;
                &&& after.len() == before.len() + all.len()
                &&& forall|k: int| 0 <= k < before.len() ==> #[trigger] after[k] == before[k]
                &&& forall|k: int|
                    0 <= k < all.len() ==> seen_as(#[trigger] after[before.len() + k], *old(self), all[k], uuids@[k])
            }),
            final(self).scope.returns@ == match *fun_returns {
                Some(v) => v@.map_values(|r: Return| valued(r, fun_accesses@)),
                None => Seq::empty(),
            },
            final(self).has_side_effects == (old(self).has_side_effects || exists|k: int|
                0 <= k < fun_accesses@.len() && (#[trigger] fun_accesses@[k]).info.kind is Write),
            outcome_of(final(self).context) == fun_context(fun_calls_in_this_fn@, *final(self), builtin_vars@),
            final(self).name == old(self).name,
            final(self).args == old(self).args,
            final(self).modifiers == old(self).modifiers,
            final(self).uuid == old(self).uuid,
            final(self).location == old(self).location,
            final(self).is_builtin == old(self).is_builtin,
    {
        let mut all: Vec<Undetermined> = Vec::new();
        let mut i: usize = 0;
        while i < fun_accesses.len()
            invariant
                i <= fun_accesses@.len(),
                all@ == fun_accesses@.take(i as int),
            decreases fun_accesses@.len() - i,
        {
            all.push(fun_accesses[i].clone());
            assert(all@ =~= fun_accesses@.take(i + 1));
            i += 1;
        }
        assert(fun_accesses@.take(i as int) =~= fun_accesses@);
        fun_returns_to_read_accesses(fun_returns, &mut all);
        assert(all@ == body_accesses(fun_accesses@, *fun_returns));
        let ghost start = *self;
        let mut seen: Vec<WithinFunction> = Vec::new();
        let mut j: usize = 0;
        while j < all.len()
            invariant
                j <= all@.len(),
                uuids@.len() == all@.len(),
                *self == start,
                seen@.len() == j,
                forall|k: int| 0 <= k < j ==> seen_as(#[trigger] seen@[k], start, all@[k], uuids@[k]),
            decreases all@.len() - j,
        {
            let w = all[j].to_within_function(self, uuids[j]);
            seen.push(w);
            j += 1;
        }
        let ghost before = self.scope.accesses@;
        let ghost seen_all = seen@;
        self.scope.accesses.append(&mut seen);
        assert(self.scope.accesses@ == before + seen_all);
        let mut kept: Vec<Return> = Vec::new();
        match fun_returns {
            Some(v) => {
                let mut r: usize = 0;
                while r < v.len()
                    invariant
                        r <= v@.len(),
                        kept@ == v@.take(r as int).map_values(|x: Return| valued(x, fun_accesses@)),
                    decreases v@.len() - r,
                {
                    let x = v[r].named_to_value(fun_accesses);
                    assert(x == valued(v@[r as int], fun_accesses@));
                    kept.push(x);
                    assert(kept@ =~= v@.take(r + 1).map_values(|x: Return| valued(x, fun_accesses@)));
                    r += 1;
                }
                assert(v@.take(r as int) =~= v@);
            },
            None => {},
        }
        self.scope.returns = kept;
        let mut writes = false;
        let mut w: usize = 0;
        while w < fun_accesses.len()
            invariant
                w <= fun_accesses@.len(),
                writes == exists|x: int| 0 <= x < w && (#[trigger] fun_accesses@[x]).info.kind is Write,
            decreases fun_accesses@.len() - w,
        {
            if fun_accesses[w].info.is_write() {
                writes = true;
            }
            w += 1;
        }
        self.has_side_effects = self.has_side_effects || writes;
        let context = collect(fun_calls_in_this_fn, builtin_vars, self);
        self.context = context;
    }
}

/// Whether a function definition can be set up from the node `n`: a definition whose name
/// is an identifier and whose arguments and modifiers are well formed.
pub open spec fn definition_ok(n: LocatedAst) -> bool {
    match n.ast {
        Ast::Fun { identifier, args, modifiers, .. } => {
            &&& identifier_of(identifier.ast) is Some
            &&& (args matches Some(v) ==> forall|i: int| 0 <= i < v@.len() ==> #[trigger] arg_node_ok(v@[i]))
            &&& (modifiers matches Some(v) ==> forall|i: int| 0 <= i < v@.len() ==> #[trigger] mod_node_ok(v@[i]))
        },
        _ => false,
    }
}

/// Whether one of the calls `cs` calls a function with side effects.
pub open spec fn calls_with_side_effects(cs: Seq<FunCall>) -> bool {
    exists|k: int| 0 <= k < cs.len() && ((#[trigger] cs[k]).fun matches Some(f) && f.has_side_effects)
}

impl Fun {
    /// Starts the definition of the function that the node `ast_loc` defines, whose body
    /// makes the calls `fun_calls_in_this_fn`; `writes_memory` tells whether the body
    /// assigns to a memory access. The name, arguments and modifiers come from the node;
    /// the context is unknown and the scope empty until `finish_setup`; the function has
    /// side effects when its body writes memory or calls a function with side effects.
    pub fn start_setup(ast_loc: &LocatedAst, fun_calls_in_this_fn: &Vec<FunCall>, writes_memory: bool) -> (r: Fun)
        requires
            definition_ok(*ast_loc),
        ensures
            match ast_loc.ast {
                Ast::Fun { identifier, args, modifiers, uuid, .. } => {
                    &&& r.name@ == identifier_of(identifier.ast)->0
                    &&& r.args@ == match args {
                        Some(v) => v@.map_values(|a: LocatedAst| arg_of(a)),
                        None => Seq::empty(),
                    }
                    &&& modifiers_from(
                        r.modifiers,
                        match modifiers {
                            Some(v) => v@,
                            None => Seq::empty(),
                        },
                    )
                    &&& r.location == Some(identifier.location)
                    &&& r.uuid == uuid
                },
                _ => false,
            },
            r.context is Unknown,
            !r.is_builtin,
            r.scope.accesses@.len() == 0,
            r.scope.returns@.len() == 0,
            r.has_side_effects == (writes_memory || calls_with_side_effects(fun_calls_in_this_fn@)),
    {
        match &ast_loc.ast {
            Ast::Fun { identifier, args, modifiers, uuid, .. } => {
                let name = identifier.ast.identifier().unwrap().clone();
                let args_vec = match args {
                    Some(v) => collect_args(v),
                    None => Vec::new(),
                };
                let mods = collect_fn_mods(modifiers);
                let mut calls_effects = false;
                let mut k: usize = 0;
                while k < fun_calls_in_this_fn.len()
                    invariant
                        k <= fun_calls_in_this_fn@.len(),
                        calls_effects == exists|x: int|
                            0 <= x < k && ((#[trigger] fun_calls_in_this_fn@[x]).fun matches Some(f) && f.has_side_effects),
                    decreases fun_calls_in_this_fn@.len() - k,
                {
                    let hit = match &fun_calls_in_this_fn[k].fun {
                        Some(f) => f.has_side_effects,
                        None => false,
                    };
                    if hit {
                        calls_effects = true;
                    }
                    k += 1;
                }
                Fun {
                    name,
                    args: args_vec,
                    modifiers: mods,
                    context: MaybeContext::Unknown,
                    location: Some(identifier.location),
                    is_builtin: false,
                    uuid: *uuid,
                    scope: FunScope { accesses: Vec::new(), returns: Vec::new() },
                    has_side_effects: writes_memory || calls_effects,
                }
            },
            _ => {
                assert(false);
                Fun {
                    name: String::new(),
                    args: Vec::new(),
                    modifiers: collect_fn_mods(&None),
                    context: MaybeContext::Unknown,
                    location: None,
                    is_builtin: false,
                    uuid: 0,
                    scope: FunScope { accesses: Vec::new(), returns: Vec::new() },
                    has_side_effects: false,
                }
            },
        }
    }
}

} // verus!
