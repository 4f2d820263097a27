use vstd::prelude::*;

use crate::ast::{string_chain, Ast, LocatedAst};
use crate::functions::{Fun, Param, ParamKind};

verus! {

/// Whether a parameter expression can return a node like `a`: not a definition, an
/// argument, a program, a block, a condition, a modifier or nothing.
pub open spec fn returnable(a: Ast) -> bool {
    !(a is Fun || a is Arg || a is Program || a is Unnecessary || a is If || a is Void
        || a is Compound || a is FunMod)
}

/// Whether `p` is the parameter that the return value `ret` of a parameter expression
/// stands for, at the same place: a name for a name, the whole text for a chain of string
/// literals, another value for anything else.
pub open spec fn param_from(p: Param, ret: LocatedAst) -> bool {
    &&& p.location == ret.location
    &&& match ret.ast {
        Ast::Identifier { value, .. } => p.kind matches ParamKind::Identifier { name } && name@
            == value@,
        Ast::StringIdentifier { value, .. } => p.kind matches ParamKind::Identifier { name }
            && name@ == value@,
        Ast::String { .. } => p.kind matches ParamKind::StringValue { value } && value@
            == string_chain(ret.ast),
        _ => p.kind is OtherValue,
    }
}

/// The parameter that the return value `ret` stands for (see `param_from`).
fn param_of(ret: &LocatedAst) -> (r: Param)
    requires
        returnable(ret.ast),
    ensures
        param_from(r, *ret),
{
    let kind = match &ret.ast {
        Ast::Identifier { value, .. } => ParamKind::Identifier { name: value.clone() },
        Ast::StringIdentifier { value, .. } => ParamKind::Identifier { name: value.clone() },
        Ast::String { .. } => ParamKind::StringValue { value: ret.ast.get_entire_string() },
        _ => ParamKind::OtherValue,
    };
    Param { kind, location: ret.location }
}

/// Whether each return value of `rs` can stand for a parameter.
pub open spec fn all_returnable(rs: Seq<Vec<&LocatedAst>>) -> bool {
    forall|i: int, j: int| 0 <= i < rs.len() && 0 <= j < rs[i]@.len() ==> returnable(#[trigger] rs[i]@[j].ast)
}

/// Whether `params` holds, for each list of return values of `rs`, the parameters they
/// stand for, in order.
pub open spec fn params_from(params: Seq<Vec<Param>>, rs: Seq<Vec<&LocatedAst>>) -> bool {
    &&& params.len() == rs.len()
    &&& forall|i: int| 0 <= i < rs.len() ==> (#[trigger] params[i])@.len() == rs[i]@.len()
    &&& forall|i: int, j: int|
        0 <= i < rs.len() && 0 <= j < rs[i]@.len() ==> param_from(#[trigger] params[i]@[j], *rs[i]@[j])
}

/// The parameters of a call, from what each of its parameter expressions may return
/// (`param_returns[i]` for the `i`-th; a condition may return several values): for each
/// expression, the parameter each of its return values stands for, in order; nothing
/// when the call has no parameter list. `fun` is the called function.
#[allow(unused_variables)]
pub fn collect(param_returns: &Option<Vec<Vec<&LocatedAst>>>, fun: &Fun) -> (r: Vec<Vec<Param>>)
    requires
        (match *param_returns {
            Some(rs) => all_returnable(rs@),
            None => true,
        }),
    ensures
        (match *param_returns {
            Some(rs) => params_from(r@, rs@),
            None => r@.len() == 0,
        }),
{
    let mut params_vec: Vec<Vec<Param>> = Vec::new();
    let rs = match param_returns {
        Some(rs) => rs,
        None => {
            return params_vec;
        },
    };
    let mut i: usize = 0;
    while i < rs.len()
        invariant
            i <= rs@.len(),
            *param_returns == Some(*rs),
            all_returnable(rs@),
            params_vec@.len() == i,
            forall|a: int| 0 <= a < i ==> (#[trigger] params_vec@[a])@.len() == rs@[a]@.len(),
            forall|a: int, b: int|
                0 <= a < i && 0 <= b < rs@[a]@.len() ==> param_from(#[trigger] params_vec@[a]@[b], *rs@[a]@[b]),
        decreases rs@.len() - i,
    {
        let rets = &rs[i];
        let mut this_param_vec: Vec<Param> = Vec::new();
        let mut j: usize = 0;
        while j < rets.len()
            invariant
                i < rs@.len(),
                *rets == rs@[i as int],
                j <= rets@.len(),
                forall|b: int| 0 <= b < rets@.len() ==> returnable(#[trigger] rets@[b].ast),
                this_param_vec@.len() == j,
                forall|b: int| 0 <= b < j ==> param_from(#[trigger] this_param_vec@[b], *rets@[b]),
            decreases rets@.len() - j,
        {
            assert(returnable(rs@[i as int]@[j as int].ast));
            this_param_vec.push(param_of(rets[j]));
            j += 1;
        }
        params_vec.push(this_param_vec);
        i += 1;
    }
    params_vec
}

} // verus!
