use vstd::prelude::*;

use crate::access::{Origin, OriginDetails, Undetermined, VarKind, WithinFunction};
use crate::functions::{classify, global_accessible, var_kind_view, Fun, VarKindView};

verus! {

/// `o`, or `other` where `o` is undetermined.
pub open spec fn origin_or(o: Origin, other: Origin) -> Origin {
    match o {
        Origin::Undetermined => other,
        _ => o,
    }
}

/// How an access of `kind` is seen from a function: `kind` of the variable, unless the
/// access is forced into the global scope.
pub open spec fn seen_kind(f: Fun, u: Undetermined) -> VarKindView {
    if u.force_global_scope {
        VarKindView::Global { accessible: u.bypass_global_modifier || global_accessible(f, u.info.accessed_as@) }
    } else {
        classify(f, u.info.accessed_as@, u.bypass_global_modifier)
    }
}

/// The origin of an access of `kind` seen from a function, whose own identifier is `uuid`:
/// an access to `this`, to an instance variable or through a reference argument that has
/// no origin yet starts one named `uuid`.
pub open spec fn seen_origin(kind: VarKindView, o: Origin, uuid: u128) -> Origin {
    let d = OriginDetails { uuid, global_scope_navigation_override: None };
    match kind {
        VarKindView::This { .. } => origin_or(o, Origin::This(d)),
        VarKindView::Instance { .. } => origin_or(o, Origin::Instance(d)),
        VarKindView::RefArg { .. } => origin_or(o, Origin::Ref(d)),
        _ => o,
    }
}

impl Origin {
    /// The origin, or `other` where it is undetermined.
    pub fn or_if_undetermined(&self, other: Origin) -> (r: Origin)
        ensures
            r == origin_or(*self, other),
    {
        match self {
            Origin::Undetermined => other,
            _ => self.clone(),
        }
    }
}

impl Undetermined {
    /// The access as seen from within `fun`, given the identifier `uuid` of the new access
    /// (a fresh one).
    pub fn to_within_function(&self, fun: &Fun, uuid: u128) -> (r: WithinFunction)
        ensures
            var_kind_view(r.var_kind) == seen_kind(*fun, *self),
            r.origin == seen_origin(seen_kind(*fun, *self), self.origin, uuid),
            r.info == self.info,
            r.uuid == uuid,
    {
        let var_kind = if self.force_global_scope {
            let accessible = self.bypass_global_modifier || fun.global_var_is_accessible(&self.info.accessed_as);
            VarKind::Global { accessible }
        } else {
            fun.classify_variable(&self.info.accessed_as, self.bypass_global_modifier)
        };
        let details = OriginDetails { uuid, global_scope_navigation_override: None };
        let origin = match var_kind {
            VarKind::This { .. } => self.origin.or_if_undetermined(Origin::This(details)),
            VarKind::Instance { .. } => self.origin.or_if_undetermined(Origin::Instance(details)),
            VarKind::RefArg { .. } => self.origin.or_if_undetermined(Origin::Ref(details)),
            _ => self.origin.clone(),
        };
        WithinFunction { info: self.info.clone(), var_kind, uuid, origin }
    }
}

} // verus!
