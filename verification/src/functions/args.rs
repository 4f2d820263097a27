use vstd::prelude::*;

use crate::ast::{Ast, LocatedAst};
use crate::functions::{Arg, Modifier, ModifierKind, Modifiers};

verus! {

/// Whether `a` is an argument node whose identifier is a plain or a string identifier.
pub open spec fn arg_node_ok(a: LocatedAst) -> bool {
    a.ast matches Ast::Arg { identifier, .. } && (identifier.ast is Identifier
        || identifier.ast is StringIdentifier)
}

/// The argument that the argument node `a` declares.
pub open spec fn arg_of(a: LocatedAst) -> Arg {
    match a.ast {
        Ast::Arg { identifier, .. } => match identifier.ast {
            Ast::Identifier { value, is_ref } => Arg {
                name: value,
                is_ref,
                optional: false,
                is_str: false,
                location: Some(identifier.location),
            },
            Ast::StringIdentifier { value, is_ref } => Arg {
                name: value,
                is_ref,
                optional: false,
                is_str: true,
                location: Some(identifier.location),
            },
            _ => arbitrary(),
        },
        _ => arbitrary(),
    }
}

/// The arguments that the argument nodes `args` declare, in order.
pub fn collect_args(args_ast: &Vec<LocatedAst>) -> (r: Vec<Arg>)
    requires
        forall|i: int| 0 <= i < args_ast@.len() ==> #[trigger] arg_node_ok(args_ast@[i]),
    ensures
        r@ == args_ast@.map_values(|a: LocatedAst| arg_of(a)),
{
    let mut args_vec: Vec<Arg> = Vec::new();
    let mut i: usize = 0;
    while i < args_ast.len()
        invariant
            i <= args_ast@.len(),
            forall|k: int| 0 <= k < args_ast@.len() ==> #[trigger] arg_node_ok(args_ast@[k]),
            args_vec@ == args_ast@.take(i as int).map_values(|a: LocatedAst| arg_of(a)),
        decreases args_ast@.len() - i,
    {
        let a = &args_ast[i];
        assert(arg_node_ok(args_ast@[i as int]));
        let arg = collect_one(a);
        args_vec.push(arg);
        assert(args_ast@.take(i + 1).map_values(|a: LocatedAst| arg_of(a)) =~= args_ast@.take(
            i as int,
        ).map_values(|a: LocatedAst| arg_of(a)).push(arg_of(*a)));
        i += 1;
    }
    assert(args_ast@.take(i as int) =~= args_ast@);
    args_vec
}

/// The argument that the argument node `a` declares.
fn collect_one(a: &LocatedAst) -> (r: Arg)
    requires
        arg_node_ok(*a),
    ensures
        r == arg_of(*a),
{
    match &a.ast {
        Ast::Arg { identifier, .. } => match &identifier.ast {
            Ast::Identifier { value, is_ref } => Arg {
                name: value.clone(),
                is_ref: *is_ref,
                optional: false,
                is_str: false,
                location: Some(identifier.location),
            },
            Ast::StringIdentifier { value, is_ref } => Arg {
                name: value.clone(),
                is_ref: *is_ref,
                optional: false,
                is_str: true,
                location: Some(identifier.location),
            },
            _ => vstd::pervasive::unreached(),
        },
        _ => vstd::pervasive::unreached(),
    }
}

/// Whether `m` is a modifier node whose arguments are all argument nodes of identifiers.
pub open spec fn mod_node_ok(m: LocatedAst) -> bool {
    m.ast matches Ast::FunMod { args, .. } && (args matches Some(v) ==> forall|i: int|
        0 <= i < v@.len() ==> #[trigger] arg_node_ok(v@[i]))
}

/// Whether the modifier node `m` is of `kind`.
pub open spec fn mod_kind_is(m: LocatedAst, kind: ModifierKind) -> bool {
    m.ast matches Ast::FunMod { kind: k, .. } && k == kind
}

/// Whether `m` is the modifier that the modifier node `n` declares: its arguments and
/// where it stands.
pub open spec fn modifier_of(m: Modifier, n: LocatedAst) -> bool {
    &&& m.location == n.location
    &&& match n.ast {
        Ast::FunMod { args, .. } => match args {
            Some(v) => m.args@ == v@.map_values(|a: LocatedAst| arg_of(a)),
            None => m.args@.len() == 0,
        },
        _ => false,
    }
}

/// The modifier nodes of `kind` among `ms`, in order.
pub open spec fn mods_of_kind(ms: Seq<LocatedAst>, kind: ModifierKind) -> Seq<LocatedAst>
    decreases ms.len(),
{
    if ms.len() == 0 {
        Seq::empty()
    } else {
        mods_of_kind(ms.drop_last(), kind) + if mod_kind_is(ms.last(), kind) {
            seq![ms.last()]
        } else {
            Seq::empty()
        }
    }
}

/// Whether `got` holds the modifiers that the nodes `nodes` declare: none when there is no
/// node, else one for each node, in order.
pub open spec fn holds_modifiers(got: Option<Vec<Modifier>>, nodes: Seq<LocatedAst>) -> bool {
    match got {
        None => nodes.len() == 0,
        Some(v) => nodes.len() > 0 && v@.len() == nodes.len() && forall|i: int|
            0 <= i < nodes.len() ==> #[trigger] modifier_of(v@[i], nodes[i]),
    }
}

/// The modifiers that the modifier nodes `ms` declare, by kind.
pub open spec fn modifiers_from(r: Modifiers, ms: Seq<LocatedAst>) -> bool {
    &&& holds_modifiers(r.global, mods_of_kind(ms, ModifierKind::Global))
    &&& holds_modifiers(r.local, mods_of_kind(ms, ModifierKind::Local))
    &&& holds_modifiers(r.instance, mods_of_kind(ms, ModifierKind::Instance))
}

/// The modifier that the modifier node `n` declares.
fn collect_modifier(n: &LocatedAst) -> (r: (ModifierKind, Modifier))
    requires
        mod_node_ok(*n),
    ensures
        mod_kind_is(*n, r.0),
        modifier_of(r.1, *n),
{
    match &n.ast {
        Ast::FunMod { kind, args, .. } => {
            let args = match args {
                Some(v) => collect_args(v),
                None => Vec::new(),
            };
            (*kind, Modifier { args, location: n.location })
        },
        _ => vstd::pervasive::unreached(),
    }
}

/// Appends `m` to the modifiers `slot`.
fn push_modifier(slot: &mut Option<Vec<Modifier>>, m: Modifier, Ghost(nodes): Ghost<Seq<LocatedAst>>, Ghost(n): Ghost<LocatedAst>)
    requires
        holds_modifiers(*old(slot), nodes),
        modifier_of(m, n),
    ensures
        holds_modifiers(*final(slot), nodes.push(n)),
{
    match slot {
        Some(v) => {
            let ghost before = v@;
            v.push(m);
            assert forall|i: int| 0 <= i < nodes.push(n).len() implies #[trigger] modifier_of(v@[i], nodes.push(n)[i]) by {
                if i < nodes.len() {
                    assert(v@[i] == before[i]);
                    assert(nodes.push(n)[i] == nodes[i]);
                }
            }
        },
        None => {
            let mut v: Vec<Modifier> = Vec::new();
            v.push(m);
            assert(nodes.push(n) =~= seq![n]);
            *slot = Some(v);
        },
    }
}

/// The modifiers that the modifier nodes `modifiers_opt` declare, by kind, in order.
pub fn collect_fn_mods(modifiers_opt: &Option<Vec<LocatedAst>>) -> (r: Modifiers)
    requires
        modifiers_opt matches Some(v) ==> forall|i: int| 0 <= i < v@.len() ==> #[trigger] mod_node_ok(v@[i]),
    ensures
        modifiers_from(
            r,
            match modifiers_opt {
                Some(v) => v@,
                None => Seq::empty(),
            },
        ),
{
    let mut out = Modifiers { global: None, local: None, instance: None };
    let modifiers = match modifiers_opt {
        Some(v) => v,
        None => {
            return out;
        },
    };
    let mut i: usize = 0;
    while i < modifiers.len()
        invariant
            i <= modifiers@.len(),
            forall|k: int| 0 <= k < modifiers@.len() ==> #[trigger] mod_node_ok(modifiers@[k]),
            modifiers_from(out, modifiers@.take(i as int)),
        decreases modifiers@.len() - i,
    {
        let n = &modifiers[i];
        assert(mod_node_ok(modifiers@[i as int]));
        let ghost t = modifiers@.take(i as int);
        assert(modifiers@.take(i + 1).drop_last() =~= t);
        assert(modifiers@.take(i + 1).last() == *n);
        let (kind, m) = collect_modifier(n);
        proof {
            let s1 = modifiers@.take(i + 1);
            assert(mods_of_kind(t, ModifierKind::Global) + seq![*n] =~= mods_of_kind(t, ModifierKind::Global).push(*n));
            assert(mods_of_kind(t, ModifierKind::Local) + seq![*n] =~= mods_of_kind(t, ModifierKind::Local).push(*n));
            assert(mods_of_kind(t, ModifierKind::Instance) + seq![*n] =~= mods_of_kind(t, ModifierKind::Instance).push(*n));
            assert(mods_of_kind(t, ModifierKind::Global) + Seq::<LocatedAst>::empty() =~= mods_of_kind(t, ModifierKind::Global));
            assert(mods_of_kind(t, ModifierKind::Local) + Seq::<LocatedAst>::empty() =~= mods_of_kind(t, ModifierKind::Local));
            assert(mods_of_kind(t, ModifierKind::Instance) + Seq::<LocatedAst>::empty() =~= mods_of_kind(t, ModifierKind::Instance));
            assert(mods_of_kind(s1, ModifierKind::Global) == mods_of_kind(t, ModifierKind::Global) + if mod_kind_is(*n, ModifierKind::Global) { seq![*n] } else { Seq::empty() });
            assert(mods_of_kind(s1, ModifierKind::Local) == mods_of_kind(t, ModifierKind::Local) + if mod_kind_is(*n, ModifierKind::Local) { seq![*n] } else { Seq::empty() });
            assert(mods_of_kind(s1, ModifierKind::Instance) == mods_of_kind(t, ModifierKind::Instance) + if mod_kind_is(*n, ModifierKind::Instance) { seq![*n] } else { Seq::empty() });
        }
        match kind {
            ModifierKind::Global => {
                push_modifier(&mut out.global, m, Ghost(mods_of_kind(t, ModifierKind::Global)), Ghost(*n));
            },
            ModifierKind::Local => {
                push_modifier(&mut out.local, m, Ghost(mods_of_kind(t, ModifierKind::Local)), Ghost(*n));
            },
            ModifierKind::Instance => {
                push_modifier(&mut out.instance, m, Ghost(mods_of_kind(t, ModifierKind::Instance)), Ghost(*n));
            },
        }
        i += 1;
    }
    assert(modifiers@.take(i as int) =~= modifiers@);
    out
}

} // verus!
