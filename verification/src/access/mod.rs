use vstd::prelude::*;

pub mod navigation;
pub mod branches;
pub mod propagation;
pub mod undetermined;

use crate::location::{Location, SectionKind};
use crate::text::{
    chars_from, chars_until, concat, count_leading_dots, dot_positions, dots_of, eq_ignore_case,
    lemma_dots_of_bounds, leading_dots, lower,
};

verus! {

/// A value an expression may have: a number, held as the bits of its IEEE-754 double
/// precision form, or an unknown value.
#[derive(Clone, Copy)]
pub enum Value {
    Number(u64),
    Unknown,
}

/// The bits of a double that is not a number.
pub open spec fn is_nan_bits(b: u64) -> bool {
    (b & 0x7ff0_0000_0000_0000u64) == 0x7ff0_0000_0000_0000u64 && (b & 0x000f_ffff_ffff_ffffu64) != 0
}

/// The bits of a double that is zero (of either sign).
pub open spec fn is_zero_bits(b: u64) -> bool {
    (b & 0x7fff_ffff_ffff_ffffu64) == 0
}

/// Equality of two doubles given by their bits: a NaN equals nothing, the two zeros are equal.
pub open spec fn number_eq(a: u64, b: u64) -> bool {
    (is_zero_bits(a) && is_zero_bits(b)) || (a == b && !is_nan_bits(a))
}

/// Equality of two values, numbers being compared as doubles.
pub open spec fn value_eq(a: Value, b: Value) -> bool {
    match (a, b) {
        (Value::Number(x), Value::Number(y)) => number_eq(x, y),
        (Value::Unknown, Value::Unknown) => true,
        _ => false,
    }
}

impl Value {
    /// Equality of two values, numbers being compared as doubles.
    pub fn equals(&self, other: &Value) -> (r: bool)
        ensures
            r == value_eq(*self, *other),
    {
        match (self, other) {
            (Value::Number(x), Value::Number(y)) => {
                let zx = (*x & 0x7fff_ffff_ffff_ffffu64) == 0;
                let zy = (*y & 0x7fff_ffff_ffff_ffffu64) == 0;
                let nan = (*x & 0x7ff0_0000_0000_0000u64) == 0x7ff0_0000_0000_0000u64 && (*x
                    & 0x000f_ffff_ffff_ffffu64) != 0;
                (zx && zy) || (*x == *y && !nan)
            },
            (Value::Unknown, Value::Unknown) => true,
            _ => false,
        }
    }
}

/// How a variable is accessed.
#[derive(Clone, Copy)]
pub enum Kind {
    Read,
    Write { value: Value, potential: bool },
    PassedByRef,
}

/// Equivalence of two access kinds (passing by reference is equivalent to nothing).
pub open spec fn kind_equivalent(a: Kind, b: Kind) -> bool {
    match (a, b) {
        (Kind::Read, Kind::Read) => true,
        (Kind::Write { value: v1, potential: p1 }, Kind::Write { value: v2, potential: p2 }) =>
            value_eq(v1, v2) && p1 == p2,
        _ => false,
    }
}

impl Kind {
    /// Whether two accesses of these kinds are equivalent.
    pub fn is_equivalent(&self, other: &Self) -> (r: bool)
        ensures
            r == kind_equivalent(*self, *other),
    {
        match (self, other) {
            (Kind::Read, Kind::Read) => true,
            (
                Kind::Write { value, potential },
                Kind::Write { value: other_value, potential: other_potential },
            ) => value.equals(other_value) && *potential == *other_potential,
            _ => false,
        }
    }
}

/// An access to a variable: the name it was accessed as, where, and how.
pub struct Info {
    pub accessed_as: String,
    pub location: Location,
    pub kind: Kind,
}

impl Clone for Info {
    fn clone(&self) -> (r: Self)
        ensures
            r == *self,
    {
        Info { accessed_as: self.accessed_as.clone(), location: self.location, kind: self.kind }
    }
}

impl Info {
    /// Whether the access is a read.
    pub fn is_read(&self) -> (r: bool)
        ensures
            r == (self.kind is Read),
    {
        matches!(&self.kind, Kind::Read)
    }

    /// Whether the access is a write.
    pub fn is_write(&self) -> (r: bool)
        ensures
            r == (self.kind is Write),
    {
        matches!(&self.kind, Kind::Write { .. })
    }
}

/// Details of an origin that stands for an object.
pub struct OriginDetails {
    pub uuid: u128,
    /// When a navigation went past the global scope, the name that replaces the global scope.
    pub global_scope_navigation_override: Option<String>,
}

impl Clone for OriginDetails {
    fn clone(&self) -> (r: Self)
        ensures
            r == *self,
    {
        OriginDetails {
            uuid: self.uuid,
            global_scope_navigation_override: match &self.global_scope_navigation_override {
                Some(s) => Some(s.clone()),
                None => None,
            },
        }
    }
}

/// Where an access comes from.
pub enum Origin {
    Global,
    This(OriginDetails),
    Instance(OriginDetails),
    Ref(OriginDetails),
    Undetermined,
}

impl Clone for Origin {
    fn clone(&self) -> (r: Self)
        ensures
            r == *self,
    {
        match self {
            Origin::Global => Origin::Global,
            Origin::This(d) => Origin::This(d.clone()),
            Origin::Instance(d) => Origin::Instance(d.clone()),
            Origin::Ref(d) => Origin::Ref(d.clone()),
            Origin::Undetermined => Origin::Undetermined,
        }
    }
}

/// The identifier of the object an origin stands for, if it stands for one.
pub open spec fn origin_uuid(o: Origin) -> Option<u128> {
    match o {
        Origin::This(d) => Some(d.uuid),
        Origin::Instance(d) => Some(d.uuid),
        Origin::Ref(d) => Some(d.uuid),
        _ => None,
    }
}

impl Origin {
    /// The identifier of the object the origin stands for, if it stands for one.
    pub fn get_uuid(&self) -> (r: Option<u128>)
        ensures
            r == origin_uuid(*self),
    {
        match self {
            Origin::This(d) | Origin::Instance(d) | Origin::Ref(d) => Some(d.uuid),
            _ => None,
        }
    }

    /// The name that replaces the global scope, if the origin has one.
    pub fn global_scope_navigation_override(&self) -> (r: &Option<String>)
        ensures
            match *self {
                Origin::This(d) => *r == d.global_scope_navigation_override,
                Origin::Instance(d) => *r == d.global_scope_navigation_override,
                Origin::Ref(d) => *r == d.global_scope_navigation_override,
                _ => *r is None,
            },
    {
        match self {
            Origin::Undetermined | Origin::Global => &None,
            Origin::This(d) | Origin::Instance(d) | Origin::Ref(d) => {
                &d.global_scope_navigation_override
            },
        }
    }

    /// Sets the name that replaces the global scope, unless the origin already has one or
    /// stands for no object.
    pub fn set_navigation_override_if_none(&mut self, new_override: Option<String>)
        ensures
            match (*old(self), new_override) {
                (Origin::This(d), Some(o)) => *final(self) == Origin::This(OriginDetails {
                    uuid: d.uuid,
                    global_scope_navigation_override: if d.global_scope_navigation_override is None {
                        Some(o)
                    } else {
                        d.global_scope_navigation_override
                    },
                }),
                (Origin::Instance(d), Some(o)) => *final(self) == Origin::Instance(OriginDetails {
                    uuid: d.uuid,
                    global_scope_navigation_override: if d.global_scope_navigation_override is None {
                        Some(o)
                    } else {
                        d.global_scope_navigation_override
                    },
                }),
                (Origin::Ref(d), Some(o)) => *final(self) == Origin::Ref(OriginDetails {
                    uuid: d.uuid,
                    global_scope_navigation_override: if d.global_scope_navigation_override is None {
                        Some(o)
                    } else {
                        d.global_scope_navigation_override
                    },
                }),
                _ => *final(self) == *old(self),
            },
    {
        let new_override = match new_override {
            Some(o) => o,
            None => { return; },
        };
        match self {
            Origin::Undetermined | Origin::Global => {},
            Origin::This(d) => {
                if d.global_scope_navigation_override.is_none() {
                    d.global_scope_navigation_override = Some(new_override);
                }
            },
            Origin::Instance(d) => {
                if d.global_scope_navigation_override.is_none() {
                    d.global_scope_navigation_override = Some(new_override);
                }
            },
            Origin::Ref(d) => {
                if d.global_scope_navigation_override.is_none() {
                    d.global_scope_navigation_override = Some(new_override);
                }
            },
        }
    }
}

/// What an expression returns: a named variable or a value.
pub enum ReturnKind {
    Named(String),
    Value(Value),
}

/// A value an expression may return and where it stands.
pub struct Return {
    pub location: Location,
    /// eg. when returning `c > d ? a : b` both a and b are potential
    pub potential: bool,
    pub kind: ReturnKind,
}

impl Clone for Return {
    fn clone(&self) -> (r: Self)
        ensures
            r == *self,
    {
        Return {
            location: self.location,
            potential: self.potential,
            kind: match &self.kind {
                ReturnKind::Named(n) => ReturnKind::Named(n.clone()),
                ReturnKind::Value(v) => ReturnKind::Value(*v),
            },
        }
    }
}

/// An access that is not yet known to be top-level or within a function.
pub struct Undetermined {
    pub origin: Origin,
    pub info: Info,
    /// Whether the access is forced into the global scope when seen from a function.
    pub force_global_scope: bool,
    /// Whether the global modifier is bypassed when seen from a function.
    pub bypass_global_modifier: bool,
}

impl Clone for Undetermined {
    fn clone(&self) -> (r: Self)
        ensures
            r == *self,
    {
        Undetermined {
            origin: self.origin.clone(),
            info: self.info.clone(),
            force_global_scope: self.force_global_scope,
            bypass_global_modifier: self.bypass_global_modifier,
        }
    }
}

/// An access in the global scope.
pub struct TopLevel {
    pub origin: Origin,
    pub info: Info,
    pub section: SectionKind,
}

/// How a variable seen from a function relates to that function.
#[allow(inconsistent_fields)]
pub enum VarKind {
    TempString,
    This {
        /// What follows `this.`; `None` for `this` alone.
        suffix: Option<String>,
    },
    Instance {
        /// What follows the instance name and its dot.
        suffix: Option<String>,
    },
    RefArg {
        /// What follows the argument name, dot included.
        suffix: String,
        arg_index: usize,
    },
    Arg { arg_index: usize },
    Local,
    Global { accessible: bool },
}

/// An access in a function scope.
pub struct WithinFunction {
    pub info: Info,
    pub var_kind: VarKind,
    pub uuid: u128,
    pub origin: Origin,
}

/// Equivalence of two returns: same name (ignoring ASCII case) or equal value, and same potentiality.
pub open spec fn return_equivalent(a: Return, b: Return) -> bool {
    match (a.kind, b.kind) {
        (ReturnKind::Named(x), ReturnKind::Named(y)) => lower(x@) == lower(y@) && a.potential
            == b.potential,
        (ReturnKind::Value(x), ReturnKind::Value(y)) => value_eq(x, y) && a.potential
            == b.potential,
        _ => false,
    }
}

/// The value a name was last written with among `accesses`, unknown when that last write is
/// potential or when there is none.
pub open spec fn previous_value(name: Seq<char>, accesses: Seq<Undetermined>) -> Value
    decreases accesses.len(),
{
    if accesses.len() == 0 {
        Value::Unknown
    } else {
        let a = accesses.last();
        match a.info.kind {
            Kind::Write { value, potential } => if lower(a.info.accessed_as@) == lower(name) {
                if potential {
                    Value::Unknown
                } else {
                    value
                }
            } else {
                previous_value(name, accesses.drop_last())
            },
            _ => previous_value(name, accesses.drop_last()),
        }
    }
}

/// The value `name` was last written with among `accesses` (see `previous_value`).
pub fn get_value_from_previous_accesses(name: &String, accesses: &Vec<Undetermined>) -> (r: Value)
    ensures
        r == previous_value(name@, accesses@),
{
    let mut i = accesses.len();
    assert(accesses@.take(i as int) =~= accesses@);
    while i > 0
        invariant
            i <= accesses@.len(),
            previous_value(name@, accesses@) == previous_value(name@, accesses@.take(i as int)),
        decreases i,
    {
        let a = &accesses[i - 1];
        assert(accesses@.take(i as int).drop_last() =~= accesses@.take(i - 1));
        if let Kind::Write { value, potential } = a.info.kind {
            if eq_ignore_case(a.info.accessed_as.as_str(), name.as_str()) {
                return if potential {
                    Value::Unknown
                } else {
                    value
                };
            }
        }
        i -= 1;
    }
    Value::Unknown
}

impl Return {
    /// Whether two returns are equivalent (see `return_equivalent`).
    pub fn is_equivalent(&self, other: &Self) -> (r: bool)
        ensures
            r == return_equivalent(*self, *other),
    {
        match &self.kind {
            ReturnKind::Named(name) => match &other.kind {
                ReturnKind::Named(other_name) => {
                    eq_ignore_case(name.as_str(), other_name.as_str()) && self.potential
                        == other.potential
                },
                ReturnKind::Value(_) => false,
            },
            ReturnKind::Value(value) => match &other.kind {
                ReturnKind::Value(other_value) => {
                    value.equals(other_value) && self.potential == other.potential
                },
                ReturnKind::Named(_) => false,
            },
        }
    }

    /// The same return, replacing a name by the value it was last written with.
    pub fn named_to_value(&self, accesses: &Vec<Undetermined>) -> (r: Self)
        ensures
            r.location == self.location,
            r.potential == self.potential,
            match self.kind {
                ReturnKind::Named(name) => r.kind == ReturnKind::Value(
                    previous_value(name@, accesses@),
                ),
                ReturnKind::Value(v) => r.kind == ReturnKind::Value(v),
            },
    {
        match &self.kind {
            ReturnKind::Named(name) => {
                let value = get_value_from_previous_accesses(name, accesses);
                Return {
                    kind: ReturnKind::Value(value),
                    location: self.location,
                    potential: self.potential,
                }
            },
            ReturnKind::Value(_) => self.clone(),
        }
    }

    /// The same return, made potential.
    pub fn into_potential(self) -> (r: Self)
        ensures
            r == (Return { potential: true, ..self }),
    {
        Return { kind: self.kind, potential: true, location: self.location }
    }

    /// A read of the returned name, if it is a name.
    pub fn to_read(&self) -> (r: Option<Undetermined>)
        ensures
            r == self.spec_to_undetermined(Kind::Read),
    {
        self.to_undetermined(Kind::Read)
    }

    /// A passing by reference of the returned name, if it is a name.
    pub fn to_passed_by_ref(&self) -> (r: Option<Undetermined>)
        ensures
            r == self.spec_to_undetermined(Kind::PassedByRef),
    {
        self.to_undetermined(Kind::PassedByRef)
    }

    /// A write of `value` to the returned name, if it is a name.
    pub fn to_write(&self, value: Value) -> (r: Option<Undetermined>)
        ensures
            r == self.spec_to_undetermined(Kind::Write { value, potential: self.potential }),
    {
        self.to_undetermined(Kind::Write { value, potential: self.potential })
    }

    /// An access of kind `kind` to the returned name, if it is a name.
    pub open spec fn spec_to_undetermined(&self, kind: Kind) -> Option<Undetermined> {
        match self.kind {
            ReturnKind::Named(name) => Some(
                Undetermined {
                    origin: Origin::Undetermined,
                    info: Info { location: self.location, accessed_as: name, kind },
                    force_global_scope: false,
                    bypass_global_modifier: false,
                },
            ),
            ReturnKind::Value(_) => None,
        }
    }

    fn to_undetermined(&self, kind: Kind) -> (r: Option<Undetermined>)
        ensures
            r == self.spec_to_undetermined(kind),
    {
        match &self.kind {
            ReturnKind::Named(name) => Some(
                Undetermined {
                    origin: Origin::Undetermined,
                    info: Info { location: self.location, accessed_as: name.clone(), kind },
                    force_global_scope: false,
                    bypass_global_modifier: false,
                },
            ),
            ReturnKind::Value(_) => None,
        }
    }
}

/// The reads of every name among `rets`, in order.
pub open spec fn reads_of(rets: Seq<Return>) -> Seq<Undetermined>
    decreases rets.len(),
{
    if rets.len() == 0 {
        Seq::empty()
    } else {
        reads_of(rets.drop_last()) + match rets.last().spec_to_undetermined(Kind::Read) {
            Some(u) => seq![u],
            None => Seq::empty(),
        }
    }
}

/// Appends to `access` a read of every name among the returns, in order.
pub fn fun_returns_to_read_accesses(rets: &Option<Vec<Return>>, access: &mut Vec<Undetermined>)
    ensures
        final(access)@ == old(access)@ + match *rets {
            Some(v) => reads_of(v@),
            None => Seq::empty(),
        },
{
    if let Some(rets) = rets {
        let mut i: usize = 0;
        while i < rets.len()
            invariant
                i <= rets@.len(),
                access@ == old(access)@ + reads_of(rets@.take(i as int)),
            decreases rets@.len() - i,
        {
            assert(rets@.take(i + 1).drop_last() =~= rets@.take(i as int));
            if let Some(read) = rets[i].to_read() {
                access.push(read);
            }
            assert(access@ =~= old(access)@ + reads_of(rets@.take(i + 1)));
            i += 1;
        }
        assert(rets@.take(i as int) =~= rets@);
    } else {
        assert(access@ =~= old(access)@ + Seq::<Undetermined>::empty());
    }
}

/// Equivalence of two undetermined accesses.
pub open spec fn undetermined_equivalent(a: Undetermined, b: Undetermined) -> bool {
    &&& lower(a.info.accessed_as@) == lower(b.info.accessed_as@)
    &&& kind_equivalent(a.info.kind, b.info.kind)
    &&& a.force_global_scope == b.force_global_scope
    &&& a.bypass_global_modifier == b.bypass_global_modifier
}

impl Undetermined {
    /// The same access, a write being made potential.
    pub fn to_potential(&self) -> (r: Self)
        ensures
            r.origin == self.origin,
            r.force_global_scope == self.force_global_scope,
            r.bypass_global_modifier == self.bypass_global_modifier,
            r.info.accessed_as == self.info.accessed_as,
            r.info.location == self.info.location,
            r.info.kind == match self.info.kind {
                Kind::Write { value, .. } => Kind::Write { value, potential: true },
                k => k,
            },
    {
        let mut new = self.clone();
        if let Kind::Write { value, .. } = self.info.kind {
            new.info.kind = Kind::Write { value, potential: true };
        }
        new
    }

    /// Whether two undetermined accesses are equivalent.
    pub fn is_equivalent(&self, other: &Self) -> (r: bool)
        ensures
            r == undetermined_equivalent(*self, *other),
    {
        eq_ignore_case(self.info.accessed_as.as_str(), other.info.accessed_as.as_str())
            && self.info.kind.is_equivalent(&other.info.kind) && self.force_global_scope
            == other.force_global_scope && self.bypass_global_modifier
            == other.bypass_global_modifier
    }
}

} // verus!
