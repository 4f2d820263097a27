pub mod args;
pub mod params;
pub mod setup;
pub mod matching;
pub mod context;

use std::rc::Rc;
use vstd::prelude::*;

use crate::access::{Return, VarKind, WithinFunction};
use crate::context::MaybeContext;
use crate::location::Location;
use crate::text::{
    chars_until, concat, dot_positions, dots_of, join_dot, lemma_dots_of_bounds,
    chars_from, eq_ignore_case, first_where, lemma_first_where_is, lemma_first_where_none, lower,
    starts_with_ignore_case, str_eq, to_lower,
};

verus! {

/// The kinds of function modifiers: `global()`, `local()` and `instance()`.
#[derive(PartialEq, Eq, Structural, Debug, Clone, Copy)]
pub enum ModifierKind {
    Global,
    Local,
    Instance,
}

/// The keyword of a modifier kind.
pub open spec fn modifier_name(k: ModifierKind) -> Seq<char> {
    match k {
        ModifierKind::Global => "global"@,
        ModifierKind::Local => "local"@,
        ModifierKind::Instance => "instance"@,
    }
}

impl ModifierKind {
    /// The keyword of the modifier kind.
    pub fn name(&self) -> (r: &'static str)
        ensures
            r@ == modifier_name(*self),
    {
        match self {
            ModifierKind::Global => "global",
            ModifierKind::Local => "local",
            ModifierKind::Instance => "instance",
        }
    }
}

/// An argument of a function or of a modifier.
pub struct Arg {
    /// Name of the argument, as it appears in the function definition, without the potential `*` but with the potential `#`
    pub name: String,
    pub is_ref: bool,
    pub optional: bool,
    pub is_str: bool,
    pub location: Option<Location>,
}

impl Clone for Arg {
    fn clone(&self) -> (r: Self)
        ensures
            r == *self,
    {
        Arg {
            name: self.name.clone(),
            is_ref: self.is_ref,
            optional: self.optional,
            is_str: self.is_str,
            location: self.location,
        }
    }
}

/// What a parameter passed to a function is.
pub enum ParamKind {
    Identifier { name: String },
    StringValue { value: String },
    /// Value can be a number, a function call, a compound statement etc.
    OtherValue,
}

/// A parameter passed to a function and where it stands.
pub struct Param {
    pub kind: ParamKind,
    pub location: Location,
}

/// How deep a function call stands among function definitions.
pub enum Depth {
    TopLevel,
    Nested { parent_fun: u128 },
    /// Depth is undetermined until the outermost function is fully collected
    Undetermined,
}

/// A modifier of a function definition, with its arguments.
pub struct Modifier {
    pub args: Vec<Arg>,
    pub location: Location,
}

/// The modifiers of a function definition, by kind (a kind that never occurs has none).
pub struct Modifiers {
    pub global: Option<Vec<Modifier>>,
    pub local: Option<Vec<Modifier>>,
    pub instance: Option<Vec<Modifier>>,
}

impl Modifiers {
    /// The modifiers of kind `kind`, if any occurs.
    pub open spec fn spec_get(&self, kind: ModifierKind) -> Option<Vec<Modifier>> {
        match kind {
            ModifierKind::Global => self.global,
            ModifierKind::Local => self.local,
            ModifierKind::Instance => self.instance,
        }
    }

    /// The modifiers of kind `kind`, if any occurs.
    pub fn get(&self, kind: &ModifierKind) -> (r: Option<&Vec<Modifier>>)
        ensures
            match self.spec_get(*kind) {
                Some(v) => r matches Some(x) && *x == v,
                None => r is None,
            },
    {
        match kind {
            ModifierKind::Global => self.global.as_ref(),
            ModifierKind::Local => self.local.as_ref(),
            ModifierKind::Instance => self.instance.as_ref(),
        }
    }
}

/// The accesses and returns gathered from a function's body.
pub struct FunScope {
    pub accesses: Vec<WithinFunction>,
    pub returns: Vec<Return>,
}

/// A function definition, user-defined or builtin.
pub struct Fun {
    pub name: String,
    pub args: Vec<Arg>,
    pub modifiers: Modifiers,
    pub context: MaybeContext,
    pub location: Option<Location>,
    pub is_builtin: bool,
    pub uuid: u128,
    pub scope: FunScope,
    /// A function has side effects if its body includes any write accesses,
    /// or calls to functions with side effects
    pub has_side_effects: bool,
}

/// A function call.
pub struct FunCall {
    /// Each param can have several return values, if it holds a conditional.
    pub params: Vec<Vec<Param>>,
    /// If `fun` is `None`, the called function is unknown
    pub fun: Option<Rc<Fun>>,
    /// Prefix at call site, without the dot, e.g. `foo` in `foo.bar()`
    pub prefix: Option<String>,
    pub uuid: u128,
    pub location: Location,
    /// The function call as it appears in the source code (e.g. `foo.bar()` is accessed as `foo.bar`)
    pub accessed_as: String,
    pub depth: Depth,
    /// The prefix and function name form the name of a global modifier argument.
    pub name_matches_global_arg: bool,
    /// The call has no prefix and its name is that of an instance modifier argument.
    pub name_matches_instance_arg: bool,
}

/// Whether an argument stands for any number of arguments (`...`).
pub open spec fn is_ellipsis(a: Arg) -> bool {
    a.name@ == seq!['.', '.', '.']
}

/// The least and greatest number of parameters the arguments accept, before the limit of 32.
pub open spec fn raw_args_min_max(args: Seq<Arg>) -> (int, int)
    decreases args.len(),
{
    if args.len() == 0 {
        (0, 0)
    } else {
        let (mn, mx) = raw_args_min_max(args.drop_last());
        let a = args.last();
        if is_ellipsis(a) {
            (mn, 32)
        } else if a.optional {
            (mn, mx + 1)
        } else {
            (mn + 1, mx + 1)
        }
    }
}

/// `x` limited to 32.
pub open spec fn at_most_32(x: int) -> int {
    if x > 32 {
        32
    } else {
        x
    }
}

/// The least and greatest number of parameters the arguments accept (at most 32 each).
pub open spec fn args_min_max(args: Seq<Arg>) -> (int, int) {
    let (mn, mx) = raw_args_min_max(args);
    (at_most_32(mn), at_most_32(mx))
}

/// Whether a call with `param_count` parameters matches the arguments, implicit zero and
/// implicit discard included.
pub open spec fn arg_count_matches(param_count: int, args: Seq<Arg>) -> bool {
    let (mn, mx) = args_min_max(args);
    ||| (param_count == 0 && mn == 1 && mx == 1)
    ||| (param_count == 1 && mn == 0 && mx == 0)
    ||| (mn <= param_count && param_count <= mx)
}

proof fn lemma_raw_bounds(args: Seq<Arg>)
    ensures
        0 <= raw_args_min_max(args).0 <= args.len(),
        0 <= raw_args_min_max(args).1 <= args.len() + 32,
    decreases args.len(),
{
    if args.len() > 0 {
        lemma_raw_bounds(args.drop_last());
    }
}

fn is_ellipsis_exec(a: &Arg) -> (r: bool)
    ensures
        r == is_ellipsis(*a),
{
    proof {
        reveal_strlit("...");
        assert("..."@ =~= seq!['.', '.', '.']);
    }
    str_eq(a.name.as_str(), "...")
}

/// The least and greatest number of parameters the arguments accept.
pub fn get_args_min_max(args: &Vec<Arg>) -> (r: (usize, usize))
    requires
        args@.len() + 32 <= usize::MAX,
    ensures
        r.0 == args_min_max(args@).0,
        r.1 == args_min_max(args@).1,
{
    let mut min: usize = 0;
    let mut max: usize = 0;
    let mut i: usize = 0;
    while i < args.len()
        invariant
            i <= args@.len(),
            args@.len() + 32 <= usize::MAX,
            (min as int, max as int) == raw_args_min_max(args@.take(i as int)),
        decreases args@.len() - i,
    {
        proof {
            lemma_raw_bounds(args@.take(i as int));
            assert(args@.take(i + 1).drop_last() =~= args@.take(i as int));
        }
        let arg = &args[i];
        if is_ellipsis_exec(arg) {
            max = 32;
        } else if arg.optional {
            max += 1;
        } else {
            min += 1;
            max += 1;
        }
        i += 1;
    }
    assert(args@.take(i as int) =~= args@);
    if max > 32 {
        max = 32;
    }
    if min > 32 {
        min = 32;
    }
    (min, max)
}

/// Whether a call with `param_count` parameters matches the arguments.
pub fn match_arg_count(param_count: usize, args: &Vec<Arg>) -> (r: bool)
    requires
        args@.len() + 32 <= usize::MAX,
    ensures
        r == arg_count_matches(param_count as int, args@),
{
    let (min, max) = get_args_min_max(args);
    let implicit_zero = param_count == 0 && min == 1 && max == 1;
    let implicit_discard = param_count == 1 && min == 0 && max == 0;
    let normal_match = param_count >= min && param_count <= max;
    implicit_zero || implicit_discard || normal_match
}

/// Whether `id` starts with `name` followed by a dot, ignoring ASCII case.
pub open spec fn starts_with_dotted(id: Seq<char>, name: Seq<char>) -> bool {
    name.len() + 1 <= id.len() && lower(id.take(name.len() + 1int)) == lower(name.push('.'))
}

fn starts_with_dotted_exec(id: &str, name: &str) -> (r: bool)
    ensures
        r == starts_with_dotted(id@, name@),
{
    let mut pat = String::from_str(name);
    pat.push('.');
    starts_with_ignore_case(id, pat.as_str())
}

/// Whether a global modifier argument gives access to `identifier`: a plain argument by its
/// name, a reference argument by its members.
pub open spec fn global_matches(arg: Arg, identifier: Seq<char>) -> bool {
    ||| (!arg.is_ref && lower(arg.name@) == lower(identifier))
    ||| (arg.is_ref && starts_with_dotted(identifier, arg.name@))
}

/// Whether a global modifier argument gives access to `identifier`.
pub fn global_matches_arg(arg: &Arg, identifier: &String) -> (r: bool)
    ensures
        r == global_matches(*arg, identifier@),
{
    let matches_non_ref = !arg.is_ref && eq_ignore_case(arg.name.as_str(), identifier.as_str());
    let matches_ref = arg.is_ref && starts_with_dotted_exec(identifier.as_str(), arg.name.as_str());
    matches_non_ref || matches_ref
}

/// Whether `identifier` names a reference argument of a function, or one of its members:
/// the name, a dot and at least one more character (unlike a global reference argument,
/// an access that ends with the dot does not reach it).
pub open spec fn refers_to_ref_arg(arg: Arg, identifier: Seq<char>) -> bool {
    arg.is_ref && (lower(arg.name@) == lower(identifier) || (starts_with_dotted(
        identifier,
        arg.name@,
    ) && identifier.len() > arg.name@.len() + 1))
}

/// Whether `identifier` refers to the reference argument `arg` of a function.
pub fn identifier_refers_to_fun_ref_arg(arg: &Arg, identifier: &String) -> (r: bool)
    ensures
        r == refers_to_ref_arg(*arg, identifier@),
{
    if !arg.is_ref {
        return false;
    }
    let exact_match = eq_ignore_case(arg.name.as_str(), identifier.as_str());
    let id_len = identifier.as_str().unicode_len();
    let name_len = arg.name.as_str().unicode_len();
    let ref_match = starts_with_dotted_exec(identifier.as_str(), arg.name.as_str()) && id_len
        > name_len && id_len - name_len > 1;
    exact_match || ref_match
}

/// The arguments of a list of modifiers, in order.
pub open spec fn flat_args(mods: Seq<Modifier>) -> Seq<Arg>
    decreases mods.len(),
{
    if mods.len() == 0 {
        Seq::empty()
    } else {
        flat_args(mods.drop_last()) + mods.last().args@
    }
}

/// The arguments of the modifiers of kind `kind`, in order.
pub open spec fn modifier_args(m: Modifiers, kind: ModifierKind) -> Seq<Arg> {
    match m.spec_get(kind) {
        Some(v) => flat_args(v@),
        None => Seq::empty(),
    }
}

proof fn lemma_arg_refs_push<'a>(s: Seq<&'a Arg>, x: &'a Arg)
    ensures
        s.push(x).map_values(|a: &Arg| *a) == s.map_values(|a: &Arg| *a).push(*x),
{
    assert(s.push(x).map_values(|a: &Arg| *a) =~= s.map_values(|a: &Arg| *a).push(*x));
}

/// The arguments of a list of modifiers, in order.
pub fn collect_flat_args(mods: &Vec<Modifier>) -> (r: Vec<&Arg>)
    ensures
        r@.map_values(|a: &Arg| *a) == flat_args(mods@),
{
    let mut out: Vec<&Arg> = Vec::new();
    let mut i: usize = 0;
    while i < mods.len()
        invariant
            i <= mods@.len(),
            out@.map_values(|a: &Arg| *a) == flat_args(mods@.take(i as int)),
        decreases mods@.len() - i,
    {
        assert(mods@.take(i + 1).drop_last() =~= mods@.take(i as int));
        let m = &mods[i];
        let ghost before = out@.map_values(|a: &Arg| *a);
        let mut j: usize = 0;
        while j < m.args.len()
            invariant
                j <= m.args@.len(),
                out@.map_values(|a: &Arg| *a) == before + m.args@.take(j as int),
            decreases m.args@.len() - j,
        {
            let ghost prev = out@;
            out.push(&m.args[j]);
            proof {
                lemma_arg_refs_push(prev, &m.args@[j as int]);
                assert(m.args@.take(j + 1) =~= m.args@.take(j as int).push(m.args@[j as int]));
            }
            assert(out@.map_values(|a: &Arg| *a) =~= before + m.args@.take(j + 1));
            j += 1;
        }
        assert(m.args@.take(j as int) =~= m.args@);
        i += 1;
    }
    assert(mods@.take(i as int) =~= mods@);
    out
}

/// The characters of "this".
pub open spec fn this_word() -> Seq<char> {
    seq!['t', 'h', 'i', 's']
}

/// Whether `identifier` is `this` or starts with `this.` (ignoring ASCII case), with what
/// follows `this.` in the second case.
pub open spec fn suffix_if_this(identifier: Seq<char>) -> (bool, Option<Seq<char>>) {
    if lower(identifier) == this_word() {
        (true, None)
    } else if starts_with_dotted(identifier, this_word()) {
        (true, Some(identifier.subrange(5, identifier.len() as int)))
    } else {
        (false, None)
    }
}

/// Whether `identifier` is `this` or starts with `this.`, with what follows `this.`.
pub fn get_suffix_if_this(identifier: &String) -> (r: (bool, Option<String>))
    ensures
        r.0 == suffix_if_this(identifier@).0,
        match suffix_if_this(identifier@).1 {
            Some(s) => r.1 matches Some(x) && x@ == s,
            None => r.1 is None,
        },
{
    proof {
        reveal_strlit("this");
        assert("this"@ =~= this_word());
        assert(lower(this_word()) =~= this_word());
    }
    if eq_ignore_case(identifier.as_str(), "this") {
        (true, None)
    } else if starts_with_dotted_exec(identifier.as_str(), "this") {
        (true, Some(chars_from(identifier.as_str(), 5)))
    } else {
        (false, None)
    }
}


/// The argument a call's parameter at `index` goes to: the argument at that position, or for
/// a builtin the trailing `...` argument.
pub open spec fn fun_arg_at(f: Fun, index: int) -> Option<Arg> {
    if 0 <= index < f.args@.len() {
        Some(f.args@[index])
    } else if f.is_builtin && f.args@.len() > 0 && is_ellipsis(f.args@.last()) {
        Some(f.args@.last())
    } else {
        None
    }
}

/// Holds at the index of an argument named `id` (ignoring ASCII case).
pub open spec fn named_pred(args: Seq<Arg>, id: Seq<char>) -> spec_fn(int) -> bool {
    |i: int| lower(args[i].name@) == lower(id)
}

/// Holds at the index of an argument that `id` refers to as a reference argument.
pub open spec fn ref_pred(args: Seq<Arg>, id: Seq<char>) -> spec_fn(int) -> bool {
    |i: int| refers_to_ref_arg(args[i], id)
}

/// Whether an instance modifier argument gives access to `var`: by its name, or by a member.
pub open spec fn instance_match(a: Arg, var: Seq<char>) -> bool {
    lower(a.name@) == lower(var) || starts_with_dotted(var, a.name@)
}

/// Holds at the index of an instance argument that gives access to `var`.
pub open spec fn instance_pred(args: Seq<Arg>, var: Seq<char>) -> spec_fn(int) -> bool {
    |i: int| instance_match(args[i], var)
}

/// For a variable reached through an instance modifier argument, what follows the argument
/// name and its dot (`None` when the variable is the argument itself).
pub open spec fn instance_var(f: Fun, var: Seq<char>) -> Option<Option<Seq<char>>> {
    let args = modifier_args(f.modifiers, ModifierKind::Instance);
    match first_where(args.len() as int, instance_pred(args, var)) {
        Some(i) => if lower(args[i].name@) == lower(var) {
            Some(None)
        } else {
            Some(Some(var.subrange(args[i].name@.len() + 1int, var.len() as int)))
        },
        None => None,
    }
}

/// Whether a global variable named `id` can be reached from the function.
pub open spec fn global_accessible(f: Fun, id: Seq<char>) -> bool {
    match f.modifiers.global {
        None => true,
        Some(mods) => {
            let args = flat_args(mods@);
            args.len() > 0 && exists|i: int| 0 <= i < args.len() && global_matches(args[i], id)
        },
    }
}

/// The reference argument `id` refers to: what follows its name, and its index.
pub open spec fn fun_ref_arg(f: Fun, id: Seq<char>) -> Option<(Seq<char>, int)> {
    match first_where(f.args@.len() as int, ref_pred(f.args@, id)) {
        Some(i) => Some((id.subrange(f.args@[i].name@.len() as int, id.len() as int), i)),
        None => None,
    }
}

/// Whether a local modifier argument is named `name` (ignoring ASCII case).
pub open spec fn has_local(f: Fun, name: Seq<char>) -> bool {
    let args = modifier_args(f.modifiers, ModifierKind::Local);
    exists|i: int| 0 <= i < args.len() && lower(args[i].name@) == lower(name)
}

/// How `variable` relates to the function `f`.
pub open spec fn classify(f: Fun, variable: Seq<char>, bypass_global_modifier: bool) -> VarKindView {
    if variable == seq!['#'] {
        VarKindView::TempString
    } else if suffix_if_this(variable).0 {
        VarKindView::This { suffix: suffix_if_this(variable).1 }
    } else if fun_ref_arg(f, variable) is Some {
        VarKindView::RefArg {
            suffix: fun_ref_arg(f, variable).unwrap().0,
            arg_index: fun_ref_arg(f, variable).unwrap().1,
        }
    } else if first_where(f.args@.len() as int, named_pred(f.args@, variable)) is Some {
        VarKindView::Arg { arg_index: first_where(f.args@.len() as int, named_pred(f.args@, variable))->0 }
    } else if has_local(f, variable) {
        VarKindView::Local
    } else if instance_var(f, variable) is Some {
        VarKindView::Instance { suffix: instance_var(f, variable)->0 }
    } else {
        VarKindView::Global { accessible: bypass_global_modifier || global_accessible(f, variable) }
    }
}

/// What a `VarKind` says, its texts taken as characters.
pub enum VarKindView {
    TempString,
    This { suffix: Option<Seq<char>> },
    Instance { suffix: Option<Seq<char>> },
    RefArg { suffix: Seq<char>, arg_index: int },
    Arg { arg_index: int },
    Local,
    Global { accessible: bool },
}

/// What a `VarKind` says.
pub open spec fn var_kind_view(k: VarKind) -> VarKindView {
    match k {
        VarKind::TempString => VarKindView::TempString,
        VarKind::This { suffix } => VarKindView::This {
            suffix: match suffix {
                Some(s) => Some(s@),
                None => None,
            },
        },
        VarKind::Instance { suffix } => VarKindView::Instance {
            suffix: match suffix {
                Some(s) => Some(s@),
                None => None,
            },
        },
        VarKind::RefArg { suffix, arg_index } => VarKindView::RefArg {
            suffix: suffix@,
            arg_index: arg_index as int,
        },
        VarKind::Arg { arg_index } => VarKindView::Arg { arg_index: arg_index as int },
        VarKind::Local => VarKindView::Local,
        VarKind::Global { accessible } => VarKindView::Global { accessible },
    }
}

impl Fun {
    /// The argument a call's parameter at `index` goes to.
    pub fn get_arg(&self, index: usize) -> (r: Option<&Arg>)
        ensures
            match fun_arg_at(*self, index as int) {
                Some(a) => r matches Some(x) && *x == a,
                None => r is None,
            },
    {
        if index < self.args.len() {
            Some(&self.args[index])
        } else if self.is_builtin {
            let n = self.args.len();
            if n > 0 && is_ellipsis_exec(&self.args[n - 1]) {
                Some(&self.args[n - 1])
            } else {
                None
            }
        } else {
            None
        }
    }

    /// The first argument named `identifier` (ignoring ASCII case), with its index.
    pub fn find_fun_arg(&self, identifier: &String) -> (r: Option<(usize, &Arg)>)
        ensures
            match first_where(self.args@.len() as int, named_pred(self.args@, identifier@)) {
                Some(i) => r matches Some(x) && x.0 == i && *x.1 == self.args@[i],
                None => r is None,
            },
    {
        let mut i: usize = 0;
        while i < self.args.len()
            invariant
                i <= self.args@.len(),
                forall|j: int| 0 <= j < i ==> !#[trigger] named_pred(self.args@, identifier@)(j),
            decreases self.args@.len() - i,
        {
            if eq_ignore_case(self.args[i].name.as_str(), identifier.as_str()) {
                proof {
                    lemma_first_where_is(self.args@.len() as int, named_pred(self.args@, identifier@), i as int);
                }
                return Some((i, &self.args[i]));
            }
            i += 1;
        }
        proof {
            lemma_first_where_none(self.args@.len() as int, named_pred(self.args@, identifier@));
        }
        None
    }

    /// Whether a modifier of kind `kind` has an argument named `name` (ignoring ASCII case).
    pub fn has_modifier_with_arg_name(&self, kind: &ModifierKind, name: &String) -> (r: bool)
        ensures
            r == exists|i: int| 0 <= i < modifier_args(self.modifiers, *kind).len() && lower(
                modifier_args(self.modifiers, *kind)[i].name@,
            ) == lower(name@),
    {
        match self.modifiers.get(kind) {
            None => false,
            Some(mods) => {
                let args = collect_flat_args(mods);
                let ghost fl = flat_args(mods@);
                let mut i: usize = 0;
                while i < args.len()
                    invariant
                        args@.map_values(|a: &Arg| *a) == fl,
                        fl == modifier_args(self.modifiers, *kind),
                        i <= args@.len(),
                        forall|j: int| 0 <= j < i ==> lower(#[trigger] fl[j].name@) != lower(name@),
                    decreases args@.len() - i,
                {
                    if eq_ignore_case(args[i].name.as_str(), name.as_str()) {
                        assert(fl[i as int] == *args@[i as int]);
                        return true;
                    }
                    i += 1;
                }
                false
            },
        }
    }

    /// Whether a local modifier argument is named `name` (ignoring ASCII case).
    pub fn has_local_var(&self, name: &String) -> (r: bool)
        ensures
            r == has_local(*self, name@),
    {
        self.has_modifier_with_arg_name(&ModifierKind::Local, name)
    }

    /// For a variable reached through an instance modifier argument, what follows the
    /// argument name and its dot.
    pub fn find_instance_var(&self, var_name: &String) -> (r: Option<Option<String>>)
        ensures
            match instance_var(*self, var_name@) {
                Some(Some(s)) => r matches Some(Some(x)) && x@ == s,
                Some(None) => r matches Some(None),
                None => r is None,
            },
    {
        let mods = match self.modifiers.get(&ModifierKind::Instance) {
            None => {
                proof {
                    lemma_first_where_none(0, instance_pred(Seq::empty(), var_name@));
                }
                return None;
            },
            Some(m) => m,
        };
        let args = collect_flat_args(mods);
        let ghost fl = flat_args(mods@);
        let mut i: usize = 0;
        while i < args.len()
            invariant
                args@.map_values(|a: &Arg| *a) == fl,
                fl == modifier_args(self.modifiers, ModifierKind::Instance),
                i <= args@.len(),
                forall|j: int| 0 <= j < i ==> !#[trigger] instance_pred(fl, var_name@)(j),
            decreases args@.len() - i,
        {
            let arg = args[i];
            assert(fl[i as int] == *arg);
            if eq_ignore_case(arg.name.as_str(), var_name.as_str()) {
                proof {
                    lemma_first_where_is(fl.len() as int, instance_pred(fl, var_name@), i as int);
                }
                return Some(None);
            }
            if starts_with_dotted_exec(var_name.as_str(), arg.name.as_str()) {
                proof {
                    lemma_first_where_is(fl.len() as int, instance_pred(fl, var_name@), i as int);
                }
                let n = arg.name.as_str().unicode_len();
                let _m = var_name.as_str().unicode_len();
                return Some(Some(chars_from(var_name.as_str(), n + 1)));
            }
            i += 1;
        }
        proof {
            lemma_first_where_none(fl.len() as int, instance_pred(fl, var_name@));
        }
        None
    }

    /// The reference argument `identifier` refers to: what follows its name, and its index.
    pub fn find_fun_ref_arg(&self, identifier: &String) -> (r: Option<(String, usize)>)
        ensures
            match fun_ref_arg(*self, identifier@) {
                Some((s, i)) => r matches Some(x) && x.0@ == s && x.1 == i,
                None => r is None,
            },
    {
        let mut i: usize = 0;
        while i < self.args.len()
            invariant
                i <= self.args@.len(),
                forall|j: int| 0 <= j < i ==> !#[trigger] ref_pred(self.args@, identifier@)(j),
            decreases self.args@.len() - i,
        {
            if identifier_refers_to_fun_ref_arg(&self.args[i], identifier) {
                proof {
                    lemma_first_where_is(self.args@.len() as int, ref_pred(self.args@, identifier@), i as int);
                    assert(lower(self.args@[i as int].name@).len() == self.args@[i as int].name@.len());
                }
                let n = self.args[i].name.as_str().unicode_len();
                let suffix = chars_from(identifier.as_str(), n);
                return Some((suffix, i));
            }
            i += 1;
        }
        proof {
            lemma_first_where_none(self.args@.len() as int, ref_pred(self.args@, identifier@));
        }
        None
    }

    /// Whether a global variable named `identifier` can be reached from the function.
    pub fn global_var_is_accessible(&self, identifier: &String) -> (r: bool)
        ensures
            r == global_accessible(*self, identifier@),
    {
        let global_mods = match &self.modifiers.global {
            None => { return true; },
            Some(m) => m,
        };
        let flat = collect_flat_args(global_mods);
        let ghost fl = flat_args(global_mods@);
        if flat.len() == 0 {
            return false;
        }
        assert(global_accessible(*self, identifier@) == exists|j: int|
            0 <= j < fl.len() && global_matches(fl[j], identifier@));
        let mut i: usize = 0;
        while i < flat.len()
            invariant
                global_accessible(*self, identifier@) == exists|j: int|
                    0 <= j < fl.len() && global_matches(fl[j], identifier@),
                flat@.map_values(|a: &Arg| *a) == fl,
                i <= flat@.len(),
                forall|j: int| 0 <= j < i ==> !global_matches(#[trigger] fl[j], identifier@),
            decreases flat@.len() - i,
        {
            assert(fl[i as int] == *flat@[i as int]);
            if global_matches_arg(flat[i], identifier) {
                assert(global_matches(fl[i as int], identifier@));
                return true;
            }
            i += 1;
        }
        false
    }

    /// How `variable` relates to the function.
    pub fn classify_variable(&self, variable: &String, bypass_global_modifier: bool) -> (r: VarKind)
        ensures
            var_kind_view(r) == classify(*self, variable@, bypass_global_modifier),
    {
        proof {
            reveal_strlit("#");
            assert("#"@ =~= seq!['#']);
        }
        if str_eq(variable.as_str(), "#") {
            return VarKind::TempString;
        }
        let (is_this, suffix) = get_suffix_if_this(variable);
        if is_this {
            return VarKind::This { suffix };
        }
        if let Some((suffix, arg_index)) = self.find_fun_ref_arg(variable) {
            return VarKind::RefArg { suffix, arg_index };
        }
        if let Some((arg_index, _)) = self.find_fun_arg(variable) {
            return VarKind::Arg { arg_index };
        }
        if self.has_local_var(variable) {
            return VarKind::Local;
        }
        if let Some(suffix) = self.find_instance_var(variable) {
            return VarKind::Instance { suffix };
        }
        VarKind::Global {
            accessible: bypass_global_modifier || self.global_var_is_accessible(variable),
        }
    }
}


/// The prefix of a function call as written: what comes before its last dot, or the whole
/// name when it has no dot.
pub open spec fn call_prefix(a: Seq<char>) -> Seq<char> {
    if dots_of(a).len() > 0 {
        a.take(dots_of(a).last())
    } else {
        a
    }
}

/// The names of the parameters that are identifiers, each followed by `suffix`.
pub open spec fn ident_names(ps: Seq<Param>, suffix: Seq<char>) -> Seq<Seq<char>>
    decreases ps.len(),
{
    if ps.len() == 0 {
        Seq::empty()
    } else {
        ident_names(ps.drop_last(), suffix) + match ps.last().kind {
            ParamKind::Identifier { name } => seq![name@ + suffix],
            _ => Seq::empty(),
        }
    }
}

/// `ident_names` of each list of parameters, one after the other.
pub open spec fn ident_names_all(pss: Seq<Vec<Param>>, suffix: Seq<char>) -> Seq<Seq<char>>
    decreases pss.len(),
{
    if pss.len() == 0 {
        Seq::empty()
    } else {
        ident_names_all(pss.drop_last(), suffix) + ident_names(pss.last()@, suffix)
    }
}

/// The variables accessed when a reference argument of the called function is accessed
/// with `suffix`; `None` when the function is unknown or the argument or parameter missing.
pub open spec fn ref_arg_names(fc: FunCall, suffix: Seq<char>, arg_index: int) -> Option<Seq<Seq<char>>> {
    match fc.fun {
        None => None,
        Some(f) => if arg_index >= f.args@.len() || arg_index >= fc.params@.len() {
            None
        } else if is_ellipsis(f.args@[arg_index]) {
            Some(ident_names_all(fc.params@.skip(arg_index), suffix))
        } else {
            Some(ident_names(fc.params@[arg_index]@, suffix))
        },
    }
}

fn push_ident_names(out: &mut Vec<String>, ps: &Vec<Param>, suffix: &str)
    ensures
        final(out)@.map_values(|s: String| s@) == old(out)@.map_values(|s: String| s@) + ident_names(ps@, suffix@),
{
    let mut i: usize = 0;
    while i < ps.len()
        invariant
            i <= ps@.len(),
            out@.map_values(|s: String| s@) == old(out)@.map_values(|s: String| s@) + ident_names(ps@.take(i as int), suffix@),
        decreases ps@.len() - i,
    {
        assert(ps@.take(i + 1).drop_last() =~= ps@.take(i as int));
        let ghost before = out@;
        if let ParamKind::Identifier { name } = &ps[i].kind {
            out.push(concat(name.as_str(), suffix));
            assert(out@.map_values(|s: String| s@) =~= before.map_values(|s: String| s@).push(name@ + suffix@));
        }
        assert(out@.map_values(|s: String| s@) =~= old(out)@.map_values(|s: String| s@) + ident_names(ps@.take(i + 1), suffix@));
        i += 1;
    }
    assert(ps@.take(i as int) =~= ps@);
}

/// Whether the `instance()` argument `a` is what the call `accessed_as` (with `prefix`)
/// names: the whole call (ASCII case ignored), its prefix, or the part of its prefix
/// before one of its dots.
pub open spec fn instance_arg_named(a: Arg, accessed_as: Seq<char>, prefix: Option<String>) -> bool {
    ||| lower(a.name@) == lower(accessed_as)
    ||| prefix matches Some(p) && (lower(p@) == lower(a.name@) || exists|k: int|
        0 <= k < dots_of(p@).len() && lower(a.name@) == lower(p@.take(#[trigger] dots_of(p@)[k])))
}

/// Whether an `instance()` argument of `f` is what the call `c` names.
pub open spec fn names_instance_arg(f: Fun, c: FunCall) -> bool {
    exists|i: int|
        0 <= i < modifier_args(f.modifiers, ModifierKind::Instance).len() && #[trigger] instance_arg_named(
            modifier_args(f.modifiers, ModifierKind::Instance)[i],
            c.accessed_as@,
            c.prefix,
        )
}

/// Whether a `global()` argument of `f` is named `name` (ASCII case ignored).
pub open spec fn names_global_arg(f: Fun, name: Seq<char>) -> bool {
    exists|i: int|
        0 <= i < modifier_args(f.modifiers, ModifierKind::Global).len() && lower(
            modifier_args(f.modifiers, ModifierKind::Global)[i].name@,
        ) == lower(name)
}

/// Whether the `instance()` argument `a` is what the call `accessed_as` (with `prefix`)
/// names.
fn instance_arg_matches(a: &Arg, accessed_as: &String, prefix: &Option<String>) -> (r: bool)
    ensures
        r == instance_arg_named(*a, accessed_as@, *prefix),
{
    if eq_ignore_case(a.name.as_str(), accessed_as.as_str()) {
        return true;
    }
    let p = match prefix {
        Some(p) => p,
        None => {
            return false;
        },
    };
    if eq_ignore_case(p.as_str(), a.name.as_str()) {
        return true;
    }
    let dots = dot_positions(p.as_str());
    proof {
        lemma_dots_of_bounds(p@);
    }
    let mut i: usize = 0;
    while i < dots.len()
        invariant
            i <= dots@.len(),
            dots@.map_values(|x: usize| x as int) == dots_of(p@),
            forall|k: int| 0 <= k < dots_of(p@).len() ==> 0 <= #[trigger] dots_of(p@)[k] < p@.len(),
            forall|k: int| 0 <= k < i ==> lower(a.name@) != lower(p@.take(#[trigger] dots_of(p@)[k])),
            *prefix matches Some(q) && q@ == p@,
        decreases dots@.len() - i,
    {
        assert(dots@[i as int] as int == dots_of(p@)[i as int]);
        let split = chars_until(p.as_str(), dots[i]);
        if eq_ignore_case(a.name.as_str(), split.as_str()) {
            assert(split@ =~= p@.take(dots_of(p@)[i as int]));
            assert(0 <= i < dots_of(p@).len());
            assert(lower(a.name@) == lower(p@.take(dots_of(p@)[i as int])));
            proof {
                let q = (*prefix)->0;
                assert(q@ == p@);
                assert(exists|k: int| 0 <= k < dots_of(q@).len() && lower(a.name@) == lower(q@.take(#[trigger] dots_of(q@)[k])));
            }
            return true;
        }
        i += 1;
    }
    assert(!instance_arg_named(*a, accessed_as@, *prefix));
    false
}

impl FunCall {
    /// Completes the call once the function it is made in is known (`None` at the top
    /// level): its depth, and whether it names an `instance()` or a `global()` argument of
    /// that function.
    pub fn finish_setup(&mut self, parent_fun: Option<&Fun>)
        ensures
            final(self).params == old(self).params,
            final(self).fun == old(self).fun,
            final(self).prefix == old(self).prefix,
            final(self).uuid == old(self).uuid,
            final(self).location == old(self).location,
            final(self).accessed_as == old(self).accessed_as,
            parent_fun is None ==> final(self).depth == Depth::TopLevel
                && final(self).name_matches_instance_arg == old(self).name_matches_instance_arg
                && final(self).name_matches_global_arg == old(self).name_matches_global_arg,
            parent_fun matches Some(p) ==> final(self).depth == (Depth::Nested { parent_fun: p.uuid })
                && final(self).name_matches_instance_arg == names_instance_arg(*p, *old(self))
                && final(self).name_matches_global_arg == (!names_instance_arg(*p, *old(self))
                && old(self).prefix is Some && names_global_arg(*p, old(self).accessed_as@)),
    {
        let parent_fun = match parent_fun {
            Some(p) => p,
            None => {
                self.depth = Depth::TopLevel;
                return;
            },
        };
        self.depth = Depth::Nested { parent_fun: parent_fun.uuid };
        let mut matches_instance = false;
        if let Some(mods) = parent_fun.modifiers.get(&ModifierKind::Instance) {
            let args = collect_flat_args(mods);
            let ghost fl = flat_args(mods@);
            let mut i: usize = 0;
            while i < args.len() && !matches_instance
                invariant
                    args@.map_values(|a: &Arg| *a) == fl,
                    fl == modifier_args(parent_fun.modifiers, ModifierKind::Instance),
                    i <= args@.len(),
                    !matches_instance ==> forall|j: int| 0 <= j < i ==> !#[trigger] instance_arg_named(fl[j], self.accessed_as@, self.prefix),
                    matches_instance ==> names_instance_arg(*parent_fun, *self),
                decreases args@.len() - i,
            {
                if instance_arg_matches(args[i], &self.accessed_as, &self.prefix) {
                    assert(fl[i as int] == *args@[i as int]);
                    matches_instance = true;
                }
                i += 1;
            }
        }
        self.name_matches_instance_arg = matches_instance;
        self.name_matches_global_arg = !matches_instance && self.prefix.is_some()
            && parent_fun.has_modifier_with_arg_name(&ModifierKind::Global, &self.accessed_as);
    }

    /// The prefix of the call as written, or the function name when there is no dot.
    pub fn get_prefix(&self) -> (r: String)
        ensures
            r@ == call_prefix(self.accessed_as@),
    {
        let dots = dot_positions(self.accessed_as.as_str());
        let n = dots.len();
        if n == 0 {
            self.accessed_as.clone()
        } else {
            proof {
                lemma_dots_of_bounds(self.accessed_as@);
                assert(dots@[n - 1] as int == dots_of(self.accessed_as@)[n - 1]);
            }
            chars_until(self.accessed_as.as_str(), dots[n - 1])
        }
    }

    /// The called function's name as written at the call (without the prefix).
    pub fn fun_name(&self) -> (r: String)
        requires
            self.prefix matches Some(p) ==> (p@.len() + 1 <= self.accessed_as@.len()
                && self.accessed_as@.take(p@.len() + 1int) == p@.push('.')),
        ensures
            r@ == match self.prefix {
                None => self.accessed_as@,
                Some(p) => self.accessed_as@.subrange(p@.len() + 1int, self.accessed_as@.len() as int),
            },
    {
        match &self.prefix {
            None => self.accessed_as.clone(),
            Some(p) => {
                let n = p.as_str().unicode_len();
                let _m = self.accessed_as.as_str().unicode_len();
                chars_from(self.accessed_as.as_str(), n + 1)
            },
        }
    }

    /// Whether the call is nested in a function definition and has a prefix.
    pub fn is_nested_and_has_prefix(&self) -> (r: bool)
        ensures
            r == (self.depth is Nested && self.prefix is Some),
    {
        matches!(self.depth, Depth::Nested { .. }) && self.prefix.is_some()
    }

    /// The call's prefix, and `variable_name` reached through it.
    pub fn instance_var_to_prefixed(&self, variable_name: &str) -> (r: (String, String))
        ensures
            r.0@ == call_prefix(self.accessed_as@),
            r.1@ == call_prefix(self.accessed_as@) + seq!['.'] + variable_name@,
    {
        let prefix = self.get_prefix();
        let var_name = join_dot(prefix.as_str(), variable_name);
        (prefix, var_name)
    }

    /// The variables accessed when the reference argument at `arg_index` of the called
    /// function is accessed with `suffix`.
    pub fn ref_arg_to_accessed_as(&self, suffix: &str, arg_index: usize) -> (r: Option<Vec<String>>)
        ensures
            match ref_arg_names(*self, suffix@, arg_index as int) {
                Some(names) => r matches Some(v) && v@.map_values(|s: String| s@) == names,
                None => r is None,
            },
    {
        let called_fun = match &self.fun {
            Some(f) => f,
            None => { return None; },
        };
        if arg_index >= called_fun.args.len() {
            return None;
        }
        let arg = &called_fun.args[arg_index];
        if arg_index >= self.params.len() {
            return None;
        }
        let mut var_names: Vec<String> = Vec::new();
        if is_ellipsis_exec(arg) {
            let mut i = arg_index;
            while i < self.params.len()
                invariant
                    arg_index <= i <= self.params@.len(),
                    var_names@.map_values(|s: String| s@) == ident_names_all(
                        self.params@.skip(arg_index as int).take(i - arg_index),
                        suffix@,
                    ),
                decreases self.params@.len() - i,
            {
                let ghost rest = self.params@.skip(arg_index as int);
                assert(rest.take(i + 1 - arg_index).drop_last() =~= rest.take(i - arg_index));
                assert(rest.take(i + 1 - arg_index).last() == self.params@[i as int]);
                push_ident_names(&mut var_names, &self.params[i], suffix);
                i += 1;
            }
            assert(self.params@.skip(arg_index as int).take(i - arg_index) =~= self.params@.skip(arg_index as int));
            return Some(var_names);
        }
        assert(var_names@.map_values(|s: String| s@) =~= Seq::<Seq<char>>::empty());
        push_ident_names(&mut var_names, &self.params[arg_index], suffix);
        assert(Seq::<Seq<char>>::empty() + ident_names(self.params@[arg_index as int]@, suffix@)
            =~= ident_names(self.params@[arg_index as int]@, suffix@));
        Some(var_names)
    }
}

} // verus!
