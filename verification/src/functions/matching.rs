use std::rc::Rc;
use vstd::prelude::*;

use crate::ast::{identifier_of, LocatedAst};
use crate::functions::params::{all_returnable, collect, params_from};
use crate::functions::{arg_count_matches, match_arg_count, Depth, Fun, FunCall};
use crate::program::opt_text;
use crate::text::{chars_until, concat, eq_ignore_case, lower};

verus! {

/// How a function is looked for by the name it is called with.
#[derive(PartialEq, Eq, Structural, Debug, Clone, Copy)]
pub enum Lookup {
    /// The same name (in any case), and arguments that the call's parameters fit.
    Exact,
    /// A member function: the call's name ends with a dot and the function's name, and
    /// the call's parameters fit its arguments.
    ExactObj,
    /// The same name, whatever the number of parameters.
    Inexact,
    /// A member function, whatever the number of parameters.
    InexactObj,
}

/// Whether the call named `name` ends with a dot followed by `f`, in any case.
pub open spec fn ends_with_member(name: Seq<char>, f: Seq<char>) -> bool {
    f.len() + 1 <= name.len() && lower(name.skip(name.len() - f.len() - 1)) == lower(seq!['.'] + f)
}

/// Whether `f` answers a call named `name` with `n` parameters, looked for by `l`.
pub open spec fn fits(f: Fun, name: Seq<char>, n: int, l: Lookup) -> bool {
    match l {
        Lookup::Exact => lower(f.name@) == lower(name) && arg_count_matches(n, f.args@),
        Lookup::ExactObj => ends_with_member(name, f.name@) && arg_count_matches(n, f.args@),
        Lookup::Inexact => lower(f.name@) == lower(name),
        Lookup::InexactObj => ends_with_member(name, f.name@),
    }
}

/// Whether a lookup looks for a member function.
pub open spec fn is_member_lookup(l: Lookup) -> bool {
    l is ExactObj || l is InexactObj
}

/// Whether `i` is the function of `fs` that the lookup picks: the first that fits, or for
/// a member function the first of those with the longest name.
pub open spec fn picked(fs: Seq<Rc<Fun>>, name: Seq<char>, n: int, l: Lookup, i: int) -> bool {
    &&& 0 <= i < fs.len()
    &&& fits(*fs[i], name, n, l)
    &&& forall|j: int|
        0 <= j < fs.len() && #[trigger] fits(*fs[j], name, n, l) ==> if is_member_lookup(l) {
            fs[j].name@.len() <= fs[i].name@.len() && (j < i ==> fs[j].name@.len() < fs[i].name@.len())
        } else {
            i <= j
        }
}

/// The function of `fs` that the lookup picks, if one fits.
pub open spec fn pick(fs: Seq<Rc<Fun>>, name: Seq<char>, n: int, l: Lookup) -> Option<int> {
    if exists|i: int| picked(fs, name, n, l, i) {
        Some(choose|i: int| picked(fs, name, n, l, i))
    } else {
        None
    }
}

/// Whether the arguments of every function of `fs` can be counted.
pub open spec fn countable(fs: Seq<Rc<Fun>>) -> bool {
    forall|j: int| 0 <= j < fs.len() ==> (#[trigger] fs[j]).args@.len() + 32 <= usize::MAX
}

proof fn lemma_picked_unique(fs: Seq<Rc<Fun>>, name: Seq<char>, n: int, l: Lookup, i: int, k: int)
    requires
        picked(fs, name, n, l, i),
        picked(fs, name, n, l, k),
    ensures
        i == k,
{
    assert(fits(*fs[i], name, n, l));
    assert(fits(*fs[k], name, n, l));
}

fn fits_exec(f: &Fun, name: &str, param_count: usize, l: Lookup) -> (r: bool)
    requires
        f.args@.len() + 32 <= usize::MAX,
    ensures
        r == fits(*f, name@, param_count as int, l),
{
    let named = match l {
        Lookup::Exact | Lookup::Inexact => eq_ignore_case(f.name.as_str(), name),
        Lookup::ExactObj | Lookup::InexactObj => {
            let n = name.unicode_len();
            let m = f.name.unicode_len();
            if m < n {
                let tail = name.substring_char(n - m - 1, n);
                let member = concat(".", f.name.as_str());
                proof {
                    reveal_strlit(".");
                    assert("."@ =~= seq!['.']);
                    assert(name@.skip(n - m - 1) =~= name@.subrange(n - m - 1, n as int));
                }
                eq_ignore_case(tail, member.as_str())
            } else {
                false
            }
        },
    };
    match l {
        Lookup::Exact | Lookup::ExactObj => named && match_arg_count(param_count, &f.args),
        Lookup::Inexact | Lookup::InexactObj => named,
    }
}

/// The function of `fs` that a call named `name` with `param_count` parameters picks
/// when looked for by `l`: the first that fits, or for a member function the first of
/// those with the longest name.
pub fn find_in(fs: &Vec<Rc<Fun>>, name: &str, param_count: usize, l: Lookup) -> (r: Option<usize>)
    requires
        countable(fs@),
    ensures
        match r {
            Some(i) => pick(fs@, name@, param_count as int, l) == Some(i as int),
            None => pick(fs@, name@, param_count as int, l) is None,
        },
        r is None <==> forall|j: int| 0 <= j < fs@.len() ==> !#[trigger] fits(*fs@[j], name@, param_count as int, l),
{
    let ghost n = param_count as int;
    let member = match l {
        Lookup::ExactObj | Lookup::InexactObj => true,
        _ => false,
    };
    let mut best: Option<usize> = None;
    let mut best_len: usize = 0;
    let mut i: usize = 0;
    while i < fs.len()
        invariant
            i <= fs@.len(),
            countable(fs@),
            member == is_member_lookup(l),
            n == param_count as int,
            match best {
                Some(b) => {
                    &&& b < i
                    &&& fits(*fs@[b as int], name@, n, l)
                    &&& best_len == fs@[b as int].name@.len()
                    &&& forall|j: int|
                        0 <= j < i && #[trigger] fits(*fs@[j], name@, n, l) ==> if member {
                            fs@[j].name@.len() <= best_len && (j < b ==> fs@[j].name@.len() < best_len)
                        } else {
                            b <= j
                        }
                },
                None => forall|j: int| 0 <= j < i ==> !#[trigger] fits(*fs@[j], name@, n, l),
            },
        decreases fs@.len() - i,
    {
        let f: &Fun = &*fs[i];
        assert(*f == *fs@[i as int]);
        assert(fs@[i as int].args@.len() + 32 <= usize::MAX);
        let ok = fits_exec(f, name, param_count, l);
        assert(ok == fits(*fs@[i as int], name@, n, l));
        let len = f.name.unicode_len();
        let ghost old_best = best;
        let ghost old_len = best_len;
        if ok {
            match best {
                None => {
                    best = Some(i);
                    best_len = len;
                },
                Some(b) => {
                    if member && len > best_len {
                        best = Some(i);
                        best_len = len;
                    }
                },
            }
        }
        proof {
            if let Some(b) = best {
                assert forall|j: int| 0 <= j < i + 1 && #[trigger] fits(*fs@[j], name@, n, l) implies if member {
                    fs@[j].name@.len() <= best_len && (j < b ==> fs@[j].name@.len() < best_len)
                } else {
                    b <= j
                } by {
                    if j < i {
                        match old_best {
                            Some(ob) => {
                                assert(fits(*fs@[j], name@, n, l));
                                if member {
                                    assert(fs@[j].name@.len() <= old_len);
                                    assert(j < ob ==> fs@[j].name@.len() < old_len);
                                } else {
                                    assert(ob <= j);
                                }
                            },
                            None => {
                                assert(!fits(*fs@[j], name@, n, l));
                            },
                        }
                    } else {
                        assert(j == i);
                        assert(ok);
                    }
                }
            }
        }
        i += 1;
    }
    proof {
        match best {
            Some(b) => {
                assert(picked(fs@, name@, n, l, b as int));
                let k = choose|k: int| picked(fs@, name@, n, l, k);
                lemma_picked_unique(fs@, name@, n, l, b as int, k);
            },
            None => {
                assert forall|k: int| !picked(fs@, name@, n, l, k) by {
                    if 0 <= k < fs@.len() {
                        assert(!fits(*fs@[k], name@, n, l));
                    }
                }
            },
        }
    }
    best
}

/// The functions of an optional list: none when there is no list.
pub open spec fn listed(fs: Option<Vec<Rc<Fun>>>) -> Seq<Rc<Fun>> {
    match fs {
        Some(v) => v@,
        None => Seq::empty(),
    }
}

/// What stands before the dot in a call named `name` to the member function named `f`.
pub open spec fn member_prefix(name: Seq<char>, f: Seq<char>) -> Seq<char> {
    name.take(name.len() - f.len() - 1)
}

/// The member function of longest name that the `@init` functions `init` or the section's
/// functions `s` give, looked for by `l`: the one of `@init` only when its name is longer.
pub open spec fn longest_member(s: Seq<Rc<Fun>>, init: Seq<Rc<Fun>>, name: Seq<char>, n: int, l: Lookup) -> Option<Fun> {
    match (pick(init, name, n, l), pick(s, name, n, l)) {
        (Some(a), Some(c)) => if init[a].name@.len() > s[c].name@.len() {
            Some(*init[a])
        } else {
            Some(*s[c])
        },
        (Some(a), None) => Some(*init[a]),
        (None, Some(c)) => Some(*s[c]),
        (None, None) => None,
    }
}

/// The function that a call named `name` with `n` parameters calls, from the functions of
/// its section `s`, those of the `@init` section `init` and the builtin functions `b`, with
/// the prefix of the call when it calls a member function. In this order: a function of
/// the same name whose arguments fit, in the section, in `@init`, among the builtins; the
/// member function of longest name whose arguments fit, in `@init` or the section; a
/// function of the same name, in the section, then in `@init`; a member function of
/// longest name, in the section, then in `@init`; a builtin of the same name.
pub open spec fn matching(s: Seq<Rc<Fun>>, init: Seq<Rc<Fun>>, b: Seq<Rc<Fun>>, name: Seq<char>, n: int) -> (Option<Fun>, Option<Seq<char>>) {
    match pick(s, name, n, Lookup::Exact) {
        Some(i) => (Some(*s[i]), None),
        None => match pick(init, name, n, Lookup::Exact) {
            Some(i) => (Some(*init[i]), None),
            None => match pick(b, name, n, Lookup::Exact) {
                Some(i) => (Some(*b[i]), None),
                None => match longest_member(s, init, name, n, Lookup::ExactObj) {
                    Some(f) => (Some(f), Some(member_prefix(name, f.name@))),
                    None => match pick(s, name, n, Lookup::Inexact) {
                        Some(i) => (Some(*s[i]), None),
                        None => match pick(init, name, n, Lookup::Inexact) {
                            Some(i) => (Some(*init[i]), None),
                            None => match pick(s, name, n, Lookup::InexactObj) {
                                Some(i) => (Some(*s[i]), Some(member_prefix(name, s[i].name@))),
                                None => match pick(init, name, n, Lookup::InexactObj) {
                                    Some(i) => (Some(*init[i]), Some(member_prefix(name, init[i].name@))),
                                    None => match pick(b, name, n, Lookup::Inexact) {
                                        Some(i) => (Some(*b[i]), None),
                                        None => (None, None),
                                    },
                                },
                            },
                        },
                    },
                },
            },
        },
    }
}

/// The function a call calls, if any is found, and the prefix of the call when it calls a
/// member function (`foo` in `foo.bar()`).
pub struct MatchingFun {
    pub fun: Option<Rc<Fun>>,
    pub prefix: Option<String>,
}

proof fn lemma_pick_picked(fs: Seq<Rc<Fun>>, name: Seq<char>, n: int, l: Lookup)
    ensures
        pick(fs, name, n, l) matches Some(i) ==> picked(fs, name, n, l, i),
{
}

fn find_in_opt(fs: &Option<Vec<Rc<Fun>>>, name: &str, param_count: usize, l: Lookup) -> (r: Option<usize>)
    requires
        countable(listed(*fs)),
    ensures
        match r {
            Some(i) => pick(listed(*fs), name@, param_count as int, l) == Some(i as int),
            None => pick(listed(*fs), name@, param_count as int, l) is None,
        },
{
    match fs {
        Some(v) => find_in(v, name, param_count, l),
        None => {
            proof {
                assert forall|k: int| !picked(listed(*fs), name@, param_count as int, l, k) by {}
            }
            None
        },
    }
}

fn prefix_of(name: &str, f: &Fun) -> (r: String)
    requires
        f.name@.len() + 1 <= name@.len(),
    ensures
        r@ == member_prefix(name@, f.name@),
{
    chars_until(name, name.unicode_len() - f.name.unicode_len() - 1)
}

fn nth(fs: &Option<Vec<Rc<Fun>>>, i: usize) -> (r: Rc<Fun>)
    requires
        0 <= i < listed(*fs).len(),
    ensures
        r == listed(*fs)[i as int],
{
    let v = fs.as_ref().unwrap();
    v[i].clone()
}

/// The function that a call named `name` with `param_count` parameters calls, from the
/// functions of its section, those of the `@init` section (if the program has one) and the
/// builtin functions, with the prefix of the call when it calls a member function: the
/// function and prefix of `matching`.
pub fn find_matching_function(
    section_funs: &Vec<Rc<Fun>>,
    name: &str,
    param_count: usize,
    init_funs: &Option<Vec<Rc<Fun>>>,
    builtins: &Vec<Rc<Fun>>,
) -> (r: MatchingFun)
    requires
        countable(section_funs@),
        countable(listed(*init_funs)),
        countable(builtins@),
    ensures
        ({
            let m = matching(section_funs@, listed(*init_funs), builtins@, name@, param_count as int);
            &&& (match m.0 {
                Some(f) => r.fun matches Some(g) && *g == f,
                None => r.fun is None,
            })
            &&& opt_text(r.prefix) == m.1
        }),
{
    let s = section_funs;
    let ghost n = param_count as int;
    let ghost init = listed(*init_funs);
    if let Some(i) = find_in(s, name, param_count, Lookup::Exact) {
        return MatchingFun { fun: Some(s[i].clone()), prefix: None };
    }
    if let Some(i) = find_in_opt(init_funs, name, param_count, Lookup::Exact) {
        return MatchingFun { fun: Some(nth(init_funs, i)), prefix: None };
    }
    if let Some(i) = find_in(builtins, name, param_count, Lookup::Exact) {
        return MatchingFun { fun: Some(builtins[i].clone()), prefix: None };
    }
    let io = find_in_opt(init_funs, name, param_count, Lookup::ExactObj);
    let so = find_in(s, name, param_count, Lookup::ExactObj);
    proof {
        lemma_pick_picked(init, name@, n, Lookup::ExactObj);
        lemma_pick_picked(s@, name@, n, Lookup::ExactObj);
    }
    let member: Option<Rc<Fun>> = match (io, so) {
        (Some(a), Some(c)) => {
            let fa = nth(init_funs, a);
            let fa_ref: &Fun = &*fa;
            let fc_ref: &Fun = &*s[c];
            if fa_ref.name.unicode_len() > fc_ref.name.unicode_len() {
                Some(fa)
            } else {
                Some(s[c].clone())
            }
        },
        (Some(a), None) => Some(nth(init_funs, a)),
        (None, Some(c)) => Some(s[c].clone()),
        (None, None) => None,
    };
    if let Some(f) = member {
        let f_ref: &Fun = &*f;
        let p = prefix_of(name, f_ref);
        return MatchingFun { fun: Some(f), prefix: Some(p) };
    }
    if let Some(i) = find_in(s, name, param_count, Lookup::Inexact) {
        return MatchingFun { fun: Some(s[i].clone()), prefix: None };
    }
    if let Some(i) = find_in_opt(init_funs, name, param_count, Lookup::Inexact) {
        return MatchingFun { fun: Some(nth(init_funs, i)), prefix: None };
    }
    if let Some(i) = find_in(s, name, param_count, Lookup::InexactObj) {
        proof {
            lemma_pick_picked(s@, name@, n, Lookup::InexactObj);
        }
        let f_ref: &Fun = &*s[i];
        let p = prefix_of(name, f_ref);
        return MatchingFun { fun: Some(s[i].clone()), prefix: Some(p) };
    }
    if let Some(i) = find_in_opt(init_funs, name, param_count, Lookup::InexactObj) {
        proof {
            lemma_pick_picked(init, name@, n, Lookup::InexactObj);
        }
        let f = nth(init_funs, i);
        let f_ref: &Fun = &*f;
        let p = prefix_of(name, f_ref);
        return MatchingFun { fun: Some(f), prefix: Some(p) };
    }
    if let Some(i) = find_in(builtins, name, param_count, Lookup::Inexact) {
        return MatchingFun { fun: Some(builtins[i].clone()), prefix: None };
    }
    MatchingFun { fun: None, prefix: None }
}

/// The number of parameters of a call, from what its parameter expressions may return:
/// none when the call has no parameter list.
pub open spec fn param_count_of(param_returns: Option<Vec<Vec<&LocatedAst>>>) -> int {
    match param_returns {
        Some(rs) => rs@.len() as int,
        None => 0,
    }
}

impl FunCall {
    /// Starts the call that the identifier `id` makes, with the parameters whose
    /// expressions may return `param_returns` (none without a parameter list): the called
    /// function and the call's prefix are those that `find_matching_function` gives; the
    /// parameters are collected when the function is found; the depth is undetermined in a
    /// function definition (`is_in_fn`) and top level elsewhere; whether the name matches
    /// a modifier argument is left to `finish_setup`.
    pub fn start_setup(
        param_returns: &Option<Vec<Vec<&LocatedAst>>>,
        id: &LocatedAst,
        section_funs: &Vec<Rc<Fun>>,
        init_funs: &Option<Vec<Rc<Fun>>>,
        builtins: &Vec<Rc<Fun>>,
        is_in_fn: bool,
        uuid: u128,
    ) -> (r: FunCall)
        requires
            identifier_of(id.ast) is Some,
            countable(section_funs@),
            countable(listed(*init_funs)),
            countable(builtins@),
            match *param_returns {
                Some(rs) => all_returnable(rs@),
                None => true,
            },
        ensures
            ({
                let name = identifier_of(id.ast)->0;
                let m = matching(section_funs@, listed(*init_funs), builtins@, name, param_count_of(*param_returns));
                &&& (match m.0 {
                    Some(f) => {
                        &&& r.fun matches Some(g) && *g == f
                        &&& match *param_returns {
                            Some(rs) => params_from(r.params@, rs@),
                            None => r.params@.len() == 0,
                        }
                    },
                    None => r.fun is None && r.params@.len() == 0,
                })
                &&& opt_text(r.prefix) == m.1
                &&& r.accessed_as@ == name
            }),
            r.location == id.location,
            r.uuid == uuid,
            is_in_fn ==> r.depth is Undetermined,
            !is_in_fn ==> r.depth is TopLevel,
            !r.name_matches_global_arg,
            !r.name_matches_instance_arg,
    {
        let param_count = match param_returns {
            Some(rs) => rs.len(),
            None => 0,
        };
        let name = id.ast.identifier().unwrap();
        let found = find_matching_function(section_funs, name.as_str(), param_count, init_funs, builtins);
        let params = match &found.fun {
            Some(f) => {
                let f_ref: &Fun = &**f;
                collect(param_returns, f_ref)
            },
            None => Vec::new(),
        };
        let depth = if is_in_fn {
            Depth::Undetermined
        } else {
            Depth::TopLevel
        };
        FunCall {
            params,
            fun: found.fun,
            prefix: found.prefix,
            uuid,
            location: id.location,
            accessed_as: name.clone(),
            depth,
            name_matches_global_arg: false,
            name_matches_instance_arg: false,
        }
    }
}

} // verus!
