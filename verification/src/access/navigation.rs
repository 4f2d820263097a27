use vstd::prelude::*;

use crate::functions::{call_prefix, starts_with_dotted, this_word, Depth, Fun, FunCall};
use crate::text::{
    chars_from, chars_until, concat, count_leading_dots, dot_positions, dots_of, eq_ignore_case,
    join_dot, lemma_dots_of_bounds, leading_dots, lower, starts_with_ignore_case, this_string,
};

verus! {

/// What `this` accesses are suffixed with.
pub enum ThisAccessSuffix {
    /// `this` followed by dots (two or more in the source) and a suffix, e.g. `this..foo`
    Navigation { suffix: String, suffix_after_dots: String, dot_count: usize },
    /// `this` followed by a single dot and a suffix, e.g. `this.foo`
    Normal(String),
    /// `this` alone
    Bare,
}

/// The prefix of a function call, classified.
pub enum FunCallPrefix {
    /// `this`, possibly followed by one dot and a suffix, e.g. `this.foo()` or `this.inner.foo()`
    This { this_suffix: Option<String>, prefix: String },
    /// `this` followed by several dots and possibly a suffix, e.g. `this..foo()`
    ThisNavigation { this_suffix: Option<String>, this_prefix: String, dot_count: usize, prefix: String },
    Other(String),
}

/// What a `this` access resolves to at a call site.
pub struct NestedThisAccess {
    pub accessed_as: String,
    pub navigation_override: Option<String>,
    pub navigation_reached_global: bool,
}

/// Where a navigation out of a call's prefix leads.
pub struct ResolvedNavigation {
    pub reached_global: bool,
    pub name: String,
}

/// A classified `this` suffix, its texts taken as characters.
pub enum SuffixView {
    Navigation { suffix: Seq<char>, suffix_after_dots: Seq<char>, dot_count: int },
    Normal(Seq<char>),
    Nothing,
}

/// A classified call prefix, its texts taken as characters.
pub enum PrefixView {
    This { this_suffix: Option<Seq<char>>, prefix: Seq<char> },
    ThisNavigation { this_suffix: Option<Seq<char>>, this_prefix: Seq<char>, dot_count: int, prefix: Seq<char> },
    Other(Seq<char>),
}

pub open spec fn opt_view(o: Option<String>) -> Option<Seq<char>> {
    match o {
        Some(s) => Some(s@),
        None => None,
    }
}

pub open spec fn suffix_view(s: ThisAccessSuffix) -> SuffixView {
    match s {
        ThisAccessSuffix::Navigation { suffix, suffix_after_dots, dot_count } => SuffixView::Navigation {
            suffix: suffix@,
            suffix_after_dots: suffix_after_dots@,
            dot_count: dot_count as int,
        },
        ThisAccessSuffix::Normal(s) => SuffixView::Normal(s@),
        ThisAccessSuffix::Bare => SuffixView::Nothing,
    }
}

pub open spec fn prefix_view(p: FunCallPrefix) -> PrefixView {
    match p {
        FunCallPrefix::This { this_suffix, prefix } => PrefixView::This {
            this_suffix: opt_view(this_suffix),
            prefix: prefix@,
        },
        FunCallPrefix::ThisNavigation { this_suffix, this_prefix, dot_count, prefix } =>
            PrefixView::ThisNavigation {
            this_suffix: opt_view(this_suffix),
            this_prefix: this_prefix@,
            dot_count: dot_count as int,
            prefix: prefix@,
        },
        FunCallPrefix::Other(s) => PrefixView::Other(s@),
    }
}

/// How a `this` access suffix is classified: leading dots make a navigation.
pub open spec fn classify_suffix(suffix: Option<Seq<char>>) -> SuffixView {
    match suffix {
        None => SuffixView::Nothing,
        Some(s) => if leading_dots(s) > 0 {
            SuffixView::Navigation {
                suffix: s,
                suffix_after_dots: s.skip(leading_dots(s) as int),
                dot_count: leading_dots(s) as int,
            }
        } else {
            SuffixView::Normal(s)
        },
    }
}

/// How the prefix of a call is classified.
pub open spec fn classify_prefix(fc: FunCall) -> PrefixView {
    let prefix = call_prefix(fc.accessed_as@);
    if fc.prefix is None || fc.depth is TopLevel {
        PrefixView::Other(prefix)
    } else if lower(prefix) == this_word() {
        PrefixView::This { this_suffix: None, prefix }
    } else if !starts_with_dotted(prefix, this_word()) {
        PrefixView::Other(prefix)
    } else {
        let suffix = prefix.skip(4);
        let dc = leading_dots(suffix) as int;
        if dc == suffix.len() {
            PrefixView::ThisNavigation { this_suffix: None, this_prefix: prefix, dot_count: dc, prefix }
        } else {
            let after = suffix.skip(dc);
            if dc == 1 {
                PrefixView::This { this_suffix: Some(after), prefix }
            } else {
                PrefixView::ThisNavigation {
                    this_suffix: Some(after),
                    this_prefix: prefix.take(prefix.len() - after.len()),
                    dot_count: dc,
                    prefix,
                }
            }
        }
    }
}

/// Classifies a `this` access suffix.
pub fn classify_this_access_suffix(suffix: Option<&String>) -> (r: ThisAccessSuffix)
    ensures
        suffix_view(r) == classify_suffix(
            match suffix {
                Some(s) => Some(s@),
                None => None,
            },
        ),
{
    let suffix = match suffix {
        None => { return ThisAccessSuffix::Bare; },
        Some(s) => s,
    };
    let dot_count = count_leading_dots(suffix.as_str());
    if dot_count > 0 {
        ThisAccessSuffix::Navigation {
            suffix: suffix.clone(),
            suffix_after_dots: chars_from(suffix.as_str(), dot_count),
            dot_count,
        }
    } else {
        ThisAccessSuffix::Normal(suffix.clone())
    }
}

/// Classifies the prefix of a function call.
pub fn classify_fun_call_prefix(fun_call: &FunCall) -> (r: FunCallPrefix)
    ensures
        prefix_view(r) == classify_prefix(*fun_call),
{
    let prefix = fun_call.get_prefix();
    if fun_call.prefix.is_none() {
        return FunCallPrefix::Other(prefix);
    }
    if matches!(fun_call.depth, Depth::TopLevel) {
        return FunCallPrefix::Other(prefix);
    }
    let this = this_string();
    if eq_ignore_case(prefix.as_str(), this.as_str()) {
        proof {
            assert(lower(this@) =~= this@);
        }
        return FunCallPrefix::This { this_suffix: None, prefix: prefix.clone() };
    }
    proof {
        assert(lower(this@) =~= this@);
    }
    let mut this_dot = this_string();
    this_dot.push('.');
    if !starts_with_ignore_case(prefix.as_str(), this_dot.as_str()) {
        return FunCallPrefix::Other(prefix.clone());
    }
    let suffix = chars_from(prefix.as_str(), 4);
    let dot_count = count_leading_dots(suffix.as_str());
    let suffix_len = suffix.as_str().unicode_len();
    if dot_count == suffix_len {
        FunCallPrefix::ThisNavigation {
            dot_count,
            this_suffix: None,
            prefix: prefix.clone(),
            this_prefix: prefix.clone(),
        }
    } else {
        let suffix_after_dots = chars_from(suffix.as_str(), dot_count);
        if dot_count == 1 {
            FunCallPrefix::This { this_suffix: Some(suffix_after_dots), prefix: prefix.clone() }
        } else {
            let plen = prefix.as_str().unicode_len();
            let alen = suffix_after_dots.as_str().unicode_len();
            FunCallPrefix::ThisNavigation {
                this_prefix: chars_until(prefix.as_str(), plen - alen),
                this_suffix: Some(suffix_after_dots),
                dot_count,
                prefix: prefix.clone(),
            }
        }
    }
}

/// Where accessing `access_suffix` (a navigation of `dot_count` dots) inside a function
/// called with prefix `prefix` leads.
pub open spec fn accessed_as_spec(
    prefix: Seq<char>,
    fun_call_this_suffix: Option<Seq<char>>,
    this_prefix: Seq<char>,
    access_suffix: Seq<char>,
    dot_count: int,
) -> Seq<char> {
    match fun_call_this_suffix {
        None => prefix + seq!['.'] + access_suffix,
        Some(ts) => {
            let d = dots_of(ts);
            if d.len() == 0 {
                this_prefix + access_suffix.skip(1)
            } else if dot_count <= d.len() {
                this_prefix + ts.take(d[d.len() - dot_count]) + seq!['.'] + access_suffix.skip(dot_count)
            } else {
                this_prefix + access_suffix.skip(d.len() as int + 1)
            }
        },
    }
}

/// The conditions under which `get_accessed_as` stays within its texts.
pub open spec fn accessed_as_ok(
    fun_call_this_suffix: Option<Seq<char>>,
    access_suffix: Seq<char>,
    dot_count: int,
) -> bool {
    match fun_call_this_suffix {
        None => true,
        Some(ts) => {
            let d = dots_of(ts);
            &&& access_suffix.len() >= 1
            &&& (d.len() > 0 ==> 1 <= dot_count)
            &&& (d.len() > 0 && dot_count <= d.len() ==> dot_count <= access_suffix.len())
            &&& (d.len() > 0 && dot_count > d.len() ==> d.len() + 1 <= access_suffix.len())
        },
    }
}

/// Where accessing `access_suffix` (a navigation of `dot_count` dots) inside a function
/// called with prefix `prefix` leads.
pub fn get_accessed_as(
    prefix: &str,
    fun_call_this_suffix: Option<&str>,
    this_prefix: &str,
    access_suffix: &str,
    dot_count: usize,
) -> (r: String)
    requires
        accessed_as_ok(
            match fun_call_this_suffix {
                Some(s) => Some(s@),
                None => None,
            },
            access_suffix@,
            dot_count as int,
        ),
    ensures
        r@ == accessed_as_spec(
            prefix@,
            match fun_call_this_suffix {
                Some(s) => Some(s@),
                None => None,
            },
            this_prefix@,
            access_suffix@,
            dot_count as int,
        ),
{
    let fun_call_this_suffix = match fun_call_this_suffix {
        None => { return join_dot(prefix, access_suffix); },
        Some(s) => s,
    };
    let dot_positions = dot_positions(fun_call_this_suffix);
    proof {
        lemma_dots_of_bounds(fun_call_this_suffix@);
    }
    let n = dot_positions.len();
    if n == 0 {
        let new_access_suffix = chars_from(access_suffix, 1);
        concat(this_prefix, new_access_suffix.as_str())
    } else if dot_count <= n {
        let end = dot_positions[n - dot_count];
        assert(end as int == dots_of(fun_call_this_suffix@)[n - dot_count]);
        let new_this_suffix = chars_until(fun_call_this_suffix, end);
        let new_access_suffix = chars_from(access_suffix, dot_count);
        let head = concat(this_prefix, new_this_suffix.as_str());
        join_dot(head.as_str(), new_access_suffix.as_str())
    } else {
        let new_access_suffix = chars_from(access_suffix, n + 1);
        concat(this_prefix, new_access_suffix.as_str())
    }
}

/// Where a navigation of `dot_count` dots out of a call's prefix leads.
pub open spec fn navigation_spec(prefix: Seq<char>, dot_count: int, suffix: Seq<char>) -> (bool, Seq<char>) {
    let d = dots_of(prefix);
    if dot_count <= d.len() {
        (false, prefix.take(d[d.len() - dot_count]) + seq!['.'] + suffix)
    } else {
        (true, suffix)
    }
}

/// Where a navigation of `dot_count` dots out of a call's prefix leads.
pub fn resolve_navigation(fun_call_prefix: &str, dot_count: usize, suffix: &String) -> (r: ResolvedNavigation)
    requires
        dot_count != 0,
    ensures
        (r.reached_global, r.name@) == navigation_spec(fun_call_prefix@, dot_count as int, suffix@),
{
    let prefix_dots = dot_positions(fun_call_prefix);
    proof {
        lemma_dots_of_bounds(fun_call_prefix@);
    }
    let n = prefix_dots.len();
    if dot_count <= n {
        let new_prefix_end = prefix_dots[n - dot_count];
        assert(new_prefix_end as int == dots_of(fun_call_prefix@)[n - dot_count]);
        let new_prefix = chars_until(fun_call_prefix, new_prefix_end);
        ResolvedNavigation { reached_global: false, name: join_dot(new_prefix.as_str(), suffix.as_str()) }
    } else {
        ResolvedNavigation { reached_global: true, name: suffix.clone() }
    }
}

/// What a `this` access resolves to when the call's name is an instance modifier argument.
pub open spec fn instance_arg_match_spec(fc: FunCall, suffix: Option<Seq<char>>) -> Option<Seq<char>> {
    if !fc.name_matches_instance_arg {
        None
    } else {
        Some(
            match (fc.prefix, suffix) {
                (Some(p), Some(s)) => this_word() + seq!['.'] + p@ + seq!['.'] + s,
                (Some(p), None) => p@,
                (None, Some(s)) => this_word() + seq!['.'] + s,
                (None, None) => this_word(),
            },
        )
    }
}

/// What a `this` access resolves to when the call's name is an instance modifier argument.
pub fn resolve_instance_arg_match(fun_call: &FunCall, initial_access_suffix: Option<&String>) -> (r: Option<NestedThisAccess>)
    ensures
        match instance_arg_match_spec(*fun_call, match initial_access_suffix {
            Some(s) => Some(s@),
            None => None,
        }) {
            Some(a) => r matches Some(x) && x.accessed_as@ == a && x.navigation_override is None
                && !x.navigation_reached_global,
            None => r is None,
        },
{
    if !fun_call.name_matches_instance_arg {
        return None;
    }
    let accessed_as = match (&fun_call.prefix, initial_access_suffix) {
        (Some(prefix), Some(suffix)) => {
            let this = this_string();
            let a = join_dot(this.as_str(), prefix.as_str());
            join_dot(a.as_str(), suffix.as_str())
        },
        (Some(prefix), None) => prefix.clone(),
        (None, Some(suffix)) => {
            let this = this_string();
            join_dot(this.as_str(), suffix.as_str())
        },
        (None, None) => this_string(),
    };
    Some(NestedThisAccess { accessed_as, navigation_override: None, navigation_reached_global: false })
}

/// What a `this` access with suffix `initial` inside `called_fun` resolves to at the call
/// `fc`: the name accessed, the name that replaces the global scope if any, and whether the
/// navigation went past the global scope.
pub open spec fn within_this_spec(fc: FunCall, called_fun_name: Seq<char>, initial: Option<Seq<char>>) -> (Seq<char>, Option<Seq<char>>, bool) {
    match instance_arg_match_spec(fc, initial) {
        Some(a) => (a, None, false),
        None => match (classify_prefix(fc), classify_suffix(initial)) {
            (PrefixView::ThisNavigation { prefix, this_suffix, .. }, SuffixView::Normal(suffix)) =>
                (prefix + seq!['.'] + suffix, if this_suffix is None { Some(called_fun_name) } else { None }, false),
            (PrefixView::ThisNavigation { prefix, this_suffix, this_prefix, .. }, SuffixView::Navigation { suffix, dot_count, .. }) =>
                (accessed_as_spec(prefix, this_suffix, this_prefix, suffix, dot_count), None, false),
            (PrefixView::This { this_suffix, .. }, SuffixView::Navigation { dot_count, suffix, .. }) =>
                (accessed_as_spec(this_word(), this_suffix, this_word() + seq!['.'], suffix, dot_count), None, false),
            (PrefixView::This { this_suffix, .. }, SuffixView::Normal(suffix)) => (
                match this_suffix {
                    Some(ts) => if suffix.len() == 0 {
                        this_word() + seq!['.'] + ts
                    } else {
                        this_word() + seq!['.'] + ts + seq!['.'] + suffix
                    },
                    None => if suffix.len() == 0 {
                        this_word()
                    } else {
                        this_word() + seq!['.'] + suffix
                    },
                },
                None,
                false,
            ),
            (PrefixView::Other(prefix), SuffixView::Navigation { dot_count, suffix_after_dots, .. }) => {
                let (g, name) = navigation_spec(prefix, dot_count, suffix_after_dots);
                (name, None, g)
            },
            (PrefixView::Other(prefix), SuffixView::Normal(suffix)) => (
                if suffix.len() == 0 { prefix } else { prefix + seq!['.'] + suffix },
                None,
                false,
            ),
            (PrefixView::ThisNavigation { prefix, this_suffix, .. }, SuffixView::Nothing) =>
                (prefix, if this_suffix is None { Some(called_fun_name) } else { None }, false),
            (PrefixView::Other(prefix), SuffixView::Nothing) => (prefix, None, false),
            (PrefixView::This { prefix, .. }, SuffixView::Nothing) => (prefix, None, false),
        },
    }
}

proof fn lemma_skip_dots(s: Seq<char>)
    ensures
        forall|i: int| 0 <= i < leading_dots(s) ==> #[trigger] s[i] == '.',
        leading_dots(s) <= s.len(),
    decreases s.len(),
{
    if s.len() > 0 && s[0] == '.' {
        lemma_skip_dots(s.drop_first());
        assert forall|i: int| 0 <= i < leading_dots(s) implies #[trigger] s[i] == '.' by {
            if i > 0 {
                assert(s[i] == s.drop_first()[i - 1]);
            }
        }
    }
}

/// The dots of a text that starts with at least `k` dots include positions `0..k`.
proof fn lemma_dots_prefix(s: Seq<char>, k: int)
    requires
        0 <= k <= s.len(),
        forall|i: int| 0 <= i < k ==> s[i] == '.',
    ensures
        dots_of(s).len() >= k,
    decreases s.len(),
{
    if s.len() > 0 {
        if k == s.len() {
            lemma_dots_prefix(s.drop_last(), k - 1);
        } else {
            lemma_dots_prefix(s.drop_last(), k);
        }
    }
}

/// What a `this` access with suffix `initial_access_suffix` inside `called_fun` resolves to
/// at the call `fun_call`.
pub fn resolve_within_this_access(
    fun_call: &FunCall,
    called_fun: &Fun,
    initial_access_suffix: Option<&String>,
) -> (r: NestedThisAccess)
    ensures
        (r.accessed_as@, opt_view(r.navigation_override), r.navigation_reached_global)
            == within_this_spec(*fun_call, called_fun.name@, match initial_access_suffix {
                Some(s) => Some(s@),
                None => None,
            }),
{
    if let Some(access) = resolve_instance_arg_match(fun_call, initial_access_suffix) {
        return access;
    }
    let fun_call_prefix = classify_fun_call_prefix(fun_call);
    let access_suffix = classify_this_access_suffix(initial_access_suffix);
    proof {
        if let Some(s) = initial_access_suffix {
            lemma_skip_dots(s@);
            lemma_dots_prefix(s@, leading_dots(s@) as int);
        }
    }
    match (fun_call_prefix, access_suffix) {
        (FunCallPrefix::ThisNavigation { prefix, this_suffix, .. }, ThisAccessSuffix::Normal(suffix)) => {
            let navigation_override = match this_suffix {
                None => Some(called_fun.name.clone()),
                Some(_) => None,
            };
            NestedThisAccess {
                accessed_as: join_dot(prefix.as_str(), suffix.as_str()),
                navigation_override,
                navigation_reached_global: false,
            }
        },
        (
            FunCallPrefix::ThisNavigation { prefix, this_suffix: fun_call_this_suffix, this_prefix, .. },
            ThisAccessSuffix::Navigation { suffix: access_suffix, dot_count, .. },
        ) => {
            let fcts: Option<&str> = match &fun_call_this_suffix {
                Some(s) => Some(s.as_str()),
                None => None,
            };
            let accessed_as = get_accessed_as(
                prefix.as_str(),
                fcts,
                this_prefix.as_str(),
                access_suffix.as_str(),
                dot_count,
            );
            NestedThisAccess { accessed_as, navigation_override: None, navigation_reached_global: false }
        },
        (
            FunCallPrefix::This { this_suffix: fun_call_this_suffix, .. },
            ThisAccessSuffix::Navigation { dot_count, suffix: access_suffix, .. },
        ) => {
            let fcts: Option<&str> = match &fun_call_this_suffix {
                Some(s) => Some(s.as_str()),
                None => None,
            };
            let this = this_string();
            let mut this_dot = this_string();
            this_dot.push('.');
            let accessed_as = get_accessed_as(
                this.as_str(),
                fcts,
                this_dot.as_str(),
                access_suffix.as_str(),
                dot_count,
            );
            NestedThisAccess { accessed_as, navigation_override: None, navigation_reached_global: false }
        },
        (FunCallPrefix::This { this_suffix, .. }, ThisAccessSuffix::Normal(suffix)) => {
            let this = this_string();
            let empty = suffix.as_str().unicode_len() == 0;
            let accessed_as = match this_suffix {
                Some(this_suffix) => {
                    let a = join_dot(this.as_str(), this_suffix.as_str());
                    if empty {
                        a
                    } else {
                        join_dot(a.as_str(), suffix.as_str())
                    }
                },
                None => if empty {
                    this
                } else {
                    join_dot(this.as_str(), suffix.as_str())
                },
            };
            NestedThisAccess { accessed_as, navigation_override: None, navigation_reached_global: false }
        },
        (FunCallPrefix::Other(prefix), ThisAccessSuffix::Navigation { dot_count, suffix_after_dots, .. }) => {
            let nav = resolve_navigation(prefix.as_str(), dot_count, &suffix_after_dots);
            NestedThisAccess {
                accessed_as: nav.name,
                navigation_override: None,
                navigation_reached_global: nav.reached_global,
            }
        },
        (FunCallPrefix::Other(prefix), ThisAccessSuffix::Normal(suffix)) => NestedThisAccess {
            accessed_as: if suffix.as_str().unicode_len() == 0 {
                prefix
            } else {
                join_dot(prefix.as_str(), suffix.as_str())
            },
            navigation_override: None,
            navigation_reached_global: false,
        },
        (FunCallPrefix::ThisNavigation { prefix, this_suffix, .. }, ThisAccessSuffix::Bare) => {
            let navigation_override = match this_suffix {
                None => Some(called_fun.name.clone()),
                Some(_) => None,
            };
            NestedThisAccess { accessed_as: prefix, navigation_override, navigation_reached_global: false }
        },
        (FunCallPrefix::Other(prefix), ThisAccessSuffix::Bare)
        | (FunCallPrefix::This { prefix, .. }, ThisAccessSuffix::Bare) => NestedThisAccess {
            accessed_as: prefix,
            navigation_override: None,
            navigation_reached_global: false,
        },
    }
}

} // verus!
