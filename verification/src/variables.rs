use vstd::prelude::*;

use crate::context::Context;
use crate::functions::context::{builtin_index, find_builtin};
use crate::numbers::{digits_value, is_digit};
use crate::program::{bound_slider, is_bound_to_slider, Meta};
use crate::text::{chars_from, first_where, lemma_first_where_is, lemma_first_where_none, lower, starts_with, to_lower};

verus! {

/// A variable that JSFX provides: its name, the sections it is meant for, and whether it
/// may be written and read.
pub struct BuiltinVar {
    pub name: String,
    pub context: Option<Context>,
    pub writable: bool,
    pub readable: bool,
}

impl Clone for BuiltinVar {
    fn clone(&self) -> (r: Self)
        ensures
            r == *self,
    {
        BuiltinVar {
            name: self.name.clone(),
            context: match &self.context {
                Some(c) => Some(c.clone()),
                None => None,
            },
            writable: self.writable,
            readable: self.readable,
        }
    }
}


/// The number of sliders a JSFX effect can declare.
pub const MAX_SLIDER_COUNT: usize = 256;

/// The builtin variable that the global variable `name` is, as its position among
/// `builtins`: none for a variable bound to a slider, else the builtin named like it in
/// lower case.
pub open spec fn builtin_of(metas: Seq<Meta>, builtins: Seq<BuiltinVar>, name: Seq<char>) -> Option<int> {
    if bound_slider(metas, name) is Some {
        None
    } else {
        builtin_index(builtins, lower(name))
    }
}

/// The builtin variable that the global variable `name` is (see `builtin_of`).
pub fn builtin_var<'a>(metas: &Vec<Meta>, builtins: &'a Vec<BuiltinVar>, name: &str) -> (r: Option<&'a BuiltinVar>)
    ensures
        match builtin_of(metas@, builtins@, name@) {
            Some(j) => r == Some(&builtins@[j]),
            None => r is None,
        },
{
    if is_bound_to_slider(metas, name).is_some() {
        return None;
    }
    let l = to_lower(name);
    find_builtin(builtins, l.as_str())
}

/// What a variable name says of the sliders.
#[derive(PartialEq, Eq, Structural, Debug, Clone, Copy)]
pub enum MaybeSliderNVar {
    /// `sliderN` of a declared slider `N` (its position among the metas) that is not bound
    /// to a variable: the name reaches that slider.
    Reaches(usize),
    /// `sliderN` of a declared slider (its position among the metas) bound to a variable:
    /// the name does not reach it.
    Shadowed(usize),
    /// `sliderN` with `N` from 1 to 256, but no slider `N` is declared.
    NonExisting,
    /// `slider` followed by digits that are no slider number from 1 to 256.
    LooksLike,
    /// Anything else.
    Unrelated,
}

/// Whether `m` declares slider number `n`.
pub open spec fn slider_id_is(m: Meta, n: int) -> bool {
    m matches Meta::Slider { id, .. } && id == n
}

/// The position among `metas` of the first declaration of slider number `n`.
pub open spec fn slider_with_id(metas: Seq<Meta>, n: int) -> Option<int> {
    first_where(metas.len() as int, |k: int| slider_id_is(metas[k], n))
}

/// The digits that follow `slider` in `name` (lower case), if it is `slider` and at
/// least one digit and nothing else.
pub open spec fn slider_digits(name: Seq<char>) -> Option<Seq<char>> {
    let l = lower(name);
    if l.len() > 6 && l.take(6) == "slider"@ && forall|i: int| 6 <= i < l.len() ==> is_digit(#[trigger] l[i]) {
        Some(l.skip(6))
    } else {
        None
    }
}

/// What the variable `name` says of the sliders declared by `metas`: a slider number is
/// written with one to three digits and no leading zero, from 1 to 256.
pub open spec fn slider_n_var(metas: Seq<Meta>, name: Seq<char>) -> MaybeSliderNVar {
    match slider_digits(name) {
        None => MaybeSliderNVar::Unrelated,
        Some(d) => if d.len() <= 3 && d[0] != '0' && 1 <= digits_value(d) <= MAX_SLIDER_COUNT {
            match slider_with_id(metas, digits_value(d) as int) {
                None => MaybeSliderNVar::NonExisting,
                Some(k) => if metas[k] matches Meta::Slider { identifier: Some(_), .. } {
                    MaybeSliderNVar::Shadowed(k as usize)
                } else {
                    MaybeSliderNVar::Reaches(k as usize)
                },
            }
        } else {
            MaybeSliderNVar::LooksLike
        },
    }
}

/// The position among `metas` of the first declaration of slider number `n`.
fn find_slider(metas: &Vec<Meta>, n: usize) -> (r: Option<usize>)
    ensures
        match slider_with_id(metas@, n as int) {
            Some(k) => r == Some(k as usize) && 0 <= k < metas@.len(),
            None => r is None,
        },
{
    let ghost p = |k: int| slider_id_is(metas@[k], n as int);
    let mut i: usize = 0;
    while i < metas.len()
        invariant
            i <= metas@.len(),
            p == (|k: int| slider_id_is(metas@[k], n as int)),
            forall|j: int| 0 <= j < i ==> !#[trigger] p(j),
        decreases metas@.len() - i,
    {
        let hit = match &metas[i] {
            Meta::Slider { id, .. } => *id == n,
            _ => false,
        };
        if hit {
            proof {
                assert(p(i as int));
                lemma_first_where_is(metas@.len() as int, p, i as int);
            }
            return Some(i);
        }
        assert(!p(i as int));
        i += 1;
    }
    proof {
        lemma_first_where_none(metas@.len() as int, p);
    }
    None
}

/// What the variable `name` says of the sliders declared by `metas` (see `slider_n_var`).
pub fn looks_like_slider_n_var(metas: &Vec<Meta>, name: &str) -> (r: MaybeSliderNVar)
    ensures
        r == slider_n_var(metas@, name@),
{
    let l = to_lower(name);
    let n = l.as_str().unicode_len();
    proof {
        reveal_strlit("slider");
    }
    if n <= 6 || !starts_with(l.as_str(), "slider") {
        return MaybeSliderNVar::Unrelated;
    }
    let mut i: usize = 6;
    while i < n
        invariant
            6 <= i <= n,
            n == l@.len(),
            l@ == lower(name@),
            forall|k: int| 6 <= k < i ==> is_digit(#[trigger] l@[k]),
        decreases n - i,
    {
        let c = l.as_str().get_char(i);
        if !('0' <= c && c <= '9') {
            assert(!is_digit(lower(name@)[i as int]));
            assert(slider_digits(name@) is None);
            return MaybeSliderNVar::Unrelated;
        }
        i += 1;
    }
    let ghost d = l@.skip(6);
    assert(slider_digits(name@) == Some(d));
    if n > 9 || l.as_str().get_char(6) == '0' {
        return MaybeSliderNVar::LooksLike;
    }
    let mut value: usize = 0;
    let mut j: usize = 6;
    while j < n
        invariant
            6 <= j <= n,
            n <= 9,
            n == l@.len(),
            l@ == lower(name@),
            d == l@.skip(6),
            forall|k: int| 6 <= k < n ==> is_digit(#[trigger] l@[k]),
            value == digits_value(d.take(j - 6)),
            value < 1000,
            value < if j == 6 { 1int } else if j == 7 { 10int } else if j == 8 { 100int } else { 1000int },
        decreases n - j,
    {
        let c = l.as_str().get_char(j);
        assert(is_digit(l@[j as int]));
        assert(d.take(j - 5).drop_last() =~= d.take(j - 6));
        assert(d.take(j - 5).last() == c);
        value = value * 10 + ((c as u32) - 48) as usize;
        j += 1;
    }
    assert(d.take((n - 6) as int) =~= d);
    assert(d.len() <= 3 && d[0] == l@[6] && d[0] != '0');
    assert(digits_value(d) == value);
    if value < 1 || value > MAX_SLIDER_COUNT {
        return MaybeSliderNVar::LooksLike;
    }
    assert(slider_digits(name@) == Some(d));
    assert(1 <= digits_value(d) <= MAX_SLIDER_COUNT);
    let found = find_slider(metas, value);
    match found {
        None => MaybeSliderNVar::NonExisting,
        Some(k) => {
            proof {
                match slider_with_id(metas@, value as int) {
                    Some(j) => {
                        assert(0 <= j < metas@.len());
                        assert(metas@.len() == metas.len());
                        assert(j <= usize::MAX);
                        assert(j as usize == k);
                        assert(j == k as int);
                    },
                    None => {
                        assert(found is None);
                    },
                }
            }
            assert(slider_with_id(metas@, value as int) == Some(k as int));
            assert(digits_value(d) as int == value as int);
            assert(slider_with_id(metas@, digits_value(d) as int) == Some(k as int));
            match &metas[k] {
                Meta::Slider { identifier: Some(_), .. } => MaybeSliderNVar::Shadowed(k),
                _ => MaybeSliderNVar::Reaches(k),
            }
        },
    }
}

/// A slider that `slider_n_var` names is one of the declarations of `metas`.
pub proof fn lemma_slider_n_var_bounds(metas: Seq<Meta>, name: Seq<char>)
    requires
        metas.len() <= usize::MAX,
    ensures
        slider_n_var(metas, name) matches MaybeSliderNVar::Shadowed(k) ==> k < metas.len() && (metas[k as int] matches Meta::Slider { identifier: Some(_), .. }),
        slider_n_var(metas, name) matches MaybeSliderNVar::Reaches(k) ==> k < metas.len(),
{
    if let Some(d) = slider_digits(name) {
        let n = digits_value(d) as int;
        crate::text::lemma_first_from(metas.len() as int, |k: int| slider_id_is(metas[k], n), 0);
    }
}

} // verus!
