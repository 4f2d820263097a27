use vstd::prelude::*;

use crate::access::{
    fun_returns_to_read_accesses, reads_of, return_equivalent, Info, Kind, Return, Undetermined,
};

verus! {

/// The access `a`, a write being made potential.
pub open spec fn made_potential(a: Undetermined) -> Undetermined {
    Undetermined {
        info: Info {
            kind: match a.info.kind {
                Kind::Write { value, .. } => Kind::Write { value, potential: true },
                k => k,
            },
            ..a.info
        },
        ..a
    }
}

/// The accesses of `s`, each made potential.
pub open spec fn potentials(s: Seq<Undetermined>) -> Seq<Undetermined> {
    s.map_values(|a: Undetermined| made_potential(a))
}

/// The return `r`, made potential.
pub open spec fn potential_return(r: Return) -> Return {
    Return { potential: true, ..r }
}

/// The returns of `s`, each made potential.
pub open spec fn potential_returns(s: Seq<Return>) -> Seq<Return> {
    s.map_values(|r: Return| potential_return(r))
}

/// Whether the returns of both branches are the same, so that they are taken as the
/// `yes` branch gives them: every return of either branch is equivalent to the first
/// return of the `yes` branch.
pub open spec fn branches_agree(yes: Seq<Return>, no: Seq<Return>) -> bool {
    &&& forall|i: int| 0 <= i < yes.len() ==> return_equivalent(#[trigger] yes[i], yes[0])
    &&& forall|i: int| 0 <= i < no.len() ==> return_equivalent(#[trigger] no[i], yes[0])
}

/// What a condition returns, from what its branches return: the returns of a single
/// branch made potential; of two branches, those of `yes` when they agree, else both
/// made potential.
pub open spec fn if_returns(yes: Option<Seq<Return>>, no: Option<Seq<Return>>) -> Seq<Return> {
    match (yes, no) {
        (Some(y), None) => potential_returns(y),
        (None, Some(n)) => potential_returns(n),
        (Some(y), Some(n)) => if branches_agree(y, n) {
            y
        } else {
            potential_returns(y) + potential_returns(n)
        },
        (None, None) => Seq::empty(),
    }
}

/// What a branch holds once explored: its accesses and what it returns.
pub type Branch = (Vec<Undetermined>, Option<Vec<Return>>);

/// The accesses of an optional branch.
pub open spec fn branch_accesses(b: Option<Branch>) -> Seq<Undetermined> {
    match b {
        Some(x) => x.0@,
        None => Seq::empty(),
    }
}

/// What an optional branch returns.
pub open spec fn branch_returns(b: Option<Branch>) -> Option<Seq<Return>> {
    match b {
        Some(x) => match x.1 {
            Some(r) => Some(r@),
            None => None,
        },
        None => None,
    }
}

/// The accesses of `s`, each made potential, appended to `out`.
fn push_potentials(out: &mut Vec<Undetermined>, s: &Vec<Undetermined>)
    ensures
        final(out)@ == old(out)@ + potentials(s@),
{
    let mut i: usize = 0;
    while i < s.len()
        invariant
            i <= s@.len(),
            out@ == old(out)@ + potentials(s@.take(i as int)),
        decreases s@.len() - i,
    {
        let a = s[i].to_potential();
        assert(a == made_potential(s@[i as int]));
        out.push(a);
        assert(out@ =~= old(out)@ + potentials(s@.take(i + 1)));
        i += 1;
    }
    assert(s@.take(i as int) =~= s@);
}

/// The returns of `s`, each made potential, appended to `out`.
fn push_potential_returns(out: &mut Vec<Return>, s: Vec<Return>)
    ensures
        final(out)@ == old(out)@ + potential_returns(s@),
{
    let ghost all = s@;
    let mut s = s;
    let mut i: usize = 0;
    while i < s.len()
        invariant
            i <= s@.len(),
            s@ == all,
            out@ == old(out)@ + potential_returns(all.take(i as int)),
        decreases s@.len() - i,
    {
        let r = s[i].clone().into_potential();
        out.push(r);
        assert(out@ =~= old(out)@ + potential_returns(all.take(i + 1)));
        i += 1;
    }
    assert(all.take(i as int) =~= all);
}

/// Whether the returns of both branches are taken as they are (see `branches_agree`).
fn agree(yes: &Vec<Return>, no: &Vec<Return>) -> (r: bool)
    requires
        yes@.len() > 0,
    ensures
        r == branches_agree(yes@, no@),
{
    let first = &yes[0];
    let mut i: usize = 0;
    while i < yes.len()
        invariant
            i <= yes@.len(),
            yes@.len() > 0,
            *first == yes@[0],
            forall|k: int| 0 <= k < i ==> return_equivalent(#[trigger] yes@[k], yes@[0]),
        decreases yes@.len() - i,
    {
        if !yes[i].is_equivalent(first) {
            return false;
        }
        i += 1;
    }
    let mut j: usize = 0;
    while j < no.len()
        invariant
            j <= no@.len(),
            yes@.len() > 0,
            *first == yes@[0],
            forall|k: int| 0 <= k < j ==> return_equivalent(#[trigger] no@[k], yes@[0]),
        decreases no@.len() - j,
    {
        if !no[j].is_equivalent(first) {
            return false;
        }
        j += 1;
    }
    true
}

/// Completes the accesses of a condition, once its parts were explored: `cond_rets` is
/// what the condition returns (its accesses are already in `accesses`), `yes` and `no`
/// what its branches hold. The names the condition returns are read, then the branches'
/// accesses are added, made potential; returns what the whole returns (see `if_returns`),
/// or nothing when that is empty.
pub fn get_accesses_from_if(
    cond_rets: &Option<Vec<Return>>,
    accesses: &mut Vec<Undetermined>,
    yes: Option<Branch>,
    no: Option<Branch>,
) -> (r: Option<Vec<Return>>)
    requires
        yes matches Some(b) ==> (b.1 matches Some(v) ==> (no matches Some(c) ==> (c.1 is Some ==> v@.len() > 0))),
    ensures
        final(accesses)@ == old(accesses)@ + match *cond_rets {
            Some(v) => reads_of(v@),
            None => Seq::empty(),
        } + potentials(branch_accesses(yes)) + potentials(branch_accesses(no)),
        ({
            let all = if_returns(branch_returns(yes), branch_returns(no));
            if all.len() == 0 {
                r is None
            } else {
                r matches Some(v) && v@ == all
            }
        }),
{
    fun_returns_to_read_accesses(cond_rets, accesses);
    let ghost after_cond = accesses@;
    let (yes_access, yes_ret) = match yes {
        Some((a, r)) => (Some(a), r),
        None => (None, None),
    };
    let (no_access, no_ret) = match no {
        Some((a, r)) => (Some(a), r),
        None => (None, None),
    };
    let mut all_ret: Vec<Return> = Vec::new();
    match (yes_ret, no_ret) {
        (Some(y), None) => {
            push_potential_returns(&mut all_ret, y);
        },
        (None, Some(n)) => {
            push_potential_returns(&mut all_ret, n);
        },
        (Some(y), Some(n)) => {
            if agree(&y, &n) {
                all_ret = y;
            } else {
                push_potential_returns(&mut all_ret, y);
                push_potential_returns(&mut all_ret, n);
            }
        },
        (None, None) => {},
    }
    match yes_access {
        Some(a) => {
            push_potentials(accesses, &a);
        },
        None => {},
    }
    let ghost after_yes = accesses@;
    match no_access {
        Some(a) => {
            push_potentials(accesses, &a);
        },
        None => {},
    }
    proof {
        assert(after_yes == after_cond + potentials(branch_accesses(yes)));
        assert(accesses@ =~= after_cond + potentials(branch_accesses(yes)) + potentials(branch_accesses(no)));
        assert(all_ret@ =~= if_returns(branch_returns(yes), branch_returns(no)));
    }
    if all_ret.len() == 0 {
        None
    } else {
        Some(all_ret)
    }
}

} // verus!
