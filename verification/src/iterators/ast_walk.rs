use vstd::prelude::*;

use crate::ast::{walk, LocatedAst, SpecSignal};
use crate::iterators::ast_walk_signal::{AstWalkSignal, WalkSignal};

verus! {

/// The nodes entered along a sequence of walk signals, in order.
pub open spec fn enters(s: Seq<SpecSignal>) -> Seq<LocatedAst>
    decreases s.len(),
{
    if s.len() == 0 {
        Seq::empty()
    } else {
        match s[0] {
            SpecSignal::Enter(n) => seq![n] + enters(s.drop_first()),
            SpecSignal::Exit(_) => enters(s.drop_first()),
        }
    }
}

/// The nodes of the tree rooted at `n`, in the order an interpreter visits them.
pub open spec fn visit_order(n: LocatedAst) -> Seq<LocatedAst> {
    enters(walk(n))
}

/// Iterator that yields AST nodes in the order an interpreter would visit them.
pub struct AstWalk<'a> {
    it: AstWalkSignal<'a>,
}

impl<'a> View for AstWalk<'a> {
    type V = Seq<LocatedAst>;

    /// The nodes still to come.
    closed spec fn view(&self) -> Seq<LocatedAst> {
        enters(self.it@)
    }
}

impl<'a> AstWalk<'a> {
    /// A walk through every node of the tree rooted at `root`, `root` first.
    pub fn new(root: &'a LocatedAst) -> (r: Self)
        ensures
            r@ == visit_order(*root),
    {
        AstWalk { it: AstWalkSignal::new(root) }
    }

    /// The next node of the walk, if any is left.
    pub fn next(&mut self) -> (r: Option<&'a LocatedAst>)
        ensures
            old(self)@.len() == 0 ==> r is None && final(self)@ == old(self)@,
            old(self)@.len() > 0 ==> (r matches Some(n) && *n == old(self)@[0] && final(self)@
                == old(self)@.drop_first()),
    {
        let ghost e = enters(self.it@);
        loop
            invariant
                enters(self.it@) == e,
                old(self)@ == e,
            decreases self.it@.len(),
        {
            let ghost before = self.it@;
            match self.it.next() {
                Some(WalkSignal::Enter(n)) => {
                    proof {
                        assert(before[0] == SpecSignal::Enter(*n));
                        assert(enters(before) == seq![*n] + enters(before.drop_first()));
                        assert((seq![*n] + enters(self.it@)).drop_first() =~= enters(self.it@));
                    }
                    return Some(n);
                },
                Some(WalkSignal::Exit(x)) => {
                    proof {
                        assert(before[0] == SpecSignal::Exit(*x));
                        assert(enters(before) == enters(before.drop_first()));
                    }
                },
                None => {
                    assert(enters(before) == Seq::<LocatedAst>::empty());
                    return None;
                },
            }
        }
    }
}

} // verus!
