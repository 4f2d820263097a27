use vstd::prelude::*;
use vstd::string::StringSliceAdditionalSpecFns;

verus! {

/// The byte positions of the '.' characters of `b` at or after position `i`.
pub open spec fn dots_from(b: Seq<u8>, i: int) -> Seq<usize>
    decreases b.len() - i,
{
    if i < 0 || i >= b.len() {
        Seq::empty()
    } else if b[i] == 46u8 {
        seq![i as usize] + dots_from(b, i + 1)
    } else {
        dots_from(b, i + 1)
    }
}

/// The dots of a text are exactly the byte positions of its '.' characters, in strictly
/// increasing order: each position holds a '.', and every '.' at or after `i` is among
/// them.
pub proof fn law_dots_are_dot_positions(b: Seq<u8>, i: int)
    requires
        0 <= i <= b.len(),
        b.len() <= usize::MAX,
    ensures
        forall|k: int|
            0 <= k < dots_from(b, i).len() ==> i <= #[trigger] dots_from(b, i)[k] < b.len()
                && b[dots_from(b, i)[k] as int] == 46u8,
        forall|k: int, l: int|
            0 <= k < l < dots_from(b, i).len() ==> #[trigger] dots_from(b, i)[k] < #[trigger] dots_from(b, i)[l],
        forall|q: int| i <= q < b.len() && b[q] == 46u8 ==> #[trigger] dots_from(b, i).contains(q as usize),
    decreases b.len() - i,
{
    if i < b.len() {
        law_dots_are_dot_positions(b, i + 1);
        let d = dots_from(b, i);
        let r = dots_from(b, i + 1);
        if b[i] == 46u8 {
            assert(d == seq![i as usize] + r);
            assert forall|k: int| 0 <= k < d.len() implies i <= #[trigger] d[k] < b.len() && b[d[k] as int] == 46u8 by {
                if k > 0 {
                    assert(d[k] == r[k - 1]);
                }
            }
            assert forall|k: int, l: int| 0 <= k < l < d.len() implies #[trigger] d[k] < #[trigger] d[l] by {
                assert(d[l] == r[l - 1]);
                if k > 0 {
                    assert(d[k] == r[k - 1]);
                }
            }
            assert forall|q: int| i <= q < b.len() && b[q] == 46u8 implies #[trigger] d.contains(q as usize) by {
                if q == i {
                    assert(d[0] == q as usize);
                } else {
                    assert(r.contains(q as usize));
                    let j = choose|j: int| 0 <= j < r.len() && r[j] == q as usize;
                    assert(d[j + 1] == r[j]);
                }
            }
        } else {
            assert(d == r);
        }
    }
}

/// An iterator that returns the positions of '.' characters in a string
pub struct Dots<'a> {
    bytes: &'a [u8],
    pos: usize,
}

impl<'a> View for Dots<'a> {
    type V = Seq<usize>;

    /// The positions still to come.
    closed spec fn view(&self) -> Seq<usize> {
        dots_from(self.bytes@, self.pos as int)
    }
}

impl<'a> Dots<'a> {
    /// The positions of the dots of `string`, first to last.
    pub fn new(string: &'a str) -> (r: Self)
        ensures
            r@ == dots_from(string.spec_bytes(), 0),
    {
        Dots { bytes: string.as_bytes(), pos: 0 }
    }

    /// The position of the next dot, if any is left.
    pub fn next(&mut self) -> (r: Option<usize>)
        ensures
            old(self)@.len() == 0 ==> r is None && final(self)@ == old(self)@,
            old(self)@.len() > 0 ==> r == Some(old(self)@[0]) && final(self)@ == old(self)@.drop_first(),
    {
        let ghost rem = self@;
        while self.pos < self.bytes.len()
            invariant
                self@ == rem,
                old(self)@ == rem,
            decreases self.bytes@.len() - self.pos,
        {
            let p = self.pos;
            self.pos = p + 1;
            if self.bytes[p] == 46u8 {
                proof {
                    assert(rem == seq![p] + dots_from(self.bytes@, p + 1));
                    assert((seq![p] + self@).drop_first() =~= self@);
                }
                return Some(p);
            }
        }
        None
    }

    /// All the positions still to come, in order.
    pub fn collect_all(&mut self) -> (r: Vec<usize>)
        ensures
            r@ == old(self)@,
            final(self)@.len() == 0,
    {
        let mut out = Vec::new();
        let ghost all = self@;
        loop
            invariant
                all == out@ + self@,
                all == old(self)@,
            decreases self@.len(),
        {
            let ghost before = self@;
            match self.next() {
                Some(p) => {
                    out.push(p);
                    assert(all =~= out@ + self@);
                },
                None => {
                    assert(all =~= out@);
                    return out;
                },
            }
        }
    }
}

} // verus!
