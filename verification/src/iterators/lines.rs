use vstd::prelude::*;
use vstd::string::StringSliceAdditionalSpecFns;
use vstd::utf8::{is_char_boundary, valid_utf8};

use crate::iterators::lines_range::{
    first_newline, lemma_first_newline_bounds, line_at, lines_from, next_line_start, LineRanges,
};
use crate::text::{lemma_boundary_after_ascii, lemma_str_valid, substr};

verus! {

/// Every line of `lines` ends at a character boundary of `b`.
pub open spec fn cuts_ok(b: Seq<u8>, lines: Seq<(int, int, int)>) -> bool {
    forall|i: int| 0 <= i < lines.len() ==> is_char_boundary(b, #[trigger] lines[i].1)
}

/// The text of every line of a UTF-8 text ends at a character boundary: right before
/// the '\r' or '\n' that ends it, or at the end of the text.
pub proof fn lemma_cuts_ok(b: Seq<u8>, p: int)
    requires
        valid_utf8(b),
        0 <= p <= b.len(),
    ensures
        cuts_ok(b, lines_from(b, p)),
    decreases b.len() - p,
{
    if p < b.len() {
        lemma_first_newline_bounds(b, p);
        let j = first_newline(b, p);
        let l = line_at(b, p);
        if j < b.len() {
            if j > p && b[j - 1] == 13u8 {
                lemma_boundary_after_ascii(b, j - 1);
            } else {
                lemma_boundary_after_ascii(b, j);
            }
        } else {
            vstd::utf8::is_char_boundary_start_end_of_seq(b);
        }
        let q = next_line_start(b, p);
        lemma_cuts_ok(b, q);
        let ls = lines_from(b, p);
        assert(ls =~= seq![l] + lines_from(b, q));
        assert forall|i: int| 0 <= i < ls.len() implies is_char_boundary(b, #[trigger] ls[i].1) by {
            if i > 0 {
                assert(ls[i] == lines_from(b, q)[i - 1]);
            }
        }
    }
}

/// Iterates over lines in a string, returning each line and its full length (including line endings).
/// The line content excludes the line ending, but the length includes it.
pub struct Lines<'a> {
    string: &'a str,
    it: LineRanges<'a>,
}

impl<'a> Lines<'a> {
    /// The iterator's position is the start of a line of the string.
    pub closed spec fn wf(&self) -> bool {
        &&& self.it.bytes() == self.string.spec_bytes()
        &&& 0 <= self.it.pos() <= self.it.bytes().len()
        &&& (self.it.pos() == 0 || self.it.pos() == self.it.bytes().len() || (0 < self.it.pos()
            <= self.it.bytes().len() && self.it.bytes()[self.it.pos() - 1] == 10u8))
    }

    /// The bytes of the string being split.
    pub closed spec fn bytes(&self) -> Seq<u8> {
        self.string.spec_bytes()
    }

    /// The lines still to come, as (text start, text end, full length).
    pub closed spec fn rest(&self) -> Seq<(int, int, int)> {
        self.it.rest()
    }

    /// The lines of `string`, first to last.
    pub fn new(string: &'a str) -> (r: Self)
        ensures
            r.wf(),
            r.bytes() == string.spec_bytes(),
            r.rest() == lines_from(string.spec_bytes(), 0),
    {
        Lines { string, it: LineRanges::new(string) }
    }

    /// The next line's text and its full length in bytes.
    pub fn next(&mut self) -> (r: Option<(&'a str, usize)>)
        requires
            old(self).wf(),
        ensures
            final(self).wf(),
            final(self).bytes() == old(self).bytes(),
            old(self).rest().len() == 0 ==> r is None && final(self).rest() == old(self).rest(),
            old(self).rest().len() > 0 ==> (r matches Some(x) && x.0.spec_bytes()
                == old(self).bytes().subrange(old(self).rest()[0].0, old(self).rest()[0].1)
                && x.1 == old(self).rest()[0].2 && final(self).rest() == old(self).rest().drop_first()),
    {
        proof {
            lemma_str_valid(self.string);
        }
        let ghost b = self.bytes();
        let ghost p = self.it.pos();
        let ghost rest0 = self.rest();
        match self.it.next() {
            Some((range, len)) => {
                proof {
                    lemma_first_newline_bounds(b, p);
                    lemma_cuts_ok(b, p);
                    assert(rest0[0].1 == range.end);
                    assert(is_char_boundary(b, range.end as int));
                    if p > 0 && p < b.len() {
                        lemma_boundary_after_ascii(b, p - 1);
                    }
                    assert(forall|i: int| 0 <= i < self.rest().len() ==> self.rest()[i] == rest0[i + 1]);
                }
                let line = substr(self.string, range.start, range.end);
                Some((line, len))
            },
            None => None,
        }
    }

    /// All the lines still to come, in order, with their full lengths.
    pub fn collect_all(&mut self) -> (r: Vec<(&'a str, usize)>)
        requires
            old(self).wf(),
        ensures
            r@.len() == old(self).rest().len(),
            forall|i: int| #![trigger r@[i]] 0 <= i < r@.len() ==> r@[i].0.spec_bytes()
                == old(self).bytes().subrange(old(self).rest()[i].0, old(self).rest()[i].1)
                && r@[i].1 == old(self).rest()[i].2,
    {
        let mut out: Vec<(&'a str, usize)> = Vec::new();
        let ghost all = self.rest();
        let ghost b = self.bytes();
        loop
            invariant
                self.wf(),
                self.bytes() == b,
                out@.len() + self.rest().len() == all.len(),
                forall|k: int| 0 <= k < self.rest().len() ==> self.rest()[k] == all[out@.len() + k],
                forall|i: int| #![trigger out@[i]] 0 <= i < out@.len() ==> out@[i].0.spec_bytes()
                    == b.subrange(all[i].0, all[i].1) && out@[i].1 == all[i].2,
                all == old(self).rest(),
                b == old(self).bytes(),
            decreases self.rest().len(),
        {
            match self.next() {
                Some(x) => {
                    out.push(x);
                },
                None => {
                    return out;
                },
            }
        }
    }
}

} // verus!
