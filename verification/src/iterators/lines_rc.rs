use vstd::prelude::*;
use vstd::string::StringSliceAdditionalSpecFns;

use crate::first_pass::{lemma_text_of, text_of};
use crate::iterators::lines::Lines;
use crate::iterators::lines_range::lines_from;

verus! {

/// Iterates over the lines of an owned string, returning each line as a string of its
/// own and its full length (including line endings). The line content excludes the
/// line ending, but the length includes it.
pub struct LinesRc<'a> {
    it: Lines<'a>,
}

impl<'a> LinesRc<'a> {
    /// The iterator's position is the start of a line of the string.
    pub closed spec fn wf(&self) -> bool {
        self.it.wf()
    }

    /// The bytes of the string being split.
    pub closed spec fn bytes(&self) -> Seq<u8> {
        self.it.bytes()
    }

    /// The lines still to come, as (text start, text end, full length).
    pub closed spec fn rest(&self) -> Seq<(int, int, int)> {
        self.it.rest()
    }

    /// The lines of `string`, first to last.
    pub fn new(string: &'a String) -> (r: Self)
        ensures
            r.wf(),
            r.bytes() == vstd::utf8::encode_utf8(string@),
            r.rest() == lines_from(vstd::utf8::encode_utf8(string@), 0),
    {
        LinesRc { it: Lines::new(string.as_str()) }
    }

    /// The next line's text and its full length in bytes.
    pub fn next(&mut self) -> (r: Option<(String, usize)>)
        requires
            old(self).wf(),
        ensures
            final(self).wf(),
            final(self).bytes() == old(self).bytes(),
            old(self).rest().len() == 0 ==> r is None && final(self).rest() == old(self).rest(),
            old(self).rest().len() > 0 ==> (r matches Some(x) && x.0@ == text_of(
                old(self).bytes().subrange(old(self).rest()[0].0, old(self).rest()[0].1),
            ) && x.1 == old(self).rest()[0].2 && final(self).rest() == old(self).rest().drop_first()),
    {
        match self.it.next() {
            Some((line, len)) => {
                proof {
                    lemma_text_of(line);
                }
                Some((line.to_string(), len))
            },
            None => None,
        }
    }
}

} // verus!
