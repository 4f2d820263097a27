use vstd::prelude::*;
use vstd::string::StringSliceAdditionalSpecFns;

verus! {

/// The position of the first '\n' at or after `p`, or the length of `b` if there is none.
pub open spec fn first_newline(b: Seq<u8>, p: int) -> int
    decreases b.len() - p,
{
    if p < 0 || p >= b.len() {
        b.len() as int
    } else if b[p] == 10u8 {
        p
    } else {
        first_newline(b, p + 1)
    }
}

/// Where the text of a line that starts at `p` and whose '\n' stands at `j` ends: a
/// '\r' right before the '\n' belongs to the line ending, any other byte to the text.
pub open spec fn text_end(b: Seq<u8>, p: int, j: int) -> int {
    if j > p && b[j - 1] == 13u8 {
        j - 1
    } else {
        j
    }
}

/// The line that starts at `p`: where its text starts, where its text ends (the line
/// ending, "\n" or "\r\n", left out), and its full length in bytes, line ending included.
pub open spec fn line_at(b: Seq<u8>, p: int) -> (int, int, int) {
    let j = first_newline(b, p);
    if j < b.len() {
        (p, text_end(b, p, j), j + 1 - p)
    } else {
        (p, b.len() as int, b.len() - p)
    }
}

/// Where the line after the one starting at `p` starts.
pub open spec fn next_line_start(b: Seq<u8>, p: int) -> int {
    let j = first_newline(b, p);
    if j < b.len() {
        j + 1
    } else {
        b.len() as int
    }
}

/// The lines of `b` that start at or after `p`, as (text start, text end, full length).
pub open spec fn lines_from(b: Seq<u8>, p: int) -> Seq<(int, int, int)>
    decreases b.len() - p,
{
    if p < 0 || p >= b.len() {
        Seq::empty()
    } else {
        proof {
            lemma_first_newline_bounds(b, p);
        }
        seq![line_at(b, p)] + lines_from(b, next_line_start(b, p))
    }
}

pub proof fn lemma_first_newline_bounds(b: Seq<u8>, p: int)
    requires
        0 <= p <= b.len(),
    ensures
        p <= first_newline(b, p) <= b.len(),
        first_newline(b, p) < b.len() ==> b[first_newline(b, p)] == 10u8,
        forall|k: int| p <= k < first_newline(b, p) ==> b[k] != 10u8,
    decreases b.len() - p,
{
    if p < b.len() && b[p] != 10u8 {
        lemma_first_newline_bounds(b, p + 1);
    }
}

/// How the lines of `b` from `p` on tile the text: each starts where the one before it
/// ends (line ending included), the first at `p`, the last ending at the end of `b`; a
/// line's text lies within the line.
pub proof fn lemma_lines_tile(b: Seq<u8>, p: int)
    requires
        0 <= p <= b.len(),
    ensures
        ({
            let l = lines_from(b, p);
            &&& l.len() > 0 ==> l[0].0 == p
            &&& l.len() == 0 <==> p == b.len()
            &&& forall|k: int| #![trigger l[k]] 0 <= k < l.len() ==> {
                &&& p + k <= l[k].0 <= l[k].1 <= l[k].0 + l[k].2 <= b.len()
                &&& l[k].0 < b.len()
                &&& l[k].2 > 0
                &&& (k + 1 < l.len() ==> l[k + 1].0 == l[k].0 + l[k].2)
                &&& (k + 1 == l.len() ==> l[k].0 + l[k].2 == b.len())
                &&& (l[k].0 + l[k].2 < b.len() ==> b[l[k].0 + l[k].2 - 1] == 10u8)
            }
        }),
    decreases b.len() - p,
{
    if p < b.len() {
        lemma_first_newline_bounds(b, p);
        let q = next_line_start(b, p);
        lemma_lines_tile(b, q);
        let l = lines_from(b, p);
        let r = lines_from(b, q);
        assert(l =~= seq![line_at(b, p)] + r);
        assert forall|k: int| #![trigger l[k]] 1 <= k < l.len() implies l[k] == r[k - 1] by {}
    }
}

/// Iterator returning each line (without line endings) and the length of the line (including the line ending)
pub struct LineRanges<'a> {
    bytes: &'a [u8],
    byte_pos: usize,
}

impl<'a> LineRanges<'a> {
    #[verifier::type_invariant]
    closed spec fn inv(&self) -> bool {
        self.byte_pos <= self.bytes@.len()
    }

    /// The bytes being split into lines.
    pub closed spec fn bytes(&self) -> Seq<u8> {
        self.bytes@
    }

    /// Where the next line starts.
    pub closed spec fn pos(&self) -> int {
        self.byte_pos as int
    }

    /// The lines still to come.
    pub open spec fn rest(&self) -> Seq<(int, int, int)> {
        lines_from(self.bytes(), self.pos())
    }

    /// The lines of `string`, first to last.
    pub fn new(string: &'a str) -> (r: Self)
        ensures
            r.bytes() == string.spec_bytes(),
            r.pos() == 0,
            r.rest() == lines_from(string.spec_bytes(), 0),
    {
        LineRanges { bytes: string.as_bytes(), byte_pos: 0 }
    }

    /// The next line, as the range of its text and its full length.
    pub fn next(&mut self) -> (r: Option<(std::ops::Range<usize>, usize)>)
        ensures
            final(self).bytes() == old(self).bytes(),
            0 <= final(self).pos() <= final(self).bytes().len(),
            final(self).pos() == old(self).pos() || final(self).pos() == final(self).bytes().len()
                || final(self).bytes()[final(self).pos() - 1] == 10u8,
            old(self).rest().len() == 0 ==> r is None && final(self).rest() == old(self).rest(),
            old(self).rest().len() > 0 ==> (r matches Some(x) && x.0.start == old(self).rest()[0].0
                && x.0.end == old(self).rest()[0].1 && x.1 == old(self).rest()[0].2
                && final(self).rest() == old(self).rest().drop_first()),
    {
        proof {
            use_type_invariant(&*self);
        }
        let n = self.bytes.len();
        let ghost b = self.bytes@;
        if self.byte_pos >= n {
            return None;
        }
        let pos = self.byte_pos;
        proof {
            lemma_first_newline_bounds(b, pos as int);
        }
        let mut after_cr = false;
        let mut idx = pos;
        while idx < n
            invariant
                b == self.bytes@,
                b == old(self).bytes(),
                pos == old(self).pos(),
                n == b.len(),
                pos <= idx <= n,
                pos < n,
                self.byte_pos == pos,
                after_cr == (idx > pos && b[idx - 1] == 13u8),
                forall|k: int| pos <= k < idx ==> b[k] != 10u8,
            decreases n - idx,
        {
            if self.bytes[idx] == 10u8 {
                proof {
                    lemma_first_newline_at(b, pos as int, idx as int);
                }
                let end = if after_cr {
                    idx - 1
                } else {
                    idx
                };
                let range = pos..end;
                let len = idx + 1 - pos;
                self.byte_pos = idx + 1;
                return Some((range, len));
            }
            after_cr = self.bytes[idx] == 13u8;
            idx += 1;
        }
        proof {
            lemma_first_newline_none(b, pos as int);
        }
        let range = pos..n;
        let len = n - pos;
        self.byte_pos = n;
        Some((range, len))
    }
}

proof fn lemma_first_newline_at(b: Seq<u8>, p: int, j: int)
    requires
        0 <= p <= j < b.len(),
        b[j] == 10u8,
        forall|k: int| p <= k < j ==> b[k] != 10u8,
    ensures
        first_newline(b, p) == j,
    decreases j - p,
{
    if p < j {
        lemma_first_newline_at(b, p + 1, j);
    }
}

proof fn lemma_first_newline_none(b: Seq<u8>, p: int)
    requires
        0 <= p <= b.len(),
        forall|k: int| p <= k < b.len() ==> b[k] != 10u8,
    ensures
        first_newline(b, p) == b.len(),
    decreases b.len() - p,
{
    if p < b.len() {
        lemma_first_newline_none(b, p + 1);
    }
}

} // verus!
