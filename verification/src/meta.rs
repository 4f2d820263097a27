use vstd::prelude::*;
use vstd::string::StringSliceAdditionalSpecFns;

use crate::first_pass::{lemma_text_of, text_of};
use crate::iterators::lines::Lines;
use crate::iterators::lines_range::{lemma_lines_tile, lines_from};
use crate::location::{LineCol, Location};
use crate::numbers::{digits_value, is_digit};
use crate::program::Meta;
use crate::words::{trim, trimmed};

verus! {

/// The first position of `c` in `s`.
pub open spec fn find_char(s: Seq<char>, c: char) -> Option<int>
    decreases s.len(),
{
    if s.len() == 0 {
        None
    } else {
        match find_char(s.drop_last(), c) {
            Some(i) => Some(i),
            None => if s.last() == c {
                Some(s.len() - 1)
            } else {
                None
            },
        }
    }
}

/// The last position of `c` in `s`.
pub open spec fn find_last_char(s: Seq<char>, c: char) -> Option<int>
    decreases s.len(),
{
    if s.len() == 0 {
        None
    } else if s.last() == c {
        Some(s.len() - 1)
    } else {
        find_last_char(s.drop_last(), c)
    }
}

pub proof fn lemma_find_char(s: Seq<char>, c: char)
    ensures
        find_char(s, c) matches Some(i) ==> 0 <= i < s.len() && s[i] == c && forall|j: int|
            0 <= j < i ==> s[j] != c,
        find_char(s, c) is None ==> forall|j: int| 0 <= j < s.len() ==> s[j] != c,
        find_last_char(s, c) matches Some(i) ==> 0 <= i < s.len() && s[i] == c && forall|j: int|
            i < j < s.len() ==> s[j] != c,
        find_last_char(s, c) is None ==> forall|j: int| 0 <= j < s.len() ==> s[j] != c,
    decreases s.len(),
{
    if s.len() > 0 {
        let t = s.drop_last();
        lemma_find_char(t, c);
        assert forall|j: int| 0 <= j < t.len() implies t[j] == s[j] by {}
    }
}

/// The position of the first `c` in `s`.
fn first_char_index(s: &str, c: char) -> (r: Option<usize>)
    ensures
        r matches Some(i) ==> find_char(s@, c) == Some(i as int),
        r is None ==> find_char(s@, c) is None,
{
    proof {
        lemma_find_char(s@, c);
    }
    let n = s.unicode_len();
    let mut i: usize = 0;
    while i < n
        invariant
            n == s@.len(),
            i <= n,
            forall|j: int| 0 <= j < i ==> s@[j] != c,
        decreases n - i,
    {
        if s.get_char(i) == c {
            proof {
                lemma_find_char(s@, c);
                if let Some(k) = find_char(s@, c) {
                    assert(k == i);
                }
            }
            return Some(i);
        }
        i += 1;
    }
    None
}

/// The position of the last `c` in `s`.
fn last_char_index(s: &str, c: char) -> (r: Option<usize>)
    ensures
        r matches Some(i) ==> find_last_char(s@, c) == Some(i as int),
        r is None ==> find_last_char(s@, c) is None,
{
    proof {
        lemma_find_char(s@, c);
    }
    let n = s.unicode_len();
    let mut i: usize = n;
    while i > 0
        invariant
            n == s@.len(),
            i <= n,
            forall|j: int| i <= j < n ==> s@[j] != c,
        decreases i,
    {
        if s.get_char(i - 1) == c {
            proof {
                lemma_find_char(s@, c);
                if let Some(k) = find_last_char(s@, c) {
                    assert(k == i - 1);
                }
            }
            return Some(i - 1);
        }
        i -= 1;
    }
    None
}

/// The number of decimal digits at the start of `s`.
pub open spec fn leading_digits(s: Seq<char>) -> nat
    decreases s.len(),
{
    if s.len() > 0 && is_digit(s[0]) {
        1 + leading_digits(s.drop_first())
    } else {
        0
    }
}

proof fn lemma_leading_digits(s: Seq<char>, i: int)
    requires
        0 <= i <= s.len(),
        forall|j: int| 0 <= j < i ==> is_digit(#[trigger] s[j]),
        i == s.len() || !is_digit(s[i]),
    ensures
        leading_digits(s) == i,
    decreases i,
{
    if i > 0 {
        lemma_leading_digits(s.drop_first(), i - 1);
    }
}

/// Whether `s` starts with `p`.
pub open spec fn has_prefix(s: Seq<char>, p: Seq<char>) -> bool {
    s.len() >= p.len() && s.take(p.len() as int) == p
}

/// The number of the slider that the line `t` declares (`sliderN:`), with what follows
/// the colon.
pub open spec fn slider_head(t: Seq<char>) -> Option<(nat, Seq<char>)> {
    let s = t.skip(6);
    let n = leading_digits(s);
    if has_prefix(t, "slider"@) && n > 0 && s.len() > n && s[n as int] == ':' {
        Some((digits_value(s.take(n as int)), s.skip(n as int + 1)))
    } else {
        None
    }
}

/// The variable that the slider definition `r` (what follows `sliderN:`) binds, if it
/// names one: the text before '=' in the part before '<'.
pub open spec fn slider_identifier(r: Seq<char>) -> Option<Seq<char>> {
    match find_char(r, '<') {
        Some(lt) => match find_char(r.take(lt), '=') {
            Some(eq) => Some(trimmed(r.take(eq))),
            None => None,
        },
        None => None,
    }
}

/// The description of the slider definition `r`: what follows the range `<...>`, or,
/// for a slider without a range, what follows its last ':'.
pub open spec fn slider_desc(r: Seq<char>) -> Seq<char> {
    match find_char(r, '<') {
        Some(lt) => match find_char(r.skip(lt), '>') {
            Some(gt) => trimmed(r.skip(lt + gt + 1)),
            None => Seq::empty(),
        },
        None => match find_last_char(r, ':') {
            Some(c) => trimmed(r.skip(c + 1)),
            None => Seq::empty(),
        },
    }
}

/// What a metadata line declares, as plain values.
pub enum MetaView {
    Slider { id: nat, identifier: Option<Seq<char>>, desc: Seq<char>, location: Location },
    Import { path: Seq<char>, location: Location },
}

/// What a meta holds.
pub open spec fn meta_view(m: Meta) -> MetaView {
    match m {
        Meta::Slider { id, identifier, desc, location } => MetaView::Slider {
            id: id as nat,
            identifier: match identifier {
                Some(x) => Some(x@),
                None => None,
            },
            desc: desc@,
            location,
        },
        Meta::Import { path, location } => MetaView::Import { path: path@, location },
    }
}

/// Where the metadata line number `idx` (of `len` bytes) of `file` stands.
pub open spec fn meta_location(file: usize, idx: int, len: int) -> Location {
    Location {
        file,
        section: None,
        line_col: LineCol {
            start_line: idx as usize,
            end_line: idx as usize,
            start_column: 1,
            end_column: (len + 1) as usize,
        },
    }
}

/// What the metadata line `t` (number `idx`, `len` bytes) declares: a slider
/// (`sliderN:...`, with a number that fits in `usize`), or an import (`import path`).
pub open spec fn meta_of(t: Seq<char>, file: usize, idx: int, len: int) -> Option<MetaView> {
    match slider_head(t) {
        Some((id, r)) => if id <= usize::MAX {
            Some(
                MetaView::Slider {
                    id,
                    identifier: slider_identifier(r),
                    desc: slider_desc(r),
                    location: meta_location(file, idx, len),
                },
            )
        } else {
            None
        },
        None => if has_prefix(t, "import "@) {
            Some(MetaView::Import { path: trimmed(t.skip(7)), location: meta_location(file, idx, len) })
        } else {
            None
        },
    }
}

/// The metas that the lines `ls` of `b` declare, in order, counting only the lines that
/// start before `limit`.
pub open spec fn metas_of(b: Seq<u8>, ls: Seq<(int, int, int)>, file: usize, limit: int) -> Seq<MetaView>
    decreases ls.len(),
{
    if ls.len() == 0 {
        Seq::empty()
    } else {
        let prev = metas_of(b, ls.drop_last(), file, limit);
        let l = ls.last();
        if l.0 < limit {
            match meta_of(text_of(b.subrange(l.0, l.1)), file, ls.len() - 1, l.1 - l.0) {
                Some(m) => prev.push(m),
                None => prev,
            }
        } else {
            prev
        }
    }
}

/// Whether `s` starts with `p`.
fn starts_with_text(s: &str, p: &str) -> (r: bool)
    ensures
        r == has_prefix(s@, p@),
{
    let n = p.unicode_len();
    if s.unicode_len() < n {
        return false;
    }
    let mut i: usize = 0;
    while i < n
        invariant
            n == p@.len(),
            n <= s@.len(),
            i <= n,
            forall|j: int| 0 <= j < i ==> s@[j] == p@[j],
        decreases n - i,
    {
        if s.get_char(i) != p.get_char(i) {
            assert(s@.take(n as int)[i as int] != p@[i as int]);
            return false;
        }
        i += 1;
    }
    assert(s@.take(n as int) =~= p@);
    true
}

/// The characters of `s` from `from` on.
fn tail(s: &str, from: usize) -> (r: &str)
    requires
        from <= s@.len(),
    ensures
        r@ == s@.skip(from as int),
{
    let n = s.unicode_len();
    let r = s.substring_char(from, n);
    assert(r@ =~= s@.skip(from as int));
    r
}

/// The first `to` characters of `s`.
fn head(s: &str, to: usize) -> (r: &str)
    requires
        to <= s@.len(),
    ensures
        r@ == s@.take(to as int),
{
    let r = s.substring_char(0, to);
    assert(r@ =~= s@.take(to as int));
    r
}

/// The description of the slider definition `r` (see `slider_desc`).
fn slider_description(r: &str) -> (d: String)
    ensures
        d@ == slider_desc(r@),
{
    proof {
        lemma_find_char(r@, '<');
        lemma_find_char(r@, ':');
    }
    let _n = r.unicode_len();
    match first_char_index(r, '<') {
        Some(lt) => {
            let after = tail(r, lt);
            proof {
                lemma_find_char(after@, '>');
            }
            match first_char_index(after, '>') {
                Some(gt) => {
                    let rest = tail(r, lt + gt + 1);
                    assert(rest@ =~= r@.skip(lt + gt + 1));
                    trim(rest)
                },
                None => String::new(),
            }
        },
        None => match last_char_index(r, ':') {
            Some(c) => trim(tail(r, c + 1)),
            None => String::new(),
        },
    }
}

/// The variable that the slider definition `r` binds (see `slider_identifier`).
fn slider_variable(r: &str) -> (v: Option<String>)
    ensures
        match slider_identifier(r@) {
            Some(x) => v matches Some(y) && y@ == x,
            None => v is None,
        },
{
    proof {
        lemma_find_char(r@, '<');
    }
    match first_char_index(r, '<') {
        Some(lt) => {
            let before = head(r, lt);
            proof {
                lemma_find_char(before@, '=');
                assert(find_char(r@, '<') == Some(lt as int));
                assert(before@ == r@.take(lt as int));
            }
            match first_char_index(before, '=') {
                Some(eq) => {
                    let v = trim(head(r, eq));
                    assert(slider_identifier(r@) == Some(trimmed(r@.take(eq as int))));
                    Some(v)
                },
                None => None,
            }
        },
        None => None,
    }
}

/// What the metadata line `t` (number `idx`, `len` bytes) declares (see `meta_of`).
fn parse_meta_line(t: &str, file: usize, idx: usize, len: usize) -> (r: Option<Meta>)
    requires
        len < usize::MAX,
    ensures
        match meta_of(t@, file, idx as int, len as int) {
            Some(m) => r matches Some(x) && meta_view(x) == m,
            None => r is None,
        },
{
    let location = Location {
        file,
        section: None,
        line_col: LineCol { start_line: idx, end_line: idx, start_column: 1, end_column: len + 1 },
    };
    if starts_with_text(t, "slider") {
        proof {
            reveal_strlit("slider");
        }
        let s = tail(t, 6);
        let n = s.unicode_len();
        let mut i: usize = 0;
        let mut value: u128 = 0;
        let mut fits = true;
        while i < n && '0' <= s.get_char(i) && s.get_char(i) <= '9'
            invariant
                n == s@.len(),
                i <= n,
                forall|j: int| 0 <= j < i ==> is_digit(#[trigger] s@[j]),
                fits ==> value == digits_value(s@.take(i as int)) && value <= usize::MAX,
                !fits ==> digits_value(s@.take(i as int)) > usize::MAX,
            decreases n - i,
        {
            let c = s.get_char(i);
            assert(s@.take(i + 1).drop_last() =~= s@.take(i as int));
            let ghost prev = digits_value(s@.take(i as int));
            if fits {
                let w: u128 = value * 10 + (c as u32 - 48) as u128;
                if w > usize::MAX as u128 {
                    fits = false;
                } else {
                    value = w;
                }
            } else {
                assert(prev * 10 >= prev) by (nonlinear_arith);
            }
            i += 1;
        }
        proof {
            lemma_leading_digits(s@, i as int);
        }
        if i > 0 && i < n && s.get_char(i) == ':' {
            let r = tail(s, i + 1);
            if !fits {
                return None;
            }
            let identifier = slider_variable(r);
            let desc = slider_description(r);
            return Some(Meta::Slider { id: value as usize, identifier, desc, location });
        }
        proof {
            reveal_strlit("import ");
            reveal_strlit("slider");
            assert(t@.take(6)[0] == t@[0]);
            assert(t@[0] == 's');
            assert(!has_prefix(t@, "import "@)) by {
                if has_prefix(t@, "import "@) {
                    assert(t@.take(7)[0] == "import "@[0]);
                }
            }
        }
        return None;
    }
    if starts_with_text(t, "import ") {
        proof {
            reveal_strlit("import ");
        }
        let path = trim(tail(t, 7));
        return Some(Meta::Import { path, location });
    }
    None
}

/// The metas declared by the lines of `source` that start before `first_section_pos`
/// (all lines when there is no section): sliders and imports.
pub fn parse_metas(source: &str, file: usize, first_section_pos: Option<usize>) -> (r: Vec<Meta>)
    requires
        source.spec_bytes().len() < usize::MAX,
    ensures
        r@.map_values(|m: Meta| meta_view(m)) == metas_of(
            source.spec_bytes(),
            lines_from(source.spec_bytes(), 0),
            file,
            match first_section_pos {
                Some(p) => p as int,
                None => source.spec_bytes().len() as int,
            },
        ),
{
    let ghost b = source.spec_bytes();
    let ghost ls = lines_from(b, 0);
    let limit = match first_section_pos {
        Some(p) => p,
        None => source.len(),
    };
    let mut metas: Vec<Meta> = Vec::new();
    let mut lines = Lines::new(source);
    let mut char_pos: usize = 0;
    let mut line_idx: usize = 0;
    proof {
        assert(ls.take(0) =~= Seq::<(int, int, int)>::empty());
        assert(ls.skip(0) =~= ls);
    }
    loop
        invariant
            b == source.spec_bytes(),
            ls == lines_from(b, 0),
            b.len() < usize::MAX,
            lines.wf(),
            lines.bytes() == b,
            line_idx <= ls.len(),
            lines.rest() == ls.skip(line_idx as int),
            line_idx < ls.len() ==> char_pos == ls[line_idx as int].0,
            metas@.map_values(|m: Meta| meta_view(m)) == metas_of(b, ls.take(line_idx as int), file, limit as int),
            limit as int == match first_section_pos {
                Some(p) => p as int,
                None => source.spec_bytes().len() as int,
            },
        decreases ls.len() - line_idx,
    {
        let ghost i = line_idx as int;
        let (line, line_len) = match lines.next() {
            Some(x) => x,
            None => {
                proof {
                    assert(ls.take(i) =~= ls);
                    assert(limit as int == match first_section_pos {
                        Some(p) => p as int,
                        None => source.spec_bytes().len() as int,
                    });
                }
                return metas;
            },
        };
        let ghost l = ls[i];
        proof {
            crate::first_pass::lemma_line_facts(b, i);
            assert(ls.skip(i)[0] == l);
            assert(ls[i] == l);
            if i + 1 < ls.len() {
                assert(ls.skip(i).drop_first() =~= ls.skip(i + 1));
            } else {
                assert(ls.skip(i + 1) =~= Seq::<(int, int, int)>::empty());
            }
            assert(ls.take(i + 1).drop_last() =~= ls.take(i));
            lemma_text_of(line);
        }
        if char_pos < limit {
            let ghost before = metas@;
            match parse_meta_line(line, file, line_idx, line.len()) {
                Some(m) => {
                    metas.push(m);
                    assert(metas@.map_values(|m: Meta| meta_view(m)) =~= before.map_values(|m: Meta| meta_view(m)).push(meta_view(m)));
                },
                None => {},
            }
        }
        char_pos += line_len;
        line_idx += 1;
    }
}

} // verus!
