use vstd::prelude::*;
use vstd::string::StringSliceAdditionalSpecFns;
use vstd::utf8::*;

verus! {

/// Character equality of two string slices.
pub fn str_eq(a: &str, b: &str) -> (r: bool)
    ensures
        r == (a@ == b@),
{
    let n = a.unicode_len();
    if n != b.unicode_len() {
        return false;
    }
    let mut i: usize = 0;
    while i < n
        invariant
            n == a@.len(),
            n == b@.len(),
            i <= n,
            forall|j: int| 0 <= j < i ==> a@[j] == b@[j],
        decreases n - i,
    {
        if a.get_char(i) != b.get_char(i) {
            return false;
        }
        i += 1;
    }
    assert(a@ =~= b@);
    true
}

} // verus!

verus! {

/// The UTF-8 bytes of any string are valid UTF-8.
pub proof fn lemma_str_valid(s: &str)
    ensures
        valid_utf8(s.spec_bytes()),
        is_char_boundary(s.spec_bytes(), 0),
        is_char_boundary(s.spec_bytes(), s.spec_bytes().len() as int),
{
    encode_utf8_valid_utf8(s@);
    is_char_boundary_start_end_of_seq(s.spec_bytes());
}

/// An ASCII byte is a whole character: the position after it is a character boundary.
pub proof fn lemma_boundary_after_ascii(b: Seq<u8>, i: int)
    requires
        valid_utf8(b),
        0 <= i < b.len(),
        b[i] < 0x80,
    ensures
        is_char_boundary(b, i),
        is_char_boundary(b, i + 1),
    decreases b.len(),
{
    is_char_boundary_iff_not_is_continuation_byte(b, i);
    reveal_with_fuel(is_char_boundary, 2);
    if i == 0 {
        assert(length_of_first_scalar(b) == 1);
        assert(is_char_boundary(pop_first_scalar(b), 0));
    } else {
        let l = length_of_first_scalar(b);
        let p = pop_first_scalar(b);
        assert(valid_utf8(p));
        assert(is_char_boundary(p, i - l));
        assert(p[i - l] == b[i]);
        lemma_boundary_after_ascii(p, i - l);
    }
}

/// A boundary of a text stays a boundary of any of its suffixes that starts at a boundary.
pub proof fn lemma_boundary_in_suffix(b: Seq<u8>, s: int, e: int)
    requires
        valid_utf8(b),
        0 <= s <= e <= b.len(),
        is_char_boundary(b, s),
        is_char_boundary(b, e),
    ensures
        valid_utf8(b.subrange(s, b.len() as int)),
        is_char_boundary(b.subrange(s, b.len() as int), e - s),
{
    let t = b.subrange(s, b.len() as int);
    valid_utf8_split(b, s);
    if e == b.len() {
        is_char_boundary_start_end_of_seq(t);
    } else {
        is_char_boundary_iff_not_is_continuation_byte(b, e);
        is_char_boundary_iff_not_is_continuation_byte(t, e - s);
    }
}

/// The part of `s` between the byte positions `start` and `end`.
pub fn substr<'a>(s: &'a str, start: usize, end: usize) -> (r: &'a str)
    requires
        start <= end <= s.spec_bytes().len(),
        is_char_boundary(s.spec_bytes(), start as int),
        is_char_boundary(s.spec_bytes(), end as int),
    ensures
        r.spec_bytes() == s.spec_bytes().subrange(start as int, end as int),
{
    proof {
        lemma_str_valid(s);
        lemma_boundary_in_suffix(s.spec_bytes(), start as int, end as int);
    }
    let (_, tail) = s.split_at(start);
    proof {
        assert(tail.spec_bytes() =~= s.spec_bytes().subrange(start as int, s.spec_bytes().len() as int));
    }
    let (head, _) = tail.split_at(end - start);
    assert(head.spec_bytes() =~= s.spec_bytes().subrange(start as int, end as int));
    head
}

} // verus!

verus! {

/// `String::push` appends one character.
pub assume_specification[ std::string::String::push ](s: &mut std::string::String, ch: char)
    ensures
        final(s)@ == old(s)@.push(ch),
;

/// The ASCII lowercase form of a character (other characters are kept).
pub open spec fn lower_char(c: char) -> char {
    if 'A' <= c && c <= 'Z' {
        ((c as u8) + 32u8) as char
    } else {
        c
    }
}

/// The ASCII lowercase form of a text.
pub open spec fn lower(s: Seq<char>) -> Seq<char> {
    s.map_values(|c: char| lower_char(c))
}

/// The ASCII lowercase form of a character.
pub fn to_lower_char(c: char) -> (r: char)
    ensures
        r == lower_char(c),
{
    if 'A' <= c && c <= 'Z' {
        ((c as u8) + 32u8) as char
    } else {
        c
    }
}

/// The ASCII lowercase form of a text.
pub fn to_lower(s: &str) -> (r: String)
    ensures
        r@ == lower(s@),
{
    let n = s.unicode_len();
    let mut out = String::new();
    let mut i: usize = 0;
    while i < n
        invariant
            n == s@.len(),
            i <= n,
            out@ == lower(s@.take(i as int)),
        decreases n - i,
    {
        let c = s.get_char(i);
        out.push(to_lower_char(c));
        assert(lower(s@.take(i + 1)) =~= lower(s@.take(i as int)).push(lower_char(c)));
        i += 1;
    }
    assert(s@.take(n as int) =~= s@);
    out
}

/// Whether two texts are equal once both are lowercased (ASCII).
pub fn eq_ignore_case(a: &str, b: &str) -> (r: bool)
    ensures
        r == (lower(a@) == lower(b@)),
{
    let n = a.unicode_len();
    if n != b.unicode_len() {
        assert(lower(a@).len() != lower(b@).len());
        return false;
    }
    let mut i: usize = 0;
    while i < n
        invariant
            n == a@.len(),
            n == b@.len(),
            i <= n,
            forall|j: int| 0 <= j < i ==> lower_char(a@[j]) == lower_char(b@[j]),
        decreases n - i,
    {
        if to_lower_char(a.get_char(i)) != to_lower_char(b.get_char(i)) {
            assert(lower(a@)[i as int] != lower(b@)[i as int]);
            return false;
        }
        i += 1;
    }
    assert(lower(a@) =~= lower(b@));
    true
}

/// Whether `s` starts with `p`.
pub fn starts_with(s: &str, p: &str) -> (r: bool)
    ensures
        r == (p@.len() <= s@.len() && s@.take(p@.len() as int) == p@),
{
    let n = p.unicode_len();
    if n > s.unicode_len() {
        return false;
    }
    let mut i: usize = 0;
    while i < n
        invariant
            n == p@.len(),
            n <= s@.len(),
            i <= n,
            forall|j: int| 0 <= j < i ==> s@[j] == p@[j],
        decreases n - i,
    {
        if s.get_char(i) != p.get_char(i) {
            assert(s@.take(n as int)[i as int] != p@[i as int]);
            return false;
        }
        i += 1;
    }
    assert(s@.take(n as int) =~= p@);
    true
}

/// Whether `s` starts with `p`, ignoring ASCII case.
pub fn starts_with_ignore_case(s: &str, p: &str) -> (r: bool)
    ensures
        r == (p@.len() <= s@.len() && lower(s@.take(p@.len() as int)) == lower(p@)),
{
    let n = p.unicode_len();
    if n > s.unicode_len() {
        return false;
    }
    let mut i: usize = 0;
    while i < n
        invariant
            n == p@.len(),
            n <= s@.len(),
            i <= n,
            forall|j: int| 0 <= j < i ==> lower_char(s@[j]) == lower_char(p@[j]),
        decreases n - i,
    {
        if to_lower_char(s.get_char(i)) != to_lower_char(p.get_char(i)) {
            assert(lower(s@.take(n as int))[i as int] != lower(p@)[i as int]);
            return false;
        }
        i += 1;
    }
    assert(lower(s@.take(n as int)) =~= lower(p@));
    true
}

/// The text made of `a` followed by `b`.
pub fn concat(a: &str, b: &str) -> (r: String)
    ensures
        r@ == a@ + b@,
{
    let mut r = String::from_str(a);
    r.append(b);
    r
}

/// The characters of `s` from position `from` (in characters) to the end.
pub fn chars_from(s: &str, from: usize) -> (r: String)
    requires
        from <= s@.len(),
    ensures
        r@ == s@.subrange(from as int, s@.len() as int),
{
    let n = s.unicode_len();
    String::from_str(s.substring_char(from, n))
}

/// The first `to` characters of `s`.
pub fn chars_until(s: &str, to: usize) -> (r: String)
    requires
        to <= s@.len(),
    ensures
        r@ == s@.subrange(0, to as int),
{
    String::from_str(s.substring_char(0, to))
}

/// The number of '.' characters at the start of `s`.
pub open spec fn leading_dots(s: Seq<char>) -> nat
    decreases s.len(),
{
    if s.len() > 0 && s[0] == '.' {
        1 + leading_dots(s.drop_first())
    } else {
        0
    }
}

pub proof fn lemma_leading_dots(s: Seq<char>, i: int)
    requires
        0 <= i <= s.len(),
        forall|j: int| 0 <= j < i ==> s[j] == '.',
        i == s.len() || s[i] != '.',
    ensures
        leading_dots(s) == i,
    decreases i,
{
    if i > 0 {
        lemma_leading_dots(s.drop_first(), i - 1);
    }
}

/// The number of '.' characters at the start of `s`.
pub fn count_leading_dots(s: &str) -> (r: usize)
    ensures
        r == leading_dots(s@),
        r <= s@.len(),
{
    let n = s.unicode_len();
    let mut i: usize = 0;
    while i < n && s.get_char(i) == '.'
        invariant
            n == s@.len(),
            i <= n,
            forall|j: int| 0 <= j < i ==> s@[j] == '.',
        decreases n - i,
    {
        i += 1;
    }
    proof {
        lemma_leading_dots(s@, i as int);
    }
    i
}

} // verus!

verus! {

/// The positions (in characters) of the '.' characters of `s`, first to last.
pub open spec fn dots_of(s: Seq<char>) -> Seq<int>
    decreases s.len(),
{
    if s.len() == 0 {
        Seq::empty()
    } else if s.last() == '.' {
        dots_of(s.drop_last()).push(s.len() - 1)
    } else {
        dots_of(s.drop_last())
    }
}

pub proof fn lemma_dots_of_bounds(s: Seq<char>)
    ensures
        forall|i: int| 0 <= i < dots_of(s).len() ==> 0 <= #[trigger] dots_of(s)[i] < s.len() && s[dots_of(s)[i]] == '.',
        dots_of(s).len() <= s.len(),
    decreases s.len(),
{
    if s.len() > 0 {
        lemma_dots_of_bounds(s.drop_last());
    }
}

/// The positions (in characters) of the '.' characters of `s`, first to last.
pub fn dot_positions(s: &str) -> (r: Vec<usize>)
    ensures
        r@.map_values(|x: usize| x as int) == dots_of(s@),
{
    let n = s.unicode_len();
    let mut out: Vec<usize> = Vec::new();
    let mut i: usize = 0;
    while i < n
        invariant
            n == s@.len(),
            i <= n,
            out@.map_values(|x: usize| x as int) == dots_of(s@.take(i as int)),
        decreases n - i,
    {
        let ghost before = out@;
        assert(s@.take(i + 1).drop_last() =~= s@.take(i as int));
        if s.get_char(i) == '.' {
            out.push(i);
            assert(out@.map_values(|x: usize| x as int) =~= before.map_values(|x: usize| x as int).push(i as int));
        }
        i += 1;
    }
    assert(s@.take(n as int) =~= s@);
    out
}

} // verus!

verus! {

/// The first index in `i..n` at which `p` holds.
pub open spec fn first_from(n: int, p: spec_fn(int) -> bool, i: int) -> Option<int>
    decreases n - i,
{
    if i >= n {
        None
    } else if p(i) {
        Some(i)
    } else {
        first_from(n, p, i + 1)
    }
}

/// The first index in `0..n` at which `p` holds.
pub open spec fn first_where(n: int, p: spec_fn(int) -> bool) -> Option<int> {
    first_from(n, p, 0)
}

/// `first_from` is the least index at which `p` holds, if there is one.
pub proof fn lemma_first_from(n: int, p: spec_fn(int) -> bool, i: int)
    requires
        0 <= i,
    ensures
        match first_from(n, p, i) {
            Some(k) => i <= k < n && p(k) && forall|j: int| i <= j < k ==> !#[trigger] p(j),
            None => forall|j: int| i <= j < n ==> !#[trigger] p(j),
        },
    decreases n - i,
{
    if i < n && !p(i) {
        lemma_first_from(n, p, i + 1);
    }
}

/// An index is the first at which `p` holds exactly when `p` holds there and nowhere before.
pub proof fn lemma_first_where_is(n: int, p: spec_fn(int) -> bool, k: int)
    requires
        0 <= k < n,
        p(k),
        forall|j: int| 0 <= j < k ==> !#[trigger] p(j),
    ensures
        first_where(n, p) == Some(k),
{
    lemma_first_from(n, p, 0);
    match first_from(n, p, 0) {
        Some(m) => {
            if m < k {
                assert(!p(m));
            }
            if m > k {
                assert(!p(k));
            }
        },
        None => {
            assert(!p(k));
        },
    }
}

/// There is no first index when `p` holds nowhere.
pub proof fn lemma_first_where_none(n: int, p: spec_fn(int) -> bool)
    requires
        forall|j: int| 0 <= j < n ==> !#[trigger] p(j),
    ensures
        first_where(n, p) is None,
{
    lemma_first_from(n, p, 0);
}

} // verus!

verus! {

/// `a`, a dot, then `b`.
pub fn join_dot(a: &str, b: &str) -> (r: String)
    ensures
        r@ == a@ + seq!['.'] + b@,
{
    let mut r = String::from_str(a);
    r.push('.');
    r.append(b);
    r
}

/// The text "this".
pub fn this_string() -> (r: String)
    ensures
        r@ == seq!['t', 'h', 'i', 's'],
{
    proof {
        reveal_strlit("this");
        assert("this"@ =~= seq!['t', 'h', 'i', 's']);
    }
    String::from_str("this")
}

} // verus!
