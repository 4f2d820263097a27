use vstd::prelude::*;
use vstd::string::StringSliceAdditionalSpecFns;

verus! {

/// Whether `c` has the Unicode `White_Space` property.
pub open spec fn is_white(c: char) -> bool {
    let u = c as u32;
    ||| 9 <= u <= 13
    ||| u == 32
    ||| u == 0x85
    ||| u == 0xA0
    ||| u == 0x1680
    ||| 0x2000 <= u <= 0x200A
    ||| u == 0x2028
    ||| u == 0x2029
    ||| u == 0x202F
    ||| u == 0x205F
    ||| u == 0x3000
}

/// Whether `c` has the Unicode `White_Space` property.
pub fn is_white_char(c: char) -> (r: bool)
    ensures
        r == is_white(c),
{
    let u = c as u32;
    (9 <= u && u <= 13) || u == 32 || u == 0x85 || u == 0xA0 || u == 0x1680 || (0x2000 <= u && u
        <= 0x200A) || u == 0x2028 || u == 0x2029 || u == 0x202F || u == 0x205F || u == 0x3000
}

/// `s` without its leading white space.
pub open spec fn trim_front(s: Seq<char>) -> Seq<char>
    decreases s.len(),
{
    if s.len() > 0 && is_white(s[0]) {
        trim_front(s.drop_first())
    } else {
        s
    }
}

/// `s` without its trailing white space.
pub open spec fn trim_back(s: Seq<char>) -> Seq<char>
    decreases s.len(),
{
    if s.len() > 0 && is_white(s.last()) {
        trim_back(s.drop_last())
    } else {
        s
    }
}

/// `s` without its leading and trailing white space.
pub open spec fn trimmed(s: Seq<char>) -> Seq<char> {
    trim_back(trim_front(s))
}

proof fn lemma_trim_front(s: Seq<char>, i: int)
    requires
        0 <= i <= s.len(),
        forall|j: int| 0 <= j < i ==> is_white(#[trigger] s[j]),
        i == s.len() || !is_white(s[i]),
    ensures
        trim_front(s) == s.skip(i),
    decreases i,
{
    if i > 0 {
        lemma_trim_front(s.drop_first(), i - 1);
        assert(s.drop_first().skip(i - 1) =~= s.skip(i));
    } else {
        assert(s.skip(0) =~= s);
    }
}

proof fn lemma_trim_back(s: Seq<char>, j: int)
    requires
        0 <= j <= s.len(),
        forall|k: int| j <= k < s.len() ==> is_white(#[trigger] s[k]),
        j == 0 || !is_white(s[j - 1]),
    ensures
        trim_back(s) == s.take(j),
    decreases s.len() - j,
{
    if j < s.len() {
        lemma_trim_back(s.drop_last(), j);
        assert(s.drop_last().take(j) =~= s.take(j));
    } else {
        assert(s.take(j) =~= s);
    }
}

/// `s` without its leading and trailing white space.
pub fn trim(s: &str) -> (r: String)
    ensures
        r@ == trimmed(s@),
{
    let n = s.unicode_len();
    let mut i: usize = 0;
    while i < n && is_white_char(s.get_char(i))
        invariant
            n == s@.len(),
            i <= n,
            forall|j: int| 0 <= j < i ==> is_white(#[trigger] s@[j]),
        decreases n - i,
    {
        i += 1;
    }
    proof {
        lemma_trim_front(s@, i as int);
    }
    let ghost f = s@.skip(i as int);
    let mut j: usize = n;
    while j > i && is_white_char(s.get_char(j - 1))
        invariant
            n == s@.len(),
            i <= j <= n,
            f == s@.skip(i as int),
            forall|k: int| j <= k < n ==> is_white(#[trigger] s@[k]),
        decreases j,
    {
        j -= 1;
    }
    proof {
        assert forall|k: int| j - i <= k < f.len() implies is_white(#[trigger] f[k]) by {
            assert(f[k] == s@[k + i]);
        }
        if j > i {
            assert(f[j - i - 1] == s@[j - 1]);
        }
        lemma_trim_back(f, j - i);
        assert(f.take(j - i) =~= s@.subrange(i as int, j as int));
    }
    String::from_str(s.substring_char(i, j))
}

/// The pieces of `s` between its ' ' characters, as `split(' ')` gives them (empty
/// pieces included; there is always at least one).
pub open spec fn pieces(s: Seq<char>) -> Seq<Seq<char>>
    decreases s.len(),
{
    if s.len() == 0 {
        seq![Seq::empty()]
    } else if s.last() == ' ' {
        pieces(s.drop_last()).push(Seq::empty())
    } else {
        let p = pieces(s.drop_last());
        p.update(p.len() - 1, p.last().push(s.last()))
    }
}

pub proof fn lemma_pieces_len(s: Seq<char>)
    ensures
        pieces(s).len() >= 1,
    decreases s.len(),
{
    if s.len() > 0 {
        lemma_pieces_len(s.drop_last());
    }
}

/// The non-empty texts of `p`, in order.
pub open spec fn non_empty(p: Seq<Seq<char>>) -> Seq<Seq<char>>
    decreases p.len(),
{
    if p.len() == 0 {
        Seq::empty()
    } else if p.last().len() > 0 {
        non_empty(p.drop_last()).push(p.last())
    } else {
        non_empty(p.drop_last())
    }
}

/// Whether `w` starts with "//".
pub open spec fn is_comment_start(w: Seq<char>) -> bool {
    w.len() >= 2 && w[0] == '/' && w[1] == '/'
}

/// The texts of `w` that come before the first one starting with "//".
pub open spec fn until_comment(w: Seq<Seq<char>>) -> Seq<Seq<char>>
    decreases w.len(),
{
    if w.len() == 0 || is_comment_start(w[0]) {
        Seq::empty()
    } else {
        seq![w[0]] + until_comment(w.drop_first())
    }
}

/// The words of a section header's parameters: the non-empty pieces between ' '
/// characters, up to the first one that starts a comment.
pub open spec fn param_words(s: Seq<char>) -> Seq<Seq<char>> {
    until_comment(non_empty(pieces(s)))
}

/// The non-empty pieces of `s` between ' ' characters.
fn split_spaces(s: &str) -> (r: Vec<String>)
    ensures
        r@.len() == non_empty(pieces(s@)).len(),
        forall|i: int| 0 <= i < r@.len() ==> #[trigger] r@[i]@ == non_empty(pieces(s@))[i],
{
    let n = s.unicode_len();
    let mut out: Vec<String> = Vec::new();
    let mut done: Ghost<Seq<Seq<char>>> = Ghost(Seq::empty());
    let mut cur = String::new();
    let mut i: usize = 0;
    while i < n
        invariant
            n == s@.len(),
            i <= n,
            pieces(s@.take(i as int)) == done@.push(cur@),
            out@.len() == non_empty(done@).len(),
            forall|k: int| 0 <= k < out@.len() ==> #[trigger] out@[k]@ == non_empty(done@)[k],
        decreases n - i,
    {
        let c = s.get_char(i);
        assert(s@.take(i + 1).drop_last() =~= s@.take(i as int));
        assert(s@.take(i + 1).last() == c);
        if c == ' ' {
            let ghost old_done = done@;
            let ghost w = cur@;
            proof {
                assert(done@.push(cur@).drop_last() =~= done@);
            }
            if cur.unicode_len() > 0 {
                let mut fresh = String::new();
                std::mem::swap(&mut fresh, &mut cur);
                out.push(fresh);
            } else {
                cur = String::new();
            }
            proof {
                done@ = old_done.push(w);
                assert(done@.drop_last() =~= old_done);
                assert(pieces(s@.take(i + 1)) =~= done@.push(cur@));
            }
        } else {
            let ghost before = cur@;
            cur.push(c);
            assert(pieces(s@.take(i + 1)) =~= done@.push(cur@));
        }
        i += 1;
    }
    assert(s@.take(n as int) =~= s@);
    let ghost all = done@.push(cur@);
    assert(all.drop_last() =~= done@);
    if cur.unicode_len() > 0 {
        out.push(cur);
    }
    out
}

/// Whether `s` starts with "//".
fn starts_comment(s: &str) -> (r: bool)
    ensures
        r == is_comment_start(s@),
{
    s.unicode_len() >= 2 && s.get_char(0) == '/' && s.get_char(1) == '/'
}

/// The words of a section header's parameters (see `param_words`).
pub fn header_param_words(s: &str) -> (r: Vec<String>)
    ensures
        r@.len() == param_words(s@).len(),
        forall|i: int| 0 <= i < r@.len() ==> #[trigger] r@[i]@ == param_words(s@)[i],
{
    let all = split_spaces(s);
    let ghost w = non_empty(pieces(s@));
    let mut out: Vec<String> = Vec::new();
    let mut i: usize = 0;
    assert(w.take(0) + until_comment(w.skip(0)) =~= until_comment(w)) by {
        assert(w.skip(0) =~= w);
    }
    while i < all.len() && !starts_comment(all[i].as_str())
        invariant
            all@.len() == w.len(),
            forall|k: int| 0 <= k < all@.len() ==> #[trigger] all@[k]@ == w[k],
            w == non_empty(pieces(s@)),
            i <= all@.len(),
            out@.len() == i,
            forall|k: int| 0 <= k < i ==> #[trigger] out@[k]@ == w[k],
            until_comment(w) == w.take(i as int) + until_comment(w.skip(i as int)),
        decreases all@.len() - i,
    {
        assert(w.skip(i as int)[0] == w[i as int]);
        assert(w.skip(i as int).drop_first() =~= w.skip(i + 1));
        assert(w.take(i + 1) =~= w.take(i as int).push(w[i as int]));
        assert(w.take(i as int) + (seq![w[i as int]] + until_comment(w.skip(i + 1)))
            =~= w.take(i + 1) + until_comment(w.skip(i + 1)));
        out.push(all[i].clone());
        i += 1;
    }
    proof {
        if i == all@.len() {
            assert(w.skip(i as int) =~= Seq::<Seq<char>>::empty());
            assert(w.take(i as int) =~= w);
        } else {
            assert(w.skip(i as int)[0] == w[i as int]);
            assert(w.take(i as int) + Seq::<Seq<char>>::empty() =~= w.take(i as int));
        }
    }
    out
}

} // verus!
