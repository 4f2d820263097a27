use vstd::prelude::*;
use vstd::seq_lib::to_multiset_build;

use crate::issue::{insert_stable, issue_le, stable_sorted, Issue};
use crate::issue_kind::severity_rank;
use crate::location::location_le;

verus! {

/// Issues are ordered by a total preorder: any two compare one way or the other.
pub proof fn law_issue_order_total(a: Issue, b: Issue)
    ensures
        issue_le(a, b) || issue_le(b, a),
{
}

/// The order of issues is transitive.
pub proof fn law_issue_order_transitive(a: Issue, b: Issue, c: Issue)
    requires
        issue_le(a, b),
        issue_le(b, c),
    ensures
        issue_le(a, c),
{
}

/// Whether `s` is ordered: each issue comes before or at every later one.
pub open spec fn is_ordered(s: Seq<Issue>) -> bool {
    forall|i: int, j: int| 0 <= i < j < s.len() ==> issue_le(#[trigger] s[i], #[trigger] s[j])
}

proof fn lemma_insert_bounded(t: Seq<Issue>, x: Issue, y: Issue)
    requires
        forall|i: int| 0 <= i < t.len() ==> issue_le(#[trigger] t[i], y),
        issue_le(x, y),
    ensures
        forall|k: int| 0 <= k < insert_stable(t, x).len() ==> issue_le(#[trigger] insert_stable(t, x)[k], y),
        insert_stable(t, x).len() == t.len() + 1,
    decreases t.len(),
{
    if t.len() > 0 && !issue_le(t.last(), x) {
        let u = t.drop_last();
        assert forall|i: int| 0 <= i < u.len() implies issue_le(#[trigger] u[i], y) by {
            assert(u[i] == t[i]);
        }
        lemma_insert_bounded(u, x, y);
        let r = insert_stable(u, x).push(t.last());
        assert forall|k: int| 0 <= k < r.len() implies issue_le(#[trigger] r[k], y) by {
            if k == r.len() - 1 {
                assert(r[k] == t[t.len() - 1]);
            } else {
                assert(r[k] == insert_stable(u, x)[k]);
            }
        }
    }
}

proof fn lemma_insert_sorted(t: Seq<Issue>, x: Issue)
    requires
        is_ordered(t),
    ensures
        is_ordered(insert_stable(t, x)),
        insert_stable(t, x).to_multiset() == t.to_multiset().insert(x),
    decreases t.len(),
{
    if t.len() == 0 {
        assert(insert_stable(t, x) == t.push(x));
        to_multiset_build(t, x);
        assert(is_ordered(insert_stable(t, x)));
    } else if issue_le(t.last(), x) {
        to_multiset_build(t, x);
        let r = t.push(x);
        assert forall|i: int, j: int| 0 <= i < j < r.len() implies issue_le(#[trigger] r[i], #[trigger] r[j]) by {
            if j == r.len() - 1 {
                if i < t.len() - 1 {
                    law_issue_order_transitive(t[i], t.last(), x);
                }
            } else {
                assert(r[i] == t[i] && r[j] == t[j]);
            }
        }
    } else {
        let u = t.drop_last();
        let y = t.last();
        assert forall|i: int, j: int| 0 <= i < j < u.len() implies issue_le(#[trigger] u[i], #[trigger] u[j]) by {
            assert(u[i] == t[i] && u[j] == t[j]);
        }
        lemma_insert_sorted(u, x);
        law_issue_order_total(y, x);
        assert forall|i: int| 0 <= i < u.len() implies issue_le(#[trigger] u[i], y) by {
            assert(u[i] == t[i]);
            assert(t[t.len() - 1] == y);
        }
        lemma_insert_bounded(u, x, y);
        let v = insert_stable(u, x);
        let r = v.push(y);
        assert forall|i: int, j: int| 0 <= i < j < r.len() implies issue_le(#[trigger] r[i], #[trigger] r[j]) by {
            if j == r.len() - 1 {
                assert(r[i] == v[i]);
                assert(issue_le(v[i], y));
            } else {
                assert(r[i] == v[i] && r[j] == v[j]);
            }
        }
        to_multiset_build(v, y);
        to_multiset_build(u, y);
        assert(u.push(y) =~= t);
        assert(t.to_multiset() == u.to_multiset().insert(y));
        assert(r.to_multiset() =~= t.to_multiset().insert(x));
    }
}

/// Sorting issues puts them in order, and keeps exactly the issues it was given: the
/// sorted issues are a permutation of the given ones.
pub proof fn law_sort_orders_and_keeps(s: Seq<Issue>)
    ensures
        is_ordered(stable_sorted(s)),
        stable_sorted(s).to_multiset() == s.to_multiset(),
        stable_sorted(s).len() == s.len(),
    decreases s.len(),
{
    if s.len() > 0 {
        let u = s.drop_last();
        law_sort_orders_and_keeps(u);
        lemma_insert_sorted(stable_sorted(u), s.last());
        to_multiset_build(u, s.last());
        assert(u.push(s.last()) =~= s);
        stable_sorted(s).to_multiset_ensures();
        s.to_multiset_ensures();
    } else {
        assert(s.to_multiset() =~= stable_sorted(s).to_multiset());
    }
}


/// Whether two issues take the same place in the order: each comes before or at the other.
pub open spec fn same_place(a: Issue, b: Issue) -> bool {
    issue_le(a, b) && issue_le(b, a)
}

/// The issues of `s` that take the same place in the order as `x`, in the order of `s`.
pub open spec fn ties_of(s: Seq<Issue>, x: Issue) -> Seq<Issue>
    decreases s.len(),
{
    if s.len() == 0 {
        s
    } else if same_place(s.last(), x) {
        ties_of(s.drop_last(), x).push(s.last())
    } else {
        ties_of(s.drop_last(), x)
    }
}

proof fn lemma_insert_ties(t: Seq<Issue>, y: Issue, x: Issue)
    ensures
        ties_of(insert_stable(t, y), x) == if same_place(y, x) {
            ties_of(t, x).push(y)
        } else {
            ties_of(t, x)
        },
    decreases t.len(),
{
    if t.len() == 0 {
        assert(insert_stable(t, y) == seq![y]);
        assert(seq![y].drop_last() =~= t);
    } else if issue_le(t.last(), y) {
        assert(insert_stable(t, y) == t.push(y));
        assert(t.push(y).drop_last() =~= t);
    } else {
        let u = t.drop_last();
        let v = insert_stable(u, y);
        lemma_insert_ties(u, y, x);
        assert(insert_stable(t, y) == v.push(t.last()));
        assert(v.push(t.last()).drop_last() =~= v);
        if same_place(y, x) && same_place(t.last(), x) {
            law_issue_order_transitive(t.last(), x, y);
        }
    }
}

/// Sorting issues is stable: the issues that take the same place in the order keep their
/// order. For every issue `x`, those of the sorted issues that tie with `x` are those of
/// the given issues that tie with it, in the same order.
pub proof fn law_sort_stable(s: Seq<Issue>, x: Issue)
    ensures
        ties_of(stable_sorted(s), x) == ties_of(s, x),
    decreases s.len(),
{
    if s.len() > 0 {
        let u = s.drop_last();
        law_sort_stable(u, x);
        lemma_insert_ties(stable_sorted(u), s.last(), x);
    }
}

proof fn lemma_sorted_stays(t: Seq<Issue>)
    requires
        is_ordered(t),
    ensures
        stable_sorted(t) == t,
    decreases t.len(),
{
    if t.len() > 0 {
        let u = t.drop_last();
        assert forall|i: int, j: int| 0 <= i < j < u.len() implies issue_le(#[trigger] u[i], #[trigger] u[j]) by {
            assert(u[i] == t[i] && u[j] == t[j]);
        }
        lemma_sorted_stays(u);
        if u.len() > 0 {
            assert(issue_le(t[u.len() - 1], t[t.len() - 1]));
            assert(u.last() == t[u.len() - 1]);
        }
        assert(u.push(t.last()) =~= t);
    }
}

/// Sorting sorted issues changes nothing: sorting twice is sorting once.
pub proof fn law_sort_idempotent(s: Seq<Issue>)
    ensures
        stable_sorted(stable_sorted(s)) == stable_sorted(s),
{
    law_sort_orders_and_keeps(s);
    lemma_sorted_stays(stable_sorted(s));
}

} // verus!

verus! {

use crate::context::{intersection, lemma_intersection_bits, law_context_equality};

/// Intersecting contexts is associative.
pub proof fn law_context_intersect_associative(a: crate::context::Context, b: crate::context::Context, c: crate::context::Context)
    ensures
        intersection(intersection(a, b), c) == intersection(a, intersection(b, c)),
{
    let (x, y, z) = (a.bits(), b.bits(), c.bits());
    assert((x & y) & z == x & (y & z)) by (bit_vector);
    lemma_intersection_bits(a, b);
    lemma_intersection_bits(b, c);
    lemma_intersection_bits(intersection(a, b), c);
    lemma_intersection_bits(a, intersection(b, c));
    law_context_equality(intersection(intersection(a, b), c), intersection(a, intersection(b, c)));
}

proof fn lemma_or_and(a: u8, c: u8, b: u8)
    ensures
        ((a | c) & b != 0) == ((a & b != 0) || (c & b != 0)),
{
    assert(((a | c) & b != 0) == ((a & b != 0) || (c & b != 0))) by (bit_vector);
}

proof fn lemma_section_names_distinct()
    ensures
        "init"@ != "serialize"@,
        "init"@ != "block"@,
        "init"@ != "sample"@,
        "init"@ != "gfx"@,
        "init"@ != "slider"@,
        "serialize"@ != "block"@,
        "serialize"@ != "sample"@,
        "serialize"@ != "gfx"@,
        "serialize"@ != "slider"@,
        "block"@ != "sample"@,
        "block"@ != "gfx"@,
        "block"@ != "slider"@,
        "sample"@ != "gfx"@,
        "sample"@ != "slider"@,
        "gfx"@ != "slider"@,
{
    reveal_strlit("init");
    reveal_strlit("serialize");
    reveal_strlit("block");
    reveal_strlit("sample");
    reveal_strlit("gfx");
    reveal_strlit("slider");
    assert("init"@.len() == 4);
    assert("serialize"@.len() == 9);
    assert("block"@.len() == 5);
    assert("sample"@.len() == 6);
    assert("gfx"@.len() == 3);
    assert("slider"@.len() == 6);
    assert("sample"@[1] != "slider"@[1]);
}

proof fn lemma_bits_meet(n: Seq<char>, s: Seq<char>)
    requires
        crate::context::is_context_name(n),
        crate::context::is_context_name(s),
    ensures
        (crate::context::context_bit(n) & crate::context::context_bit(s) != 0) == (n == s),
{
    lemma_section_names_distinct();
    let x = crate::context::context_bit(n);
    let y = crate::context::context_bit(s);
    assert(x == 1 || x == 2 || x == 4 || x == 8 || x == 16 || x == 32);
    assert(y == 1 || y == 2 || y == 4 || y == 8 || y == 16 || y == 32);
    assert((x == 1 || x == 2 || x == 4 || x == 8 || x == 16 || x == 32) && (y == 1 || y == 2 || y
        == 4 || y == 8 || y == 16 || y == 32) ==> ((x & y != 0) == (x == y))) by (bit_vector);
}

/// A context made of section names is compatible with a section exactly when the
/// section is among the names.
pub proof fn law_context_names(names: Seq<Seq<char>>, s: Seq<char>)
    requires
        forall|i: int| 0 <= i < names.len() ==> crate::context::is_context_name(#[trigger] names[i]),
        crate::context::is_context_name(s),
    ensures
        (crate::context::bits_of_names(names) & crate::context::context_bit(s) != 0) == names.contains(s),
    decreases names.len(),
{
    if names.len() == 0 {
        let b = crate::context::context_bit(s);
        assert(0u8 & b == 0) by (bit_vector);
    } else {
        let t = names.drop_last();
        assert forall|i: int| 0 <= i < t.len() implies crate::context::is_context_name(#[trigger] t[i]) by {
            assert(t[i] == names[i]);
        }
        law_context_names(t, s);
        lemma_or_and(crate::context::bits_of_names(t), crate::context::context_bit(names.last()), crate::context::context_bit(s));
        lemma_bits_meet(names.last(), s);
        if names.contains(s) {
            let k = choose|k: int| 0 <= k < names.len() && names[k] == s;
            if k < t.len() {
                assert(t[k] == s);
            }
        }
        if t.contains(s) {
            let k = choose|k: int| 0 <= k < t.len() && t[k] == s;
            assert(names[k] == s);
        }
    }
}

} // verus!

verus! {

/// The decimal form of a number reads back as that number.
pub proof fn law_decimal_reads_back(n: nat)
    ensures
        forall|i: int| 0 <= i < crate::numbers::decimal(n).len() ==> crate::numbers::is_digit(
            #[trigger] crate::numbers::decimal(n)[i],
        ),
        crate::numbers::decimal(n).len() > 0,
        crate::numbers::digits_value(crate::numbers::decimal(n)) == n,
        n <= u64::MAX ==> crate::numbers::parses_as_u64(crate::numbers::decimal(n)),
    decreases n,
{
    let d = crate::numbers::decimal(n);
    let m = n % 10;
    assert(((48 + m) as char) as nat == 48 + m);
    if n < 10 {
        assert(d.drop_last() =~= Seq::<char>::empty());
        assert(d.last() == crate::numbers::digit_char(n));
        assert(crate::numbers::digits_value(d) == crate::numbers::digits_value(d.drop_last()) * 10 + m);
    } else {
        law_decimal_reads_back(n / 10);
        let p = crate::numbers::decimal(n / 10);
        assert(d.drop_last() =~= p);
        assert(d.last() == crate::numbers::digit_char(m));
        assert(crate::numbers::digits_value(d) == crate::numbers::digits_value(p) * 10 + m);
        assert forall|i: int| 0 <= i < d.len() implies crate::numbers::is_digit(#[trigger] d[i]) by {
            if i < p.len() {
                assert(d[i] == p[i]);
            }
        }
        assert(n == (n / 10) * 10 + n % 10);
    }
    if n <= u64::MAX {
        assert(d[0] != '+');
        assert(crate::numbers::unsigned_digits(d) == d);
    }
}

/// Lowercasing twice is lowercasing once.
pub proof fn law_lower_idempotent(s: Seq<char>)
    ensures
        crate::text::lower(crate::text::lower(s)) == crate::text::lower(s),
{
    assert(crate::text::lower(crate::text::lower(s)) =~= crate::text::lower(s));
}

/// A tracker that has just been made, with whatever configuration, holds no issue: for
/// every kind, it has none and counts none. Those that are added later get the severity
/// its configuration gives their kind (see `IssueTracker::add`).
pub proof fn law_new_tracker_is_empty(t: crate::issue::IssueTracker)
    requires
        t.issues() == Seq::<Issue>::empty(),
    ensures
        forall|k: crate::issue_kind::IssueKind|
            #[trigger] crate::issue::count_kind(t.issues(), k) == 0
                && !(exists|i: int| 0 <= i < t.issues().len() && t.issues()[i].kind == k),
{
}

/// Reporting an issue raises the count of its kind by one, and the tracker then has
/// an issue of that kind.
pub proof fn law_count_after_report(s: Seq<Issue>, x: Issue)
    ensures
        crate::issue::count_kind(s.push(x), x.kind) == crate::issue::count_kind(s, x.kind) + 1,
        exists|i: int| 0 <= i < s.push(x).len() && s.push(x)[i].kind == x.kind,
{
    assert(s.push(x).drop_last() =~= s);
    assert(s.push(x)[s.len() as int] == x);
}

} // verus!

verus! {

use crate::first_pass::{add_chunk, grouped, kind_index, lemma_kind_index};
use crate::location::SectionKind;
use crate::program::ChunkView;

/// The chunks of kind `k` among `cs`, in order.
pub open spec fn of_kind(cs: Seq<(SectionKind, ChunkView)>, k: SectionKind) -> Seq<ChunkView>
    decreases cs.len(),
{
    if cs.len() == 0 {
        Seq::empty()
    } else if cs.last().0 == k {
        of_kind(cs.drop_last(), k).push(cs.last().1)
    } else {
        of_kind(cs.drop_last(), k)
    }
}

/// Grouping chunks into sections gives at most one section per kind, and the section of
/// a kind holds exactly the chunks of that kind, in order.
pub proof fn law_sections_by_kind(cs: Seq<(SectionKind, ChunkView)>, k: SectionKind)
    ensures
        forall|i: int, j: int| 0 <= i < j < grouped(cs).len() ==> grouped(cs)[i].0 != grouped(cs)[j].0,
        match kind_index(grouped(cs), k) {
            Some(i) => grouped(cs)[i].1 == of_kind(cs, k),
            None => of_kind(cs, k).len() == 0,
        },
    decreases cs.len(),
{
    if cs.len() > 0 {
        let t = cs.drop_last();
        let (k2, c) = cs.last();
        law_sections_by_kind(t, k);
        law_sections_by_kind(t, k2);
        let g = grouped(t);
        lemma_kind_index(g, k);
        lemma_kind_index(g, k2);
        let h = grouped(cs);
        assert(h == add_chunk(g, k2, c));
        lemma_kind_index(h, k);
        match kind_index(g, k2) {
            Some(i) => {
                assert(h.len() == g.len());
                assert forall|a: int, b: int| 0 <= a < b < h.len() implies h[a].0 != h[b].0 by {
                    assert(h[a].0 == g[a].0 && h[b].0 == g[b].0);
                }
            },
            None => {
                assert forall|a: int, b: int| 0 <= a < b < h.len() implies h[a].0 != h[b].0 by {
                    if b < g.len() {
                        assert(h[a].0 == g[a].0 && h[b].0 == g[b].0);
                    } else {
                        assert(h[b].0 == k2);
                        assert(h[a] == g[a]);
                    }
                }
            },
        }
        if k == k2 {
            match kind_index(g, k) {
                Some(i) => {
                    assert(kind_index(h, k) == Some(i)) by {
                        assert(h[i].0 == k);
                        assert forall|j: int| 0 <= j < i implies h[j].0 != k by {
                            assert(h[j] == g[j]);
                        }
                    }
                },
                None => {
                    assert(kind_index(h, k) == Some(g.len() as int)) by {
                        assert forall|j: int| 0 <= j < g.len() implies h[j].0 != k by {
                            assert(h[j] == g[j]);
                        }
                    }
                    assert(of_kind(t, k) =~= Seq::<ChunkView>::empty());
                    assert(h[g.len() as int].1 =~= of_kind(cs, k));
                },
            }
        } else {
            match kind_index(g, k) {
                Some(i) => {
                    assert(h[i] == g[i]);
                    assert(kind_index(h, k) == Some(i)) by {
                        assert forall|j: int| 0 <= j < i implies h[j].0 != k by {
                            assert(h[j].0 == g[j].0);
                        }
                    }
                },
                None => {
                    assert(kind_index(h, k) is None) by {
                        assert forall|j: int| 0 <= j < h.len() implies h[j].0 != k by {
                            if j < g.len() {
                                assert(h[j].0 == g[j].0);
                            }
                        }
                    }
                },
            }
        }
    }
}

} // verus!

verus! {

use crate::iterators::lines_range::{
    first_newline, lemma_first_newline_bounds, line_at, lines_from, next_line_start,
};

/// The full lengths of the lines `ls`, added up.
pub open spec fn total_len(ls: Seq<(int, int, int)>) -> int
    decreases ls.len(),
{
    if ls.len() == 0 {
        0
    } else {
        ls[0].2 + total_len(ls.drop_first())
    }
}

/// How the lines of a text cover it. They tile it: the first starts at the start, each
/// next one where the one before ends (line ending included), none is empty, and their
/// full lengths add up to the length of the text; there are none only in an empty text.
/// The text of a line holds no line break, and leaves out exactly its line ending: the
/// '\n' and a '\r' right before it; a last line without '\n' keeps all its bytes.
pub proof fn law_lines_cover(b: Seq<u8>, p: int)
    requires
        0 <= p <= b.len(),
    ensures
        total_len(lines_from(b, p)) == b.len() - p,
        lines_from(b, p).len() == 0 <==> p == b.len(),
        lines_from(b, p).len() > 0 ==> lines_from(b, p)[0].0 == p,
        forall|k: int| #![trigger lines_from(b, p)[k]] 0 <= k < lines_from(b, p).len() ==> {
            let l = lines_from(b, p);
            let e = l[k].0 + l[k].2;
            &&& l[k].2 > 0
            &&& l[k].0 <= l[k].1 <= e <= b.len()
            &&& (k + 1 < l.len() ==> l[k + 1].0 == e)
            &&& (k + 1 == l.len() ==> e == b.len())
            &&& (b[e - 1] == 10u8 ==> l[k].1 == if e - 2 >= l[k].0 && b[e - 2] == 13u8 {
                e - 2
            } else {
                e - 1
            })
            &&& (b[e - 1] != 10u8 ==> l[k].1 == e && e == b.len())
        },
        forall|k: int, q: int|
            #![trigger lines_from(b, p)[k], b[q]]
            0 <= k < lines_from(b, p).len() && lines_from(b, p)[k].0 <= q < lines_from(b, p)[k].1
                ==> b[q] != 10u8,
    decreases b.len() - p,
{
    crate::iterators::lines_range::lemma_lines_tile(b, p);
    if p < b.len() {
        lemma_first_newline_bounds(b, p);
        let q = next_line_start(b, p);
        law_lines_cover(b, q);
        let l = lines_from(b, p);
        let r = lines_from(b, q);
        assert(l =~= seq![line_at(b, p)] + r);
        assert(l.drop_first() =~= r);
        assert forall|k: int| #![trigger l[k]] 0 <= k < l.len() implies {
            let e = l[k].0 + l[k].2;
            &&& (b[e - 1] == 10u8 ==> l[k].1 == if e - 2 >= l[k].0 && b[e - 2] == 13u8 {
                e - 2
            } else {
                e - 1
            })
            &&& (b[e - 1] != 10u8 ==> l[k].1 == e && e == b.len())
        } by {
            if k > 0 {
                assert(l[k] == r[k - 1]);
            }
        }
        assert forall|k: int, x: int| #![trigger l[k], b[x]] 0 <= k < l.len() && l[k].0 <= x < l[k].1 implies b[x] != 10u8 by {
            if k > 0 {
                assert(l[k] == r[k - 1]);
            }
        }
    }
}

/// The owned lines of `LinesRc` are the lines of `Lines` over the same text: both walk
/// `lines_from` of the text's bytes, and the text of each owned line encodes back to
/// exactly the bytes of the borrowed one.
pub proof fn law_owned_lines_are_lines(b: Seq<u8>, k: int)
    requires
        vstd::utf8::valid_utf8(b),
        0 <= k < lines_from(b, 0).len(),
    ensures
        ({
            let l = lines_from(b, 0)[k];
            vstd::utf8::encode_utf8(crate::first_pass::text_of(b.subrange(l.0, l.1)))
                == b.subrange(l.0, l.1)
        }),
{
    let ls = lines_from(b, 0);
    let l = ls[k];
    crate::iterators::lines_range::lemma_lines_tile(b, 0);
    crate::iterators::lines::lemma_cuts_ok(b, 0);
    if k > 0 {
        let prev = ls[k - 1];
        assert(l.0 == prev.0 + prev.2);
        crate::text::lemma_boundary_after_ascii(b, l.0 - 1);
    }
    assert(vstd::utf8::is_char_boundary(b, l.1));
    crate::text::lemma_boundary_in_suffix(b, l.0, l.1);
    let t = b.subrange(l.0, b.len() as int);
    vstd::utf8::valid_utf8_split(t, l.1 - l.0);
    assert(t.subrange(0, l.1 - l.0) =~= b.subrange(l.0, l.1));
    vstd::utf8::decode_utf8_encode_utf8(b.subrange(l.0, l.1));
}

} // verus!

verus! {

use crate::ast::{children, lemma_children_smaller, lemma_size_positive, size_list, walk, walk_list, LocatedAst, SpecSignal, size};
use crate::iterators::ast_walk::{enters, visit_order};

/// The nodes of the trees of `s`, each tree in walk order, one tree after the other.
pub open spec fn visit_list(s: Seq<LocatedAst>) -> Seq<LocatedAst>
    decreases size_list(s),
{
    if s.len() == 0 {
        Seq::empty()
    } else {
        proof {
            lemma_size_positive(s[0]);
        }
        visit_order(s[0]) + visit_list(s.subrange(1, s.len() as int))
    }
}

proof fn lemma_enters_concat(a: Seq<SpecSignal>, b: Seq<SpecSignal>)
    ensures
        enters(a + b) == enters(a) + enters(b),
    decreases a.len(),
{
    if a.len() == 0 {
        assert(a + b =~= b);
    } else {
        lemma_enters_concat(a.drop_first(), b);
        assert((a + b).drop_first() =~= a.drop_first() + b);
        assert((a + b)[0] == a[0]);
    }
}

proof fn lemma_enters_walk_list(s: Seq<LocatedAst>)
    ensures
        enters(walk_list(s)) == visit_list(s),
    decreases size_list(s),
{
    if s.len() > 0 {
        lemma_size_positive(s[0]);
        let rest = s.subrange(1, s.len() as int);
        lemma_enters_walk_list(rest);
        lemma_enters_concat(walk(s[0]) + seq![SpecSignal::Exit(s[0])], walk_list(rest));
        lemma_enters_concat(walk(s[0]), seq![SpecSignal::Exit(s[0])]);
        assert(enters(seq![SpecSignal::Exit(s[0])]) =~= Seq::<LocatedAst>::empty()) by {
            assert(seq![SpecSignal::Exit(s[0])].drop_first() =~= Seq::<SpecSignal>::empty());
            assert(enters(Seq::<SpecSignal>::empty()) =~= Seq::<LocatedAst>::empty());
            assert(seq![SpecSignal::Exit(s[0])][0] == SpecSignal::Exit(s[0]));
        }
        assert(enters(walk(s[0])) + Seq::<LocatedAst>::empty() =~= enters(walk(s[0])));
    }
}

/// How deep a sequence of walk signals ends: the nodes entered less the nodes left.
pub open spec fn depth_of(s: Seq<SpecSignal>) -> int
    decreases s.len(),
{
    if s.len() == 0 {
        0
    } else {
        depth_of(s.drop_last()) + match s.last() {
            SpecSignal::Enter(_) => 1int,
            SpecSignal::Exit(_) => -1int,
        }
    }
}

proof fn lemma_depth_concat(a: Seq<SpecSignal>, b: Seq<SpecSignal>)
    ensures
        depth_of(a + b) == depth_of(a) + depth_of(b),
    decreases b.len(),
{
    if b.len() == 0 {
        assert(a + b =~= a);
    } else {
        lemma_depth_concat(a, b.drop_last());
        assert((a + b).drop_last() =~= a + b.drop_last());
    }
}

proof fn lemma_prefix_of_concat(a: Seq<SpecSignal>, b: Seq<SpecSignal>, k: int)
    requires
        0 <= k <= a.len() + b.len(),
    ensures
        k <= a.len() ==> (a + b).take(k) == a.take(k),
        k > a.len() ==> (a + b).take(k) == a + b.take(k - a.len()),
{
    if k <= a.len() {
        assert((a + b).take(k) =~= a.take(k));
    } else {
        assert((a + b).take(k) =~= a + b.take(k - a.len()));
    }
}

proof fn lemma_walk_depth(n: LocatedAst)
    ensures
        depth_of(walk(n)) == 1,
        forall|k: int| 0 < k <= walk(n).len() ==> depth_of(#[trigger] walk(n).take(k)) >= 1,
    decreases size(n), 0nat,
{
    lemma_children_smaller(n);
    let e = seq![SpecSignal::Enter(n)];
    let l = walk_list(children(n));
    lemma_walk_list_depth(children(n));
    assert(walk(n) == e + l);
    assert(depth_of(e) == 1) by {
        assert(e.drop_last() =~= Seq::<SpecSignal>::empty());
        assert(depth_of(Seq::<SpecSignal>::empty()) == 0);
        assert(e.last() == SpecSignal::Enter(n));
    }
    lemma_depth_concat(e, l);
    assert forall|k: int| 0 < k <= walk(n).len() implies depth_of(#[trigger] walk(n).take(k)) >= 1 by {
        lemma_prefix_of_concat(e, l, k);
        if k <= 1 {
            assert(e.take(k) =~= e);
        } else {
            lemma_depth_concat(e, l.take(k - 1));
        }
    }
}

proof fn lemma_walk_list_depth(s: Seq<LocatedAst>)
    ensures
        depth_of(walk_list(s)) == 0,
        forall|k: int| 0 <= k <= walk_list(s).len() ==> depth_of(#[trigger] walk_list(s).take(k)) >= 0,
    decreases size_list(s), 1nat,
{
    if s.len() == 0 {
        assert forall|k: int| 0 <= k <= walk_list(s).len() implies depth_of(#[trigger] walk_list(s).take(k)) >= 0 by {
            assert(walk_list(s).take(k) =~= Seq::<SpecSignal>::empty());
        }
    } else {
        lemma_size_positive(s[0]);
        let rest = s.subrange(1, s.len() as int);
        assert(size_list(s) == size(s[0]) + size_list(rest));
        lemma_walk_depth(s[0]);
        lemma_walk_list_depth(rest);
        let w = walk(s[0]);
        let x = seq![SpecSignal::Exit(s[0])];
        let r = walk_list(rest);
        assert(walk_list(s) == w + x + r);
        assert(depth_of(x) == -1) by {
            assert(x.drop_last() =~= Seq::<SpecSignal>::empty());
            assert(depth_of(Seq::<SpecSignal>::empty()) == 0);
            assert(x.last() == SpecSignal::Exit(s[0]));
        }
        lemma_depth_concat(w, x);
        lemma_depth_concat(w + x, r);
        assert forall|k: int| 0 <= k <= walk_list(s).len() implies depth_of(#[trigger] walk_list(s).take(k)) >= 0 by {
            lemma_prefix_of_concat(w + x, r, k);
            if k <= w.len() + 1 {
                lemma_prefix_of_concat(w, x, k);
                if k == 0 {
                    assert(w.take(0) =~= Seq::<SpecSignal>::empty());
                } else if k == w.len() + 1 {
                    assert(x.take(1) =~= x);
                } else {
                    assert(w.take(k) == w.take(k));
                }
            } else {
                lemma_depth_concat(w + x, r.take(k - w.len() - 1));
            }
        }
    }
}

/// The walk through a tree is well nested: every node left was entered before, and
/// only the root stays entered. Along the walk, the nodes entered outnumber the nodes
/// left at every step, and by exactly one at its end.
pub proof fn law_walk_nested(n: LocatedAst)
    ensures
        walk(n)[0] == SpecSignal::Enter(n),
        depth_of(walk(n)) == 1,
        forall|k: int| 0 < k <= walk(n).len() ==> depth_of(#[trigger] walk(n).take(k)) >= 1,
{
    lemma_walk_depth(n);
}

/// The node a walk signal is about.
pub open spec fn signal_node(s: SpecSignal) -> LocatedAst {
    match s {
        SpecSignal::Enter(m) => m,
        SpecSignal::Exit(m) => m,
    }
}

proof fn lemma_walk_sizes(n: LocatedAst)
    ensures
        forall|k: int| 0 < k < walk(n).len() ==> size(signal_node(#[trigger] walk(n)[k])) < size(n),
    decreases size(n), 0nat,
{
    lemma_children_smaller(n);
    let l = walk_list(children(n));
    lemma_walk_list_sizes(children(n));
    assert(walk(n) == seq![SpecSignal::Enter(n)] + l);
    assert forall|k: int| 0 < k < walk(n).len() implies size(signal_node(#[trigger] walk(n)[k])) < size(n) by {
        assert(walk(n)[k] == l[k - 1]);
    }
}

proof fn lemma_walk_list_sizes(s: Seq<LocatedAst>)
    ensures
        forall|k: int| 0 <= k < walk_list(s).len() ==> size(signal_node(#[trigger] walk_list(s)[k])) <= size_list(s),
    decreases size_list(s), 1nat,
{
    if s.len() > 0 {
        lemma_size_positive(s[0]);
        let rest = s.subrange(1, s.len() as int);
        assert(size_list(s) == size(s[0]) + size_list(rest));
        lemma_walk_sizes(s[0]);
        lemma_walk_list_sizes(rest);
        let w = walk(s[0]);
        let x = seq![SpecSignal::Exit(s[0])];
        let r = walk_list(rest);
        assert(walk_list(s) == w + x + r);
        assert forall|k: int| 0 <= k < walk_list(s).len() implies size(signal_node(#[trigger] walk_list(s)[k])) <= size_list(s) by {
            if k < w.len() {
                assert(walk_list(s)[k] == w[k]);
                if k == 0 {
                    assert(w[0] == SpecSignal::Enter(s[0]));
                }
            } else if k == w.len() {
                assert(walk_list(s)[k] == SpecSignal::Exit(s[0]));
            } else {
                assert(walk_list(s)[k] == r[k - w.len() - 1]);
            }
        }
    }
}

/// A walk enters its root first and never leaves it: every later signal, entering or
/// leaving, is about a smaller node of the tree.
pub proof fn law_walk_root_never_left(n: LocatedAst)
    ensures
        walk(n)[0] == SpecSignal::Enter(n),
        forall|k: int| 0 < k < walk(n).len() ==> size(signal_node(#[trigger] walk(n)[k])) < size(n),
        forall|k: int| 0 <= k < walk(n).len() ==> #[trigger] walk(n)[k] != SpecSignal::Exit(n),
{
    lemma_walk_sizes(n);
    assert forall|k: int| 0 <= k < walk(n).len() implies #[trigger] walk(n)[k] != SpecSignal::Exit(n) by {
        if k > 0 {
            assert(size(signal_node(walk(n)[k])) < size(n));
        }
    }
}

/// A walk visits a node first, then the nodes of its children's trees, one child after
/// the other, each in walk order: it is a pre-order traversal.
pub proof fn law_walk_preorder(n: LocatedAst)
    ensures
        visit_order(n) == seq![n] + visit_list(children(n)),
        visit_order(n)[0] == n,
{
    lemma_children_smaller(n);
    lemma_enters_concat(seq![SpecSignal::Enter(n)], walk_list(children(n)));
    lemma_enters_walk_list(children(n));
    assert(enters(seq![SpecSignal::Enter(n)]) =~= seq![n]) by {
        assert(seq![SpecSignal::Enter(n)].drop_first() =~= Seq::<SpecSignal>::empty());
        assert(enters(Seq::<SpecSignal>::empty()) =~= Seq::<LocatedAst>::empty());
        assert(seq![SpecSignal::Enter(n)][0] == SpecSignal::Enter(n));
        assert(seq![n] + Seq::<LocatedAst>::empty() =~= seq![n]);
    }
}

} // verus!

verus! {

use crate::functions::context::{accesses_fold, calls_fold, fun_context, Gather, Outcome};
use crate::functions::{Fun, FunCall};
use crate::access::WithinFunction;
use crate::variables::BuiltinVar;

proof fn lemma_calls_going_nonempty(cs: Seq<FunCall>)
    ensures
        calls_fold(cs) matches Gather::Going(b, _) ==> b != 0,
        calls_fold(cs) matches Gather::Settled(o) ==> !(o is Known),
    decreases cs.len(),
{
    if cs.len() > 0 {
        lemma_calls_going_nonempty(cs.drop_last());
    }
}

proof fn lemma_accesses_going_nonempty(g: Gather, acc: Seq<WithinFunction>, vars: Seq<BuiltinVar>)
    requires
        g matches Gather::Going(b, _) ==> b != 0,
        g matches Gather::Settled(o) ==> !(o is Known),
    ensures
        accesses_fold(g, acc, vars) matches Gather::Going(b, _) ==> b != 0,
        accesses_fold(g, acc, vars) matches Gather::Settled(o) ==> !(o is Known),
    decreases acc.len(),
{
    if acc.len() > 0 {
        lemma_accesses_going_nonempty(g, acc.drop_last(), vars);
    }
}

/// A function's known context is never empty nor all sections: an empty one is reported
/// with what made it so, and all sections mean no restriction.
pub proof fn law_known_context_is_proper(calls: Seq<FunCall>, fun: Fun, vars: Seq<BuiltinVar>)
    ensures
        fun_context(calls, fun, vars) matches Outcome::Known(b) ==> b != 0 && b != 63,
{
    lemma_calls_going_nonempty(calls);
    lemma_accesses_going_nonempty(calls_fold(calls), fun.scope.accesses@, vars);
}

} // verus!

use crate::first_pass::{followed, imports_fold, init_chunks, merge_all, merge_section, with_init_chunks};

verus! {

/// A kind's first position is the one before which no section has that kind.
proof fn lemma_kind_index_is(secs: Seq<(SectionKind, Seq<ChunkView>)>, k: SectionKind, i: int)
    requires
        0 <= i < secs.len(),
        secs[i].0 == k,
        forall|j: int| 0 <= j < i ==> secs[j].0 != k,
    ensures
        kind_index(secs, k) == Some(i),
{
    lemma_kind_index(secs, k);
    match kind_index(secs, k) {
        Some(m) => {
            if m < i {
                assert(secs[m].0 != k);
            } else if m > i {
                assert(secs[i].0 != k);
            }
        },
        None => {
            assert(secs[i].0 != k);
        },
    }
}

/// The `@init` chunks of the imported sections `imp`, in order.
pub open spec fn init_parts(imp: Seq<(SectionKind, Seq<ChunkView>)>) -> Seq<ChunkView>
    decreases imp.len(),
{
    if imp.len() == 0 {
        Seq::empty()
    } else {
        init_parts(imp.drop_last()) + if imp.last().0 == SectionKind::Init {
            imp.last().1
        } else {
            Seq::empty()
        }
    }
}

/// The `@init` chunks of the imported files that were found, in import order.
pub open spec fn imported_init(found: Seq<Option<Seq<(SectionKind, Seq<ChunkView>)>>>) -> Seq<ChunkView>
    decreases found.len(),
{
    if found.len() == 0 {
        Seq::empty()
    } else {
        imported_init(found.drop_last()) + match found.last() {
            Some(s) => init_parts(s),
            None => Seq::empty(),
        }
    }
}

/// Adding a section keeps the `@init` section where it is, and adds the chunks of an
/// imported `@init` section at its end.
proof fn lemma_merge_section_init(secs: Seq<(SectionKind, Seq<ChunkView>)>, x: (SectionKind, Seq<ChunkView>), i: int)
    requires
        kind_index(secs, SectionKind::Init) == Some(i),
    ensures
        kind_index(merge_section(secs, x), SectionKind::Init) == Some(i),
        init_chunks(merge_section(secs, x)) == init_chunks(secs) + if x.0 == SectionKind::Init {
            x.1
        } else {
            Seq::empty()
        },
{
    lemma_kind_index(secs, SectionKind::Init);
    lemma_kind_index(secs, x.0);
    let r = merge_section(secs, x);
    match kind_index(secs, x.0) {
        Some(m) => {
            if x.0 == SectionKind::Init {
                assert(m == i);
                assert forall|j: int| 0 <= j < i implies r[j].0 != SectionKind::Init by {
                    assert(r[j] == secs[j]);
                }
                lemma_kind_index_is(r, SectionKind::Init, i);
            } else {
                assert(r == secs);
                assert(init_chunks(secs) + Seq::<ChunkView>::empty() =~= init_chunks(secs));
            }
        },
        None => {
            assert(x.0 != SectionKind::Init);
            assert forall|j: int| 0 <= j < i implies r[j].0 != SectionKind::Init by {
                assert(r[j] == secs[j]);
            }
            lemma_kind_index_is(r, SectionKind::Init, i);
            assert(init_chunks(secs) + Seq::<ChunkView>::empty() =~= init_chunks(secs));
        },
    }
}

/// Adding imported sections keeps the `@init` section where it is and adds their `@init`
/// chunks at its end, in order.
proof fn lemma_merge_all_init(secs: Seq<(SectionKind, Seq<ChunkView>)>, imp: Seq<(SectionKind, Seq<ChunkView>)>, i: int)
    requires
        kind_index(secs, SectionKind::Init) == Some(i),
    ensures
        kind_index(merge_all(secs, imp), SectionKind::Init) == Some(i),
        init_chunks(merge_all(secs, imp)) == init_chunks(secs) + init_parts(imp),
    decreases imp.len(),
{
    if imp.len() == 0 {
        assert(init_chunks(secs) + Seq::<ChunkView>::empty() =~= init_chunks(secs));
    } else {
        lemma_merge_all_init(secs, imp.drop_last(), i);
        lemma_merge_section_init(merge_all(secs, imp.drop_last()), imp.last(), i);
        assert(init_chunks(secs) + init_parts(imp.drop_last()) + (if imp.last().0 == SectionKind::Init {
            imp.last().1
        } else {
            Seq::empty()
        }) =~= init_chunks(secs) + init_parts(imp));
    }
}

/// Handling imports keeps the `@init` section where it is and adds the `@init` chunks of
/// the files found, in import order.
proof fn lemma_imports_fold_init(
    secs: Seq<(SectionKind, Seq<ChunkView>)>,
    found: Seq<Option<Seq<(SectionKind, Seq<ChunkView>)>>>,
    i: int,
)
    requires
        kind_index(secs, SectionKind::Init) == Some(i),
    ensures
        kind_index(imports_fold(secs, found), SectionKind::Init) == Some(i),
        init_chunks(imports_fold(secs, found)) == init_chunks(secs) + imported_init(found),
    decreases found.len(),
{
    if found.len() == 0 {
        assert(init_chunks(secs) + Seq::<ChunkView>::empty() =~= init_chunks(secs));
    } else {
        lemma_imports_fold_init(secs, found.drop_last(), i);
        let prev = imports_fold(secs, found.drop_last());
        match found.last() {
            Some(s) => {
                lemma_merge_all_init(prev, s, i);
                assert(init_chunks(secs) + imported_init(found.drop_last()) + init_parts(s) =~= init_chunks(secs) + imported_init(found));
            },
            None => {
                assert(init_chunks(secs) + imported_init(found.drop_last()) + Seq::<ChunkView>::empty() =~= init_chunks(secs) + imported_init(found));
            },
        }
    }
}

/// Replacing the chunks of the `@init` section keeps it where it is.
proof fn lemma_with_init_chunks(secs: Seq<(SectionKind, Seq<ChunkView>)>, cs: Seq<ChunkView>, i: int)
    requires
        kind_index(secs, SectionKind::Init) == Some(i),
    ensures
        kind_index(with_init_chunks(secs, cs), SectionKind::Init) == Some(i),
        init_chunks(with_init_chunks(secs, cs)) == cs,
{
    lemma_kind_index(secs, SectionKind::Init);
    let r = with_init_chunks(secs, cs);
    assert forall|j: int| 0 <= j < i implies r[j].0 != SectionKind::Init by {
        assert(r[j] == secs[j]);
    }
    lemma_kind_index_is(r, SectionKind::Init, i);
}

/// When an entry file has an `@init` section, the `@init` code of the program is the
/// `@init` code of each imported file that was found, in import order, followed by the
/// entry file's own `@init` code.
pub proof fn law_imported_init_runs_first(
    secs: Seq<(SectionKind, Seq<ChunkView>)>,
    found: Seq<Option<Seq<(SectionKind, Seq<ChunkView>)>>>,
)
    requires
        kind_index(secs, SectionKind::Init) is Some,
    ensures
        init_chunks(followed(secs, found)) == imported_init(found) + init_chunks(secs),
{
    let i = kind_index(secs, SectionKind::Init)->0;
    let cleared = with_init_chunks(secs, Seq::empty());
    lemma_with_init_chunks(secs, Seq::empty(), i);
    lemma_imports_fold_init(cleared, found, i);
    let t = imports_fold(cleared, found);
    assert(Seq::<ChunkView>::empty() + imported_init(found) =~= imported_init(found));
    lemma_with_init_chunks(t, init_chunks(t) + init_chunks(secs), i);
}

/// Adding an imported section never changes a section of another kind than `@init` that
/// is already there.
proof fn lemma_merge_section_keeps(secs: Seq<(SectionKind, Seq<ChunkView>)>, x: (SectionKind, Seq<ChunkView>), k: SectionKind, i: int)
    requires
        k != SectionKind::Init,
        kind_index(secs, k) == Some(i),
    ensures
        kind_index(merge_section(secs, x), k) == Some(i),
        merge_section(secs, x)[i] == secs[i],
{
    lemma_kind_index(secs, k);
    lemma_kind_index(secs, x.0);
    let r = merge_section(secs, x);
    match kind_index(secs, x.0) {
        Some(m) => {
            if x.0 == SectionKind::Init {
                assert(m != i);
                assert forall|j: int| 0 <= j < i implies r[j].0 != k by {
                    if j != m {
                        assert(r[j] == secs[j]);
                    }
                }
                lemma_kind_index_is(r, k, i);
            }
        },
        None => {
            assert forall|j: int| 0 <= j < i implies r[j].0 != k by {
                assert(r[j] == secs[j]);
            }
            lemma_kind_index_is(r, k, i);
        },
    }
}

/// Adding imported sections never changes a section of another kind than `@init` that is
/// already there.
proof fn lemma_merge_all_keeps(secs: Seq<(SectionKind, Seq<ChunkView>)>, imp: Seq<(SectionKind, Seq<ChunkView>)>, k: SectionKind, i: int)
    requires
        k != SectionKind::Init,
        kind_index(secs, k) == Some(i),
    ensures
        kind_index(merge_all(secs, imp), k) == Some(i),
        merge_all(secs, imp)[i] == secs[i],
    decreases imp.len(),
{
    if imp.len() > 0 {
        lemma_merge_all_keeps(secs, imp.drop_last(), k, i);
        lemma_merge_section_keeps(merge_all(secs, imp.drop_last()), imp.last(), k, i);
    }
}

/// Handling imports never changes a section that the importing file already has, but for
/// `@init`: an imported section of another kind is only taken when the kind is new.
pub proof fn law_imports_keep_own_sections(
    secs: Seq<(SectionKind, Seq<ChunkView>)>,
    found: Seq<Option<Seq<(SectionKind, Seq<ChunkView>)>>>,
    k: SectionKind,
)
    requires
        k != SectionKind::Init,
        kind_index(secs, k) is Some,
    ensures
        kind_index(imports_fold(secs, found), k) == kind_index(secs, k),
        imports_fold(secs, found)[kind_index(secs, k)->0] == secs[kind_index(secs, k)->0],
    decreases found.len(),
{
    let i = kind_index(secs, k)->0;
    if found.len() > 0 {
        law_imports_keep_own_sections(secs, found.drop_last(), k);
        match found.last() {
            Some(s) => lemma_merge_all_keeps(imports_fold(secs, found.drop_last()), s, k, i),
            None => {},
        }
    }
}

} // verus!

use crate::access::{previous_value, Kind, Undetermined, Value};
use crate::text::lower;

verus! {

/// Whether `a` writes the name `name` (ASCII case ignored).
pub open spec fn writes_name(a: Undetermined, name: Seq<char>) -> bool {
    a.info.kind is Write && lower(a.info.accessed_as@) == lower(name)
}

/// A name is worth the value of its last certain write: after a write of `name` with
/// `value` that is not potential, accesses that do not write `name` leave it worth `value`.
pub proof fn law_value_of_last_write(before: Seq<Undetermined>, w: Undetermined, after: Seq<Undetermined>, name: Seq<char>, value: Value)
    requires
        w.info.kind == (Kind::Write { value, potential: false }),
        lower(w.info.accessed_as@) == lower(name),
        forall|i: int| 0 <= i < after.len() ==> !writes_name(#[trigger] after[i], name),
    ensures
        previous_value(name, before.push(w) + after) == value,
    decreases after.len(),
{
    if after.len() == 0 {
        assert(before.push(w) + after =~= before.push(w));
    } else {
        let rest = after.drop_last();
        assert forall|i: int| 0 <= i < rest.len() implies !writes_name(#[trigger] rest[i], name) by {
            assert(rest[i] == after[i]);
        }
        law_value_of_last_write(before, w, rest, name, value);
        assert((before.push(w) + after).drop_last() =~= before.push(w) + rest);
        assert((before.push(w) + after).last() == after.last());
        assert(!writes_name(after[after.len() - 1], name));
    }
}

} // verus!

use crate::lints::object_instance_unused::{scan, via_origin};
use crate::program::Program;

verus! {

/// A global variable is warned about once: scanning the variables for an object only adds
/// marks, and a scan that is not given up lists only variables that were not marked before
/// it and are marked after it, so a later scan that reaches one of them is given up.
pub proof fn law_object_variables_warned_once(p: Program, n: int, o: u128, read: bool, m: Seq<bool>)
    requires
        0 <= n <= p.scope.variables@.len(),
        m.len() == p.scope.variables@.len(),
    ensures
        scan(p, n, o, read, m).0.len() == m.len(),
        forall|j: int| 0 <= j < m.len() && m[j] ==> #[trigger] scan(p, n, o, read, m).0[j],
        !scan(p, n, o, read, m).2 ==> forall|j: int|
            0 <= j < n && via_origin(p.scope.variables@[j].accesses@, o).len() > 0 ==> #[trigger] scan(
                p,
                n,
                o,
                read,
                m,
            ).0[j],
        !scan(p, n, o, read, m).2 ==> forall|j: int|
            0 <= j < n && #[trigger] via_origin(p.scope.variables@[j].accesses@, o).len() > 0 ==> !m[j],
    decreases n,
{
    if n > 0 {
        law_object_variables_warned_once(p, n - 1, o, read, m);
        let prev = scan(p, n - 1, o, read, m);
        let s = scan(p, n, o, read, m);
        let oa = via_origin(p.scope.variables@[n - 1].accesses@, o);
        let marking = !(prev.2 || oa.len() == 0) && !prev.0[n - 1];
        if marking {
            assert(s.0 == prev.0.update(n - 1, true));
        } else {
            assert(s.0 == prev.0);
        }
        assert forall|j: int| 0 <= j < m.len() && m[j] implies #[trigger] s.0[j] by {
            assert(prev.0[j]);
        }
        if !s.2 {
            assert(!prev.2);
            assert forall|j: int|
                0 <= j < n && via_origin(p.scope.variables@[j].accesses@, o).len() > 0 implies #[trigger] s.0[j] by {
                if j < n - 1 {
                    assert(prev.0[j]);
                } else {
                    assert(oa.len() > 0);
                    assert(marking);
                }
            }
            assert forall|j: int|
                0 <= j < n && #[trigger] via_origin(p.scope.variables@[j].accesses@, o).len() > 0 implies !m[j] by {
                if j < n - 1 {
                    assert(prev.0[j]);
                } else {
                    assert(oa.len() > 0);
                    assert(marking);
                    if m[n - 1] {
                        assert(prev.0[n - 1]);
                    }
                }
            }
        }
    }
}

} // verus!

verus! {

use crate::functions::{args_min_max, at_most_32, is_ellipsis, raw_args_min_max, Arg};

/// Whether an argument must be given: it is neither optional nor `...`.
pub open spec fn required_arg(a: Arg) -> bool {
    !is_ellipsis(a) && !a.optional
}

/// Whether some argument of `args` is `...`.
pub open spec fn has_ellipsis(args: Seq<Arg>) -> bool {
    exists|i: int| 0 <= i < args.len() && is_ellipsis(#[trigger] args[i])
}

proof fn lemma_raw_counts(args: Seq<Arg>)
    ensures
        raw_args_min_max(args).0 == args.filter(|a: Arg| required_arg(a)).len(),
        has_ellipsis(args) ==> raw_args_min_max(args).1 >= 32,
        !has_ellipsis(args) ==> raw_args_min_max(args).1 == args.filter(|a: Arg| !is_ellipsis(a)).len(),
    decreases args.len(),
{
    reveal(Seq::filter);
    if args.len() > 0 {
        let t = args.drop_last();
        lemma_raw_counts(t);
        if has_ellipsis(t) {
            let i = choose|i: int| 0 <= i < t.len() && is_ellipsis(#[trigger] t[i]);
            assert(args[i] == t[i]);
        }
        if !has_ellipsis(args) {
            assert forall|i: int| 0 <= i < t.len() implies !is_ellipsis(#[trigger] t[i]) by {
                assert(args[i] == t[i]);
            }
            assert(!is_ellipsis(args[args.len() - 1]));
        }
        if has_ellipsis(args) && !has_ellipsis(t) {
            let i = choose|i: int| 0 <= i < args.len() && is_ellipsis(#[trigger] args[i]);
            if i < t.len() {
                assert(t[i] == args[i]);
            }
            assert(is_ellipsis(args.last()));
        }
    }
}

/// The least number of parameters that arguments accept is the number of required
/// arguments (neither optional nor `...`); the greatest is the number of arguments other
/// than `...`, or 32 when one of them is `...`; neither is more than 32.
pub proof fn law_args_min_max_counts(args: Seq<Arg>)
    ensures
        args_min_max(args).0 == at_most_32(args.filter(|a: Arg| required_arg(a)).len() as int),
        args_min_max(args).1 == if has_ellipsis(args) {
            32
        } else {
            at_most_32(args.filter(|a: Arg| !is_ellipsis(a)).len() as int)
        },
{
    lemma_raw_counts(args);
}

} // verus!

verus! {

use crate::functions::{Modifier, ModifierKind};
use crate::lints::shadowed_args::{global_arg_issues, global_fold, has_name_ci, has_ref_ci, is_this_name, this_fold};
use crate::lints::empty_modifier::empty_mods;

/// A function is warned about once for each of its arguments that the `this` keyword
/// hides (named `this` or `this.` and more, in any case).
pub proof fn law_this_shadowing_count(args: Seq<Arg>, n: Seq<char>)
    ensures
        this_fold(args, n).len() == args.filter(|a: Arg| is_this_name(a.name@)).len(),
    decreases args.len(),
{
    reveal(Seq::filter);
    if args.len() > 0 {
        law_this_shadowing_count(args.drop_last(), n);
    }
}

/// The issues about the global arguments of a function are those about each of them, in
/// order. A global argument not hidden by `this` gets one issue for each thing that hides
/// it: a function argument of its name (a reference argument of its name when it is a
/// reference), an instance argument of its name, and, when it is no reference, a local
/// argument of its name.
pub proof fn law_global_shadowing(
    args: Seq<Arg>,
    more: Seq<Arg>,
    fa: Seq<Arg>,
    local: Option<Seq<Arg>>,
    instance: Option<Seq<Arg>>,
    n: Seq<char>,
    g: Arg,
)
    requires
        !is_this_name(g.name@),
    ensures
        global_fold(args + more, fa, local, instance, n) == global_fold(args, fa, local, instance, n) + global_fold(
            more,
            fa,
            local,
            instance,
            n,
        ),
        global_arg_issues(g, fa, local, instance, n).len() == (if (!g.is_ref && has_name_ci(fa, g.name@)) || (
        g.is_ref && has_ref_ci(fa, g.name@)) {
            1int
        } else {
            0int
        }) + (if (instance matches Some(ia) && has_name_ci(ia, g.name@)) {
            1int
        } else {
            0int
        }) + (if !g.is_ref && (local matches Some(l) && has_name_ci(l, g.name@)) {
            1int
        } else {
            0int
        }),
    decreases more.len(),
{
    if more.len() == 0 {
        assert(args + more =~= args);
    } else {
        law_global_shadowing(args, more.drop_last(), fa, local, instance, n, g);
        assert((args + more).drop_last() =~= args + more.drop_last());
        assert((args + more).last() == more.last());
    }
}

/// Of the modifiers `ms` of one kind, each empty one (without arguments) is reported once.
pub proof fn law_empty_modifier_count(ms: Seq<Modifier>, kind: ModifierKind, name: Seq<char>)
    ensures
        empty_mods(ms, kind, name).len() == ms.filter(|m: Modifier| m.args@.len() == 0).len(),
    decreases ms.len(),
{
    reveal(Seq::filter);
    if ms.len() > 0 {
        law_empty_modifier_count(ms.drop_last(), kind, name);
    }
}

/// Of the function definitions `fs`, each one with more than 40 arguments is reported
/// once.
pub proof fn law_too_many_params_count(fs: Seq<Fun>)
    ensures
        crate::lints::too_many_params::defs_issues(fs).len() == fs.filter(|f: Fun| f.args@.len() > 40).len(),
    decreases fs.len(),
{
    reveal(Seq::filter);
    if fs.len() > 0 {
        law_too_many_params_count(fs.drop_last());
    }
}

} // verus!

verus! {

use crate::lints::overwriting_arg::{arg_issues, args_fold, first_arg_access};

/// Whether `f` writes its argument `k`, not a reference, before reading it.
pub open spec fn overwrites_arg(f: Fun, k: int) -> bool {
    &&& !f.args@[k].is_ref
    &&& first_arg_access(f.scope.accesses@, k) matches Some(i)
    &&& f.scope.accesses@[i].info.kind is Write
}

proof fn lemma_overwrite_count(f: Fun, n: int)
    requires
        0 <= n,
    ensures
        args_fold(f, n).len() == Seq::new(n as nat, |k: int| k).filter(|k: int| overwrites_arg(f, k)).len(),
    decreases n,
{
    reveal(Seq::filter);
    if n > 0 {
        lemma_overwrite_count(f, n - 1);
        let s = Seq::new(n as nat, |k: int| k);
        assert(s.drop_last() =~= Seq::new((n - 1) as nat, |k: int| k));
        assert(s.last() == n - 1);
        assert(arg_issues(f, n - 1).len() == if overwrites_arg(f, n - 1) { 1int } else { 0int });
    }
}

/// A function is warned about once for each argument, not a reference, that its first
/// access to it writes.
pub proof fn law_overwriting_arg_count(f: Fun)
    ensures
        crate::lints::overwriting_arg::fun_issues(f).len() == Seq::new(f.args@.len(), |k: int| k).filter(
            |k: int| overwrites_arg(f, k),
        ).len(),
{
    lemma_overwrite_count(f, f.args@.len() as int);
}

} // verus!

verus! {

use crate::lints::duplicate_arg::{dup_inner, same_arg};

/// Each argument is reported once for each later argument that repeats it (same name in
/// any case, same kind): the reports for `args[i]` among `args[i + 1..j]` are as many as
/// its repeats there.
pub proof fn law_duplicate_arg_count(args: Seq<Arg>, i: int, j: int, prefix: Seq<char>)
    requires
        0 <= i < j <= args.len(),
    ensures
        dup_inner(args, i, j, prefix).len() == args.subrange(i + 1, j).filter(|b: Arg| same_arg(args[i], b)).len(),
    decreases j - i,
{
    reveal(Seq::filter);
    if j > i + 1 {
        law_duplicate_arg_count(args, i, j - 1, prefix);
        let s = args.subrange(i + 1, j);
        assert(s.drop_last() =~= args.subrange(i + 1, j - 1));
        assert(s.last() == args[j - 1]);
    } else {
        assert(args.subrange(i + 1, j) =~= Seq::<Arg>::empty());
    }
}

} // verus!
