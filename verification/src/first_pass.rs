use vstd::prelude::*;
use vstd::string::StringSliceAdditionalSpecFns;
use vstd::utf8::*;

use crate::issue::{
    lemma_extends_refl, lemma_extends_trans, lemma_report_none, lemma_report_one, IssueSpec,
    IssueTracker,
};
use crate::issue_kind::IssueKind;
use crate::iterators::lines::Lines;
use crate::iterators::lines_range::{lemma_lines_tile, lines_from, LineRanges};
use crate::location::{section_name, LineCol, Location, SectionKind};
use crate::numbers::{decimal, decimal_string};
use crate::program::{bare, opt_text, sections_view, Chunk, ChunkView, Meta, Section};
use crate::text::{
    first_where, lemma_boundary_after_ascii, lemma_first_where_is, lemma_first_where_none,
    lemma_str_valid, substr,
};
use crate::words::{header_param_words, is_comment_start, param_words, trim, trimmed};

verus! {

/// The text that the bytes `b` encode.
pub open spec fn text_of(b: Seq<u8>) -> Seq<char> {
    decode_utf8(b)
}

/// Whether `b[p]` is an '@' that starts a line.
pub open spec fn header_start_at(b: Seq<u8>, p: int) -> bool {
    b[p] == 64u8 && (p == 0 || b[p - 1] == 10u8)
}

/// The text of a string slice is what its bytes encode.
pub proof fn lemma_text_of(s: &str)
    ensures
        text_of(s.spec_bytes()) == s@,
{
    encode_utf8_decode_utf8(s@);
}

/// Whether the header lines among `ls` end their sections' code at character boundaries
/// of `b` (a slice of the text is taken there).
pub open spec fn code_ends_ok(b: Seq<u8>, ls: Seq<(int, int, int)>) -> bool {
    forall|k: int| 0 <= k < ls.len() && is_header(b, #[trigger] ls[k]) ==> is_char_boundary(b, code_end(b, ls[k]))
}

/// The first position of `b` where a line starts with '@'.
pub open spec fn first_header_start(b: Seq<u8>) -> Option<int> {
    first_where(b.len() as int, |p: int| header_start_at(b, p))
}

/// Finds the first match of the regular expression `(?m)^@` in `haystack`: the
/// leftmost '@' at the start of the text or right after a '\n'. Calls
/// `regex::Regex::new` on that pattern (which is valid) and `regex::Regex::find`; the
/// contract states the pattern's meaning as the crate documents it (`^` in multi-line
/// mode matches at the start of the text and after each '\n', and `find` returns the
/// leftmost match).
#[verifier::external_body]
fn find_header_start(haystack: &str) -> (r: Option<usize>)
    ensures
        match first_header_start(haystack.spec_bytes()) {
            Some(p) => r == Some(p as usize),
            None => r is None,
        },
{
    let re = regex::Regex::new(r"(?m)^@").unwrap();
    match re.find(haystack) {
        Some(m) => Some(m.start()),
        None => None,
    }
}

/// The kinds of sections, in the order in which header lines are matched against them.
pub open spec fn kind_order() -> Seq<SectionKind> {
    seq![
        SectionKind::Init,
        SectionKind::Slider,
        SectionKind::Block,
        SectionKind::Sample,
        SectionKind::Serialize,
        SectionKind::Gfx,
    ]
}

/// Whether the header line `h` declares a section of `kind`: '@', the kind's name, then
/// a space or the end of the line.
pub open spec fn declares(h: Seq<u8>, kind: SectionKind) -> bool {
    let name = section_name(kind);
    &&& h.len() >= 1 + name.len()
    &&& h[0] == 64u8
    &&& forall|j: int| 0 <= j < name.len() ==> h[1 + j] == (name[j] as u8)
    &&& (h.len() == 1 + name.len() || h[1 + name.len() as int] == 32u8)
}

/// The first kind of section, from position `i` of `kind_order()` on, that the header
/// line `h` declares.
pub open spec fn first_declared(h: Seq<u8>, i: int) -> Option<SectionKind>
    decreases 6 - i,
{
    if i < 0 || i >= 6 {
        None
    } else if declares(h, kind_order()[i]) {
        Some(kind_order()[i])
    } else {
        first_declared(h, i + 1)
    }
}

/// The kind of section that the header line `h` declares.
pub open spec fn header_kind(h: Seq<u8>) -> Option<SectionKind> {
    first_declared(h, 0)
}

/// Where the parameters of a header of `kind` start.
pub open spec fn param_start(kind: SectionKind) -> int {
    section_name(kind).len() as int + 2
}

/// The parameters written on the header line `h` of a section of `kind`.
pub open spec fn param_bytes(h: Seq<u8>, kind: SectionKind) -> Seq<u8> {
    if h.len() >= param_start(kind) {
        h.skip(param_start(kind))
    } else {
        Seq::empty()
    }
}

/// The text of the warning about a `@gfx` header with the wrong number of parameters.
pub open spec fn gfx_count_message(n: nat, params: Seq<char>) -> Seq<char> {
    "@gfx requires 0 or 2 params but was called with "@ + decimal(n) + " params ('"@ + params
        + "')"@
}

/// The text of the warning about parameters on a header that takes none.
pub open spec fn extraneous_message(kind: SectionKind, params: Seq<char>) -> Seq<char> {
    "Section @"@ + section_name(kind) + " requires 0 parameters but received '"@ + params + "'"@
}

/// The text of the error about a header that declares no known section.
pub open spec fn unknown_message(line: Seq<char>) -> Seq<char> {
    "Unknown section type '"@ + line + "'"@
}

/// Where the parameters of a header stand: on line `line_idx`, from `start` (a byte
/// position in the line) to the end of the line.
pub open spec fn params_location(file: usize, line_idx: int, start: int, line_len: int) -> Location {
    Location {
        file,
        section: None,
        line_col: LineCol {
            start_line: line_idx as usize,
            end_line: line_idx as usize,
            start_column: (start + 1) as usize,
            end_column: (line_len + 1) as usize,
        },
    }
}

/// The issues found in the parameters `params` of a header of `kind` on line `line_idx`
/// (a line of `line_len` bytes): a `@gfx` header takes none or two parameters, every
/// other header none (a comment aside).
pub open spec fn param_issues(
    kind: SectionKind,
    params: Seq<char>,
    file: usize,
    line_idx: int,
    line_len: int,
) -> Seq<IssueSpec> {
    let loc = params_location(file, line_idx, param_start(kind), line_len);
    if kind == SectionKind::Gfx {
        let n = param_words(params).len();
        if n != 2 && n != 0 {
            seq![(IssueKind::WrongSectionParam, loc, gfx_count_message(n, params))]
        } else {
            Seq::empty()
        }
    } else {
        let t = trimmed(params);
        if t.len() > 0 && !is_comment_start(t) {
            seq![(IssueKind::WrongSectionParam, loc, extraneous_message(kind, t))]
        } else {
            Seq::empty()
        }
    }
}

/// Whether the line `l` (text start, text end, full length) of `b` is a header line: its
/// text starts with '@'.
pub open spec fn is_header(b: Seq<u8>, l: (int, int, int)) -> bool {
    l.1 > l.0 && b[l.0] == 64u8
}

/// The text of the line `l` of `b`.
pub open spec fn line_bytes(b: Seq<u8>, l: (int, int, int)) -> Seq<u8> {
    b.subrange(l.0, l.1)
}

/// Where the code of the section declared on the header line `l` of `b` ends: at the
/// line break before the next header line, or at the end of the text.
pub open spec fn code_end(b: Seq<u8>, l: (int, int, int)) -> int {
    let line_end = l.0 + l.2;
    if line_end >= b.len() {
        b.len() as int
    } else {
        match first_header_start(b.skip(line_end)) {
            Some(m) => if m + l.1 < line_end {
                line_end
            } else {
                m + l.1
            },
            None => b.len() as int,
        }
    }
}

/// The chunk that the header line `l` (line number `idx`) of `b` starts.
pub open spec fn chunk_at(b: Seq<u8>, l: (int, int, int), idx: int, file: usize, kind: SectionKind) -> ChunkView {
    let h = line_bytes(b, l);
    (
        text_of(b.subrange(l.0 + l.2, code_end(b, l))),
        if kind == SectionKind::Gfx {
            Some(text_of(param_bytes(h, kind)))
        } else {
            None
        },
        file,
        idx as usize,
        false,
    )
}

/// The issues that the header line `l` (line number `idx`) of `b` gives.
pub open spec fn header_issues(b: Seq<u8>, l: (int, int, int), idx: int, file: usize) -> Seq<IssueSpec> {
    let h = line_bytes(b, l);
    match header_kind(h) {
        Some(k) => param_issues(k, text_of(param_bytes(h, k)), file, idx, h.len() as int),
        None => seq![
            (
                IssueKind::UnknownSection,
                Location {
                    file,
                    section: None,
                    line_col: LineCol {
                        start_line: idx as usize,
                        end_line: idx as usize,
                        start_column: 1,
                        end_column: (h.len() + 1) as usize,
                    },
                },
                unknown_message(text_of(h)),
            ),
        ],
    }
}

/// The chunks that the lines `ls` of `b` start, with their kinds, in order.
pub open spec fn chunks_of(b: Seq<u8>, ls: Seq<(int, int, int)>, file: usize) -> Seq<(SectionKind, ChunkView)>
    decreases ls.len(),
{
    if ls.len() == 0 {
        Seq::empty()
    } else {
        let prev = chunks_of(b, ls.drop_last(), file);
        let l = ls.last();
        if is_header(b, l) {
            match header_kind(line_bytes(b, l)) {
                Some(k) => prev.push((k, chunk_at(b, l, ls.len() - 1, file, k))),
                None => prev,
            }
        } else {
            prev
        }
    }
}

/// The issues that the header lines among `ls` give, in order.
pub open spec fn issues_of(b: Seq<u8>, ls: Seq<(int, int, int)>, file: usize) -> Seq<IssueSpec>
    decreases ls.len(),
{
    if ls.len() == 0 {
        Seq::empty()
    } else {
        let prev = issues_of(b, ls.drop_last(), file);
        if is_header(b, ls.last()) {
            prev + header_issues(b, ls.last(), ls.len() - 1, file)
        } else {
            prev
        }
    }
}

/// Where the first header line among `ls` starts.
pub open spec fn first_header_pos(b: Seq<u8>, ls: Seq<(int, int, int)>) -> Option<int>
    decreases ls.len(),
{
    if ls.len() == 0 {
        None
    } else {
        match first_header_pos(b, ls.drop_last()) {
            Some(p) => Some(p),
            None => if is_header(b, ls.last()) {
                Some(ls.last().0)
            } else {
                None
            },
        }
    }
}

/// The position of the first section of `kind` in `secs`.
pub open spec fn kind_index(secs: Seq<(SectionKind, Seq<ChunkView>)>, kind: SectionKind) -> Option<int>
    decreases secs.len(),
{
    if secs.len() == 0 {
        None
    } else {
        match kind_index(secs.drop_last(), kind) {
            Some(i) => Some(i),
            None => if secs.last().0 == kind {
                Some(secs.len() - 1)
            } else {
                None
            },
        }
    }
}

pub proof fn lemma_kind_index(secs: Seq<(SectionKind, Seq<ChunkView>)>, kind: SectionKind)
    ensures
        kind_index(secs, kind) matches Some(i) ==> 0 <= i < secs.len() && secs[i].0 == kind && forall|
            j: int,
        | 0 <= j < i ==> secs[j].0 != kind,
        kind_index(secs, kind) is None ==> forall|j: int| 0 <= j < secs.len() ==> secs[j].0 != kind,
    decreases secs.len(),
{
    if secs.len() > 0 {
        let t = secs.drop_last();
        lemma_kind_index(t, kind);
        assert forall|j: int| 0 <= j < t.len() implies t[j] == secs[j] by {}
    }
}

/// `secs` with the chunk `c` of kind `k` added to the section of that kind, or to a new
/// section at the end where there is none.
pub open spec fn add_chunk(secs: Seq<(SectionKind, Seq<ChunkView>)>, k: SectionKind, c: ChunkView) -> Seq<(SectionKind, Seq<ChunkView>)> {
    match kind_index(secs, k) {
        Some(i) => secs.update(i, (k, secs[i].1.push(c))),
        None => secs.push((k, seq![c])),
    }
}

/// The chunks `cs` grouped into sections by kind, each section in the order of its
/// first chunk, each section's chunks in order.
pub open spec fn grouped(cs: Seq<(SectionKind, ChunkView)>) -> Seq<(SectionKind, Seq<ChunkView>)>
    decreases cs.len(),
{
    if cs.len() == 0 {
        Seq::empty()
    } else {
        add_chunk(grouped(cs.drop_last()), cs.last().0, cs.last().1)
    }
}

/// Every section of the grouped chunks holds a chunk.
pub proof fn lemma_grouped_nonempty(cs: Seq<(SectionKind, ChunkView)>)
    ensures
        forall|i: int| 0 <= i < grouped(cs).len() ==> (#[trigger] grouped(cs)[i]).1.len() > 0,
    decreases cs.len(),
{
    if cs.len() > 0 {
        lemma_grouped_nonempty(cs.drop_last());
        lemma_kind_index(grouped(cs.drop_last()), cs.last().0);
    }
}

/// Section names are short.
pub proof fn lemma_name_len(kind: SectionKind)
    ensures
        section_name(kind).len() <= 9,
{
    reveal_strlit("init");
    reveal_strlit("sample");
    reveal_strlit("block");
    reveal_strlit("slider");
    reveal_strlit("serialize");
    reveal_strlit("gfx");
}

/// The kind of section at position `i` of `kind_order()`.
fn kind_in_order(i: usize) -> (r: SectionKind)
    requires
        i < 6,
    ensures
        r == kind_order()[i as int],
{
    match i {
        0 => SectionKind::Init,
        1 => SectionKind::Slider,
        2 => SectionKind::Block,
        3 => SectionKind::Sample,
        4 => SectionKind::Serialize,
        _ => SectionKind::Gfx,
    }
}

/// Whether the header line `line` declares a section of `kind`.
fn declares_kind(line: &str, kind: SectionKind) -> (r: bool)
    ensures
        r == declares(line.spec_bytes(), kind),
{
    let b = line.as_bytes();
    let name = kind.name();
    let n = name.unicode_len();
    if b.len() <= n || b[0] != 64u8 {
        return false;
    }
    let mut j: usize = 0;
    while j < n
        invariant
            n == name@.len(),
            name@ == section_name(kind),
            b@ == line.spec_bytes(),
            n < b@.len(),
            j <= n,
            forall|k: int| 0 <= k < j ==> b@[1 + k] == (name@[k] as u8),
        decreases n - j,
    {
        if b[1 + j] != (name.get_char(j) as u8) {
            return false;
        }
        j += 1;
    }
    b.len() == 1 + n || b[1 + n] == 32u8
}

/// The text of the warning about a `@gfx` header with `n` parameters.
fn gfx_count_text(n: usize, params: &str) -> (r: String)
    ensures
        r@ == gfx_count_message(n as nat, params@),
{
    let mut r = String::from_str("@gfx requires 0 or 2 params but was called with ");
    let d = decimal_string(n);
    r.append(d.as_str());
    r.append(" params ('");
    r.append(params);
    r.append("')");
    r
}

/// The text of the warning about parameters on a header that takes none.
fn extraneous_text(kind: SectionKind, params: &str) -> (r: String)
    ensures
        r@ == extraneous_message(kind, params@),
{
    let mut r = String::from_str("Section @");
    r.append(kind.name());
    r.append(" requires 0 parameters but received '");
    r.append(params);
    r.append("'");
    r
}

/// The text of the error about a header that declares no known section.
fn unknown_text(line: &str) -> (r: String)
    ensures
        r@ == unknown_message(line@),
{
    let mut r = String::from_str("Unknown section type '");
    r.append(line);
    r.append("'");
    r
}

/// Warns that a header that takes no parameters was given `param_str` (already trimmed).
fn warn_extraneous_params(
    file: usize,
    line_pos: usize,
    param_start: usize,
    line_len: usize,
    param_str: &str,
    section_kind: SectionKind,
    issues: &mut IssueTracker,
)
    requires
        old(issues).wf(),
        old(issues).registers(IssueKind::WrongSectionParam),
        param_start < usize::MAX,
        line_len < usize::MAX,
    ensures
        final(issues).extends(
            old(issues),
            seq![
                (
                    IssueKind::WrongSectionParam,
                    params_location(file, line_pos as int, param_start as int, line_len as int),
                    extraneous_message(section_kind, param_str@),
                ),
            ],
        ),
{
    let location = Location {
        section: None,
        file,
        line_col: LineCol {
            start_line: line_pos,
            end_line: line_pos,
            start_column: param_start + 1,
            end_column: line_len + 1,
        },
    };
    let text = extraneous_text(section_kind, param_str);
    let ghost t = text@;
    issues.add(IssueKind::WrongSectionParam, &location, text);
    proof {
        lemma_report_one(old(issues).reported(), old(issues).config(), Seq::empty(), (IssueKind::WrongSectionParam, location, t));
        lemma_report_none(old(issues).reported(), old(issues).config());
        assert(Seq::<IssueSpec>::empty().push((IssueKind::WrongSectionParam, location, t)) =~= seq![(IssueKind::WrongSectionParam, location, t)]);
    }
}

/// Warns when the parameters `param_str` of a `@gfx` header are neither none nor two.
fn warn_gfx_params(
    param_str: &str,
    file: usize,
    line_pos: usize,
    param_start: usize,
    line_len: usize,
    issues: &mut IssueTracker,
)
    requires
        old(issues).wf(),
        old(issues).registers(IssueKind::WrongSectionParam),
        param_start < usize::MAX,
        line_len < usize::MAX,
    ensures
        ({
            let n = param_words(param_str@).len();
            let loc = params_location(file, line_pos as int, param_start as int, line_len as int);
            final(issues).extends(
                old(issues),
                if n != 2 && n != 0 {
                    seq![(IssueKind::WrongSectionParam, loc, gfx_count_message(n, param_str@))]
                } else {
                    Seq::empty()
                },
            )
        }),
{
    let splits = header_param_words(param_str);
    let splits_count = splits.len();
    if splits_count != 2 && splits_count != 0 {
        let location = Location {
            section: None,
            file,
            line_col: LineCol {
                start_line: line_pos,
                end_line: line_pos,
                start_column: param_start + 1,
                end_column: line_len + 1,
            },
        };
        let text = gfx_count_text(splits_count, param_str);
        let ghost t = text@;
        issues.add(IssueKind::WrongSectionParam, &location, text);
        proof {
            lemma_report_one(old(issues).reported(), old(issues).config(), Seq::empty(), (IssueKind::WrongSectionParam, location, t));
            lemma_report_none(old(issues).reported(), old(issues).config());
            assert(Seq::<IssueSpec>::empty().push((IssueKind::WrongSectionParam, location, t)) =~= seq![(IssueKind::WrongSectionParam, location, t)]);
        }
    } else {
        proof {
            lemma_report_none(old(issues).reported(), old(issues).config());
        }
    }
}

/// The parameters of the header line `line` of a section of `kind`: kept for `@gfx`
/// (after warning when there are neither none nor two), warned about for every other
/// kind when there are any that are not a comment.
fn get_params(
    section_kind: SectionKind,
    line: &str,
    file: usize,
    line_pos: usize,
    issues: &mut IssueTracker,
) -> (r: Option<String>)
    requires
        declares(line.spec_bytes(), section_kind),
        old(issues).wf(),
        old(issues).registers(IssueKind::WrongSectionParam),
        line.spec_bytes().len() < usize::MAX,
    ensures
        ({
            let h = line.spec_bytes();
            let p = text_of(param_bytes(h, section_kind));
            &&& opt_text(r) == if section_kind == SectionKind::Gfx {
                Some(p)
            } else {
                None
            }
            &&& final(issues).extends(
                old(issues),
                param_issues(section_kind, p, file, line_pos as int, h.len() as int),
            )
        }),
{
    let ghost h = line.spec_bytes();
    let name_len = section_kind.name().unicode_len();
    proof {
        lemma_name_len(section_kind);
    }
    let param_start = name_len + 2;
    proof {
        lemma_str_valid(line);
    }
    let param_str = if line.len() >= param_start {
        proof {
            lemma_boundary_after_ascii(h, 1 + name_len);
        }
        substr(line, param_start, line.len())
    } else {
        substr(line, line.len(), line.len())
    };
    proof {
        lemma_text_of(param_str);
        if line.len() >= param_start {
            assert(param_str.spec_bytes() =~= param_bytes(h, section_kind));
        } else {
            assert(param_str.spec_bytes() =~= param_bytes(h, section_kind));
        }
    }
    if section_kind == SectionKind::Gfx {
        warn_gfx_params(param_str, file, line_pos, param_start, line.len(), issues);
        return Some(String::from_str(param_str));
    }
    let trimmed_params = trim(param_str);
    let t = trimmed_params.as_str();
    let is_comment = t.unicode_len() >= 2 && t.get_char(0) == '/' && t.get_char(1) == '/';
    if t.unicode_len() > 0 && !is_comment {
        warn_extraneous_params(file, line_pos, param_start, line.len(), t, section_kind, issues);
    } else {
        proof {
            lemma_report_none(old(issues).reported(), old(issues).config());
        }
    }
    None
}

/// The chunk that the header line `line` starts, if it declares a section of `kind`;
/// `section_source` is the code that follows it.
fn try_get_chunk_of_kind(
    section_kind: SectionKind,
    line: &str,
    section_source: &str,
    file: usize,
    line_pos: usize,
    issues: &mut IssueTracker,
) -> (r: Option<Chunk>)
    requires
        old(issues).wf(),
        old(issues).registers(IssueKind::WrongSectionParam),
        line.spec_bytes().len() < usize::MAX,
    ensures
        ({
            let h = line.spec_bytes();
            let p = text_of(param_bytes(h, section_kind));
            if declares(h, section_kind) {
                &&& r matches Some(c) && c.view_of() == (
                    section_source@,
                    if section_kind == SectionKind::Gfx {
                        Some(p)
                    } else {
                        None
                    },
                    file,
                    line_pos,
                    false,
                )
                &&& final(issues).extends(
                    old(issues),
                    param_issues(section_kind, p, file, line_pos as int, h.len() as int),
                )
            } else {
                &&& r is None
                &&& final(issues).extends(old(issues), Seq::empty())
            }
        }),
{
    if !declares_kind(line, section_kind) {
        proof {
            lemma_report_none(old(issues).reported(), old(issues).config());
        }
        return None;
    }
    let params = get_params(section_kind, line, file, line_pos, issues);
    Some(Chunk { source: String::from_str(section_source), params, ast: None, file, line_pos })
}

/// Adds the chunk `chunk` of kind `kind` to the section of that kind, or to a new one.
fn add_chunk_to(sections: &mut Vec<Section>, kind: SectionKind, chunk: Chunk)
    requires
        chunk.ast is None,
        forall|i: int| 0 <= i < old(sections)@.len() ==> bare(#[trigger] old(sections)@[i]),
    ensures
        sections_view(final(sections)@) == add_chunk(sections_view(old(sections)@), kind, chunk.view_of()),
        forall|i: int| 0 <= i < final(sections)@.len() ==> bare(#[trigger] final(sections)@[i]),
{
    let ghost v = sections_view(sections@);
    let mut i: usize = 0;
    while i < sections.len()
        invariant
            i <= sections@.len(),
            sections@ == old(sections)@,
            v == sections_view(sections@),
            forall|j: int| 0 <= j < i ==> v[j].0 != kind,
            forall|j: int| 0 <= j < old(sections)@.len() ==> bare(#[trigger] old(sections)@[j]),
            chunk.ast is None,
        decreases sections@.len() - i,
    {
        if sections[i].kind == kind {
            proof {
                lemma_kind_index(v, kind);
                assert(v[i as int].0 == kind);
                assert(kind_index(v, kind) == Some(i as int));
            }
            let mut section = sections.remove(i);
            let ghost c = section.chunks@;
            section.chunks.push(chunk);
            proof {
                assert(section.chunks@.map_values(|c: Chunk| c.view_of()) =~= c.map_values(|c: Chunk| c.view_of()).push(chunk.view_of()));
            }
            let ghost updated = section;
            assert(bare(old(sections)@[i as int]));
            assert(forall|j: int| 0 <= j < c.len() ==> (#[trigger] c[j]).ast is None);
            assert(forall|j: int| 0 <= j < updated.chunks@.len() ==> (#[trigger] updated.chunks@[j]).ast is None) by {
                assert forall|j: int| 0 <= j < updated.chunks@.len() implies (#[trigger] updated.chunks@[j]).ast is None by {
                    if j < c.len() {
                        assert(updated.chunks@[j] == c[j]);
                    }
                }
            }
            assert(updated.fun_defs == old(sections)@[i as int].fun_defs);
            assert(updated.fun_calls == old(sections)@[i as int].fun_calls);
            sections.insert(i, section);
            proof {
                assert(sections@ =~= old(sections)@.update(i as int, updated));
                assert(sections_view(sections@) =~= add_chunk(v, kind, chunk.view_of()));
            }
            return;
        }
        i += 1;
    }
    proof {
        lemma_kind_index(v, kind);
        assert(kind_index(v, kind) is None);
    }
    let mut section = Section::new(kind);
    section.chunks.push(chunk);
    proof {
        assert(section.chunks@.map_values(|c: Chunk| c.view_of()) =~= seq![chunk.view_of()]);
    }
    sections.push(section);
    proof {
        assert(sections_view(sections@) =~= add_chunk(v, kind, chunk.view_of()));
    }
}

/// The chunk that the header line `line` starts, with its kind, if it declares a known
/// section; `section_source` is the code that follows it.
fn header_chunk(
    line: &str,
    section_source: &str,
    file: usize,
    line_pos: usize,
    issues: &mut IssueTracker,
) -> (r: Option<(SectionKind, Chunk)>)
    requires
        old(issues).wf(),
        old(issues).registers(IssueKind::WrongSectionParam),
        line.spec_bytes().len() < usize::MAX,
    ensures
        ({
            let h = line.spec_bytes();
            match header_kind(h) {
                Some(k) => {
                    let p = text_of(param_bytes(h, k));
                    &&& r matches Some(x) && x.0 == k && x.1.view_of() == (
                        section_source@,
                        if k == SectionKind::Gfx {
                            Some(p)
                        } else {
                            None
                        },
                        file,
                        line_pos,
                        false,
                    )
                    &&& final(issues).extends(
                        old(issues),
                        param_issues(k, p, file, line_pos as int, h.len() as int),
                    )
                },
                None => {
                    &&& r is None
                    &&& final(issues).extends(old(issues), Seq::empty())
                },
            }
        }),
{
    let ghost h = line.spec_bytes();
    let mut k: usize = 0;
    proof {
        lemma_report_none(old(issues).reported(), old(issues).config());
    }
    while k < 6
        invariant
            k <= 6,
            h == line.spec_bytes(),
            h.len() < usize::MAX,
            header_kind(h) == first_declared(h, k as int),
            issues.wf() == old(issues).wf(),
            issues.wf(),
            issues.config() == old(issues).config(),
            issues.reported() == old(issues).reported(),
            old(issues).registers(IssueKind::WrongSectionParam),
        decreases 6 - k,
    {
        let kind = kind_in_order(k);
        match try_get_chunk_of_kind(kind, line, section_source, file, line_pos, issues) {
            Some(chunk) => {
                return Some((kind, chunk));
            },
            None => {
                proof {
                    lemma_report_none(old(issues).reported(), old(issues).config());
                }
            },
        }
        k += 1;
    }
    None
}

/// The error about the header line `line` (line number `line_idx`), which declares no
/// known section.
fn warn_unknown_section(line: &str, file: usize, line_idx: usize, issues: &mut IssueTracker)
    requires
        old(issues).wf(),
        old(issues).registers(IssueKind::UnknownSection),
        line.spec_bytes().len() < usize::MAX,
    ensures
        final(issues).extends(
            old(issues),
            seq![
                (
                    IssueKind::UnknownSection,
                    Location {
                        file,
                        section: None,
                        line_col: LineCol {
                            start_line: line_idx,
                            end_line: line_idx,
                            start_column: 1,
                            end_column: (line.spec_bytes().len() + 1) as usize,
                        },
                    },
                    unknown_message(text_of(line.spec_bytes())),
                ),
            ],
        ),
{
    let location = Location {
        section: None,
        file,
        line_col: LineCol {
            start_line: line_idx,
            end_line: line_idx,
            start_column: 1,
            end_column: line.len() + 1,
        },
    };
    let text = unknown_text(line);
    let ghost t = text@;
    proof {
        lemma_text_of(line);
    }
    issues.add(IssueKind::UnknownSection, &location, text);
    proof {
        lemma_report_one(old(issues).reported(), old(issues).config(), Seq::empty(), (IssueKind::UnknownSection, location, t));
        lemma_report_none(old(issues).reported(), old(issues).config());
        assert(Seq::<IssueSpec>::empty().push((IssueKind::UnknownSection, location, t)) =~= seq![(IssueKind::UnknownSection, location, t)]);
    }
}

/// Where the code of the section declared on the header line `l` of `source` ends; the
/// line starts at `char_pos`, with a text of `text_len` bytes and a full length of
/// `line_len`.
fn section_code_end(
    source: &str,
    char_pos: usize,
    line_len: usize,
    text_len: usize,
    Ghost(l): Ghost<(int, int, int)>,
) -> (r: usize)
    requires
        l.0 == char_pos,
        l.2 == line_len,
        l.1 - l.0 == text_len,
        l.0 <= l.1 <= l.0 + l.2 <= source.spec_bytes().len(),
        l.0 + l.2 < source.spec_bytes().len() ==> source.spec_bytes()[l.0 + l.2 - 1] == 10u8,
        l.2 > 0,
        source.spec_bytes().len() < usize::MAX,
    ensures
        r == code_end(source.spec_bytes(), l),
{
    let ghost b = source.spec_bytes();
    proof {
        lemma_str_valid(source);
    }
    let line_end = char_pos + line_len;
    if line_end >= source.len() {
        return source.len();
    }
    proof {
        lemma_boundary_after_ascii(b, line_end - 1);
    }
    let rest = substr(source, line_end, source.len());
    proof {
        assert(rest.spec_bytes() =~= b.skip(line_end as int));
        crate::text::lemma_first_from(
            rest.spec_bytes().len() as int,
            |p: int| header_start_at(rest.spec_bytes(), p),
            0,
        );
    }
    let found = find_header_start(rest);
    proof {
        assert(first_header_start(b.skip(line_end as int)) == first_header_start(rest.spec_bytes()));
    }
    match found {
        Some(m) => {
            let e = m + char_pos + text_len;
            if e < line_end {
                line_end
            } else {
                e
            }
        },
        None => source.len(),
    }
}

/// The code of the section declared on the header line `l` of `source`, which starts at
/// `char_pos`, with a text of `text_len` bytes and a full length of `line_len`.
fn section_code<'a>(
    source: &'a str,
    char_pos: usize,
    line_len: usize,
    text_len: usize,
    Ghost(l): Ghost<(int, int, int)>,
) -> (r: &'a str)
    requires
        l.0 == char_pos,
        l.2 == line_len,
        l.1 - l.0 == text_len,
        l.0 <= l.1 <= l.0 + l.2 <= source.spec_bytes().len(),
        l.0 + l.2 < source.spec_bytes().len() ==> source.spec_bytes()[l.0 + l.2 - 1] == 10u8,
        l.2 > 0,
        is_char_boundary(source.spec_bytes(), code_end(source.spec_bytes(), l)),
        source.spec_bytes().len() < usize::MAX,
    ensures
        r.spec_bytes() == source.spec_bytes().subrange(l.0 + l.2, code_end(source.spec_bytes(), l)),
        r@ == text_of(source.spec_bytes().subrange(l.0 + l.2, code_end(source.spec_bytes(), l))),
{
    let ghost b = source.spec_bytes();
    proof {
        lemma_str_valid(source);
    }
    let line_end = char_pos + line_len;
    let next_section_pos = section_code_end(source, char_pos, line_len, text_len, Ghost(l));
    proof {
        if line_end < b.len() {
            lemma_boundary_after_ascii(b, line_end - 1);
        } else {
            vstd::utf8::is_char_boundary_start_end_of_seq(b);
        }
    }
    let r = substr(source, line_end, next_section_pos);
    proof {
        lemma_text_of(r);
    }
    r
}

/// Handles the header line `line` (line `l`, number `line_idx`) of `source`: adds the
/// chunk it starts to its section, or reports it as unknown.
fn handle_header_line(
    source: &str,
    line: &str,
    line_len: usize,
    char_pos: usize,
    line_idx: usize,
    file: usize,
    sections: &mut Vec<Section>,
    issues: &mut IssueTracker,
    Ghost(l): Ghost<(int, int, int)>,
)
    requires
        l.0 == char_pos,
        l.2 == line_len,
        line.spec_bytes() == line_bytes(source.spec_bytes(), l),
        l.0 <= l.1 <= l.0 + l.2 <= source.spec_bytes().len(),
        l.0 + l.2 < source.spec_bytes().len() ==> source.spec_bytes()[l.0 + l.2 - 1] == 10u8,
        l.2 > 0,
        is_char_boundary(source.spec_bytes(), code_end(source.spec_bytes(), l)),
        source.spec_bytes().len() < usize::MAX,
        old(issues).wf(),
        old(issues).registers(IssueKind::WrongSectionParam),
        old(issues).registers(IssueKind::UnknownSection),
        forall|i: int| 0 <= i < old(sections)@.len() ==> bare(#[trigger] old(sections)@[i]),
    ensures
        ({
            let b = source.spec_bytes();
            let h = line_bytes(b, l);
            &&& sections_view(final(sections)@) == match header_kind(h) {
                Some(k) => add_chunk(sections_view(old(sections)@), k, chunk_at(b, l, line_idx as int, file, k)),
                None => sections_view(old(sections)@),
            }
            &&& forall|i: int| 0 <= i < final(sections)@.len() ==> bare(#[trigger] final(sections)@[i])
            &&& final(issues).extends(old(issues), header_issues(b, l, line_idx as int, file))
        }),
{
    let section_eel = section_code(source, char_pos, line_len, line.len(), Ghost(l));
    match header_chunk(line, section_eel, file, line_idx, issues) {
        Some((kind, chunk)) => {
            add_chunk_to(sections, kind, chunk);
        },
        None => {
            let ghost mid = issues.reported();
            warn_unknown_section(line, file, line_idx, issues);
            proof {
                lemma_report_none(old(issues).reported(), old(issues).config());
            }
        },
    }
}

/// One more line of `ls` handled: what the folds over the lines become.
proof fn lemma_fold_step(b: Seq<u8>, ls: Seq<(int, int, int)>, i: int, file: usize)
    requires
        0 <= i < ls.len(),
    ensures
        chunks_of(b, ls.take(i + 1), file) == if is_header(b, ls[i]) {
            match header_kind(line_bytes(b, ls[i])) {
                Some(k) => chunks_of(b, ls.take(i), file).push((k, chunk_at(b, ls[i], i, file, k))),
                None => chunks_of(b, ls.take(i), file),
            }
        } else {
            chunks_of(b, ls.take(i), file)
        },
        issues_of(b, ls.take(i + 1), file) == if is_header(b, ls[i]) {
            issues_of(b, ls.take(i), file) + header_issues(b, ls[i], i, file)
        } else {
            issues_of(b, ls.take(i), file)
        },
        first_header_pos(b, ls.take(i + 1)) == match first_header_pos(b, ls.take(i)) {
            Some(p) => Some(p),
            None => if is_header(b, ls[i]) {
                Some(ls[i].0)
            } else {
                None
            },
        },
{
    assert(ls.take(i + 1).drop_last() =~= ls.take(i));
}

/// Adding a chunk to the grouped chunks groups the longer run.
proof fn lemma_grouped_step(cs: Seq<(SectionKind, ChunkView)>, k: SectionKind, c: ChunkView)
    ensures
        grouped(cs.push((k, c))) == add_chunk(grouped(cs), k, c),
{
    assert(cs.push((k, c)).drop_last() =~= cs);
}

/// The facts about line `i` of `b` that splitting it needs.
pub proof fn lemma_line_facts(b: Seq<u8>, i: int)
    requires
        0 <= i < lines_from(b, 0).len(),
    ensures
        ({
            let ls = lines_from(b, 0);
            let l = ls[i];
            &&& 0 <= l.0 <= l.1 <= l.0 + l.2 <= b.len()
            &&& i <= l.0 < b.len()
            &&& l.2 > 0
            &&& (i + 1 < ls.len() ==> ls[i + 1].0 == l.0 + l.2)
            &&& (i + 1 == ls.len() ==> l.0 + l.2 == b.len())
            &&& (l.0 + l.2 < b.len() ==> b[l.0 + l.2 - 1] == 10u8)
        }),
{
    lemma_lines_tile(b, 0);
    let ls = lines_from(b, 0);
    assert(ls[i] == ls[i]);
}

/// Splits `source` into sections at its header lines (the lines whose text starts with
/// '@'). The code of a section runs from the end of its header line to the line break
/// before the next header line; the chunks of each kind are gathered in one section,
/// in order. Header parameters are checked, and headers of unknown sections reported.
/// Also returns where the first header line starts.
#[verifier::rlimit(40)]
pub fn parse_sections(source: &str, file: usize, issues: &mut IssueTracker) -> (r: (Vec<Section>, Option<usize>))
    requires
        old(issues).wf(),
        old(issues).registers(IssueKind::WrongSectionParam),
        old(issues).registers(IssueKind::UnknownSection),
        code_ends_ok(source.spec_bytes(), lines_from(source.spec_bytes(), 0)),
        source.spec_bytes().len() < usize::MAX,
    ensures
        ({
            let b = source.spec_bytes();
            let l = lines_from(b, 0);
            &&& sections_view(r.0@) == grouped(chunks_of(b, l, file))
            &&& forall|i: int| 0 <= i < r.0@.len() ==> bare(#[trigger] r.0@[i])
            &&& match first_header_pos(b, l) {
                Some(p) => r.1 == Some(p as usize),
                None => r.1 is None,
            }
            &&& final(issues).extends(old(issues), issues_of(b, l, file))
        }),
{
    let ghost b = source.spec_bytes();
    let ghost ls = lines_from(b, 0);
    proof {
        lemma_str_valid(source);
        assert(ls.take(0) =~= Seq::<(int, int, int)>::empty());
        assert(ls.skip(0) =~= ls);
        lemma_report_none(old(issues).reported(), old(issues).config());
    }
    let mut sections: Vec<Section> = Vec::new();
    let mut first_section_pos: Option<usize> = None;
    let mut char_pos: usize = 0;
    let mut line_idx: usize = 0;
    let mut lines = Lines::new(source);
    loop
        invariant
            b == source.spec_bytes(),
            ls == lines_from(b, 0),
            b.len() < usize::MAX,
            code_ends_ok(b, ls),
            lines.wf(),
            lines.bytes() == b,
            line_idx <= ls.len(),
            lines.rest() == ls.skip(line_idx as int),
            line_idx < ls.len() ==> char_pos == ls[line_idx as int].0,
            sections_view(sections@) == grouped(chunks_of(b, ls.take(line_idx as int), file)),
            forall|i: int| 0 <= i < sections@.len() ==> bare(#[trigger] sections@[i]),
            match first_header_pos(b, ls.take(line_idx as int)) {
                Some(p) => first_section_pos == Some(p as usize),
                None => first_section_pos is None,
            },
            issues.wf(),
            issues.config() == old(issues).config(),
            issues.reported() == old(issues).reported() + crate::issue::with_severity(
                old(issues).config(),
                issues_of(b, ls.take(line_idx as int), file),
            ),
            old(issues).wf(),
            old(issues).registers(IssueKind::WrongSectionParam),
            old(issues).registers(IssueKind::UnknownSection),
        decreases ls.len() - line_idx,
    {
        let ghost i = line_idx as int;
        let (line, line_len) = match lines.next() {
            Some(x) => x,
            None => {
                proof {
                    assert(ls.take(i) =~= ls);
                }
                return (sections, first_section_pos);
            },
        };
        let ghost l = ls[i];
        proof {
            lemma_line_facts(b, i);
            lemma_fold_step(b, ls, i, file);
            assert(ls.skip(i)[0] == l);
            if i + 1 < ls.len() {
                assert(ls.skip(i).drop_first() =~= ls.skip(i + 1));
            } else {
                assert(ls.skip(i + 1) =~= Seq::<(int, int, int)>::empty());
            }
        }
        let lb = line.as_bytes();
        let header = lb.len() > 0 && lb[0] == 64u8;
        proof {
            if l.1 > l.0 {
                assert(lb@[0] == b[l.0]);
            }
            assert(header == is_header(b, l));
        }
        if header {
            if first_section_pos.is_none() {
                first_section_pos = Some(char_pos);
            }
            let ghost cs = chunks_of(b, ls.take(i), file);
            handle_header_line(source, line, line_len, char_pos, line_idx, file, &mut sections, issues, Ghost(l));
            proof {
                if let Some(k) = header_kind(line_bytes(b, l)) {
                    lemma_grouped_step(cs, k, chunk_at(b, l, i, file, k));
                }
                crate::issue::lemma_report_runs(old(issues).reported(), old(issues).config(), issues_of(b, ls.take(i), file), header_issues(b, l, i, file));
            }
        }
        char_pos += line_len;
        line_idx += 1;
    }
}

} // verus!

verus! {

/// The metadata and the sections of a file, before the program is built from them.
pub struct FirstPass {
    pub metas: Vec<Meta>,
    pub sections: Vec<Section>,
}

/// Whether `source` can be split into sections: every section's code ends at a
/// character boundary.
pub open spec fn splits_cleanly(source: Seq<u8>) -> bool {
    &&& code_ends_ok(source, lines_from(source, 0))
    &&& source.len() < usize::MAX
}

/// Tells whether `source` splits cleanly into lines and sections (see
/// `splits_cleanly`), as the splitting functions require.
pub fn check_splits(source: &str) -> (r: bool)
    ensures
        r == splits_cleanly(source.spec_bytes()),
{
    let ghost b = source.spec_bytes();
    let ghost ls = lines_from(b, 0);
    let bytes = source.as_bytes();
    if bytes.len() == usize::MAX {
        return false;
    }
    let mut it = LineRanges::new(source);
    let ghost mut i: int = 0;
    proof {
        assert(ls.skip(0) =~= ls);
    }
    loop
        invariant
            b == source.spec_bytes(),
            bytes@ == b,
            ls == lines_from(b, 0),
            b.len() < usize::MAX,
            it.bytes() == b,
            0 <= i <= ls.len(),
            it.rest() == ls.skip(i),
            forall|k: int| 0 <= k < i && is_header(b, #[trigger] ls[k]) ==> is_char_boundary(b, code_end(b, ls[k])),
        decreases ls.len() - i,
    {
        let next = it.next();
        match next {
            None => {
                proof {
                    assert(i == ls.len());
                }
                return true;
            },
            Some((range, full)) => {
                let ghost l = ls[i];
                proof {
                    lemma_line_facts(b, i);
                    assert(ls.skip(i)[0] == l);
                    assert(ls.skip(i).drop_first() =~= ls.skip(i + 1));
                }
                let header = range.end > range.start && bytes[range.start] == 64u8;
                if header {
                    let e = section_code_end(source, range.start, full, range.end - range.start, Ghost(l));
                    if !source.is_char_boundary(e) {
                        proof {
                            assert(is_header(b, ls[i]));
                        }
                        return false;
                    }
                }
                proof {
                    i = i + 1;
                }
            },
        }
    }
}

/// Where the metadata of `source` ends: at its first header line, or at its end.
pub open spec fn metas_limit(source: Seq<u8>) -> int {
    match first_header_pos(source, lines_from(source, 0)) {
        Some(p) => p,
        None => source.len() as int,
    }
}

/// The first header line starts within the text.
pub proof fn lemma_first_header_pos(b: Seq<u8>, ls: Seq<(int, int, int)>)
    requires
        forall|k: int| 0 <= k < ls.len() ==> 0 <= #[trigger] ls[k].0 <= b.len(),
    ensures
        first_header_pos(b, ls) matches Some(p) ==> 0 <= p <= b.len(),
    decreases ls.len(),
{
    if ls.len() > 0 {
        let t = ls.drop_last();
        assert forall|k: int| 0 <= k < t.len() implies 0 <= #[trigger] t[k].0 <= b.len() by {
            assert(t[k] == ls[k]);
        }
        lemma_first_header_pos(b, t);
        assert(ls.last() == ls[ls.len() - 1]);
    }
}

impl FirstPass {
    /// Splits the text `source` of the file `file` into its sections and reads the
    /// metadata that comes before the first of them.
    pub fn new(source: &str, file: usize, issues: &mut IssueTracker) -> (r: Self)
        requires
            splits_cleanly(source.spec_bytes()),
            old(issues).wf(),
            old(issues).registers(IssueKind::WrongSectionParam),
            old(issues).registers(IssueKind::UnknownSection),
        ensures
            ({
                let b = source.spec_bytes();
                let l = lines_from(b, 0);
                &&& sections_view(r.sections@) == grouped(chunks_of(b, l, file))
                &&& forall|i: int| 0 <= i < r.sections@.len() ==> bare(#[trigger] r.sections@[i])
                &&& r.metas@.map_values(|m: Meta| crate::meta::meta_view(m)) == crate::meta::metas_of(b, l, file, metas_limit(b))
                &&& final(issues).extends(old(issues), issues_of(b, l, file))
            }),
    {
        let (sections, first_section_pos) = parse_sections(source, file, issues);
        proof {
            let b = source.spec_bytes();
            lemma_lines_tile(b, 0);
            lemma_first_header_pos(b, lines_from(b, 0));
        }
        let metas = crate::meta::parse_metas(source, file, first_section_pos);
        FirstPass { metas, sections }
    }
}

} // verus!

verus! {

/// `secs` with an imported section `s` added: the chunks of an imported `@init` go after
/// those of the `@init` already there; a section of another kind is taken only when none
/// of its kind is there.
pub open spec fn merge_section(
    secs: Seq<(SectionKind, Seq<ChunkView>)>,
    s: (SectionKind, Seq<ChunkView>),
) -> Seq<(SectionKind, Seq<ChunkView>)> {
    match kind_index(secs, s.0) {
        Some(i) => if s.0 == SectionKind::Init {
            secs.update(i, (s.0, secs[i].1 + s.1))
        } else {
            secs
        },
        None => secs.push(s),
    }
}

/// `secs` with the imported sections `imported` added, one after the other.
pub open spec fn merge_all(
    secs: Seq<(SectionKind, Seq<ChunkView>)>,
    imported: Seq<(SectionKind, Seq<ChunkView>)>,
) -> Seq<(SectionKind, Seq<ChunkView>)>
    decreases imported.len(),
{
    if imported.len() == 0 {
        secs
    } else {
        merge_section(merge_all(secs, imported.drop_last()), imported.last())
    }
}

/// The imports that `ms` declare, in order: their paths and where they stand.
pub open spec fn imports_of(ms: Seq<Meta>) -> Seq<(Seq<char>, Location)>
    decreases ms.len(),
{
    if ms.len() == 0 {
        Seq::empty()
    } else {
        imports_of(ms.drop_last()) + match ms.last() {
            Meta::Import { path, location } => seq![(path@, location)],
            _ => Seq::empty(),
        }
    }
}

/// What the first pass of a file found for each import, as plain values: its sections,
/// or nothing when the file was not found.
pub open spec fn found_views(found: Seq<Option<FirstPass>>) -> Seq<Option<Seq<(SectionKind, Seq<ChunkView>)>>> {
    found.map_values(
        |f: Option<FirstPass>|
            match f {
                Some(p) => Some(sections_view(p.sections@)),
                None => None,
            },
    )
}

/// The sections once the imports were handled, one after the other.
pub open spec fn imports_fold(
    secs: Seq<(SectionKind, Seq<ChunkView>)>,
    found: Seq<Option<Seq<(SectionKind, Seq<ChunkView>)>>>,
) -> Seq<(SectionKind, Seq<ChunkView>)>
    decreases found.len(),
{
    if found.len() == 0 {
        secs
    } else {
        let prev = imports_fold(secs, found.drop_last());
        match found.last() {
            Some(s) => merge_all(prev, s),
            None => prev,
        }
    }
}

/// The errors about the imports that were not found.
pub open spec fn import_issues(
    imports: Seq<(Seq<char>, Location)>,
    found: Seq<Option<Seq<(SectionKind, Seq<ChunkView>)>>>,
) -> Seq<IssueSpec>
    decreases found.len(),
{
    if found.len() == 0 || imports.len() < found.len() {
        Seq::empty()
    } else {
        let k = found.len() - 1;
        import_issues(imports, found.drop_last()) + if found.last() is None {
            seq![(IssueKind::ImportNotFound, imports[k].1, "Import not found: "@ + imports[k].0)]
        } else {
            Seq::empty()
        }
    }
}

/// Adds the imported section `s` (see `merge_section`).
fn merge_one(sections: &mut Vec<Section>, s: Section)
    ensures
        sections_view(final(sections)@) == merge_section(sections_view(old(sections)@), section_view_of(s)),
{
    let ghost v = sections_view(sections@);
    let ghost sv = section_view_of(s);
    proof {
        lemma_kind_index(v, s.kind);
    }
    let mut i: usize = 0;
    while i < sections.len()
        invariant
            i <= sections@.len(),
            sections@ == old(sections)@,
            v == sections_view(sections@),
            sv == section_view_of(s),
            forall|j: int| 0 <= j < i ==> v[j].0 != s.kind,
        decreases sections@.len() - i,
    {
        if sections[i].kind == s.kind {
            proof {
                lemma_kind_index(v, s.kind);
                assert(v[i as int].0 == s.kind);
                assert(kind_index(v, s.kind) == Some(i as int));
            }
            if s.kind == SectionKind::Init {
                let mut base = sections.remove(i);
                let ghost before = base.chunks@;
                let mut s = s;
                let ghost added = s.chunks@;
                base.chunks.append(&mut s.chunks);
                proof {
                    assert(base.chunks@.map_values(|c: Chunk| c.view_of()) =~= before.map_values(|c: Chunk| c.view_of()) + added.map_values(|c: Chunk| c.view_of()));
                }
                sections.insert(i, base);
                proof {
                    assert(sections_view(sections@) =~= merge_section(v, sv));
                }
            }
            return;
        }
        i += 1;
    }
    proof {
        lemma_kind_index(v, s.kind);
        assert(kind_index(v, s.kind) is None);
    }
    let ghost sv = section_view_of(s);
    sections.push(s);
    proof {
        assert(sections_view(sections@) =~= v.push(sv));
    }
}

/// What a section holds of its chunks.
pub open spec fn section_view_of(s: Section) -> (SectionKind, Seq<ChunkView>) {
    crate::program::section_view(s)
}

impl FirstPass {
    /// Handles the imports of the metadata, given what the first pass found for each of
    /// them, in order (`None` for a file that was not found): the sections of a found file
    /// are added (see `merge_section`), a missing file is reported.
    pub fn handle_imports(&mut self, found: Vec<Option<FirstPass>>, issues: &mut IssueTracker)
        requires
            found@.len() == imports_of(old(self).metas@).len(),
            old(issues).wf(),
            old(issues).registers(IssueKind::ImportNotFound),
        ensures
            sections_view(final(self).sections@) == imports_fold(
                sections_view(old(self).sections@),
                found_views(found@),
            ),
            final(self).metas@ == old(self).metas@,
            final(issues).extends(old(issues), import_issues(imports_of(old(self).metas@), found_views(found@))),
    {
        let ghost imports = imports_of(self.metas@);
        let ghost all = found_views(found@);
        let ghost secs0 = sections_view(self.sections@);
        let mut found = found;
        let ghost orig = found@;
        let _total = found.len();
        let mut k: usize = 0;
        let mut m: usize = 0;
        proof {
            lemma_extends_refl(*issues);
            assert(all.take(0) =~= Seq::<Option<Seq<(SectionKind, Seq<ChunkView>)>>>::empty());
            assert(self.metas@.take(0) =~= Seq::<Meta>::empty());
        }
        while m < self.metas.len()
            invariant
                m <= self.metas@.len(),
                self.metas@ == old(self).metas@,
                imports == imports_of(self.metas@),
                k == imports_of(self.metas@.take(m as int)).len(),
                k <= orig.len(),
                orig.len() <= usize::MAX,
                orig.len() == imports.len(),
                all == found_views(orig),
                found@ == orig.skip(k as int),
                sections_view(self.sections@) == imports_fold(secs0, all.take(k as int)),
                forall|j: int| 0 <= j < k ==> imports[j] == #[trigger] imports_of(self.metas@.take(m as int))[j],
                old(issues).wf(),
                old(issues).registers(IssueKind::ImportNotFound),
                issues.extends(old(issues), import_issues(imports, all.take(k as int))),
            decreases self.metas@.len() - m,
        {
            proof {
                lemma_imports_prefix(self.metas@, m as int + 1);
                assert(self.metas@.take(m + 1).drop_last() =~= self.metas@.take(m as int));
            }
            if let Meta::Import { path, location } = &self.metas[m] {
                proof {
                    assert(imports_of(self.metas@.take(m + 1)) == imports_of(self.metas@.take(m as int)).push((path@, *location)));
                    assert(imports_of(self.metas@.take(m + 1))[k as int] == (path@, *location));
                    assert(imports[k as int] == (path@, *location));
                    assert(k < orig.len());
                    assert(found@.len() > 0);
                }
                let f = found.remove(0);
                let ghost ak = all[k as int];
                proof {
                    assert(f == orig[k as int]);
                    assert(all.take(k + 1).drop_last() =~= all.take(k as int));
                    assert(all.take(k + 1).last() == ak);
                    assert(found@ =~= orig.skip(k + 1));
                }
                let ghost mid = *issues;
                match f {
                    Some(imported) => {
                        self.merge_all_exec(imported.sections);
                        proof {
                            lemma_extends_refl(mid);
                            assert(import_issues(imports, all.take(k + 1)) =~= import_issues(imports, all.take(k as int)));
                        }
                    },
                    None => {
                        let mut text = String::from_str("Import not found: ");
                        text.append(path.as_str());
                        issues.add(IssueKind::ImportNotFound, location, text);
                        proof {
                            lemma_extends_trans(*old(issues), mid, *issues, import_issues(imports, all.take(k as int)), seq![(IssueKind::ImportNotFound, imports[k as int].1, "Import not found: "@ + imports[k as int].0)]);
                        }
                    },
                }
                k += 1;
            } else {
                proof {
                    assert(imports_of(self.metas@.take(m + 1)) == imports_of(self.metas@.take(m as int)));
                }
            }
            m += 1;
        }
        proof {
            assert(self.metas@.take(m as int) =~= self.metas@);
            assert(all.take(k as int) =~= all);
        }
    }

    /// Adds the imported sections `imported`, one after the other (see `merge_all`).
    fn merge_all_exec(&mut self, imported: Vec<Section>)
        ensures
            sections_view(final(self).sections@) == merge_all(sections_view(old(self).sections@), sections_view(imported@)),
            final(self).metas@ == old(self).metas@,
    {
        let ghost iv = sections_view(imported@);
        let ghost s0 = sections_view(self.sections@);
        let mut rest = imported;
        let ghost orig = rest@;
        let _total = rest.len();
        let mut n: usize = 0;
        assert(iv.take(0) =~= Seq::<(SectionKind, Seq<ChunkView>)>::empty());
        while rest.len() > 0
            invariant
                n <= orig.len(),
                orig.len() <= usize::MAX,
                rest@ == orig.skip(n as int),
                iv == sections_view(orig),
                self.metas@ == old(self).metas@,
                sections_view(self.sections@) == merge_all(s0, iv.take(n as int)),
            decreases rest@.len(),
        {
            proof {
                assert(n < orig.len());
            }
            let s = rest.remove(0);
            proof {
                assert(s == orig[n as int]);
                assert(iv.take(n + 1).drop_last() =~= iv.take(n as int));
                assert(iv.take(n + 1).last() == section_view_of(s));
                assert(rest@ =~= orig.skip(n + 1));
            }
            merge_one(&mut self.sections, s);
            n += 1;
        }
        proof {
            assert(orig.skip(n as int).len() == 0);
            assert(iv.take(n as int) =~= iv);
        }
    }
}

/// The chunks of the `@init` section among `secs`, if there is one.
pub open spec fn init_chunks(secs: Seq<(SectionKind, Seq<ChunkView>)>) -> Seq<ChunkView> {
    match kind_index(secs, SectionKind::Init) {
        Some(i) => secs[i].1,
        None => Seq::empty(),
    }
}

/// `secs` with the chunks of its `@init` section replaced by `cs` (unchanged without one).
pub open spec fn with_init_chunks(secs: Seq<(SectionKind, Seq<ChunkView>)>, cs: Seq<ChunkView>) -> Seq<(SectionKind, Seq<ChunkView>)> {
    match kind_index(secs, SectionKind::Init) {
        Some(i) => secs.update(i, (SectionKind::Init, cs)),
        None => secs,
    }
}

/// The sections of an entry file once its imports are followed: the imported sections are
/// added as `handle_imports` does, and the file's own `@init` chunks come after the
/// imported ones.
pub open spec fn followed(
    secs: Seq<(SectionKind, Seq<ChunkView>)>,
    found: Seq<Option<Seq<(SectionKind, Seq<ChunkView>)>>>,
) -> Seq<(SectionKind, Seq<ChunkView>)> {
    let t = imports_fold(with_init_chunks(secs, Seq::empty()), found);
    with_init_chunks(t, init_chunks(t) + init_chunks(secs))
}

/// The position of the `@init` section among `sections`, if there is one.
fn find_init(sections: &Vec<Section>) -> (r: Option<usize>)
    ensures
        match r {
            Some(x) => kind_index(sections_view(sections@), SectionKind::Init) == Some(x as int),
            None => kind_index(sections_view(sections@), SectionKind::Init) is None,
        },
{
    let ghost v = sections_view(sections@);
    proof {
        lemma_kind_index(v, SectionKind::Init);
    }
    let mut i: usize = 0;
    while i < sections.len()
        invariant
            i <= sections@.len(),
            v == sections_view(sections@),
            forall|j: int| 0 <= j < i ==> v[j].0 != SectionKind::Init,
        decreases sections@.len() - i,
    {
        if sections[i].kind == SectionKind::Init {
            proof {
                lemma_kind_index(v, SectionKind::Init);
                assert(v[i as int].0 == SectionKind::Init);
            }
            return Some(i);
        }
        i += 1;
    }
    proof {
        lemma_kind_index(v, SectionKind::Init);
    }
    None
}

/// Takes the chunks out of the `@init` section of `sections`, if there is one.
fn take_init_chunks(sections: &mut Vec<Section>) -> (r: Vec<Chunk>)
    ensures
        sections_view(final(sections)@) == with_init_chunks(sections_view(old(sections)@), Seq::empty()),
        r@.map_values(|c: Chunk| c.view_of()) == init_chunks(sections_view(old(sections)@)),
{
    match find_init(sections) {
        Some(i) => {
            let ghost v = sections_view(sections@);
            proof {
                lemma_kind_index(v, SectionKind::Init);
            }
            let ghost old_s = sections@;
            let mut sec = sections.remove(i);
            let mut taken: Vec<Chunk> = Vec::new();
            std::mem::swap(&mut taken, &mut sec.chunks);
            let ghost new_sec = sec;
            sections.insert(i, sec);
            proof {
                assert(sections@ =~= old_s.update(i as int, new_sec));
                assert(new_sec.kind == SectionKind::Init);
                assert(section_view_of(new_sec) == (SectionKind::Init, Seq::<ChunkView>::empty()));
                assert(sections_view(sections@) =~= v.update(i as int, (SectionKind::Init, Seq::<ChunkView>::empty())));
            }
            taken
        },
        None => {
            let v: Vec<Chunk> = Vec::new();
            assert(v@.map_values(|c: Chunk| c.view_of()) =~= Seq::<ChunkView>::empty());
            v
        },
    }
}

/// Adds `chunks` at the end of the `@init` section of `sections`, if there is one.
fn append_init_chunks(sections: &mut Vec<Section>, chunks: Vec<Chunk>)
    ensures
        sections_view(final(sections)@) == with_init_chunks(
            sections_view(old(sections)@),
            init_chunks(sections_view(old(sections)@)) + chunks@.map_values(|c: Chunk| c.view_of()),
        ),
{
    let found = find_init(sections);
    match found {
        Some(i) => {
            let ghost v = sections_view(sections@);
            proof {
                lemma_kind_index(v, SectionKind::Init);
            }
            let ghost old_s = sections@;
            assert(kind_index(v, SectionKind::Init) == Some(i as int));
            assert(v[i as int].0 == SectionKind::Init);
            assert(v[i as int] == section_view_of(old_s[i as int]));
            let mut sec = sections.remove(i);
            assert(sec == old_s[i as int]);
            assert(sec.kind == SectionKind::Init);
            let ghost before = sec.chunks@;
            let mut chunks = chunks;
            let ghost added = chunks@;
            sec.chunks.append(&mut chunks);
            let ghost new_sec = sec;
            sections.insert(i, sec);
            proof {
                assert(sections@ =~= old_s.update(i as int, new_sec));
                assert(new_sec.kind == SectionKind::Init);
                assert(new_sec.chunks@.map_values(|c: Chunk| c.view_of()) =~= before.map_values(|c: Chunk| c.view_of()) + added.map_values(|c: Chunk| c.view_of()));
                assert(sections_view(sections@) =~= v.update(i as int, (SectionKind::Init, v[i as int].1 + added.map_values(|c: Chunk| c.view_of()))));
            }
        },
        None => {},
    }
}

impl FirstPass {
    /// Follows the imports of the entry `file`, given what the first pass found for each of
    /// them (see `handle_imports`); the file's own `@init` chunks come after the imported
    /// ones. A file that is not on disk imports nothing.
    pub fn follow_imports(&mut self, file: &crate::file::File, found: Vec<Option<FirstPass>>, issues: &mut IssueTracker)
        requires
            old(issues).wf(),
            old(issues).registers(IssueKind::ImportNotFound),
            file.full_path is Some ==> found@.len() == imports_of(old(self).metas@).len(),
        ensures
            final(self).metas@ == old(self).metas@,
            file.full_path is None ==> final(self).sections@ == old(self).sections@ && *final(issues) == *old(issues),
            file.full_path is Some ==> {
                &&& sections_view(final(self).sections@) == followed(sections_view(old(self).sections@), found_views(found@))
                &&& final(issues).extends(old(issues), import_issues(imports_of(old(self).metas@), found_views(found@)))
            },
    {
        if file.full_path.is_none() {
            return;
        }
        let entry_init_chunks = take_init_chunks(&mut self.sections);
        self.handle_imports(found, issues);
        append_init_chunks(&mut self.sections, entry_init_chunks);
    }
}

/// The imports of a prefix of the metas are a prefix of the imports of all of them.
proof fn lemma_imports_prefix(ms: Seq<Meta>, n: int)
    requires
        0 <= n <= ms.len(),
    ensures
        imports_of(ms.take(n)).len() <= imports_of(ms).len(),
        forall|j: int| 0 <= j < imports_of(ms.take(n)).len() ==> #[trigger] imports_of(ms.take(n))[j] == imports_of(ms)[j],
    decreases ms.len() - n,
{
    if n < ms.len() {
        lemma_imports_prefix(ms, n + 1);
        assert(ms.take(n + 1).drop_last() =~= ms.take(n));
        let a = imports_of(ms.take(n));
        let b = imports_of(ms.take(n + 1));
        assert forall|j: int| 0 <= j < a.len() implies #[trigger] a[j] == imports_of(ms)[j] by {
            assert(a[j] == b[j]);
        }
    } else {
        assert(ms.take(n) =~= ms);
    }
}

} // verus!
