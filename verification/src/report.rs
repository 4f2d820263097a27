use vstd::prelude::*;

use crate::issue_kind::Severity;

verus! {

/// The widest excerpt of a line that a report shows.
pub const MAX_EXCERPT: usize = 120;

/// `x - y`, or 0 when `y` is larger.
pub open spec fn sat_sub(x: int, y: int) -> int {
    if x >= y {
        x - y
    } else {
        0
    }
}

/// `x` brought within `lo..=hi`.
pub open spec fn clamp_to(x: int, lo: int, hi: int) -> int {
    if x < lo {
        lo
    } else if x > hi {
        hi
    } else {
        x
    }
}

/// What a report shows of a line: the part from `start` to `end` (byte positions), then
/// a pointer made of `pointer_padding` spaces and `pointer_len` carets.
pub struct Excerpt {
    pub start: usize,
    pub end: usize,
    pub pointer_padding: usize,
    pub pointer_len: usize,
}

/// What a report shows of a line of `line_len` bytes to point at the columns
/// `start_column..end_column` (1-based): the whole line when it is at most 120 bytes
/// long, else the 120 bytes or so around the start column.
pub open spec fn excerpt_spec(line_len: int, start_column: int, end_column: int) -> (int, int, int, int) {
    if line_len > MAX_EXCERPT {
        let start = sat_sub(start_column, (MAX_EXCERPT / 2) as int);
        let end = clamp_to(start_column + MAX_EXCERPT / 2, start, line_len);
        let pointer_end = clamp_to(end_column, start, end);
        (start, end, sat_sub(start_column, 1 + start), sat_sub(pointer_end, start_column))
    } else {
        (0, line_len, sat_sub(start_column, 1), sat_sub(end_column, start_column))
    }
}

/// The excerpt of a line that a report shows (see `excerpt_spec`).
pub fn excerpt(line_len: usize, start_column: usize, end_column: usize) -> (r: Excerpt)
    requires
        line_len > MAX_EXCERPT ==> sat_sub(start_column as int, (MAX_EXCERPT / 2) as int) <= line_len,
    ensures
        (r.start as int, r.end as int, r.pointer_padding as int, r.pointer_len as int) == excerpt_spec(
            line_len as int,
            start_column as int,
            end_column as int,
        ),
{
    if line_len > MAX_EXCERPT {
        let start = start_column.saturating_sub(MAX_EXCERPT / 2);
        let wide = start_column.saturating_add(MAX_EXCERPT / 2);
        let end = if wide < start {
            start
        } else if wide > line_len {
            line_len
        } else {
            wide
        };
        let pointer_end = if end_column < start {
            start
        } else if end_column > end {
            end
        } else {
            end_column
        };
        proof {
            if start_column as int + MAX_EXCERPT / 2 > usize::MAX {
                assert(wide == usize::MAX);
                assert(end == line_len);
            }
        }
        Excerpt {
            start,
            end,
            pointer_padding: start_column.saturating_sub(1 + start),
            pointer_len: pointer_end.saturating_sub(start_column),
        }
    } else {
        Excerpt {
            start: 0,
            end: line_len,
            pointer_padding: start_column.saturating_sub(1),
            pointer_len: end_column.saturating_sub(start_column),
        }
    }
}

/// The word a report puts before an issue of `severity`; a silent issue is not shown.
pub open spec fn severity_label_spec(severity: Severity) -> Option<Seq<char>> {
    match severity {
        Severity::Error => Some("error"@),
        Severity::Warning => Some("warning"@),
        Severity::Style => Some("style"@),
        Severity::Silent => None,
    }
}

/// The word a report puts before an issue of `severity`, if it shows it.
pub fn severity_label(severity: Severity) -> (r: Option<&'static str>)
    ensures
        match severity_label_spec(severity) {
            Some(l) => r matches Some(x) && x@ == l,
            None => r is None,
        },
{
    match severity {
        Severity::Error => Some("error"),
        Severity::Warning => Some("warning"),
        Severity::Style => Some("style"),
        Severity::Silent => None,
    }
}

/// Whether a report shows an issue of `severity` found in preprocessor code (`in_preprocessor`):
/// silent issues never, issues in preprocessor code only when they are errors.
pub fn is_shown(severity: Severity, in_preprocessor: bool) -> (r: bool)
    ensures
        r == (severity != Severity::Silent && (!in_preprocessor || severity == Severity::Error)),
{
    match severity {
        Severity::Silent => false,
        Severity::Error => true,
        _ => !in_preprocessor,
    }
}

} // verus!
