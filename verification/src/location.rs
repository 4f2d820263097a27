use vstd::prelude::*;

verus! {

/// The kinds of sections of a JSFX file.
#[derive(PartialEq, Eq, Structural, Debug, Clone, Copy)]
pub enum SectionKind {
    Init,
    Sample,
    Block,
    Slider,
    Serialize,
    Gfx,
}

/// Lines and columns of a span of text (lines start at 0, columns at 1).
#[derive(PartialEq, Eq, Structural, Debug, Clone, Copy)]
pub struct LineCol {
    pub start_line: usize,
    pub end_line: usize,
    pub start_column: usize,
    pub end_column: usize,
}

/// Where something stands: the file (its index among the files that were read),
/// the section when known, and the span of text.
#[derive(PartialEq, Eq, Structural, Debug, Clone, Copy)]
pub struct Location {
    pub file: usize,
    pub section: Option<SectionKind>,
    pub line_col: LineCol,
}

/// Locations are ordered by start line, then start column, then end line, then end column.
pub open spec fn location_le(a: Location, b: Location) -> bool {
    let (x, y) = (a.line_col, b.line_col);
    if x.start_line != y.start_line {
        x.start_line < y.start_line
    } else if x.start_column != y.start_column {
        x.start_column < y.start_column
    } else if x.end_line != y.end_line {
        x.end_line < y.end_line
    } else {
        x.end_column <= y.end_column
    }
}

impl Location {
    /// Whether `self` comes before `other` or at the same place.
    pub fn is_before_or_at(&self, other: &Location) -> (r: bool)
        ensures
            r == location_le(*self, *other),
    {
        let x = &self.line_col;
        let y = &other.line_col;
        if x.start_line != y.start_line {
            x.start_line < y.start_line
        } else if x.start_column != y.start_column {
            x.start_column < y.start_column
        } else if x.end_line != y.end_line {
            x.end_line < y.end_line
        } else {
            x.end_column <= y.end_column
        }
    }
}

impl SectionKind {
    /// The section's name as written after `@`.
    pub fn name(&self) -> (r: &'static str)
        ensures
            r@ == section_name(*self),
    {
        match self {
            SectionKind::Init => "init",
            SectionKind::Sample => "sample",
            SectionKind::Block => "block",
            SectionKind::Slider => "slider",
            SectionKind::Serialize => "serialize",
            SectionKind::Gfx => "gfx",
        }
    }
}

/// The name of a section kind.
pub open spec fn section_name(k: SectionKind) -> Seq<char> {
    match k {
        SectionKind::Init => "init"@,
        SectionKind::Sample => "sample"@,
        SectionKind::Block => "block"@,
        SectionKind::Slider => "slider"@,
        SectionKind::Serialize => "serialize"@,
        SectionKind::Gfx => "gfx"@,
    }
}

} // verus!
