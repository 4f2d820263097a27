use vstd::prelude::*;
use vstd::string::StringSliceAdditionalSpecFns;

use crate::first_pass::{chunks_of, grouped, issues_of, metas_limit, splits_cleanly};
use crate::issue::{with_severity, IssueTracker};
use crate::issue_kind::{default_severity, IssueKind};
use crate::iterators::lines_range::lines_from;
use crate::meta::{meta_view, metas_of};
use crate::program::{bare, program_lint_issues, sections_view, Meta, Program};

verus! {

/// `s` with each tab replaced by four spaces.
pub open spec fn tabs_expanded(s: Seq<char>) -> Seq<char>
    decreases s.len(),
{
    if s.len() == 0 {
        Seq::empty()
    } else {
        tabs_expanded(s.drop_last()) + if s.last() == '\t' {
            seq![' ', ' ', ' ', ' ']
        } else {
            seq![s.last()]
        }
    }
}

/// `s` with each tab replaced by four spaces, so that columns match what editors show.
pub fn expand_tabs(s: &str) -> (r: String)
    ensures
        r@ == tabs_expanded(s@),
{
    let n = s.unicode_len();
    let mut out = String::new();
    let mut i: usize = 0;
    while i < n
        invariant
            n == s@.len(),
            i <= n,
            out@ == tabs_expanded(s@.take(i as int)),
        decreases n - i,
    {
        let c = s.get_char(i);
        assert(s@.take(i + 1).drop_last() =~= s@.take(i as int));
        if c == '\t' {
            out.push(' ');
            out.push(' ');
            out.push(' ');
            out.push(' ');
        } else {
            out.push(c);
        }
        assert(out@ =~= tabs_expanded(s@.take(i + 1)));
        i += 1;
    }
    assert(s@.take(i as int) =~= s@);
    out
}

/// A file of JSFX source.
pub struct File {
    pub full_path: Option<String>,
    pub short_path: Option<String>,
    pub raw: String,
    pub processed: String,
    pub is_entry: bool,
}

/// Where an import was found on disk, if it was.
pub enum FindImportRealPathResult {
    Found(String),
    NotFound,
}

/// An imported file, if it was found.
pub enum FindImportResult {
    Found(std::rc::Rc<File>),
    NotFound,
}

impl File {
    /// A file that is not on disk, made of `source`; it is an entry file.
    pub fn from_str(source: &str) -> (r: Self)
        ensures
            r.full_path is None,
            r.short_path is None,
            r.raw@ == source@,
            r.processed@ == source@,
            r.is_entry,
    {
        File {
            full_path: None,
            short_path: None,
            processed: String::from_str(source),
            raw: String::from_str(source),
            is_entry: true,
        }
    }

    /// A file read from disk at `full_path`, shown as `short_path`, whose text is `text`;
    /// tabs are replaced by four spaces.
    pub fn from_contents(full_path: String, short_path: String, text: &str, is_entry: bool) -> (r: Self)
        ensures
            r.full_path == Some(full_path),
            r.short_path == Some(short_path),
            r.raw@ == tabs_expanded(text@),
            r.processed@ == r.raw@,
            r.is_entry == is_entry,
    {
        let raw = expand_tabs(text);
        let processed = raw.clone();
        File { full_path: Some(full_path), short_path: Some(short_path), raw, processed, is_entry }
    }

    /// The path to show for the file: its short path, else its full path, else nothing.
    pub fn get_printable_path(&self) -> (r: &str)
        ensures
            r@ == match self.short_path {
                Some(s) => s@,
                None => match self.full_path {
                    Some(f) => f@,
                    None => Seq::empty(),
                },
            },
    {
        match &self.short_path {
            Some(s) => s.as_str(),
            None => match &self.full_path {
                Some(f) => f.as_str(),
                None => {
                    let e = String::new();
                    let t = &self.raw;
                    let r = t.as_str().substring_char(0, 0);
                    assert(r@ =~= Seq::<char>::empty());
                    r
                },
            },
        }
    }

    /// Builds the program of the text `source` and runs every lint on it, with the
    /// default configuration and no builtin variable known; returns the program and the
    /// issues found. The program is
    /// what the first pass reads: its sections hold their chunks unparsed, with no
    /// function definitions or calls, and its global scope is empty.
    pub fn lint_with_default_config(source: &str) -> (r: (Program, IssueTracker))
        requires
            splits_cleanly(source.spec_bytes()),
        ensures
            ({
                let b = source.spec_bytes();
                let l = lines_from(b, 0);
                &&& sections_view(r.0.sections@) == grouped(chunks_of(b, l, 0))
                &&& r.0.metas@.map_values(|m: Meta| meta_view(m)) == metas_of(b, l, 0, metas_limit(b))
                &&& forall|i: int| 0 <= i < r.0.sections@.len() ==> bare(#[trigger] r.0.sections@[i])
                &&& r.0.scope.variables@.len() == 0
                &&& r.1.wf()
                &&& forall|k: IssueKind| r.1.config().severity_of(k) == Some(default_severity(k))
                &&& r.1.reported() == with_severity(
                    r.1.config(),
                    issues_of(b, l, 0) + program_lint_issues(r.0, Seq::empty()),
                )
            }),
    {
        let file = Self::from_str(source);
        let mut issues = IssueTracker::new();
        let ghost empty = issues.reported();
        assert(empty =~= Seq::empty());
        let program = Program::from_file(&file, 0, &mut issues);
        proof {
            assert forall|i: int, j: int|
                0 <= i < program.sections@.len() && 0 <= j < program.sections@[i].chunks@.len()
                implies #[trigger] crate::lints::implicit_parens::chunk_ok_at(program, i, j) by {
                assert(crate::program::bare(program.sections@[i]));
                assert(program.sections@[i].chunks@[j].ast is None);
            }
            assert forall|i: int, j: int|
                0 <= i < program.sections@.len() && 0 <= j < program.sections@[i].chunks@.len()
                implies #[trigger] crate::lints::unnecessary_semicolon::chunk_ok_at(program, i, j) by {
                assert(crate::program::bare(program.sections@[i]));
                assert(program.sections@[i].chunks@[j].ast is None);
            }
            assert forall|i: int, j: int|
                0 <= i < program.sections@.len() && 0 <= j < program.sections@[i].chunks@.len()
                implies #[trigger] crate::lints::unnecessary_comma::in_fun::chunk_ok_at(program, i, j) by {
                assert(crate::program::bare(program.sections@[i]));
                assert(program.sections@[i].chunks@[j].ast is None);
            }
            assert forall|i: int, j: int|
                0 <= i < program.sections@.len() && 0 <= j < program.sections@[i].chunks@.len()
                implies #[trigger] crate::lints::unnecessary_comma::fun_args::chunk_ok_at(program, i, j) by {
                assert(crate::program::bare(program.sections@[i]));
                assert(program.sections@[i].chunks@[j].ast is None);
            }
            assert forall|i: int, j: int|
                0 <= i < program.sections@.len() && 0 <= j < program.sections@[i].chunks@.len()
                implies #[trigger] crate::lints::unnecessary_comma::modifiers::chunk_ok_at(program, i, j) by {
                assert(crate::program::bare(program.sections@[i]));
                assert(program.sections@[i].chunks@[j].ast is None);
            }
            assert forall|i: int, j: int|
                0 <= i < program.sections@.len() && 0 <= j < program.sections@[i].chunks@.len()
                implies #[trigger] crate::lints::unnecessary_comma::modifier_args::chunk_ok_at(program, i, j) by {
                assert(crate::program::bare(program.sections@[i]));
                assert(program.sections@[i].chunks@[j].ast is None);
            }
        }
        let ghost mid = issues.reported();
        let builtins: Vec<crate::variables::BuiltinVar> = Vec::new();
        proof {
            let b = source.spec_bytes();
            crate::first_pass::lemma_grouped_nonempty(chunks_of(b, lines_from(b, 0), 0));
            assert forall|i: int| 0 <= i < program.sections@.len() implies (#[trigger] program.sections@[i]).chunks@.len() > 0 by {
                assert(sections_view(program.sections@)[i] == crate::program::section_view(program.sections@[i]));
            }
            crate::program::lemma_section_index(program.sections@, crate::location::SectionKind::Sample);
            assert(builtins@ =~= Seq::<crate::variables::BuiltinVar>::empty());
        }
        program.lint(&builtins, &mut issues);
        proof {
            crate::issue::lemma_report_runs(empty, issues.config(), issues_of(source.spec_bytes(), lines_from(source.spec_bytes(), 0), 0), program_lint_issues(program, Seq::empty()));
            assert(empty + with_severity(issues.config(), issues_of(source.spec_bytes(), lines_from(source.spec_bytes(), 0), 0) + program_lint_issues(program, Seq::empty())) =~= with_severity(issues.config(), issues_of(source.spec_bytes(), lines_from(source.spec_bytes(), 0), 0) + program_lint_issues(program, Seq::empty())));
        }
        (program, issues)
    }
}

} // verus!
