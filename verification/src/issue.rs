use vstd::prelude::*;

use crate::issue_kind::{
    default_severity, kind_index, severity_rank, IssueKind, Severity, ISSUE_KIND_COUNT,
};
use crate::location::{location_le, Location};

verus! {

/// A problem found in a file.
pub struct Issue {
    pub location: Location,
    pub text: String,
    pub kind: IssueKind,
    pub severity: Severity,
}

/// The severity given to each issue kind; a kind without one is not registered.
pub struct Config {
    severities: Vec<Option<Severity>>,
}

impl Config {
    /// The severity of each kind, by kind index.
    pub closed spec fn view(&self) -> Seq<Option<Severity>> {
        self.severities@
    }

    /// Whether the configuration covers exactly the issue kinds.
    pub closed spec fn wf(&self) -> bool {
        self.severities@.len() == ISSUE_KIND_COUNT
    }

    /// The severity the configuration gives to a kind.
    pub open spec fn severity_of(&self, kind: IssueKind) -> Option<Severity> {
        self@[kind_index(kind)]
    }

    /// A configuration in which no kind is registered.
    pub fn empty() -> (r: Self)
        ensures
            r.wf(),
            forall|k: IssueKind| r.severity_of(k) is None,
    {
        let mut severities = Vec::new();
        let mut i: usize = 0;
        while i < ISSUE_KIND_COUNT
            invariant
                i <= ISSUE_KIND_COUNT,
                severities@.len() == i,
                forall|j: int| 0 <= j < i ==> severities@[j] is None,
            decreases ISSUE_KIND_COUNT - i,
        {
            severities.push(None);
            i += 1;
        }
        Config { severities }
    }

    /// Gives `kind` the severity `severity`.
    pub fn set(&mut self, kind: IssueKind, severity: Severity)
        requires
            old(self).wf(),
        ensures
            final(self).wf(),
            final(self).severity_of(kind) == Some(severity),
            forall|k: IssueKind| k != kind ==> final(self).severity_of(k) == old(self).severity_of(k),
    {
        let i = kind.index();
        self.severities.set(i, Some(severity));
        assert forall|k: IssueKind| k != kind implies final(self).severity_of(k) == old(self).severity_of(k) by {
            assert(kind_index(k) != kind_index(kind));
        }
    }

    /// The severity of `kind`, if it is registered.
    pub fn get(&self, kind: IssueKind) -> (r: Option<Severity>)
        requires
            self.wf(),
        ensures
            r == self.severity_of(kind),
    {
        self.severities[kind.index()]
    }

    /// The default configuration: every kind with its default severity.
    pub fn default_config() -> (r: Self)
        ensures
            r.wf(),
            forall|k: IssueKind| r.severity_of(k) == Some(default_severity(k)),
    {
        let mut c = Self::empty();
        let mut i: usize = 0;
        let kinds = all_kinds();
        while i < kinds.len()
            invariant
                c.wf(),
                i <= kinds@.len(),
                kinds@.len() == ISSUE_KIND_COUNT,
                forall|j: int| 0 <= j < kinds@.len() ==> kind_index(#[trigger] kinds@[j]) == j,
                forall|k: IssueKind| kind_index(k) < i ==> c.severity_of(k) == Some(default_severity(k)),
            decreases kinds@.len() - i,
        {
            let k = kinds[i];
            let s = k.default_severity();
            c.set(k, s);
            i += 1;
        }
        assert forall|k: IssueKind| c.severity_of(k) == Some(default_severity(k)) by {
            assert(kind_index(k) < ISSUE_KIND_COUNT);
        }
        c
    }
}

/// Every issue kind, in index order.
pub fn all_kinds() -> (r: Vec<IssueKind>)
    ensures
        r@.len() == ISSUE_KIND_COUNT,
        forall|j: int| 0 <= j < r@.len() ==> kind_index(#[trigger] r@[j]) == j,
{
    let r = vec![
        IssueKind::ArgNeverRead,
        IssueKind::DuplicateArgument,
        IssueKind::DuplicateModifier,
        IssueKind::EmptyModifier,
        IssueKind::FullyShadowedArgument,
        IssueKind::GlobalNeverRead,
        IssueKind::GlobalNeverWritten,
        IssueKind::ImplicitParens,
        IssueKind::ImportNotFound,
        IssueKind::InaccessibleGlobal,
        IssueKind::IncompatibleContexts,
        IssueKind::InconsistentCasing,
        IssueKind::InvalidLhsAssignment,
        IssueKind::LooksLikeSliderN,
        IssueKind::LoopAsRValue,
        IssueKind::ObjectAccessUnused,
        IssueKind::OverwritingArg,
        IssueKind::PartiallyShadowedArgument,
        IssueKind::ReadUnreadable,
        IssueKind::RefArgInIncompatibleModifier,
        IssueKind::SampleSectionWithoutAudioIo,
        IssueKind::ShadowedSliderN,
        IssueKind::SliderLabels,
        IssueKind::SliderOutOfRange,
        IssueKind::SliderWithoutDescription,
        IssueKind::SprintfParams,
        IssueKind::StringArgInLocalMod,
        IssueKind::TooManyParams,
        IssueKind::UnknownFunction,
        IssueKind::UnknownSection,
        IssueKind::UnknownSlider,
        IssueKind::UnnecessaryComma,
        IssueKind::UnnecessarySemicolon,
        IssueKind::UnreachableFunction,
        IssueKind::UnusedFunction,
        IssueKind::UnusedModifierArg,
        IssueKind::UnusedSlider,
        IssueKind::UselessExpression,
        IssueKind::WriteToNonWritable,
        IssueKind::WrongSectionParam,
    ];
    assert(r@.len() == ISSUE_KIND_COUNT);
    r
}

/// Whether issue `a` comes before issue `b` or at the same place, ordering by severity
/// and then by location.
pub open spec fn issue_le(a: Issue, b: Issue) -> bool {
    if a.severity != b.severity {
        severity_rank(a.severity) < severity_rank(b.severity)
    } else {
        location_le(a.location, b.location)
    }
}

/// What an issue says: its kind, location, text and severity.
pub open spec fn view_of(i: Issue) -> (IssueKind, Location, Seq<char>, Severity) {
    (i.kind, i.location, i.text@, i.severity)
}

/// The number of issues of kind `k` in `s`.
pub open spec fn count_kind(s: Seq<Issue>, k: IssueKind) -> nat
    decreases s.len(),
{
    if s.len() == 0 {
        0
    } else {
        count_kind(s.drop_last(), k) + if s.last().kind == k { 1nat } else { 0nat }
    }
}

/// Inserts `x` into `s` after every element that does not come strictly after it.
pub open spec fn insert_stable(s: Seq<Issue>, x: Issue) -> Seq<Issue>
    decreases s.len(),
{
    if s.len() == 0 {
        seq![x]
    } else if issue_le(s.last(), x) {
        s.push(x)
    } else {
        insert_stable(s.drop_last(), x).push(s.last())
    }
}

/// The issues of `s` in stable sorted order.
pub open spec fn stable_sorted(s: Seq<Issue>) -> Seq<Issue>
    decreases s.len(),
{
    if s.len() == 0 {
        s
    } else {
        insert_stable(stable_sorted(s.drop_last()), s.last())
    }
}

/// What an issue says before the configuration gives it a severity: its kind, where it
/// stands and its text.
pub type IssueSpec = (IssueKind, Location, Seq<char>);

/// What an issue says once reported: its kind, where it stands, its text and severity.
pub type Reported = (IssueKind, Location, Seq<char>, Severity);

/// The issues of `s` as reported with the severities `c` gives them.
pub open spec fn with_severity(c: Config, s: Seq<IssueSpec>) -> Seq<Reported> {
    s.map_values(|x: IssueSpec| (x.0, x.1, x.2, c.severity_of(x.0)->0))
}

/// Reporting one more issue extends what was reported by it.
pub proof fn lemma_report_one(base: Seq<Reported>, c: Config, s: Seq<IssueSpec>, x: IssueSpec)
    ensures
        (base + with_severity(c, s)).push((x.0, x.1, x.2, c.severity_of(x.0)->0)) == base
            + with_severity(c, s.push(x)),
{
    assert((base + with_severity(c, s)).push((x.0, x.1, x.2, c.severity_of(x.0)->0)) =~= base
        + with_severity(c, s.push(x)));
}

/// Reporting nothing more leaves what was reported.
pub proof fn lemma_report_none(base: Seq<Reported>, c: Config)
    ensures
        base + with_severity(c, Seq::empty()) == base,
{
    assert(base + with_severity(c, Seq::empty()) =~= base);
}

/// Reporting two runs of issues one after the other reports their concatenation.
pub proof fn lemma_report_runs(base: Seq<Reported>, c: Config, s: Seq<IssueSpec>, t: Seq<IssueSpec>)
    ensures
        base + with_severity(c, s) + with_severity(c, t) == base + with_severity(c, s + t),
{
    assert(base + with_severity(c, s) + with_severity(c, t) =~= base + with_severity(c, s + t));
}

/// Reporting a run of issues and then another reports both, one after the other.
pub proof fn lemma_extends_trans(
    a: IssueTracker,
    b: IssueTracker,
    c: IssueTracker,
    s: Seq<IssueSpec>,
    t: Seq<IssueSpec>,
)
    requires
        b.extends(&a, s),
        c.extends(&b, t),
    ensures
        c.extends(&a, s + t),
{
    lemma_report_runs(a.reported(), a.config(), s, t);
}

/// A tracker extends itself by nothing.
pub proof fn lemma_extends_refl(a: IssueTracker)
    ensures
        a.extends(&a, Seq::empty()),
{
    lemma_report_none(a.reported(), a.config());
}

/// Collects the issues found in the files being linted.
pub struct IssueTracker {
    issues: Vec<Issue>,
    config: Config,
}

impl IssueTracker {
    /// The issues reported so far, in order.
    pub closed spec fn issues(&self) -> Seq<Issue> {
        self.issues@
    }

    /// What the issues reported so far say, in order.
    pub open spec fn reported(&self) -> Seq<(IssueKind, Location, Seq<char>, Severity)> {
        self.issues().map_values(|i: Issue| view_of(i))
    }

    /// The configuration of the tracker.
    pub closed spec fn config(&self) -> Config {
        self.config
    }

    /// Whether the configuration gives `kind` a severity.
    pub open spec fn registers(&self, kind: IssueKind) -> bool {
        self.config().severity_of(kind) is Some
    }

    /// Whether `self` is `before` with the issues of `s` reported after those it had.
    pub open spec fn extends(&self, before: &IssueTracker, s: Seq<IssueSpec>) -> bool {
        &&& self.wf() == before.wf()
        &&& self.config() == before.config()
        &&& self.reported() == before.reported() + with_severity(before.config(), s)
    }

    /// The tracker's configuration covers exactly the issue kinds.
    pub closed spec fn wf(&self) -> bool {
        self.config.wf()
    }

    /// A tracker with no issue and the given configuration.
    pub fn new_with_config(config: Config) -> (r: Self)
        requires
            config.wf(),
        ensures
            r.wf(),
            r.issues() == Seq::<Issue>::empty(),
            r.config() == config,
    {
        IssueTracker { issues: Vec::new(), config }
    }

    /// A tracker with no issue and the default configuration.
    pub fn new() -> (r: Self)
        ensures
            r.wf(),
            r.issues() == Seq::<Issue>::empty(),
            forall|k: IssueKind| r.config().severity_of(k) == Some(default_severity(k)),
    {
        IssueTracker { issues: Vec::new(), config: Config::default_config() }
    }

    /// The issues reported so far.
    pub fn issues_vec(&self) -> (r: &Vec<Issue>)
        ensures
            r@ == self.issues(),
    {
        &self.issues
    }

    /// Whether an issue of `kind` was reported.
    pub fn has(&self, kind: &IssueKind) -> (r: bool)
        ensures
            r == exists|i: int| 0 <= i < self.issues().len() && self.issues()[i].kind == *kind,
    {
        let mut i: usize = 0;
        while i < self.issues.len()
            invariant
                i <= self.issues@.len(),
                forall|j: int| 0 <= j < i ==> self.issues@[j].kind != *kind,
            decreases self.issues@.len() - i,
        {
            if self.issues[i].kind == *kind {
                return true;
            }
            i += 1;
        }
        false
    }

    /// The number of issues of `kind` reported.
    pub fn count(&self, kind: &IssueKind) -> (r: usize)
        ensures
            r == count_kind(self.issues(), *kind),
    {
        let mut n: usize = 0;
        let mut i: usize = 0;
        while i < self.issues.len()
            invariant
                i <= self.issues@.len(),
                n == count_kind(self.issues@.take(i as int), *kind),
                n <= i,
            decreases self.issues@.len() - i,
        {
            assert(self.issues@.take(i + 1).drop_last() =~= self.issues@.take(i as int));
            if self.issues[i].kind == *kind {
                n += 1;
            }
            i += 1;
        }
        assert(self.issues@.take(i as int) =~= self.issues@);
        n
    }

    /// Reports an issue of `issue_kind` at `location`, with the severity the configuration gives it.
    pub fn add(&mut self, issue_kind: IssueKind, location: &Location, text: String)
        requires
            old(self).wf(),
            old(self).config().severity_of(issue_kind) is Some,
        ensures
            final(self).wf(),
            final(self).config() == old(self).config(),
            final(self).issues() == old(self).issues().push(
                Issue {
                    location: *location,
                    text,
                    kind: issue_kind,
                    severity: old(self).config().severity_of(issue_kind)->0,
                },
            ),
            final(self).reported() == old(self).reported().push(
                (issue_kind, *location, text@, old(self).config().severity_of(issue_kind)->0),
            ),
            final(self).extends(old(self), seq![(issue_kind, *location, text@)]),
    {
        let severity = match self.config.get(issue_kind) {
            Some(s) => s,
            None => { return; },
        };
        let ghost t = text@;
        self.issues.push(Issue { location: *location, severity, text, kind: issue_kind });
        assert(self.reported() =~= old(self).reported().push((issue_kind, *location, t, severity)));
        assert(self.reported() =~= old(self).reported() + with_severity(old(self).config(), seq![(issue_kind, *location, t)]));
    }

    /// Orders the issues by severity (least serious first), then by location, keeping
    /// the order in which they were reported among issues that compare equal.
    pub fn sort(&mut self)
        ensures
            final(self).wf() == old(self).wf(),
            final(self).config() == old(self).config(),
            final(self).issues() == stable_sorted(old(self).issues()),
    {
        let mut rest: Vec<Issue> = Vec::new();
        std::mem::swap(&mut rest, &mut self.issues);
        let ghost orig = rest@;
        let _n = rest.len();
        assert(orig.skip(0) =~= orig);
        assert(orig.take(0) =~= Seq::<Issue>::empty());
        let mut sorted: Vec<Issue> = Vec::new();
        let mut i: usize = 0;
        while rest.len() > 0
            invariant
                i + rest@.len() == orig.len(),
                rest@ == orig.skip(i as int),
                sorted@ == stable_sorted(orig.take(i as int)),
                orig.len() <= usize::MAX,
            decreases rest@.len(),
        {
            let x = rest.remove(0);
            assert(orig.take(i + 1).drop_last() =~= orig.take(i as int));
            assert(orig.take(i + 1).last() == x);
            insert_stable_exec(&mut sorted, x);
            assert(rest@ =~= orig.skip(i + 1));
            i += 1;
        }
        assert(orig.take(i as int) =~= orig);
        self.issues = sorted;
    }
}

impl Default for IssueTracker {
    /// A tracker with no issue and the default configuration, as `new` gives.
    fn default() -> (r: Self)
        ensures
            r.wf(),
            r.issues() == Seq::<Issue>::empty(),
            forall|k: IssueKind| r.config().severity_of(k) == Some(default_severity(k)),
    {
        IssueTracker::new()
    }
}

fn issue_before_or_at(a: &Issue, b: &Issue) -> (r: bool)
    ensures
        r == issue_le(*a, *b),
{
    if a.severity != b.severity {
        a.severity.rank() < b.severity.rank()
    } else {
        a.location.is_before_or_at(&b.location)
    }
}

fn insert_stable_exec(s: &mut Vec<Issue>, x: Issue)
    ensures
        final(s)@ == insert_stable(old(s)@, x),
{
    let ghost s0 = s@;
    let mut pos = s.len();
    assert(s0.take(pos as int) =~= s0);
    assert(s0.skip(pos as int) =~= Seq::<Issue>::empty());
    assert(insert_stable(s0, x) + Seq::<Issue>::empty() =~= insert_stable(s0, x));
    while pos > 0 && !issue_before_or_at(&s[pos - 1], &x)
        invariant
            pos <= s0.len(),
            s@ == s0,
            insert_stable(s0, x) == insert_stable(s0.take(pos as int), x) + s0.skip(pos as int),
        decreases pos,
    {
        let ghost p = pos as int;
        assert(s0.take(p).drop_last() =~= s0.take(p - 1));
        assert(s0.take(p).last() == s0[p - 1]);
        assert(s0.skip(p - 1) =~= seq![s0[p - 1]] + s0.skip(p));
        assert(insert_stable(s0.take(p), x) == insert_stable(s0.take(p - 1), x).push(s0[p - 1]));
        assert(insert_stable(s0.take(p - 1), x).push(s0[p - 1]) + s0.skip(p)
            =~= insert_stable(s0.take(p - 1), x) + s0.skip(p - 1));
        pos -= 1;
    }
    proof {
        let p = pos as int;
        if p > 0 {
            assert(s0.take(p).drop_last() =~= s0.take(p - 1));
            assert(insert_stable(s0.take(p), x) == s0.take(p).push(x));
        } else {
            assert(s0.take(p) =~= Seq::<Issue>::empty());
        }
        assert(insert_stable(s0.take(p), x) =~= s0.take(p).push(x));
        assert(s0.take(p).push(x) + s0.skip(p) =~= s0.insert(p, x));
    }
    s.insert(pos, x);
}

} // verus!
