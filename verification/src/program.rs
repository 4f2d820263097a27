use vstd::prelude::*;
use vstd::string::StringSliceAdditionalSpecFns;
use vstd::utf8::encode_utf8;

use crate::access::TopLevel;
use crate::ast::LocatedAst;
use crate::functions::{Fun, FunCall};
use crate::location::{Location, SectionKind};
use crate::text::{eq_ignore_case, first_where, lemma_first_where_is, lemma_first_where_none, lower};

verus! {

/// A piece of a section: the code that follows one `@section` header line.
pub struct Chunk {
    /// The code of the chunk.
    pub source: String,
    /// The parameters written after the header (kept for `@gfx` only).
    pub params: Option<String>,
    /// The parsed code, where it was parsed.
    pub ast: Option<LocatedAst>,
    /// The file the chunk comes from.
    pub file: usize,
    /// The line of the header (0-based).
    pub line_pos: usize,
}

/// What a chunk holds, as plain values: its code, its parameters, its file, its
/// header's line and whether it was parsed.
pub type ChunkView = (Seq<char>, Option<Seq<char>>, usize, usize, bool);

/// The text of an optional string.
pub open spec fn opt_text(s: Option<String>) -> Option<Seq<char>> {
    match s {
        Some(t) => Some(t@),
        None => None,
    }
}

impl Chunk {
    /// What the chunk holds.
    pub open spec fn view_of(&self) -> ChunkView {
        (self.source@, opt_text(self.params), self.file, self.line_pos, self.ast is Some)
    }
}

/// All the chunks of one kind of section, with the functions they define and call.
pub struct Section {
    pub kind: SectionKind,
    pub chunks: Vec<Chunk>,
    pub fun_defs: Vec<Fun>,
    pub fun_calls: Vec<FunCall>,
}

/// What a section holds of its chunks.
pub open spec fn section_view(s: Section) -> (SectionKind, Seq<ChunkView>) {
    (s.kind, s.chunks@.map_values(|c: Chunk| c.view_of()))
}

/// Whether a section holds nothing but unparsed chunks: no function definition or call,
/// and no syntax tree.
pub open spec fn bare(s: Section) -> bool {
    &&& s.fun_defs@.len() == 0
    &&& s.fun_calls@.len() == 0
    &&& forall|j: int| 0 <= j < s.chunks@.len() ==> (#[trigger] s.chunks@[j]).ast is None
}

/// What the sections hold of their chunks, in order.
pub open spec fn sections_view(s: Seq<Section>) -> Seq<(SectionKind, Seq<ChunkView>)> {
    s.map_values(|x: Section| section_view(x))
}

impl Section {
    /// A section of `kind` with nothing in it.
    pub fn new(kind: SectionKind) -> (r: Self)
        ensures
            r.kind == kind,
            r.chunks@.len() == 0,
            r.fun_defs@.len() == 0,
            r.fun_calls@.len() == 0,
    {
        Section { kind, chunks: Vec::new(), fun_defs: Vec::new(), fun_calls: Vec::new() }
    }
}

/// What the header part of a file (before the first section) declares.
pub enum Meta {
    /// `sliderN:...`: a slider, with its number, the variable it is bound to (if
    /// named), its description and where it is declared.
    Slider { id: usize, identifier: Option<String>, desc: String, location: Location },
    /// `import path`: another file whose sections are added.
    Import { path: String, location: Location },
}

/// A variable of the global scope, with its accesses at the top level of sections.
pub struct Variable {
    pub name: String,
    pub accesses: Vec<TopLevel>,
}

/// Whether the variable is read by one of its accesses.
pub open spec fn var_read(v: Variable) -> bool {
    exists|k: int| 0 <= k < v.accesses@.len() && (#[trigger] v.accesses@[k]).info.kind is Read
}

/// Whether the variable is written by one of its accesses.
pub open spec fn var_written(v: Variable) -> bool {
    exists|k: int| 0 <= k < v.accesses@.len() && (#[trigger] v.accesses@[k]).info.kind is Write
}

impl Variable {
    /// Whether one of the variable's accesses reads it.
    pub fn is_read(&self) -> (r: bool)
        ensures
            r == var_read(*self),
    {
        let mut i: usize = 0;
        while i < self.accesses.len()
            invariant
                i <= self.accesses@.len(),
                forall|k: int| 0 <= k < i ==> (#[trigger] self.accesses@[k]).info.kind !is Read,
            decreases self.accesses@.len() - i,
        {
            if self.accesses[i].info.is_read() {
                return true;
            }
            i += 1;
        }
        false
    }

    /// Whether one of the variable's accesses writes it.
    pub fn is_written(&self) -> (r: bool)
        ensures
            r == var_written(*self),
    {
        let mut i: usize = 0;
        while i < self.accesses.len()
            invariant
                i <= self.accesses@.len(),
                forall|k: int| 0 <= k < i ==> (#[trigger] self.accesses@[k]).info.kind !is Write,
            decreases self.accesses@.len() - i,
        {
            if self.accesses[i].info.is_write() {
                return true;
            }
            i += 1;
        }
        false
    }
}

/// Whether `m` declares a slider bound to the variable `name` (ASCII case ignored).
pub open spec fn slider_named(m: Meta, name: Seq<char>) -> bool {
    match m {
        Meta::Slider { identifier: Some(id), .. } => lower(id@) == lower(name),
        _ => false,
    }
}

/// The position among `metas` of the first slider bound to the variable `name`.
pub open spec fn bound_slider(metas: Seq<Meta>, name: Seq<char>) -> Option<int> {
    first_where(metas.len() as int, |k: int| slider_named(metas[k], name))
}

/// The slider declaration that binds a slider to the variable `name`, if there is one.
pub fn is_bound_to_slider<'a>(metas: &'a Vec<Meta>, name: &str) -> (r: Option<&'a Meta>)
    ensures
        match bound_slider(metas@, name@) {
            Some(k) => r == Some(&metas@[k]),
            None => r is None,
        },
{
    let ghost p = |k: int| slider_named(metas@[k], name@);
    let mut i: usize = 0;
    while i < metas.len()
        invariant
            i <= metas@.len(),
            p == (|k: int| slider_named(metas@[k], name@)),
            forall|j: int| 0 <= j < i ==> !#[trigger] p(j),
        decreases metas@.len() - i,
    {
        let hit = match &metas[i] {
            Meta::Slider { identifier: Some(id), .. } => eq_ignore_case(id.as_str(), name),
            _ => false,
        };
        if hit {
            proof {
                assert(p(i as int));
                lemma_first_where_is(metas@.len() as int, p, i as int);
            }
            return Some(&metas[i]);
        }
        assert(!p(i as int));
        i += 1;
    }
    proof {
        lemma_first_where_none(metas@.len() as int, p);
    }
    None
}

/// The variables of the global scope.
pub struct GlobalScope {
    pub variables: Vec<Variable>,
}

/// A program: its metadata, its sections and its global scope.
pub struct Program {
    pub metas: Vec<Meta>,
    pub sections: Vec<Section>,
    pub scope: GlobalScope,
}

/// The position of the first section of `kind` in `s`.
pub open spec fn section_index(s: Seq<Section>, kind: SectionKind) -> Option<int>
    decreases s.len(),
{
    if s.len() == 0 {
        None
    } else {
        match section_index(s.drop_last(), kind) {
            Some(i) => Some(i),
            None => if s.last().kind == kind {
                Some(s.len() - 1)
            } else {
                None
            },
        }
    }
}

pub proof fn lemma_section_index(s: Seq<Section>, kind: SectionKind)
    ensures
        section_index(s, kind) matches Some(i) ==> 0 <= i < s.len() && s[i].kind == kind && forall|
            j: int,
        | 0 <= j < i ==> s[j].kind != kind,
        section_index(s, kind) is None ==> forall|j: int| 0 <= j < s.len() ==> s[j].kind != kind,
    decreases s.len(),
{
    if s.len() > 0 {
        let t = s.drop_last();
        lemma_section_index(t, kind);
        assert forall|j: int| 0 <= j < t.len() implies t[j] == s[j] by {}
    }
}

/// Whether the call `c` is made at the top level and calls the function `uuid`.
pub open spec fn top_level_call_of(c: FunCall, uuid: u128) -> bool {
    c.depth is TopLevel && (c.fun matches Some(f) && f.uuid == uuid)
}

/// Whether some section of `p` calls the function `uuid` at the top level.
pub open spec fn has_top_level_call(p: Program, uuid: u128) -> bool {
    exists|i: int, j: int|
        0 <= i < p.sections@.len() && 0 <= j < p.sections@[i].fun_calls@.len()
            && #[trigger] top_level_call_of(p.sections@[i].fun_calls@[j], uuid)
}

impl Program {
    /// Whether the function `fun_def` is called at the top level of some section.
    pub fn has_top_level_calls(&self, fun_def: &Fun) -> (r: bool)
        ensures
            r == has_top_level_call(*self, fun_def.uuid),
    {
        let mut i: usize = 0;
        while i < self.sections.len()
            invariant
                i <= self.sections@.len(),
                forall|a: int, b: int|
                    0 <= a < i && 0 <= b < self.sections@[a].fun_calls@.len()
                        ==> !#[trigger] top_level_call_of(self.sections@[a].fun_calls@[b], fun_def.uuid),
            decreases self.sections@.len() - i,
        {
            let calls = &self.sections[i].fun_calls;
            let mut j: usize = 0;
            while j < calls.len()
                invariant
                    i < self.sections@.len(),
                    calls@ == self.sections@[i as int].fun_calls@,
                    j <= calls@.len(),
                    forall|b: int| 0 <= b < j ==> !#[trigger] top_level_call_of(calls@[b], fun_def.uuid),
                decreases calls@.len() - j,
            {
                let c = &calls[j];
                let hit = match (&c.depth, &c.fun) {
                    (crate::functions::Depth::TopLevel, Some(f)) => f.uuid == fun_def.uuid,
                    _ => false,
                };
                if hit {
                    assert(top_level_call_of(self.sections@[i as int].fun_calls@[j as int], fun_def.uuid));
                    return true;
                }
                j += 1;
            }
            i += 1;
        }
        false
    }
}

impl Program {
    /// The section of `kind`, if the program has one.
    pub fn section(&self, kind: SectionKind) -> (r: Option<&Section>)
        ensures
            match section_index(self.sections@, kind) {
                Some(i) => r == Some(&self.sections@[i]),
                None => r is None,
            },
    {
        proof {
            lemma_section_index(self.sections@, kind);
        }
        let mut i: usize = 0;
        while i < self.sections.len()
            invariant
                i <= self.sections@.len(),
                forall|j: int| 0 <= j < i ==> self.sections@[j].kind != kind,
            decreases self.sections@.len() - i,
        {
            if self.sections[i].kind == kind {
                proof {
                    lemma_section_index(self.sections@, kind);
                }
                return Some(&self.sections[i]);
            }
            i += 1;
        }
        None
    }
}

/// Whether all the arguments of `args` have a location.
pub open spec fn all_located(args: Seq<crate::functions::Arg>) -> bool {
    forall|i: int| 0 <= i < args.len() ==> (#[trigger] args[i]).location is Some
}

/// The arguments of the optional list of modifiers `m`.
pub open spec fn opt_flat(m: Option<Vec<crate::functions::Modifier>>) -> Option<Seq<crate::functions::Arg>> {
    match m {
        Some(v) => Some(crate::functions::flat_args(v@)),
        None => None,
    }
}

/// Whether a function definition, its arguments and its modifiers' arguments all have
/// a location (as those of functions defined in source code do).
pub open spec fn fun_located(f: Fun) -> bool {
    &&& f.location is Some
    &&& all_located(f.args@)
    &&& (opt_flat(f.modifiers.local) matches Some(l) ==> all_located(l))
    &&& (opt_flat(f.modifiers.instance) matches Some(l) ==> all_located(l))
    &&& (opt_flat(f.modifiers.global) matches Some(l) ==> all_located(l))
}

/// Whether the definition `j` of section `i` of `program` is located.
pub open spec fn defs_located_at(program: Program, i: int, j: int) -> bool {
    fun_located(program.sections@[i].fun_defs@[j])
}

/// Whether all the function definitions of `program` are located.
pub open spec fn defs_located(program: Program) -> bool {
    forall|i: int, j: int|
        0 <= i < program.sections@.len() && 0 <= j < program.sections@[i].fun_defs@.len()
            ==> #[trigger] defs_located_at(program, i, j)
}

/// What the lints report on `program`, lint after lint.
pub open spec fn program_lint_issues(program: Program, builtins: Seq<crate::variables::BuiltinVar>) -> Seq<crate::issue::IssueSpec> {
    crate::lints::duplicate_arg::duplicate_arg_issues(program)
        + crate::lints::duplicate_modifier::duplicate_modifier_issues(program)
        + crate::lints::empty_modifier::empty_modifier_issues(program)
        + crate::lints::gfx_parameters::gfx_parameters_issues(program)
        + crate::lints::implicit_parens::implicit_parens_issues(program)
        + crate::lints::inaccessible_global::inaccessible_global_issues(program)
        + crate::lints::incompatible_contexts::incompatible_contexts_issues(program)
        + crate::lints::inconsistent_casing::inconsistent_casing_issues(program)
        + crate::lints::overwriting_arg::overwriting_arg_issues(program)
        + crate::lints::ref_arg_in_incompatible_mod::ref_arg_in_incompatible_mod_issues(program)
        + crate::lints::object_instance_unused::object_instance_unused_issues(program)
        + crate::lints::shadowed_args::shadowed_args_issues(program)
        + crate::lints::slider_without_description::slider_without_description_issues(program)
        + crate::lints::sprintf_args::sprintf_args_issues(program)
        + crate::lints::string_arg_in_local_mod::string_arg_in_local_mod_issues(program)
        + crate::lints::too_many_params::too_many_params_issues(program)
        + crate::lints::unknown_function::unknown_function_issues(program)
        + crate::lints::unnecessary_comma::unnecessary_comma_issues(program)
        + crate::lints::unnecessary_semicolon::unnecessary_semicolon_issues(program)
        + crate::lints::unreachable_function::unreachable_function_issues(program)
        + crate::lints::unused_args::unused_args_issues(program)
        + crate::lints::unused_function::unused_function_issues(program)
        + crate::lints::unused_modifier_arg::unused_modifier_arg_issues(program)
        + crate::lints::inaccessible_builtin::inaccessible_builtin_issues(program, builtins)
        + crate::lints::sample_section_without_audio_io::sample_section_issues(program, builtins)
        + crate::lints::sliders::sliders_issues(program)
        + crate::lints::unused_variable::unused_variable_issues(program, builtins)
}

impl Program {
    /// The program of the file `file` (numbered `file_id`), without its imports: its
    /// sections and metadata as the first pass reads them; the issues that the first
    /// pass finds are reported.
    pub fn from_file(file: &crate::file::File, file_id: usize, issues: &mut crate::issue::IssueTracker) -> (r: Program)
        requires
            crate::first_pass::splits_cleanly(encode_utf8(file.processed@)),
            old(issues).wf(),
            old(issues).registers(crate::issue_kind::IssueKind::WrongSectionParam),
            old(issues).registers(crate::issue_kind::IssueKind::UnknownSection),
        ensures
            ({
                let b = encode_utf8(file.processed@);
                let l = crate::iterators::lines_range::lines_from(b, 0);
                &&& sections_view(r.sections@) == crate::first_pass::grouped(crate::first_pass::chunks_of(b, l, file_id))
                &&& r.metas@.map_values(|m: Meta| crate::meta::meta_view(m)) == crate::meta::metas_of(b, l, file_id, crate::first_pass::metas_limit(b))
                &&& r.scope.variables@.len() == 0
                &&& defs_located(r)
                &&& forall|i: int| 0 <= i < r.sections@.len() ==> bare(#[trigger] r.sections@[i])
                &&& final(issues).extends(old(issues), crate::first_pass::issues_of(b, l, file_id))
            }),
    {
        let first_pass = crate::first_pass::FirstPass::new(file.processed.as_str(), file_id, issues);
        Program { metas: first_pass.metas, sections: first_pass.sections, scope: GlobalScope { variables: Vec::new() } }
    }

    /// Runs every lint on the program, whose builtin variables are `builtins`, except
    /// those that are told what code computes with floating-point values or returns:
    /// useless expressions, invalid left-hand sides and loops used as values.
    pub fn lint(&self, builtins: &Vec<crate::variables::BuiltinVar>, issues: &mut crate::issue::IssueTracker)
        requires
            old(issues).wf(),
            forall|k: crate::issue_kind::IssueKind| old(issues).registers(k),
            defs_located(*self),
            crate::lints::implicit_parens::program_ok(*self),
            crate::lints::unnecessary_semicolon::program_ok(*self),
            crate::lints::inconsistent_casing::functions::calls_ok(*self),
            crate::lints::object_instance_unused::origins_ok(*self),
            crate::lints::unnecessary_comma::program_ok(*self),
            crate::lints::incompatible_contexts::contexts_known(*self),
            crate::lints::sample_section_without_audio_io::sample_has_chunk(*self),
            crate::lints::sliders::vars_accessed(*self),
        ensures
            final(issues).extends(old(issues), program_lint_issues(*self, builtins@)),
    {
        proof {
            assert(old(issues).registers(crate::issue_kind::IssueKind::DuplicateArgument));
            assert(old(issues).registers(crate::issue_kind::IssueKind::DuplicateModifier));
            assert(old(issues).registers(crate::issue_kind::IssueKind::EmptyModifier));
            assert(old(issues).registers(crate::issue_kind::IssueKind::WrongSectionParam));
            assert(old(issues).registers(crate::issue_kind::IssueKind::InaccessibleGlobal));
            assert(old(issues).registers(crate::issue_kind::IssueKind::RefArgInIncompatibleModifier));
            assert(old(issues).registers(crate::issue_kind::IssueKind::FullyShadowedArgument));
            assert(old(issues).registers(crate::issue_kind::IssueKind::PartiallyShadowedArgument));
            assert(old(issues).registers(crate::issue_kind::IssueKind::SliderWithoutDescription));
            assert(old(issues).registers(crate::issue_kind::IssueKind::StringArgInLocalMod));
            assert(old(issues).registers(crate::issue_kind::IssueKind::TooManyParams));
            assert(old(issues).registers(crate::issue_kind::IssueKind::UnknownFunction));
            assert(old(issues).registers(crate::issue_kind::IssueKind::UnreachableFunction));
            assert(old(issues).registers(crate::issue_kind::IssueKind::UnusedFunction));
            assert(old(issues).registers(crate::issue_kind::IssueKind::OverwritingArg));
            assert(old(issues).registers(crate::issue_kind::IssueKind::ArgNeverRead));
            assert(old(issues).registers(crate::issue_kind::IssueKind::ImplicitParens));
            assert(old(issues).registers(crate::issue_kind::IssueKind::UnnecessarySemicolon));
            assert(old(issues).registers(crate::issue_kind::IssueKind::InconsistentCasing));
            assert(old(issues).registers(crate::issue_kind::IssueKind::ObjectAccessUnused));
            assert(old(issues).registers(crate::issue_kind::IssueKind::UnnecessaryComma));
            assert(old(issues).registers(crate::issue_kind::IssueKind::UnusedModifierArg));
            assert(old(issues).registers(crate::issue_kind::IssueKind::SprintfParams));
            assert(old(issues).registers(crate::issue_kind::IssueKind::IncompatibleContexts));
            assert(old(issues).registers(crate::issue_kind::IssueKind::ReadUnreadable));
            assert(old(issues).registers(crate::issue_kind::IssueKind::WriteToNonWritable));
            assert(old(issues).registers(crate::issue_kind::IssueKind::SampleSectionWithoutAudioIo));
            assert(old(issues).registers(crate::issue_kind::IssueKind::UnusedSlider));
            assert(old(issues).registers(crate::issue_kind::IssueKind::UnknownSlider));
            assert(old(issues).registers(crate::issue_kind::IssueKind::ShadowedSliderN));
            assert(old(issues).registers(crate::issue_kind::IssueKind::LooksLikeSliderN));
            assert(old(issues).registers(crate::issue_kind::IssueKind::GlobalNeverRead));
            assert(old(issues).registers(crate::issue_kind::IssueKind::GlobalNeverWritten));
        }
        let ghost m0 = *issues;
        proof {
            crate::issue::lemma_extends_refl(*issues);
        }
        let ghost acc0 = Seq::<crate::issue::IssueSpec>::empty();
        let ghost before0 = *issues;
        crate::lints::duplicate_arg::lint(self, issues);
        proof {
            crate::issue::lemma_extends_trans(m0, before0, *issues, acc0, crate::lints::duplicate_arg::duplicate_arg_issues(*self));
        }
        let ghost acc1 = acc0 + crate::lints::duplicate_arg::duplicate_arg_issues(*self);
        let ghost before1 = *issues;
        crate::lints::duplicate_modifier::lint(self, issues);
        proof {
            crate::issue::lemma_extends_trans(m0, before1, *issues, acc1, crate::lints::duplicate_modifier::duplicate_modifier_issues(*self));
        }
        let ghost acc2 = acc1 + crate::lints::duplicate_modifier::duplicate_modifier_issues(*self);
        let ghost before2 = *issues;
        crate::lints::empty_modifier::lint(self, issues);
        proof {
            crate::issue::lemma_extends_trans(m0, before2, *issues, acc2, crate::lints::empty_modifier::empty_modifier_issues(*self));
        }
        let ghost acc3 = acc2 + crate::lints::empty_modifier::empty_modifier_issues(*self);
        let ghost before3 = *issues;
        crate::lints::gfx_parameters::lint(self, issues);
        proof {
            crate::issue::lemma_extends_trans(m0, before3, *issues, acc3, crate::lints::gfx_parameters::gfx_parameters_issues(*self));
        }
        let ghost acc4 = acc3 + crate::lints::gfx_parameters::gfx_parameters_issues(*self);
        let ghost before4 = *issues;
        crate::lints::implicit_parens::lint(self, issues);
        proof {
            crate::issue::lemma_extends_trans(m0, before4, *issues, acc4, crate::lints::implicit_parens::implicit_parens_issues(*self));
        }
        let ghost acc5 = acc4 + crate::lints::implicit_parens::implicit_parens_issues(*self);
        let ghost before5 = *issues;
        crate::lints::inaccessible_global::lint(self, issues);
        proof {
            crate::issue::lemma_extends_trans(m0, before5, *issues, acc5, crate::lints::inaccessible_global::inaccessible_global_issues(*self));
        }
        let ghost acc6 = acc5 + crate::lints::inaccessible_global::inaccessible_global_issues(*self);
        let ghost before6 = *issues;
        crate::lints::incompatible_contexts::lint(self, issues);
        proof {
            crate::issue::lemma_extends_trans(m0, before6, *issues, acc6, crate::lints::incompatible_contexts::incompatible_contexts_issues(*self));
        }
        let ghost acc7 = acc6 + crate::lints::incompatible_contexts::incompatible_contexts_issues(*self);
        let ghost before7 = *issues;
        crate::lints::inconsistent_casing::lint(self, issues);
        proof {
            crate::issue::lemma_extends_trans(m0, before7, *issues, acc7, crate::lints::inconsistent_casing::inconsistent_casing_issues(*self));
        }
        let ghost acc8 = acc7 + crate::lints::inconsistent_casing::inconsistent_casing_issues(*self);
        let ghost before8 = *issues;
        crate::lints::overwriting_arg::lint(self, issues);
        proof {
            crate::issue::lemma_extends_trans(m0, before8, *issues, acc8, crate::lints::overwriting_arg::overwriting_arg_issues(*self));
        }
        let ghost acc9 = acc8 + crate::lints::overwriting_arg::overwriting_arg_issues(*self);
        let ghost before9 = *issues;
        crate::lints::ref_arg_in_incompatible_mod::lint(self, issues);
        proof {
            crate::issue::lemma_extends_trans(m0, before9, *issues, acc9, crate::lints::ref_arg_in_incompatible_mod::ref_arg_in_incompatible_mod_issues(*self));
        }
        let ghost acc10 = acc9 + crate::lints::ref_arg_in_incompatible_mod::ref_arg_in_incompatible_mod_issues(*self);
        let ghost before10 = *issues;
        crate::lints::object_instance_unused::lint(self, issues);
        proof {
            crate::issue::lemma_extends_trans(m0, before10, *issues, acc10, crate::lints::object_instance_unused::object_instance_unused_issues(*self));
        }
        let ghost acc11 = acc10 + crate::lints::object_instance_unused::object_instance_unused_issues(*self);
        let ghost before11 = *issues;
        crate::lints::shadowed_args::lint(self, issues);
        proof {
            crate::issue::lemma_extends_trans(m0, before11, *issues, acc11, crate::lints::shadowed_args::shadowed_args_issues(*self));
        }
        let ghost acc12 = acc11 + crate::lints::shadowed_args::shadowed_args_issues(*self);
        let ghost before12 = *issues;
        crate::lints::slider_without_description::lint(self, issues);
        proof {
            crate::issue::lemma_extends_trans(m0, before12, *issues, acc12, crate::lints::slider_without_description::slider_without_description_issues(*self));
        }
        let ghost acc13 = acc12 + crate::lints::slider_without_description::slider_without_description_issues(*self);
        let ghost before13 = *issues;
        crate::lints::sprintf_args::lint(self, issues);
        proof {
            crate::issue::lemma_extends_trans(m0, before13, *issues, acc13, crate::lints::sprintf_args::sprintf_args_issues(*self));
        }
        let ghost acc14 = acc13 + crate::lints::sprintf_args::sprintf_args_issues(*self);
        let ghost before14 = *issues;
        crate::lints::string_arg_in_local_mod::lint(self, issues);
        proof {
            crate::issue::lemma_extends_trans(m0, before14, *issues, acc14, crate::lints::string_arg_in_local_mod::string_arg_in_local_mod_issues(*self));
        }
        let ghost acc15 = acc14 + crate::lints::string_arg_in_local_mod::string_arg_in_local_mod_issues(*self);
        let ghost before15 = *issues;
        crate::lints::too_many_params::lint(self, issues);
        proof {
            crate::issue::lemma_extends_trans(m0, before15, *issues, acc15, crate::lints::too_many_params::too_many_params_issues(*self));
        }
        let ghost acc16 = acc15 + crate::lints::too_many_params::too_many_params_issues(*self);
        let ghost before16 = *issues;
        crate::lints::unknown_function::lint(self, issues);
        proof {
            crate::issue::lemma_extends_trans(m0, before16, *issues, acc16, crate::lints::unknown_function::unknown_function_issues(*self));
        }
        let ghost acc17 = acc16 + crate::lints::unknown_function::unknown_function_issues(*self);
        let ghost before17 = *issues;
        crate::lints::unnecessary_comma::lint(self, issues);
        proof {
            crate::issue::lemma_extends_trans(m0, before17, *issues, acc17, crate::lints::unnecessary_comma::unnecessary_comma_issues(*self));
        }
        let ghost acc18 = acc17 + crate::lints::unnecessary_comma::unnecessary_comma_issues(*self);
        let ghost before18 = *issues;
        crate::lints::unnecessary_semicolon::lint(self, issues);
        proof {
            crate::issue::lemma_extends_trans(m0, before18, *issues, acc18, crate::lints::unnecessary_semicolon::unnecessary_semicolon_issues(*self));
        }
        let ghost acc19 = acc18 + crate::lints::unnecessary_semicolon::unnecessary_semicolon_issues(*self);
        let ghost before19 = *issues;
        crate::lints::unreachable_function::lint(self, issues);
        proof {
            crate::issue::lemma_extends_trans(m0, before19, *issues, acc19, crate::lints::unreachable_function::unreachable_function_issues(*self));
        }
        let ghost acc20 = acc19 + crate::lints::unreachable_function::unreachable_function_issues(*self);
        let ghost before20 = *issues;
        crate::lints::unused_args::lint(self, issues);
        proof {
            crate::issue::lemma_extends_trans(m0, before20, *issues, acc20, crate::lints::unused_args::unused_args_issues(*self));
        }
        let ghost acc21 = acc20 + crate::lints::unused_args::unused_args_issues(*self);
        let ghost before21 = *issues;
        crate::lints::unused_function::lint(self, issues);
        proof {
            crate::issue::lemma_extends_trans(m0, before21, *issues, acc21, crate::lints::unused_function::unused_function_issues(*self));
        }
        let ghost acc22 = acc21 + crate::lints::unused_function::unused_function_issues(*self);
        let ghost before22 = *issues;
        crate::lints::unused_modifier_arg::lint(self, issues);
        proof {
            crate::issue::lemma_extends_trans(m0, before22, *issues, acc22, crate::lints::unused_modifier_arg::unused_modifier_arg_issues(*self));
        }
        let ghost acc23 = acc22 + crate::lints::unused_modifier_arg::unused_modifier_arg_issues(*self);
        let ghost before23 = *issues;
        crate::lints::inaccessible_builtin::lint(self, builtins, issues);
        proof {
            crate::issue::lemma_extends_trans(m0, before23, *issues, acc23, crate::lints::inaccessible_builtin::inaccessible_builtin_issues(*self, builtins@));
        }
        let ghost acc24 = acc23 + crate::lints::inaccessible_builtin::inaccessible_builtin_issues(*self, builtins@);
        let ghost before24 = *issues;
        crate::lints::sample_section_without_audio_io::lint(self, builtins, issues);
        proof {
            crate::issue::lemma_extends_trans(m0, before24, *issues, acc24, crate::lints::sample_section_without_audio_io::sample_section_issues(*self, builtins@));
        }
        let ghost acc25 = acc24 + crate::lints::sample_section_without_audio_io::sample_section_issues(*self, builtins@);
        let ghost before25 = *issues;
        crate::lints::sliders::lint(self, issues);
        proof {
            crate::issue::lemma_extends_trans(m0, before25, *issues, acc25, crate::lints::sliders::sliders_issues(*self));
        }
        let ghost acc26 = acc25 + crate::lints::sliders::sliders_issues(*self);
        let ghost before26 = *issues;
        crate::lints::unused_variable::lint(self, builtins, issues);
        proof {
            crate::issue::lemma_extends_trans(m0, before26, *issues, acc26, crate::lints::unused_variable::unused_variable_issues(*self, builtins@));
        }
        let ghost acc27 = acc26 + crate::lints::unused_variable::unused_variable_issues(*self, builtins@);
        proof {
            assert(acc27 =~= program_lint_issues(*self, builtins@));
        }
    }
}

} // verus!
