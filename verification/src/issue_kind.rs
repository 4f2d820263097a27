use vstd::prelude::*;

verus! {

/// How serious an issue is, from the least to the most serious.
#[derive(PartialEq, Eq, Structural, Debug, Clone, Copy)]
pub enum Severity {
    Silent,
    Style,
    Warning,
    Error,
}

/// The rank of a severity in the order silent < style < warning < error.
pub open spec fn severity_rank(s: Severity) -> int {
    match s {
        Severity::Silent => 0,
        Severity::Style => 1,
        Severity::Warning => 2,
        Severity::Error => 3,
    }
}

impl Severity {
    /// The rank of the severity (see `severity_rank`).
    pub fn rank(&self) -> (r: u8)
        ensures
            r == severity_rank(*self),
    {
        match self {
            Severity::Silent => 0,
            Severity::Style => 1,
            Severity::Warning => 2,
            Severity::Error => 3,
        }
    }
}

/// The kinds of issues the linter reports.
#[derive(PartialEq, Eq, Structural, Debug, Clone, Copy)]
pub enum IssueKind {
    ArgNeverRead,
    DuplicateArgument,
    DuplicateModifier,
    EmptyModifier,
    FullyShadowedArgument,
    GlobalNeverRead,
    GlobalNeverWritten,
    ImplicitParens,
    ImportNotFound,
    InaccessibleGlobal,
    IncompatibleContexts,
    InconsistentCasing,
    InvalidLhsAssignment,
    LooksLikeSliderN,
    LoopAsRValue,
    ObjectAccessUnused,
    OverwritingArg,
    PartiallyShadowedArgument,
    ReadUnreadable,
    RefArgInIncompatibleModifier,
    SampleSectionWithoutAudioIo,
    ShadowedSliderN,
    SliderLabels,
    SliderOutOfRange,
    SliderWithoutDescription,
    SprintfParams,
    StringArgInLocalMod,
    TooManyParams,
    UnknownFunction,
    UnknownSection,
    UnknownSlider,
    UnnecessaryComma,
    UnnecessarySemicolon,
    UnreachableFunction,
    UnusedFunction,
    UnusedModifierArg,
    UnusedSlider,
    UselessExpression,
    WriteToNonWritable,
    WrongSectionParam,
}

/// The number of issue kinds.
pub const ISSUE_KIND_COUNT: usize = 40;

/// The position of an issue kind in the list of kinds.
pub open spec fn kind_index(k: IssueKind) -> int {
    match k {
        IssueKind::ArgNeverRead => 0,
        IssueKind::DuplicateArgument => 1,
        IssueKind::DuplicateModifier => 2,
        IssueKind::EmptyModifier => 3,
        IssueKind::FullyShadowedArgument => 4,
        IssueKind::GlobalNeverRead => 5,
        IssueKind::GlobalNeverWritten => 6,
        IssueKind::ImplicitParens => 7,
        IssueKind::ImportNotFound => 8,
        IssueKind::InaccessibleGlobal => 9,
        IssueKind::IncompatibleContexts => 10,
        IssueKind::InconsistentCasing => 11,
        IssueKind::InvalidLhsAssignment => 12,
        IssueKind::LooksLikeSliderN => 13,
        IssueKind::LoopAsRValue => 14,
        IssueKind::ObjectAccessUnused => 15,
        IssueKind::OverwritingArg => 16,
        IssueKind::PartiallyShadowedArgument => 17,
        IssueKind::ReadUnreadable => 18,
        IssueKind::RefArgInIncompatibleModifier => 19,
        IssueKind::SampleSectionWithoutAudioIo => 20,
        IssueKind::ShadowedSliderN => 21,
        IssueKind::SliderLabels => 22,
        IssueKind::SliderOutOfRange => 23,
        IssueKind::SliderWithoutDescription => 24,
        IssueKind::SprintfParams => 25,
        IssueKind::StringArgInLocalMod => 26,
        IssueKind::TooManyParams => 27,
        IssueKind::UnknownFunction => 28,
        IssueKind::UnknownSection => 29,
        IssueKind::UnknownSlider => 30,
        IssueKind::UnnecessaryComma => 31,
        IssueKind::UnnecessarySemicolon => 32,
        IssueKind::UnreachableFunction => 33,
        IssueKind::UnusedFunction => 34,
        IssueKind::UnusedModifierArg => 35,
        IssueKind::UnusedSlider => 36,
        IssueKind::UselessExpression => 37,
        IssueKind::WriteToNonWritable => 38,
        IssueKind::WrongSectionParam => 39,
    }
}

/// The name of an issue kind, as written in configuration files.
pub open spec fn kind_name(k: IssueKind) -> Seq<char> {
    match k {
        IssueKind::ArgNeverRead => "arg_never_read"@,
        IssueKind::DuplicateArgument => "duplicate_argument"@,
        IssueKind::DuplicateModifier => "duplicate_modifier"@,
        IssueKind::EmptyModifier => "empty_modifier"@,
        IssueKind::FullyShadowedArgument => "fully_shadowed_argument"@,
        IssueKind::GlobalNeverRead => "global_never_read"@,
        IssueKind::GlobalNeverWritten => "global_never_written"@,
        IssueKind::ImplicitParens => "implicit_parens"@,
        IssueKind::ImportNotFound => "import_not_found"@,
        IssueKind::InaccessibleGlobal => "inaccessible_global"@,
        IssueKind::IncompatibleContexts => "incompatible_contexts"@,
        IssueKind::InconsistentCasing => "inconsistent_casing"@,
        IssueKind::InvalidLhsAssignment => "invalid_lhs_assignment"@,
        IssueKind::LooksLikeSliderN => "looks_like_slider_n"@,
        IssueKind::LoopAsRValue => "loop_as_r_value"@,
        IssueKind::ObjectAccessUnused => "object_access_unused"@,
        IssueKind::OverwritingArg => "overwriting_arg"@,
        IssueKind::PartiallyShadowedArgument => "partially_shadowed_argument"@,
        IssueKind::ReadUnreadable => "read_unreadable"@,
        IssueKind::RefArgInIncompatibleModifier => "ref_arg_in_incompatible_modifier"@,
        IssueKind::SampleSectionWithoutAudioIo => "sample_section_without_audio_io"@,
        IssueKind::ShadowedSliderN => "shadowed_slider_n"@,
        IssueKind::SliderLabels => "slider_labels"@,
        IssueKind::SliderOutOfRange => "slider_out_of_range"@,
        IssueKind::SliderWithoutDescription => "slider_without_description"@,
        IssueKind::SprintfParams => "sprintf_params"@,
        IssueKind::StringArgInLocalMod => "string_arg_in_local_mod"@,
        IssueKind::TooManyParams => "too_many_params"@,
        IssueKind::UnknownFunction => "unknown_function"@,
        IssueKind::UnknownSection => "unknown_section"@,
        IssueKind::UnknownSlider => "unknown_slider"@,
        IssueKind::UnnecessaryComma => "unnecessary_comma"@,
        IssueKind::UnnecessarySemicolon => "unnecessary_semicolon"@,
        IssueKind::UnreachableFunction => "unreachable_function"@,
        IssueKind::UnusedFunction => "unused_function"@,
        IssueKind::UnusedModifierArg => "unused_modifier_arg"@,
        IssueKind::UnusedSlider => "unused_slider"@,
        IssueKind::UselessExpression => "useless_expression"@,
        IssueKind::WriteToNonWritable => "write_to_non_writable"@,
        IssueKind::WrongSectionParam => "wrong_section_param"@,
    }
}

/// The severity each issue kind has by default.
pub open spec fn default_severity(k: IssueKind) -> Severity {
    match k {
        IssueKind::ArgNeverRead => Severity::Warning,
        IssueKind::DuplicateArgument => Severity::Error,
        IssueKind::DuplicateModifier => Severity::Warning,
        IssueKind::EmptyModifier => Severity::Warning,
        IssueKind::FullyShadowedArgument => Severity::Warning,
        IssueKind::GlobalNeverRead => Severity::Warning,
        IssueKind::GlobalNeverWritten => Severity::Warning,
        IssueKind::ImplicitParens => Severity::Style,
        IssueKind::ImportNotFound => Severity::Error,
        IssueKind::InaccessibleGlobal => Severity::Error,
        IssueKind::IncompatibleContexts => Severity::Error,
        IssueKind::InconsistentCasing => Severity::Style,
        IssueKind::InvalidLhsAssignment => Severity::Error,
        IssueKind::LooksLikeSliderN => Severity::Warning,
        IssueKind::LoopAsRValue => Severity::Warning,
        IssueKind::ObjectAccessUnused => Severity::Warning,
        IssueKind::OverwritingArg => Severity::Warning,
        IssueKind::PartiallyShadowedArgument => Severity::Warning,
        IssueKind::ReadUnreadable => Severity::Error,
        IssueKind::RefArgInIncompatibleModifier => Severity::Error,
        IssueKind::SampleSectionWithoutAudioIo => Severity::Warning,
        IssueKind::ShadowedSliderN => Severity::Warning,
        IssueKind::SliderLabels => Severity::Warning,
        IssueKind::SliderOutOfRange => Severity::Warning,
        IssueKind::SliderWithoutDescription => Severity::Warning,
        IssueKind::SprintfParams => Severity::Warning,
        IssueKind::StringArgInLocalMod => Severity::Error,
        IssueKind::TooManyParams => Severity::Error,
        IssueKind::UnknownFunction => Severity::Error,
        IssueKind::UnknownSection => Severity::Error,
        IssueKind::UnknownSlider => Severity::Error,
        IssueKind::UnnecessaryComma => Severity::Style,
        IssueKind::UnnecessarySemicolon => Severity::Style,
        IssueKind::UnreachableFunction => Severity::Error,
        IssueKind::UnusedFunction => Severity::Warning,
        IssueKind::UnusedModifierArg => Severity::Warning,
        IssueKind::UnusedSlider => Severity::Warning,
        IssueKind::UselessExpression => Severity::Warning,
        IssueKind::WriteToNonWritable => Severity::Error,
        IssueKind::WrongSectionParam => Severity::Error,
    }
}

impl IssueKind {
    /// The position of the kind in the list of kinds.
    pub fn index(&self) -> (r: usize)
        ensures
            r == kind_index(*self),
            r < ISSUE_KIND_COUNT,
    {
        match self {
            IssueKind::ArgNeverRead => 0,
            IssueKind::DuplicateArgument => 1,
            IssueKind::DuplicateModifier => 2,
            IssueKind::EmptyModifier => 3,
            IssueKind::FullyShadowedArgument => 4,
            IssueKind::GlobalNeverRead => 5,
            IssueKind::GlobalNeverWritten => 6,
            IssueKind::ImplicitParens => 7,
            IssueKind::ImportNotFound => 8,
            IssueKind::InaccessibleGlobal => 9,
            IssueKind::IncompatibleContexts => 10,
            IssueKind::InconsistentCasing => 11,
            IssueKind::InvalidLhsAssignment => 12,
            IssueKind::LooksLikeSliderN => 13,
            IssueKind::LoopAsRValue => 14,
            IssueKind::ObjectAccessUnused => 15,
            IssueKind::OverwritingArg => 16,
            IssueKind::PartiallyShadowedArgument => 17,
            IssueKind::ReadUnreadable => 18,
            IssueKind::RefArgInIncompatibleModifier => 19,
            IssueKind::SampleSectionWithoutAudioIo => 20,
            IssueKind::ShadowedSliderN => 21,
            IssueKind::SliderLabels => 22,
            IssueKind::SliderOutOfRange => 23,
            IssueKind::SliderWithoutDescription => 24,
            IssueKind::SprintfParams => 25,
            IssueKind::StringArgInLocalMod => 26,
            IssueKind::TooManyParams => 27,
            IssueKind::UnknownFunction => 28,
            IssueKind::UnknownSection => 29,
            IssueKind::UnknownSlider => 30,
            IssueKind::UnnecessaryComma => 31,
            IssueKind::UnnecessarySemicolon => 32,
            IssueKind::UnreachableFunction => 33,
            IssueKind::UnusedFunction => 34,
            IssueKind::UnusedModifierArg => 35,
            IssueKind::UnusedSlider => 36,
            IssueKind::UselessExpression => 37,
            IssueKind::WriteToNonWritable => 38,
            IssueKind::WrongSectionParam => 39,
        }
    }

    /// The name of the kind, as written in configuration files.
    pub fn name(&self) -> (r: &'static str)
        ensures
            r@ == kind_name(*self),
    {
        match self {
            IssueKind::ArgNeverRead => "arg_never_read",
            IssueKind::DuplicateArgument => "duplicate_argument",
            IssueKind::DuplicateModifier => "duplicate_modifier",
            IssueKind::EmptyModifier => "empty_modifier",
            IssueKind::FullyShadowedArgument => "fully_shadowed_argument",
            IssueKind::GlobalNeverRead => "global_never_read",
            IssueKind::GlobalNeverWritten => "global_never_written",
            IssueKind::ImplicitParens => "implicit_parens",
            IssueKind::ImportNotFound => "import_not_found",
            IssueKind::InaccessibleGlobal => "inaccessible_global",
            IssueKind::IncompatibleContexts => "incompatible_contexts",
            IssueKind::InconsistentCasing => "inconsistent_casing",
            IssueKind::InvalidLhsAssignment => "invalid_lhs_assignment",
            IssueKind::LooksLikeSliderN => "looks_like_slider_n",
            IssueKind::LoopAsRValue => "loop_as_r_value",
            IssueKind::ObjectAccessUnused => "object_access_unused",
            IssueKind::OverwritingArg => "overwriting_arg",
            IssueKind::PartiallyShadowedArgument => "partially_shadowed_argument",
            IssueKind::ReadUnreadable => "read_unreadable",
            IssueKind::RefArgInIncompatibleModifier => "ref_arg_in_incompatible_modifier",
            IssueKind::SampleSectionWithoutAudioIo => "sample_section_without_audio_io",
            IssueKind::ShadowedSliderN => "shadowed_slider_n",
            IssueKind::SliderLabels => "slider_labels",
            IssueKind::SliderOutOfRange => "slider_out_of_range",
            IssueKind::SliderWithoutDescription => "slider_without_description",
            IssueKind::SprintfParams => "sprintf_params",
            IssueKind::StringArgInLocalMod => "string_arg_in_local_mod",
            IssueKind::TooManyParams => "too_many_params",
            IssueKind::UnknownFunction => "unknown_function",
            IssueKind::UnknownSection => "unknown_section",
            IssueKind::UnknownSlider => "unknown_slider",
            IssueKind::UnnecessaryComma => "unnecessary_comma",
            IssueKind::UnnecessarySemicolon => "unnecessary_semicolon",
            IssueKind::UnreachableFunction => "unreachable_function",
            IssueKind::UnusedFunction => "unused_function",
            IssueKind::UnusedModifierArg => "unused_modifier_arg",
            IssueKind::UnusedSlider => "unused_slider",
            IssueKind::UselessExpression => "useless_expression",
            IssueKind::WriteToNonWritable => "write_to_non_writable",
            IssueKind::WrongSectionParam => "wrong_section_param",
        }
    }

    /// The severity the kind has by default.
    pub fn default_severity(&self) -> (r: Severity)
        ensures
            r == default_severity(*self),
    {
        match self {
            IssueKind::ArgNeverRead => Severity::Warning,
            IssueKind::DuplicateArgument => Severity::Error,
            IssueKind::DuplicateModifier => Severity::Warning,
            IssueKind::EmptyModifier => Severity::Warning,
            IssueKind::FullyShadowedArgument => Severity::Warning,
            IssueKind::GlobalNeverRead => Severity::Warning,
            IssueKind::GlobalNeverWritten => Severity::Warning,
            IssueKind::ImplicitParens => Severity::Style,
            IssueKind::ImportNotFound => Severity::Error,
            IssueKind::InaccessibleGlobal => Severity::Error,
            IssueKind::IncompatibleContexts => Severity::Error,
            IssueKind::InconsistentCasing => Severity::Style,
            IssueKind::InvalidLhsAssignment => Severity::Error,
            IssueKind::LooksLikeSliderN => Severity::Warning,
            IssueKind::LoopAsRValue => Severity::Warning,
            IssueKind::ObjectAccessUnused => Severity::Warning,
            IssueKind::OverwritingArg => Severity::Warning,
            IssueKind::PartiallyShadowedArgument => Severity::Warning,
            IssueKind::ReadUnreadable => Severity::Error,
            IssueKind::RefArgInIncompatibleModifier => Severity::Error,
            IssueKind::SampleSectionWithoutAudioIo => Severity::Warning,
            IssueKind::ShadowedSliderN => Severity::Warning,
            IssueKind::SliderLabels => Severity::Warning,
            IssueKind::SliderOutOfRange => Severity::Warning,
            IssueKind::SliderWithoutDescription => Severity::Warning,
            IssueKind::SprintfParams => Severity::Warning,
            IssueKind::StringArgInLocalMod => Severity::Error,
            IssueKind::TooManyParams => Severity::Error,
            IssueKind::UnknownFunction => Severity::Error,
            IssueKind::UnknownSection => Severity::Error,
            IssueKind::UnknownSlider => Severity::Error,
            IssueKind::UnnecessaryComma => Severity::Style,
            IssueKind::UnnecessarySemicolon => Severity::Style,
            IssueKind::UnreachableFunction => Severity::Error,
            IssueKind::UnusedFunction => Severity::Warning,
            IssueKind::UnusedModifierArg => Severity::Warning,
            IssueKind::UnusedSlider => Severity::Warning,
            IssueKind::UselessExpression => Severity::Warning,
            IssueKind::WriteToNonWritable => Severity::Error,
            IssueKind::WrongSectionParam => Severity::Error,
        }
    }
}

} // verus!
