pub mod gfx_parameters;
pub mod slider_without_description;
pub mod shadowed_args;
pub mod too_many_params;
pub mod empty_modifier;
pub mod duplicate_modifier;
pub mod duplicate_arg;
pub mod string_arg_in_local_mod;
pub mod ref_arg_in_incompatible_mod;
pub mod inaccessible_global;
pub mod inconsistent_casing;
pub mod unreachable_function;
pub mod unknown_function;
pub mod unnecessary_comma;
pub mod unused_function;
pub mod overwriting_arg;
pub mod unused_args;
pub mod implicit_parens;
pub mod unnecessary_semicolon;
pub mod object_instance_unused;
pub mod unused_modifier_arg;
pub mod sprintf_args;
pub mod incompatible_contexts;
pub mod useless_expression;
pub mod invalid_lhs_assignment;
pub mod loop_as_r_value;
pub mod inaccessible_builtin;
pub mod unused_variable;
pub mod sample_section_without_audio_io;
pub mod sliders;
