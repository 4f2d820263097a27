pub mod access;
pub mod ast;
pub mod context;
pub mod file;
pub mod first_pass;
pub mod functions;
pub mod issue;
pub mod issue_kind;
pub mod location;
pub mod numbers;
pub mod program;
pub mod report;
pub mod text;
pub mod variables;
pub mod words;
pub mod iterators;
pub mod laws;
pub mod lint_laws;
pub mod lints;
pub mod meta;
