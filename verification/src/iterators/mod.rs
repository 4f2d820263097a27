pub mod ast_walk;
pub mod ast_walk_signal;
pub mod dots;
pub mod lines;
pub mod lines_rc;
pub mod lines_range;
