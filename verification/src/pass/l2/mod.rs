pub mod free_variable;
pub mod free_variables;
pub mod insert_drop_reuse;
pub mod insert_reuse_from_liveness;
pub mod process_match;
pub mod rewrite_construct;
pub mod shadow_variable_rename;
pub mod use_check;
