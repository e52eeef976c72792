pub mod free_variables;
pub mod insert_drop_reuse;
pub mod rewrite_construct;
pub mod use_check;
