pub mod ir;
pub mod l2_ir;
pub mod names;
pub mod pass;
pub mod types;
pub mod utils;
