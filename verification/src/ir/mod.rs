pub mod common;
pub mod l1_ir;
pub mod l2_ir;
pub mod l3_ir;
