pub mod l2;
pub mod l2tol3;
pub mod l3;
