use reuse::ir::l1_ir::{merge_to_blocks, Expr, Stmt};
use reuse::ir::l2_ir::Body;

fn v(s: &str) -> String {
    s.to_string()
}

#[test]
fn renaming_a_returned_variable() {
    let namespace = vec![(v("x"), v("x1")), (v("y"), v("y1"))];
    let r = Body::Variable(v("x")).shadow_variable_rename(namespace.clone(), 0);
    assert!(matches!(r, Body::Variable(ref n) if n == "x1"));
    let r = Body::Variable(v("z")).shadow_variable_rename(namespace, 3);
    assert!(matches!(r, Body::Variable(ref n) if n == "z"));
}

#[test]
fn merging_two_expressions_into_a_block() {
    let b = merge_to_blocks(Expr::Lit(1), Expr::Variable(v("a")));
    assert_eq!(b.0.len(), 2);
    assert!(matches!(b.0[0], Stmt::Expr(Expr::Lit(1))));
    assert!(matches!(&b.0[1], Stmt::Expr(Expr::Variable(n)) if n == "a"));
}
