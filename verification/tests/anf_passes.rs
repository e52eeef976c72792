use std::rc::Rc;

use reuse::l2_ir::{Bind, Body, Compute, Expr, If, Match, Pattern, Value};
use reuse::types::{FunctionType, Owned, StructType, Type};
use reuse::utils::Scope;

fn cons() -> Type {
    Type::Struct(StructType { name: "Cons".to_owned(), fields: vec![Type::Int, Type::Int] })
}

fn v(s: &str) -> String {
    s.to_string()
}

const CONS: &str = "Struct(StructType { name: \"Cons\", fields: [Int, Int] })";

fn rebuild_match() -> Body {
    Body::Match(Match(
        v("a"),
        vec![(
            Pattern::Constructor(v("Cons"), vec![Pattern::Variable(v("x")), Pattern::Variable(v("xx"))]),
            Body::Compute(Compute::Constructor(v("Cons"), cons(), None, vec![v("x"), v("xx")])),
        )],
    ))
}

fn scope_of_a() -> Rc<Scope<Type>> {
    Rc::new(Scope(v("a"), cons(), None))
}

#[test]
fn liveness_reuses_the_matched_cell() {
    let (r, live) = rebuild_match().insert_reuse_from_liveness(scope_of_a());
    assert_eq!(
        format!("{:?}", r),
        format!(
            "Match(Match(\"a\", [(Constructor(\"Cons\", [Variable(\"x\"), Variable(\"xx\")]), DropReuse(\"__reuse_a\", \"a\", Compute(Constructor(\"Cons\", {}, Some(\"__reuse_a\"), [\"x\", \"xx\"]))))]))",
            CONS
        )
    );
    assert_eq!(live, vec![v("Cons")]);
}

#[test]
fn liveness_releases_what_a_binding_reads_last() {
    let b = Body::Bind(Bind(
        Pattern::Variable(v("y")),
        cons(),
        Box::new(Compute::Variable(v("a"))),
        Box::new(Body::Compute(Compute::Constructor(v("Cons"), cons(), None, vec![v("y")]))),
    ));
    let (r, live) = b.insert_reuse_from_liveness(scope_of_a());
    assert_eq!(
        format!("{:?}", r),
        format!(
            "Bind(Bind(Variable(\"y\"), {0}, Variable(\"a\"), DropReuse(\"__reuse_a\", \"a\", Compute(Constructor(\"Cons\", {0}, Some(\"__reuse_a\"), [\"y\"])))))",
            CONS
        )
    );
    assert_eq!(live, vec![v("Cons")]);
}

#[test]
fn liveness_keeps_a_variable_read_later() {
    let b = Body::If(If(
        v("a"),
        Box::new(Body::Compute(Compute::Variable(v("a")))),
        Box::new(Body::Compute(Compute::Variable(v("c")))),
    ));
    let (r, live) = b.insert_reuse_from_liveness(scope_of_a());
    assert_eq!(format!("{:?}", r), "If(If(\"a\", Compute(Variable(\"a\")), Compute(Variable(\"c\"))))");
    assert_eq!(live, vec![v("a"), v("c")]);
}

#[test]
fn process_match_duplicates_pattern_variables() {
    let (r, live) = rebuild_match().process_match(scope_of_a());
    assert_eq!(
        format!("{:?}", r),
        format!(
            "Drop(\"a\", Match(Match(\"a\", [(Constructor(\"Cons\", [Variable(\"x\"), Variable(\"xx\")]), Dup(\"xx\", Dup(\"x\", DropReuse(\"__reuse_a\", \"a\", Compute(Constructor(\"Cons\", {}, Some(\"__reuse_a\"), [\"x\", \"xx\"]))))))])))",
            CONS
        )
    );
    assert_eq!(live, vec![v("Cons")]);
}

#[test]
fn process_match_of_a_closure_works_in_its_scope() {
    let c = Compute::Closure {
        fun_type: FunctionType { params: vec![(Type::Int, Owned::Linear)], ret_type: Box::new(Type::Int) },
        free_vars: vec![v("a")],
        params: vec![v("p")],
        body: Box::new(Body::Compute(Compute::Variable(v("p")))),
    };
    let (r, live) = c.process_match(scope_of_a());
    assert_eq!(
        format!("{:?}", r),
        "Closure { fun_type: FunctionType { params: [(Int, Linear)], ret_type: Int }, free_vars: [\"a\"], params: [\"p\"], body: Drop(\"a\", Drop(\"a\", Compute(Variable(\"p\")))) }"
    );
    assert_eq!(live, vec![v("a")]);
}

#[test]
fn rewrite_construct_below_a_dup_reuses_its_variable() {
    let d = Body::Dup(v("b"), Box::new(Body::Compute(Compute::Constructor(v("Cons"), cons(), None, vec![v("x")]))));
    let r = d.rewrite_construct(&v("a"), &cons()).unwrap();
    assert_eq!(
        format!("{:?}", r),
        format!("Dup(\"b\", Compute(Constructor(\"Cons\", {}, Some(\"__reuse_b\"), [\"x\"])))", CONS)
    );
}

#[test]
fn rewrite_construct_tries_the_bound_value_first() {
    let b = Bind(
        Pattern::Variable(v("y")),
        cons(),
        Box::new(Compute::Constructor(v("Cons"), cons(), None, vec![])),
        Box::new(Body::Compute(Compute::Constructor(v("Cons"), cons(), None, vec![]))),
    );
    let r = b.rewrite_construct(&v("a"), &cons()).unwrap();
    assert_eq!(
        format!("{:?}", r),
        format!(
            "Bind(Variable(\"y\"), {0}, Constructor(\"Cons\", {0}, Some(\"__reuse_a\"), []), Compute(Constructor(\"Cons\", {0}, None, [])))",
            CONS
        )
    );
    let taken = Compute::Constructor(v("Cons"), cons(), Some(v("__reuse_z")), vec![]);
    assert!(taken.rewrite_construct(&v("a"), &cons()).is_none());
}

#[test]
fn rewrite_construct_drops_in_the_branch_without_constructor() {
    let b = Body::If(If(
        v("c"),
        Box::new(Body::Compute(Compute::Variable(v("a")))),
        Box::new(Body::Compute(Compute::Constructor(v("Cons"), cons(), None, vec![]))),
    ));
    let r = b.rewrite_construct(&v("a"), &cons()).unwrap();
    assert_eq!(
        format!("{:?}", r),
        format!(
            "If(If(\"c\", Drop(\"a\", Compute(Variable(\"a\"))), Compute(Constructor(\"Cons\", {}, Some(\"__reuse_a\"), []))))",
            CONS
        )
    );
    let m = Match(v("a"), vec![(Pattern::Wildcard, Body::Compute(Compute::Variable(v("a"))))]);
    assert!(m.rewrite_construct(&v("a"), &cons()).is_none());
}

#[test]
fn free_vars_of_expressions_and_values() {
    let e: Expr = Body::Bind(Bind(
        Pattern::Constructor(v("Cons"), vec![Pattern::Variable(v("x")), Pattern::Wildcard]),
        cons(),
        Box::new(Compute::Invoke(v("f"), vec![v("a"), v("b"), v("a")])),
        Box::new(Body::If(If(
            v("x"),
            Box::new(Body::Compute(Compute::Variable(v("c")))),
            Box::new(Body::Compute(Compute::Variable(v("x")))),
        ))),
    ));
    assert_eq!(e.free_vars(), vec![v("c"), v("f"), v("a"), v("b")]);
    let val: Value = Compute::Constructor(v("Pair"), cons(), None, vec![v("p"), v("q"), v("p")]);
    assert_eq!(val.free_vars(), vec![v("p"), v("q"), v("Pair")]);
    let m = Match(
        v("l"),
        vec![
            (Pattern::Variable(v("h")), Body::Compute(Compute::Variable(v("h")))),
            (Pattern::Wildcard, Body::Compute(Compute::Variable(v("k")))),
        ],
    );
    assert_eq!(m.free_vars(), vec![v("k"), v("l")]);
}

#[test]
fn patterns_of_the_first_language() {
    let p = Pattern::Constructor(
        v("Cons"),
        vec![Pattern::Variable(v("x")), Pattern::Constructor(v("Cons"), vec![Pattern::Variable(v("y")), Pattern::Variable(v("x"))])],
    );
    assert_eq!(p.defined_vars(), vec![v("x"), v("y")]);
    let nested = Type::Struct(StructType { name: v("Cons"), fields: vec![Type::Int, cons()] });
    let b = p.type_binding(&nested);
    assert_eq!(format!("{:?}", b), "[(\"y\", Int), (\"x\", Int)]");
}

#[test]
fn the_scope_walk_changes_nothing() {
    let mut b = rebuild_match();
    let before = format!("{:?}", b);
    b.insert_drop_reuse(scope_of_a());
    assert_eq!(format!("{:?}", b), before);
    let mut c = Compute::Closure {
        fun_type: FunctionType { params: vec![], ret_type: Box::new(Type::Int) },
        free_vars: vec![],
        params: vec![],
        body: Box::new(rebuild_match()),
    };
    let before = format!("{:?}", c);
    c.insert_drop_reuse(scope_of_a());
    assert_eq!(format!("{:?}", c), before);
}
