use std::rc::Rc;

use reuse::ir::common::Pattern;
use reuse::ir::l3_ir::{Body, Compute};
use reuse::pass::l2::use_check::Used;
use reuse::types::{FunctionType, Owned, StructType, Type};
use reuse::utils::{find_variable, share, Scope};

fn v(s: &str) -> String {
    s.to_string()
}

fn cons() -> Type {
    Type::Struct(StructType { name: "Cons".to_owned(), fields: vec![Type::Int, Type::Int] })
}

#[test]
fn a_recorded_use_reads_back() {
    let mut u = Used::new();
    assert_eq!(u.find("a"), None);
    assert_eq!(u.update("a", Owned::Borrow), Ok(()));
    assert_eq!(u.find("a"), Some(Some(Owned::Borrow)));
    assert_eq!(u.update("b", Owned::Linear), Ok(()));
    assert_eq!(u.find("a"), Some(Some(Owned::Borrow)));
    assert_eq!(u.find("b"), Some(Some(Owned::Linear)));
    assert_eq!(u.update("a", Owned::Linear), Ok(()));
    assert_eq!(u.find("a"), Some(Some(Owned::Linear)));
}

#[test]
fn a_consumed_variable_stays_consumed() {
    let mut u = Used::new();
    assert_eq!(u.update("a", Owned::Linear), Ok(()));
    assert_eq!(u.update("a", Owned::Borrow), Ok(()));
    assert_eq!(u.find("a"), Some(Some(Owned::Linear)));
    assert_eq!(u.update("a", Owned::Linear), Ok(()));
    assert_eq!(u.find("a"), Some(Some(Owned::Linear)));
}

#[test]
fn linears_are_the_consumed_variables() {
    let mut u = Used::new();
    u.update("a", Owned::Linear).unwrap();
    u.update("b", Owned::Borrow).unwrap();
    u.update("c", Owned::Borrow).unwrap();
    u.update("c", Owned::Linear).unwrap();
    u.update("a", Owned::Borrow).unwrap();
    let mut l = u.to_linears();
    l.sort();
    assert_eq!(l, vec![v("a"), v("c")]);
    assert!(Used::new().to_linears().is_empty());
}

#[test]
fn ownership_is_linear_or_borrowed() {
    assert!(Owned::Linear.is_linear());
    assert!(!Owned::Linear.is_borrow());
    assert!(Owned::Borrow.is_borrow());
    assert!(!Owned::Borrow.is_linear());
}

#[test]
fn structural_equality_of_types() {
    assert!(cons().same(&cons()));
    assert!(!cons().same(&Type::Int));
    let other = Type::Struct(StructType { name: v("Cons"), fields: vec![Type::Int, Type::Bool] });
    assert!(!cons().same(&other));
    let f = Type::Function(FunctionType { params: vec![(Type::Int, Owned::Borrow)], ret_type: Box::new(Type::Bool) });
    let g = Type::Function(FunctionType { params: vec![(Type::Int, Owned::Linear)], ret_type: Box::new(Type::Bool) });
    assert!(f.same(&f.clone()));
    assert!(!f.same(&g));
}

#[test]
fn the_innermost_binding_wins() {
    let outer = Rc::new(Scope(v("a"), 1u32, None));
    let inner = Rc::new(Scope(v("b"), 2u32, Some(outer.clone())));
    let shadow = Scope(v("a"), 3u32, Some(inner.clone()));
    assert_eq!(shadow.find_variable("a"), Some(&3));
    assert_eq!(shadow.find_variable("b"), Some(&2));
    assert_eq!(inner.find_variable("a"), Some(&1));
    assert_eq!(inner.find_variable("c"), None);
    assert!(Rc::ptr_eq(shadow.get_parent().unwrap(), &inner));
    assert!(outer.get_parent().is_none());
    assert_eq!(find_variable(&Some(inner.clone()), "a"), Some(1));
    assert_eq!(find_variable::<u32>(&None, "a"), None);
}

#[test]
fn a_shared_scope_is_the_same_scope() {
    let s = Rc::new(Scope(v("a"), 7u32, None));
    let t = share(&s);
    assert!(Rc::ptr_eq(&s, &t));
    assert_eq!(Rc::strong_count(&s), 2);
    assert_eq!(t.find_variable("a"), Some(&7));
}

#[test]
fn type_binding_of_shared_patterns() {
    let p = Pattern::Constructor(v("Cons"), vec![Pattern::Variable(v("h")), Pattern::Wildcard]);
    assert_eq!(format!("{:?}", p.type_binding(&cons())), "[(\"h\", Int)]");
    assert_eq!(p.defined_vars(), vec![v("h")]);
    let nested = Pattern::Constructor(v("Cons"), vec![Pattern::Variable(v("a")), Pattern::Variable(v("b")), Pattern::Variable(v("c"))]);
    let defined = nested.defined_vars();
    let bound = nested.type_binding(&cons());
    // Only as many sub-patterns as fields are given a type.
    assert_eq!(format!("{:?}", bound), "[(\"a\", Int), (\"b\", Int)]");
    for (name, _) in bound {
        assert!(defined.contains(&name));
    }
    assert_eq!(format!("{:?}", Pattern::Variable(v("z")).type_binding(&Type::Bool)), "[(\"z\", Bool)]");
    assert!(Pattern::Wildcard.type_binding(&Type::Int).is_empty());
}

#[test]
fn printing_types_and_patterns() {
    assert_eq!(cons().to_string(), "Cons(int, int)");
    let f = Type::Function(FunctionType {
        params: vec![(Type::Int, Owned::Borrow), (cons(), Owned::Linear)],
        ret_type: Box::new(Type::Float),
    });
    assert_eq!(f.to_string(), "(^int, Cons(int, int)) -> float");
    assert_eq!(Owned::Borrow.to_string(), "^");
    assert_eq!(Owned::Linear.to_string(), "");
    let p = Pattern::Constructor(v("Cons"), vec![Pattern::Wildcard, Pattern::Variable(v("t"))]);
    assert_eq!(p.to_string(), "Cons(_, t)");
}

#[test]
fn printing_computations() {
    let call = Compute::Invoke(v("f"), vec![(v("a"), Owned::Linear), (v("b"), Owned::Borrow)]);
    assert_eq!(call.to_string(), "f(a, ^b)");
    let closure = Compute::Closure {
        fun_type: FunctionType { params: vec![(Type::Int, Owned::Linear)], ret_type: Box::new(Type::Int) },
        free_vars: vec![v("c")],
        params: vec![v("p")],
        body: Box::new(Body::Move(v("p"))),
    };
    assert_eq!(closure.to_string(), "fn(p) -> (int) -> int {\np}\n");
    let reuse = Compute::Constructor(v("Cons"), cons(), Some(v("r")), vec![v("x"), v("y")]);
    assert_eq!(reuse.to_string(), "Cons@r(x, y)");
    let drop_reuse = Body::DropReuse(v("r"), v("a"), Box::new(Body::Dup(v("b"), Box::new(Body::Move(v("b"))))));
    assert_eq!(drop_reuse.to_string(), "let r = drop-reuse a;\ndup b;\nb");
}

#[test]
fn a_cloned_body_prints_the_same() {
    let b = Body::DropReuse(v("r"), v("a"), Box::new(Body::Move(v("b"))));
    assert_eq!(b.clone().to_string(), b.to_string());
    let c = Compute::Constructor(v("Cons"), cons(), None, vec![v("x")]);
    assert_eq!(c.clone().to_string(), "Cons(x)");
    let s = StructType { name: v("Pair"), fields: vec![Type::Int, Type::Bool] };
    assert_eq!(Type::Struct(s.clone()).to_string(), "Pair(int, bool)");
}
