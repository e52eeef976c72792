use reuse::ir::common::Pattern;
use reuse::ir::l2_ir::{Bind, BindPattern, Body, Compute, Function, If, Match};
use reuse::pass::l2::use_check::Used;
use reuse::types::{FunctionType, Owned, StructType, Type};

fn cons() -> Type {
    Type::Struct(StructType { name: "Cons".to_owned(), fields: vec![Type::Int, Type::Int] })
}

fn v(s: &str) -> String {
    s.to_string()
}

fn linearized(f: Function) -> String {
    let mut used = Used::new();
    f.use_check(&mut used).unwrap();
    let linears = used.to_linears();
    f.linearize(&linears).to_string()
}

#[test]
fn linearize_destruct_then_rebuild() {
    let t = cons();
    let f = Function {
        name: v("test"),
        return_type: t.clone(),
        args: vec![(v("a"), (t.clone(), Owned::Linear))],
        body: Body::BindPattern(BindPattern {
            pat: Pattern::Constructor(v("Cons"), vec![Pattern::Variable(v("x")), Pattern::Variable(v("xx"))]),
            ty: t.clone(),
            value: v("a"),
            cont: Box::new(Body::Bind(Bind {
                var: v("t"),
                ty: t.clone(),
                value: Box::new(Compute::Constructor(v("Cons"), t.clone(), vec![v("x"), v("xx")])),
                cont: Box::new(Body::Variable(v("t"))),
            })),
        }),
    };
    assert_eq!(
        linearized(f),
        "fn test(a: Cons(int, int)) -> Cons(int, int) {\nlet Cons(x, xx) = a;\nlet t = Cons(x, xx);\nt\n}\n"
    );
}

#[test]
fn linearize_duplicates_a_variable_read_again() {
    let t = cons();
    let f = Function {
        name: v("test"),
        return_type: t.clone(),
        args: vec![(v("a"), (t.clone(), Owned::Linear))],
        body: Body::Bind(Bind {
            var: v("_"),
            ty: Type::Bool,
            value: Box::new(Compute::Invoke(v("take"), vec![(v("a"), Owned::Linear)])),
            cont: Box::new(Body::Bind(Bind {
                var: v("_"),
                ty: Type::Bool,
                value: Box::new(Compute::Invoke(v("identity"), vec![(v("a"), Owned::Borrow)])),
                cont: Box::new(Body::Bind(Bind {
                    var: v("r"),
                    ty: Type::Bool,
                    value: Box::new(Compute::Invoke(v("take"), vec![(v("a"), Owned::Linear)])),
                    cont: Box::new(Body::Variable(v("r"))),
                })),
            })),
        }),
    };
    assert_eq!(
        linearized(f),
        "fn test(a: Cons(int, int)) -> Cons(int, int) {\ndup a;\nlet _ = take(a);\ndup a;\nlet _ = identity(^a);\nlet r = take(a);\nr\n}\n"
    );
}

#[test]
fn linearize_match_on_a_borrowed_value() {
    // `m` is only matched, never consumed: the match borrows it.
    let t = cons();
    let f = Function {
        name: v("first"),
        return_type: Type::Int,
        args: vec![(v("m"), (t.clone(), Owned::Borrow))],
        body: Body::Match(Match {
            value: v("m"),
            matchs: vec![(
                Pattern::Constructor(v("Cons"), vec![Pattern::Variable(v("h")), Pattern::Wildcard]),
                Body::Variable(v("h")),
            )],
        }),
    };
    let mut used = Used::new();
    f.use_check(&mut used).unwrap();
    assert_eq!(used.find("m"), Some(Some(Owned::Linear)));
    assert_eq!(used.find("h"), Some(Some(Owned::Linear)));
    let linears = used.to_linears();
    assert_eq!(
        f.linearize(&linears).to_string(),
        "fn first(^m: Cons(int, int)) -> int {\nmatch^ m {\nCons(h, _) => {\nh\n}}\n\n}\n"
    );
}

#[test]
fn use_check_borrow_before_consume_is_accepted() {
    let f = Body::If(If {
        cond: v("c"),
        then_: Box::new(Body::Variable(v("c"))),
        else_: Box::new(Body::Variable(v("d"))),
    });
    let mut used = Used::new();
    assert_eq!(f.use_check(&mut used), Ok(()));
    assert_eq!(used.find("c"), Some(Some(Owned::Linear)));
    assert_eq!(used.find("d"), Some(Some(Owned::Linear)));
    assert_eq!(used.find("e"), None);
}

#[test]
fn free_vars_of_second_language() {
    let t = cons();
    let b = Body::Bind(Bind {
        var: v("y"),
        ty: t.clone(),
        value: Box::new(Compute::Invoke(v("f"), vec![(v("a"), Owned::Linear), (v("b"), Owned::Borrow)])),
        cont: Box::new(Body::If(If {
            cond: v("b"),
            then_: Box::new(Body::Variable(v("y"))),
            else_: Box::new(Body::Variable(v("a"))),
        })),
    });
    assert_eq!(b.free_vars(), vec![v("b"), v("y"), v("a"), v("f")]);
    let c = Compute::Invoke(v("f"), vec![(v("a"), Owned::Linear), (v("b"), Owned::Borrow)]);
    assert_eq!(c.free_linear_vars(&vec![v("f")]), vec![v("f"), v("a")]);
    assert_eq!(c.free_linear_vars(&vec![]), vec![v("a")]);
}

#[test]
fn linearizing_keeps_what_a_body_reads() {
    let t = cons();
    let body = Body::Bind(Bind {
        var: v("_"),
        ty: Type::Bool,
        value: Box::new(Compute::Invoke(v("take"), vec![(v("a"), Owned::Linear)])),
        cont: Box::new(Body::If(If {
            cond: v("a"),
            then_: Box::new(Body::Bind(Bind {
                var: v("r"),
                ty: t.clone(),
                value: Box::new(Compute::Constructor(v("Cons"), t.clone(), vec![v("a"), v("a")])),
                cont: Box::new(Body::Variable(v("r"))),
            })),
            else_: Box::new(Body::Variable(v("a"))),
        })),
    });
    let mut used = Used::new();
    body.use_check(&mut used).unwrap();
    let linears = used.to_linears();
    let mut before = body.free_vars();
    let mut after = body.linearize(&linears).free_vars();
    before.sort();
    after.sort();
    assert_eq!(before, after);
}

#[test]
fn a_checked_function_with_a_closure_linearizes() {
    let int_to_int = || FunctionType { params: vec![(Type::Int, Owned::Linear)], ret_type: Box::new(Type::Int) };
    let f = Function {
        name: v("make"),
        return_type: Type::Function(int_to_int()),
        args: vec![(v("a"), (Type::Int, Owned::Linear))],
        body: Body::Bind(Bind {
            var: v("g"),
            ty: Type::Function(int_to_int()),
            value: Box::new(Compute::Closure {
                fun_type: int_to_int(),
                free_vars: vec![v("a")],
                params: vec![v("p")],
                body: Box::new(Body::Variable(v("p"))),
            }),
            cont: Box::new(Body::Variable(v("g"))),
        }),
    };
    let mut used = Used::new();
    f.use_check(&mut used).unwrap();
    let linears = used.to_linears();
    assert_eq!(linears, vec![v("g"), v("a")]);
    assert_eq!(
        f.linearize(&linears).to_string(),
        "fn make(a: int) -> (int) -> int {\nlet g = fn(p) -> (int) -> int {\np}\n;\ng\n}\n"
    );
}

#[test]
fn the_whole_pipeline_reuses_the_destructed_cell() {
    let t = cons();
    let f = Function {
        name: v("test"),
        return_type: t.clone(),
        args: vec![(v("a"), (t.clone(), Owned::Linear))],
        body: Body::BindPattern(BindPattern {
            pat: Pattern::Constructor(v("Cons"), vec![Pattern::Variable(v("x")), Pattern::Variable(v("xx"))]),
            ty: t.clone(),
            value: v("a"),
            cont: Box::new(Body::Bind(Bind {
                var: v("t"),
                ty: t.clone(),
                value: Box::new(Compute::Constructor(v("Cons"), t.clone(), vec![v("x"), v("xx")])),
                cont: Box::new(Body::Variable(v("t"))),
            })),
        }),
    };
    let reads = f.body.free_vars();
    let mut used = Used::new();
    f.use_check(&mut used).unwrap();
    let linears = used.to_linears();
    let (r, _) = f.linearize(&linears).insert_drop_reuse();
    for x in r.body.free_vars() {
        assert!(reads.contains(&x));
    }
    assert_eq!(
        r.to_string(),
        "fn test(a: Cons(int, int)) -> Cons(int, int) {\nlet Cons(x, xx) = a;\nlet __reuse_a = drop-reuse a;\nlet t = Cons@__reuse_a(x, xx);\nt\n}\n"
    );
}
