use reuse::ir::common::Pattern;
use reuse::ir::l3_ir::{Bind, BindPattern, Body, Compute, Function, If, Match};
use reuse::pass::l2::use_check::Used;
use reuse::types::{Owned, StructType, Type};

fn cons() -> Type {
    Type::Struct(StructType { name: "Cons".to_owned(), fields: vec![Type::Int, Type::Int] })
}

fn v(s: &str) -> String {
    s.to_string()
}

fn cons_pattern(a: &str, b: &str) -> Pattern {
    Pattern::Constructor(v("Cons"), vec![Pattern::Variable(v(a)), Pattern::Variable(v(b))])
}

/// The text without the lines of reference counting and without reuse marks.
fn erased(text: &str, reused: &str) -> String {
    text.lines()
        .filter(|l| !l.starts_with("drop ") && !l.starts_with("dup ") && !l.contains("drop-reuse"))
        .map(|l| l.replace(&format!("@__reuse_{}", reused), ""))
        .collect::<Vec<_>>()
        .join("\n")
}

/// Every dropped variable is not read by what follows its drop.
fn assert_drops_dead(b: &Body) {
    match b {
        Body::Bind(x) => {
            if let Compute::Closure { body, .. } = &*x.value {
                assert_drops_dead(body);
            }
            assert_drops_dead(&x.cont);
        }
        Body::BindPattern(x) => assert_drops_dead(&x.cont),
        Body::If(x) => {
            assert_drops_dead(&x.then_);
            assert_drops_dead(&x.else_);
        }
        Body::Match(m) => {
            for (_, arm) in &m.matchs {
                assert_drops_dead(arm);
            }
        }
        Body::Move(_) => {}
        Body::Dup(_, e) => assert_drops_dead(e),
        Body::Drop(v, e) | Body::DropReuse(_, v, e) => {
            assert!(!e.free_vars().contains(v));
            assert_drops_dead(e);
        }
    }
}

fn rebuild() -> Function {
    let t = cons();
    Function {
        name: v("test"),
        return_type: t.clone(),
        args: vec![(v("a"), (t.clone(), Owned::Linear))],
        body: Body::BindPattern(BindPattern {
            pat: cons_pattern("x", "xx"),
            owned: Owned::Linear,
            ty: t.clone(),
            value: v("a"),
            cont: Box::new(Body::Bind(Bind {
                var: v("t"),
                ty: t.clone(),
                value: Box::new(Compute::Constructor(v("Cons"), t.clone(), None, vec![v("x"), v("xx")])),
                cont: Box::new(Body::Move(v("t"))),
            })),
        }),
    }
}

#[test]
fn destructed_cell_is_reused_by_the_rebuilt_one() {
    let f = rebuild();
    let before = f.to_string();
    let (r, live) = f.insert_drop_reuse();
    let after = r.to_string();
    assert_eq!(
        after,
        "fn test(a: Cons(int, int)) -> Cons(int, int) {\nlet Cons(x, xx) = a;\nlet __reuse_a = drop-reuse a;\nlet t = Cons@__reuse_a(x, xx);\nt\n}\n"
    );
    assert_eq!(live, vec![v("t"), v("a")]);
    assert_eq!(erased(&after, "a"), erased(&before, "a"));
    assert_drops_dead(&r.body);
}

#[test]
fn each_branch_drops_what_it_does_not_use() {
    let t = cons();
    let f = Function {
        name: v("test"),
        return_type: Type::Int,
        args: vec![(v("a"), (t.clone(), Owned::Linear))],
        body: Body::BindPattern(BindPattern {
            pat: cons_pattern("x", "xx"),
            owned: Owned::Linear,
            ty: t.clone(),
            value: v("a"),
            cont: Box::new(Body::If(If {
                cond: v("x"),
                then_: Box::new(Body::Move(v("x"))),
                else_: Box::new(Body::Move(v("xx"))),
            })),
        }),
    };
    let before = f.to_string();
    let (r, live) = f.insert_drop_reuse();
    let after = r.to_string();
    assert_eq!(
        after,
        "fn test(a: Cons(int, int)) -> int {\nlet Cons(x, xx) = a;\ndrop a;\nif x then {\ndrop xx;\nx\n} else {\ndrop x;\nxx\n}\n\n}\n"
    );
    assert_eq!(live, vec![v("x"), v("xx"), v("a")]);
    assert_eq!(erased(&after, "a"), erased(&before, "a"));
    assert_drops_dead(&r.body);
}

#[test]
fn rewrite_construct_marks_a_constructor_of_the_same_type() {
    let t = cons();
    let body = Body::Bind(Bind {
        var: v("t"),
        ty: t.clone(),
        value: Box::new(Compute::Constructor(v("Cons"), t.clone(), None, vec![v("x"), v("y")])),
        cont: Box::new(Body::Move(v("t"))),
    });
    let r = body.rewrite_construct(&v("a"), &t).unwrap();
    assert_eq!(r.to_string(), "let t = Cons@__reuse_a(x, y);\nt");
    assert!(body.rewrite_construct(&v("a"), &Type::Int).is_none());
    assert!(Body::Move(v("t")).rewrite_construct(&v("a"), &t).is_none());
}

#[test]
fn rewrite_construct_drops_in_the_other_branch() {
    let t = cons();
    let body = Body::If(If {
        cond: v("c"),
        then_: Box::new(Body::Move(v("c"))),
        else_: Box::new(Body::Bind(Bind {
            var: v("t"),
            ty: t.clone(),
            value: Box::new(Compute::Constructor(v("Cons"), t.clone(), None, vec![])),
            cont: Box::new(Body::Move(v("t"))),
        })),
    });
    let r = body.rewrite_construct(&v("a"), &t).unwrap();
    assert_eq!(r.to_string(), "if c then {\ndrop a;\nc\n} else {\nlet t = Cons@__reuse_a();\nt\n}\n");
}

#[test]
fn rewrite_construct_in_match_arms() {
    let t = cons();
    let m = Match {
        value: v("l"),
        owned: Owned::Linear,
        matchs: vec![
            (Pattern::Wildcard, Body::Move(v("l"))),
            (
                cons_pattern("h", "tl"),
                Body::Bind(Bind {
                    var: v("t"),
                    ty: t.clone(),
                    value: Box::new(Compute::Constructor(v("Cons"), t.clone(), None, vec![v("tl"), v("h")])),
                    cont: Box::new(Body::Move(v("t"))),
                }),
            ),
        ],
    };
    let r = m.rewrite_construct(&v("l"), &t).unwrap();
    assert_eq!(
        Body::Match(r).to_string(),
        "match l {\n_ => {\ndrop l;\nl\n},\nCons(h, tl) => {\nlet t = Cons@__reuse_l(tl, h);\nt\n}}\n"
    );
    let none = Match { value: v("l"), owned: Owned::Borrow, matchs: vec![(Pattern::Wildcard, Body::Move(v("l")))] };
    assert!(none.rewrite_construct(&v("l"), &t).is_none());
}

#[test]
fn free_vars_of_linear_language() {
    let t = cons();
    let body = Body::BindPattern(BindPattern {
        pat: cons_pattern("x", "xx"),
        owned: Owned::Linear,
        ty: t.clone(),
        value: v("a"),
        cont: Box::new(Body::Drop(v("b"), Box::new(Body::Move(v("x"))))),
    });
    // Reference counting does not read its variable.
    assert_eq!(body.free_vars(), vec![v("x"), v("a")]);
    let fresh = Compute::Constructor(v("Cons"), t.clone(), None, vec![v("x")]);
    assert_eq!(fresh.free_vars(), vec![v("x"), v("Cons")]);
    // A constructor that reuses memory is taken to read nothing.
    let reused = Compute::Constructor(v("Cons"), t.clone(), Some(v("__reuse_a")), vec![v("x")]);
    assert_eq!(reused.free_vars(), Vec::<String>::new());
}

#[test]
fn use_check_of_linear_language() {
    let t = cons();
    let body = Body::BindPattern(BindPattern {
        pat: cons_pattern("x", "xx"),
        owned: Owned::Borrow,
        ty: t,
        value: v("a"),
        cont: Box::new(Body::Move(v("x"))),
    });
    let mut used = Used::new();
    assert_eq!(body.use_check(&mut used), Ok(()));
    assert_eq!(used.find("x"), Some(Some(Owned::Linear)));
    assert_eq!(used.find("xx"), None);
    let mut linears = used.to_linears();
    linears.sort();
    assert_eq!(linears, vec![v("x")]);
}

#[test]
fn the_pass_adds_no_read() {
    let f = rebuild();
    let body_reads = f.body.free_vars();
    let (r, _) = f.insert_drop_reuse();
    for x in r.body.free_vars() {
        assert!(body_reads.contains(&x));
    }
    // The rebuilt cell reuses memory and reads nothing.
    let t = cons();
    let body = Body::Bind(Bind {
        var: v("t"),
        ty: t.clone(),
        value: Box::new(Compute::Constructor(v("Cons"), t.clone(), None, vec![v("x"), v("y")])),
        cont: Box::new(Body::Move(v("t"))),
    });
    let r = body.rewrite_construct(&v("a"), &t).unwrap();
    assert_eq!(body.free_vars(), vec![v("t"), v("x"), v("y"), v("Cons")]);
    assert_eq!(r.free_vars(), vec![v("t")]);
}

#[test]
fn each_match_arm_drops_what_it_does_not_use() {
    let t = cons();
    let f = Function {
        name: v("test"),
        return_type: t.clone(),
        args: vec![(v("a"), (t.clone(), Owned::Linear)), (v("l"), (t.clone(), Owned::Linear))],
        body: Body::Match(Match {
            value: v("l"),
            owned: Owned::Borrow,
            matchs: vec![(Pattern::Wildcard, Body::Move(v("a"))), (Pattern::Wildcard, Body::Move(v("l")))],
        }),
    };
    let (r, _) = f.insert_drop_reuse();
    match &r.body {
        Body::Match(m) => {
            assert_eq!(m.matchs.len(), 2);
            assert_eq!(m.matchs[0].1.to_string(), "drop l;\na");
            assert_eq!(m.matchs[1].1.to_string(), "drop a;\nl");
        }
        _ => panic!("the match is kept"),
    }
    assert_drops_dead(&r.body);
}

#[test]
fn an_invocation_consumes_its_linear_arguments() {
    let mut linears = vec![(v("x"), 1usize), (v("y"), 2usize), (v("z"), 1usize)];
    let mut reuse_types = vec![(v("x"), cons())];
    let c = Compute::Invoke(v("f"), vec![(v("x"), Owned::Linear), (v("y"), Owned::Linear), (v("z"), Owned::Borrow)]);
    let r = c.insert_drop_reuse(&mut linears, &mut reuse_types);
    assert!(matches!(&r, Compute::Invoke(f, args) if f == "f" && args.len() == 3));
    // A count of one is removed, another is raised by one, a borrowed argument keeps its count.
    linears.sort();
    assert_eq!(linears, vec![(v("y"), 3usize), (v("z"), 1usize)]);
    assert_eq!(reuse_types.len(), 1);
}

#[test]
fn rewrite_construct_tries_the_continuation_before_the_value() {
    let t = cons();
    let body = Body::Dup(
        v("d"),
        Box::new(Body::Bind(Bind {
            var: v("t"),
            ty: t.clone(),
            value: Box::new(Compute::Constructor(v("Cons"), t.clone(), None, vec![])),
            cont: Box::new(Body::Bind(Bind {
                var: v("u"),
                ty: t.clone(),
                value: Box::new(Compute::Constructor(v("Cons"), t.clone(), None, vec![])),
                cont: Box::new(Body::Move(v("u"))),
            })),
        })),
    );
    let r = body.rewrite_construct(&v("a"), &t).unwrap();
    assert_eq!(r.to_string(), "dup d;\nlet t = Cons();\nlet u = Cons@__reuse_a();\nu");
}
