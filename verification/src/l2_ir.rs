//! The first intermediate language in administrative normal form: bodies bind
//! patterns, and reference counting is explicit.
use vstd::prelude::*;

use crate::ir::common::PatternV;
use crate::names::{copy_names, names_view, NameV};
use crate::types::{FunctionType, Type, TypeV};

verus! {

pub type Name = String;

#[derive(Debug)]
pub enum Body {
    Compute(Compute),
    Bind(Bind),
    Dup(Name, Box<Body>),
    Drop(Name, Box<Body>),
    If(If),
    Match(Match),
    /// Drops the variable (second name) and keeps its memory under the first name for reuse.
    DropReuse(Name, Name, Box<Body>),
}

/// In the first passes a body is also called an expression.
pub type Expr = Body;

/// In the first passes a computation is also called a value.
pub type Value = Compute;

#[derive(Debug)]
pub enum Compute {
    Variable(Name),
    Invoke(Name, Vec<Name>),
    Closure { fun_type: FunctionType, free_vars: Vec<Name>, params: Vec<Name>, body: Box<Body> },
    /// Constructor name, type, the memory it reuses (if any), fields.
    Constructor(String, Type, Option<String>, Vec<Name>),
}

/// Binds the pattern, of the given type, to the computation's value in the continuation.
#[derive(Debug)]
pub struct Bind(pub Pattern, pub Type, pub Box<Compute>, pub Box<Body>);

#[derive(Debug)]
pub struct If(pub Name, pub Box<Body>, pub Box<Body>);

#[derive(Debug)]
pub struct Match(pub Name, pub Vec<(Pattern, Body)>);

#[derive(Debug)]
pub enum Pattern {
    Wildcard,
    Variable(Name),
    Constructor(Name, Vec<Pattern>),
}

#[derive(Debug)]
pub struct Function {
    pub name: Name,
    pub args: Vec<Name>,
    pub body: Body,
}

/// Mathematical model of a [`Body`].
#[allow(inconsistent_fields)]
pub enum BodyV {
    Compute(ComputeV),
    Bind { pat: PatternV, ty: TypeV, value: Box<ComputeV>, cont: Box<BodyV> },
    Dup(NameV, Box<BodyV>),
    Drop(NameV, Box<BodyV>),
    If { cond: NameV, then_: Box<BodyV>, else_: Box<BodyV> },
    Match { value: NameV, arms: Seq<(PatternV, BodyV)> },
    DropReuse(NameV, NameV, Box<BodyV>),
}

/// Mathematical model of a [`Compute`]; the function type of a closure is a `TypeV::Function`.
pub enum ComputeV {
    Variable(NameV),
    Invoke(NameV, Seq<NameV>),
    Closure { fun_type: TypeV, free_vars: Seq<NameV>, params: Seq<NameV>, body: Box<BodyV> },
    Constructor(NameV, TypeV, Option<NameV>, Seq<NameV>),
}

pub open spec fn opt_name_view(o: Option<String>) -> Option<NameV> {
    match o {
        Some(s) => Some(s@),
        None => None,
    }
}

pub open spec fn pattern_view(p: Pattern) -> PatternV
    decreases p,
{
    match p {
        Pattern::Wildcard => PatternV::Wildcard,
        Pattern::Variable(v) => PatternV::Variable(v@),
        Pattern::Constructor(c, ps) => PatternV::Constructor(c@, patterns_view(ps@)),
    }
}

pub open spec fn patterns_view(ps: Seq<Pattern>) -> Seq<PatternV>
    decreases ps,
{
    Seq::new(
        ps.len(),
        |i: int|
            if 0 <= i < ps.len() {
                pattern_view(ps[i])
            } else {
                PatternV::Wildcard
            },
    )
}

pub open spec fn body_view(b: Body) -> BodyV
    decreases b,
{
    match b {
        Body::Compute(c) => BodyV::Compute(compute_view(c)),
        Body::Bind(x) => BodyV::Bind {
            pat: pattern_view(x.0),
            ty: x.1@,
            value: Box::new(compute_view(*x.2)),
            cont: Box::new(body_view(*x.3)),
        },
        Body::Dup(v, e) => BodyV::Dup(v@, Box::new(body_view(*e))),
        Body::Drop(v, e) => BodyV::Drop(v@, Box::new(body_view(*e))),
        Body::If(x) => BodyV::If {
            cond: x.0@,
            then_: Box::new(body_view(*x.1)),
            else_: Box::new(body_view(*x.2)),
        },
        Body::Match(x) => BodyV::Match { value: x.0@, arms: arms_view(x.1@) },
        Body::DropReuse(r, v, e) => BodyV::DropReuse(r@, v@, Box::new(body_view(*e))),
    }
}

pub open spec fn compute_view(c: Compute) -> ComputeV
    decreases c,
{
    match c {
        Compute::Variable(v) => ComputeV::Variable(v@),
        Compute::Invoke(f, args) => ComputeV::Invoke(f@, names_view(args@)),
        Compute::Closure { fun_type, free_vars, params, body } => ComputeV::Closure {
            fun_type: Type::Function(fun_type)@,
            free_vars: names_view(free_vars@),
            params: names_view(params@),
            body: Box::new(body_view(*body)),
        },
        Compute::Constructor(c, ty, reuse, args) => ComputeV::Constructor(
            c@,
            ty@,
            opt_name_view(reuse),
            names_view(args@),
        ),
    }
}

pub open spec fn arms_view(s: Seq<(Pattern, Body)>) -> Seq<(PatternV, BodyV)>
    decreases s,
{
    Seq::new(
        s.len(),
        |i: int|
            if 0 <= i < s.len() {
                (pattern_view(s[i].0), body_view(s[i].1))
            } else {
                (PatternV::Wildcard, BodyV::Compute(ComputeV::Variable(Seq::empty())))
            },
    )
}

impl View for Pattern {
    type V = PatternV;

    open spec fn view(&self) -> PatternV {
        pattern_view(*self)
    }
}

impl View for Body {
    type V = BodyV;

    open spec fn view(&self) -> BodyV {
        body_view(*self)
    }
}

impl View for Compute {
    type V = ComputeV;

    open spec fn view(&self) -> ComputeV {
        compute_view(*self)
    }
}

impl View for Bind {
    type V = BodyV;

    open spec fn view(&self) -> BodyV {
        body_view(Body::Bind(*self))
    }
}

impl View for If {
    type V = BodyV;

    open spec fn view(&self) -> BodyV {
        body_view(Body::If(*self))
    }
}

impl View for Match {
    type V = BodyV;

    open spec fn view(&self) -> BodyV {
        body_view(Body::Match(*self))
    }
}


pub fn copy_opt_name(o: &Option<String>) -> (r: Option<String>)
    ensures
        opt_name_view(r) == opt_name_view(*o),
{
    match o {
        Some(s) => Some(s.clone()),
        None => None,
    }
}

impl Pattern {
    pub fn deep_copy(&self) -> (r: Pattern)
        ensures
            r@ == self@,
        decreases self,
    {
        match self {
            Pattern::Wildcard => Pattern::Wildcard,
            Pattern::Variable(v) => Pattern::Variable(v.clone()),
            Pattern::Constructor(c, ps) => {
                let mut qs: Vec<Pattern> = Vec::new();
                let mut i: usize = 0;
                while i < ps.len()
                    invariant
                        *self == Pattern::Constructor(self->Constructor_0, *ps),
                        i <= ps.len(),
                        qs@.len() == i,
                        forall|j: int| 0 <= j < i ==> pattern_view(#[trigger] qs@[j]) == pattern_view(ps@[j]),
                    decreases ps.len() - i,
                {
                    proof {
                        assert(decreases_to!(*self => self->Constructor_1));
                        assert(decreases_to!(*ps => ps@));
                        assert(decreases_to!(ps@ => ps@[i as int]));
                    }
                    qs.push(ps[i].deep_copy());
                    i = i + 1;
                }
                assert(patterns_view(qs@) =~= patterns_view(ps@));
                Pattern::Constructor(c.clone(), qs)
            },
        }
    }
}

impl Pattern {
    /// The same pattern in the shared pattern type of the later languages.
    pub fn to_common(&self) -> (r: crate::ir::common::Pattern)
        ensures
            r@ == self@,
        decreases self,
    {
        match self {
            Pattern::Wildcard => crate::ir::common::Pattern::Wildcard,
            Pattern::Variable(v) => crate::ir::common::Pattern::Variable(v.clone()),
            Pattern::Constructor(c, ps) => {
                let mut qs: Vec<crate::ir::common::Pattern> = Vec::new();
                let mut i: usize = 0;
                while i < ps.len()
                    invariant
                        *self == Pattern::Constructor(self->Constructor_0, *ps),
                        i <= ps.len(),
                        qs@.len() == i,
                        forall|j: int| 0 <= j < i ==> (#[trigger] qs@[j])@ == pattern_view(ps@[j]),
                    decreases ps.len() - i,
                {
                    proof {
                        assert(decreases_to!(*self => self->Constructor_1));
                        assert(decreases_to!(*ps => ps@));
                        assert(decreases_to!(ps@ => ps@[i as int]));
                    }
                    qs.push(ps[i].to_common());
                    i = i + 1;
                }
                assert(crate::ir::common::patterns_view(qs@) =~= patterns_view(ps@));
                crate::ir::common::Pattern::Constructor(c.clone(), qs)
            },
        }
    }
}

impl Body {
    pub fn deep_copy(&self) -> (r: Body)
        ensures
            r@ == self@,
        decreases self,
    {
        match self {
            Body::Compute(c) => Body::Compute(c.deep_copy()),
            Body::Bind(x) => Body::Bind(Bind(
                x.0.deep_copy(),
                x.1.clone(),
                Box::new(x.2.deep_copy()),
                Box::new(x.3.deep_copy()),
            )),
            Body::Dup(v, e) => Body::Dup(v.clone(), Box::new(e.deep_copy())),
            Body::Drop(v, e) => Body::Drop(v.clone(), Box::new(e.deep_copy())),
            Body::If(x) => Body::If(If(x.0.clone(), Box::new(x.1.deep_copy()), Box::new(x.2.deep_copy()))),
            Body::Match(x) => {
                let mut arms: Vec<(Pattern, Body)> = Vec::new();
                let mut i: usize = 0;
                while i < x.1.len()
                    invariant
                        *self == Body::Match(*x),
                        i <= x.1.len(),
                        arms@.len() == i,
                        arms_view(arms@) == arms_view(x.1@).take(i as int),
                    decreases x.1.len() - i,
                {
                    proof {
                        assert(decreases_to!(*self => self->Match_0));
                        assert(decreases_to!(*x => x.1));
                        assert(decreases_to!(x.1 => x.1@));
                        assert(decreases_to!(x.1@ => x.1@[i as int]));
                        assert(decreases_to!(x.1@[i as int] => x.1@[i as int].1));
                    }
                    let ghost prev = arms@;
                    let p = x.1[i].0.deep_copy();
                    let b = x.1[i].1.deep_copy();
                    arms.push((p, b));
                    assert(arms_view(arms@) =~= arms_view(x.1@).take(i + 1)) by {
                        assert forall|j: int| 0 <= j < i + 1 implies arms_view(arms@)[j] == arms_view(x.1@).take(i + 1)[j] by {
                            if j < i {
                                assert(arms@[j] == prev[j]);
                                assert(arms_view(prev)[j] == arms_view(x.1@).take(i as int)[j]);
                            }
                        }
                    }
                    i = i + 1;
                }
                assert(arms_view(x.1@).take(x.1.len() as int) =~= arms_view(x.1@));
                Body::Match(Match(x.0.clone(), arms))
            },
            Body::DropReuse(r, v, e) => Body::DropReuse(r.clone(), v.clone(), Box::new(e.deep_copy())),
        }
    }
}

impl Compute {
    pub fn deep_copy(&self) -> (r: Compute)
        ensures
            r@ == self@,
        decreases self,
    {
        match self {
            Compute::Variable(v) => Compute::Variable(v.clone()),
            Compute::Invoke(f, args) => Compute::Invoke(f.clone(), copy_names(args)),
            Compute::Closure { fun_type, free_vars, params, body } => Compute::Closure {
                fun_type: fun_type.deep_copy(),
                free_vars: copy_names(free_vars),
                params: copy_names(params),
                body: Box::new(body.deep_copy()),
            },
            Compute::Constructor(c, ty, reuse, args) => Compute::Constructor(
                c.clone(),
                ty.clone(),
                copy_opt_name(reuse),
                copy_names(args),
            ),
        }
    }
}

impl Clone for Pattern {
    fn clone(&self) -> (r: Pattern)
        ensures
            r@ == self@,
    {
        self.deep_copy()
    }
}

impl Clone for Body {
    fn clone(&self) -> (r: Body)
        ensures
            r@ == self@,
    {
        self.deep_copy()
    }
}

impl Clone for Compute {
    fn clone(&self) -> (r: Compute)
        ensures
            r@ == self@,
    {
        self.deep_copy()
    }
}

} // verus!
