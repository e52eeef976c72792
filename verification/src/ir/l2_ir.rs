//! The intermediate language in administrative normal form in which every
//! variable use either consumes or borrows, before ownership is made explicit.
use vstd::prelude::*;

use crate::ir::common::{Name, Pattern, PatternV};
use crate::ir::l3_ir::copy_args;
use crate::names::{copy_names, names_view, pairs_view, NameV};
use crate::types::{FunctionType, Owned, Type, TypeV};

verus! {

/// A body of the intermediate language in administrative normal form, before
/// ownership is made explicit.
#[derive(Debug)]
pub enum Body {
    Variable(Name),
    Bind(Bind),
    BindPattern(BindPattern),
    If(If),
    Match(Match),
}

#[derive(Debug)]
pub enum Compute {
    Invoke(Name, Vec<(Name, Owned)>),
    Closure { fun_type: FunctionType, free_vars: Vec<Name>, params: Vec<Name>, body: Box<Body> },
    Constructor(String, Type, Vec<Name>),
}

#[derive(Debug)]
pub struct Bind {
    pub var: Name,
    pub ty: Type,
    pub value: Box<Compute>,
    pub cont: Box<Body>,
}

#[derive(Debug)]
pub struct BindPattern {
    pub pat: Pattern,
    pub ty: Type,
    pub value: Name,
    pub cont: Box<Body>,
}

#[derive(Debug)]
pub struct If {
    pub cond: Name,
    pub then_: Box<Body>,
    pub else_: Box<Body>,
}

#[derive(Debug)]
pub struct Match {
    pub value: Name,
    pub matchs: Vec<(Pattern, Body)>,
}

#[derive(Debug)]
pub struct Function {
    pub name: Name,
    pub return_type: Type,
    pub args: Vec<(Name, (Type, Owned))>,
    pub body: Body,
}

/// Mathematical model of a [`Body`].
#[allow(inconsistent_fields)]
pub enum BodyV {
    Variable(NameV),
    Bind { var: NameV, ty: TypeV, value: Box<ComputeV>, cont: Box<BodyV> },
    BindPattern { pat: PatternV, ty: TypeV, value: NameV, cont: Box<BodyV> },
    If { cond: NameV, then_: Box<BodyV>, else_: Box<BodyV> },
    Match { value: NameV, arms: Seq<(PatternV, BodyV)> },
}

/// Mathematical model of a [`Compute`]; the function type of a closure is a `TypeV::Function`.
pub enum ComputeV {
    Invoke(NameV, Seq<(NameV, Owned)>),
    Closure { fun_type: TypeV, free_vars: Seq<NameV>, params: Seq<NameV>, body: Box<BodyV> },
    Constructor(NameV, TypeV, Seq<NameV>),
}

pub open spec fn body_view(b: Body) -> BodyV
    decreases b,
{
    match b {
        Body::Variable(v) => BodyV::Variable(v@),
        Body::Bind(x) => BodyV::Bind {
            var: x.var@,
            ty: x.ty@,
            value: Box::new(compute_view(*x.value)),
            cont: Box::new(body_view(*x.cont)),
        },
        Body::BindPattern(x) => BodyV::BindPattern {
            pat: x.pat@,
            ty: x.ty@,
            value: x.value@,
            cont: Box::new(body_view(*x.cont)),
        },
        Body::If(x) => BodyV::If {
            cond: x.cond@,
            then_: Box::new(body_view(*x.then_)),
            else_: Box::new(body_view(*x.else_)),
        },
        Body::Match(x) => BodyV::Match { value: x.value@, arms: arms_view(x.matchs@) },
    }
}

pub open spec fn compute_view(c: Compute) -> ComputeV
    decreases c,
{
    match c {
        Compute::Invoke(f, args) => ComputeV::Invoke(f@, pairs_view(args@)),
        Compute::Closure { fun_type, free_vars, params, body } => ComputeV::Closure {
            fun_type: Type::Function(fun_type)@,
            free_vars: names_view(free_vars@),
            params: names_view(params@),
            body: Box::new(body_view(*body)),
        },
        Compute::Constructor(c, ty, args) => ComputeV::Constructor(c@, ty@, names_view(args@)),
    }
}

pub open spec fn arms_view(s: Seq<(Pattern, Body)>) -> Seq<(PatternV, BodyV)>
    decreases s,
{
    Seq::new(
        s.len(),
        |i: int|
            if 0 <= i < s.len() {
                (s[i].0@, body_view(s[i].1))
            } else {
                (PatternV::Wildcard, BodyV::Variable(Seq::empty()))
            },
    )
}

impl View for Body {
    type V = BodyV;

    open spec fn view(&self) -> BodyV {
        body_view(*self)
    }
}

impl View for Compute {
    type V = ComputeV;

    open spec fn view(&self) -> ComputeV {
        compute_view(*self)
    }
}

impl View for Bind {
    type V = BodyV;

    open spec fn view(&self) -> BodyV {
        body_view(Body::Bind(*self))
    }
}

impl View for BindPattern {
    type V = BodyV;

    open spec fn view(&self) -> BodyV {
        body_view(Body::BindPattern(*self))
    }
}

impl View for If {
    type V = BodyV;

    open spec fn view(&self) -> BodyV {
        body_view(Body::If(*self))
    }
}

impl View for Match {
    type V = BodyV;

    open spec fn view(&self) -> BodyV {
        body_view(Body::Match(*self))
    }
}

impl Body {
    pub fn deep_copy(&self) -> (r: Body)
        ensures
            r@ == self@,
        decreases self,
    {
        match self {
            Body::Variable(v) => Body::Variable(v.clone()),
            Body::Bind(x) => Body::Bind(Bind {
                var: x.var.clone(),
                ty: x.ty.clone(),
                value: Box::new(x.value.deep_copy()),
                cont: Box::new(x.cont.deep_copy()),
            }),
            Body::BindPattern(x) => Body::BindPattern(BindPattern {
                pat: x.pat.clone(),
                ty: x.ty.clone(),
                value: x.value.clone(),
                cont: Box::new(x.cont.deep_copy()),
            }),
            Body::If(x) => Body::If(If {
                cond: x.cond.clone(),
                then_: Box::new(x.then_.deep_copy()),
                else_: Box::new(x.else_.deep_copy()),
            }),
            Body::Match(x) => {
                let mut arms: Vec<(Pattern, Body)> = Vec::new();
                let mut i: usize = 0;
                while i < x.matchs.len()
                    invariant
                        *self == Body::Match(*x),
                        i <= x.matchs.len(),
                        arms@.len() == i,
                        arms_view(arms@) == arms_view(x.matchs@).take(i as int),
                    decreases x.matchs.len() - i,
                {
                    proof {
                        assert(decreases_to!(*self => self->Match_0));
                        assert(decreases_to!(*x => x.matchs));
                        assert(decreases_to!(x.matchs => x.matchs@));
                        assert(decreases_to!(x.matchs@ => x.matchs@[i as int]));
                        assert(decreases_to!(x.matchs@[i as int] => x.matchs@[i as int].1));
                    }
                    let ghost prev = arms@;
                    let p = x.matchs[i].0.clone();
                    let b = x.matchs[i].1.deep_copy();
                    arms.push((p, b));
                    assert(arms_view(arms@) =~= arms_view(x.matchs@).take(i + 1)) by {
                        assert forall|j: int| 0 <= j < i + 1 implies arms_view(arms@)[j] == arms_view(x.matchs@).take(i + 1)[j] by {
                            if j < i {
                                assert(arms@[j] == prev[j]);
                                assert(arms_view(prev)[j] == arms_view(x.matchs@).take(i as int)[j]);
                            }
                        }
                    }
                    i = i + 1;
                }
                assert(arms_view(x.matchs@).take(x.matchs.len() as int) =~= arms_view(x.matchs@));
                Body::Match(Match { value: x.value.clone(), matchs: arms })
            },
        }
    }
}

impl Compute {
    pub fn deep_copy(&self) -> (r: Compute)
        ensures
            r@ == self@,
        decreases self,
    {
        match self {
            Compute::Invoke(f, args) => Compute::Invoke(f.clone(), copy_args(args)),
            Compute::Closure { fun_type, free_vars, params, body } => Compute::Closure {
                fun_type: fun_type.deep_copy(),
                free_vars: copy_names(free_vars),
                params: copy_names(params),
                body: Box::new(body.deep_copy()),
            },
            Compute::Constructor(c, ty, args) => Compute::Constructor(c.clone(), ty.clone(), copy_names(args)),
        }
    }
}

impl Clone for Body {
    fn clone(&self) -> (r: Body)
        ensures
            r@ == self@,
    {
        self.deep_copy()
    }
}

impl Clone for Compute {
    fn clone(&self) -> (r: Compute)
        ensures
            r@ == self@,
    {
        self.deep_copy()
    }
}

} // verus!
