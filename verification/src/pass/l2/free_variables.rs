//! Free variables in the language of consuming and borrowing uses.
use vstd::prelude::*;

use crate::ir::common::{pattern_vars, PatternV};
use crate::ir::l2_ir::{arms_view, Bind, BindPattern, Body, BodyV, Compute, ComputeV, If, Match};
use crate::names::{
    contains, dedup, difference, difference_of, insert, insert_name, keys, names_view, pairs_view, union,
    union_into, NameV,
};
use crate::pass::l3::free_variables::names_of_args;
use crate::types::Owned;

verus! {

/// The variables a body reads, in order of first appearance.
pub open spec fn fv(b: BodyV) -> Seq<NameV>
    decreases b, 0nat,
{
    match b {
        BodyV::Variable(v) => seq![v],
        BodyV::Bind { value, cont, .. } => union(fv(*cont), fv_compute(*value)),
        BodyV::BindPattern { value, cont, .. } => insert(fv(*cont), value),
        BodyV::If { cond, then_, else_ } => union(union(seq![cond], fv(*then_)), fv(*else_)),
        BodyV::Match { value, arms } => insert(fv_arms(arms, arms.len()), value),
    }
}

/// The variables read by the first `k` arms, without those each arm's pattern binds.
pub open spec fn fv_arms(arms: Seq<(PatternV, BodyV)>, k: nat) -> Seq<NameV>
    decreases arms, k + 1,
{
    if k == 0 || k > arms.len() {
        Seq::empty()
    } else {
        union(
            fv_arms(arms, (k - 1) as nat),
            difference(fv(arms[k - 1].1), pattern_vars(arms[k - 1].0)),
        )
    }
}

/// The variables a computation reads.
pub open spec fn fv_compute(c: ComputeV) -> Seq<NameV> {
    match c {
        ComputeV::Invoke(f, args) => union(seq![f], keys(args)),
        ComputeV::Closure { free_vars, .. } => dedup(free_vars),
        ComputeV::Constructor(c, _, params) => insert(dedup(params), c),
    }
}

/// The arguments passed with the given ownership, in order.
pub open spec fn args_with(args: Seq<(NameV, Owned)>, o: Owned) -> Seq<NameV>
    decreases args.len(),
{
    if args.len() == 0 {
        Seq::empty()
    } else if args.last().1 == o {
        args_with(args.drop_last(), o).push(args.last().0)
    } else {
        args_with(args.drop_last(), o)
    }
}

/// The variables a computation consumes, given the variables `linears` that are linear.
pub open spec fn free_linear(c: ComputeV, linears: Seq<NameV>) -> Seq<NameV> {
    match c {
        ComputeV::Invoke(f, args) => union(
            if linears.contains(f) { seq![f] } else { Seq::empty() },
            args_with(args, Owned::Linear),
        ),
        ComputeV::Closure { free_vars, .. } => dedup(free_vars),
        ComputeV::Constructor(c, _, params) => insert(dedup(params), c),
    }
}

impl Body {
    pub fn free_vars(&self) -> (r: Vec<String>)
        ensures
            names_view(r@) == fv(self@),
        decreases self,
    {
        match self {
            Body::Bind(b) => b.free_vars(),
            Body::BindPattern(b) => b.free_vars(),
            Body::If(i) => i.free_vars(),
            Body::Match(m) => m.free_vars(),
            Body::Variable(var) => {
                let mut r = Vec::new();
                r.push(var.clone());
                assert(names_view(r@) =~= seq![var@]);
                r
            },
        }
    }
}

impl Bind {
    pub fn free_vars(&self) -> (r: Vec<String>)
        ensures
            names_view(r@) == fv(self@),
        decreases self,
    {
        let mut r = self.cont.free_vars();
        let v = self.value.free_vars();
        union_into(&mut r, &v);
        r
    }
}

impl Compute {
    pub fn free_vars(&self) -> (r: Vec<String>)
        ensures
            names_view(r@) == fv_compute(self@),
    {
        match self {
            Compute::Invoke(f, args) => {
                let mut r: Vec<String> = Vec::new();
                r.push(f.clone());
                assert(names_view(r@) =~= seq![f@]);
                let names = names_of_args(args);
                union_into(&mut r, &names);
                r
            },
            Compute::Closure { free_vars, .. } => {
                let mut r: Vec<String> = Vec::new();
                assert(names_view(r@) =~= Seq::<NameV>::empty());
                union_into(&mut r, free_vars);
                r
            },
            Compute::Constructor(c, _ty, params) => {
                let mut r: Vec<String> = Vec::new();
                assert(names_view(r@) =~= Seq::<NameV>::empty());
                union_into(&mut r, params);
                insert_name(&mut r, c.clone());
                r
            },
        }
    }

    /// The variables the computation consumes, given the linear variables `linears`.
    pub fn free_linear_vars(&self, linears: &Vec<String>) -> (r: Vec<String>)
        ensures
            names_view(r@) == free_linear(self@, names_view(linears@)),
    {
        match self {
            Compute::Invoke(f, args) => {
                let mut r: Vec<String> = Vec::new();
                if contains(linears, f) {
                    r.push(f.clone());
                    assert(names_view(r@) =~= seq![f@]);
                } else {
                    assert(names_view(r@) =~= Seq::<NameV>::empty());
                }
                let mut consumed: Vec<String> = Vec::new();
                let mut i: usize = 0;
                while i < args.len()
                    invariant
                        i <= args.len(),
                        names_view(consumed@) == args_with(pairs_view(args@.take(i as int)), Owned::Linear),
                    decreases args.len() - i,
                {
                    assert(pairs_view(args@.take(i + 1)).drop_last() =~= pairs_view(args@.take(i as int)));
                    if let Owned::Linear = args[i].1 {
                        consumed.push(args[i].0.clone());
                        assert(names_view(consumed@) =~= names_view(consumed@).drop_last().push(args@[i as int].0@));
                    }
                    i = i + 1;
                }
                assert(args@.take(args.len() as int) =~= args@);
                union_into(&mut r, &consumed);
                r
            },
            Compute::Closure { free_vars, .. } => {
                let mut r: Vec<String> = Vec::new();
                assert(names_view(r@) =~= Seq::<NameV>::empty());
                union_into(&mut r, free_vars);
                r
            },
            Compute::Constructor(c, _ty, params) => {
                let mut r: Vec<String> = Vec::new();
                assert(names_view(r@) =~= Seq::<NameV>::empty());
                union_into(&mut r, params);
                insert_name(&mut r, c.clone());
                r
            },
        }
    }
}


impl BindPattern {
    pub fn free_vars(&self) -> (r: Vec<String>)
        ensures
            names_view(r@) == fv(self@),
        decreases self,
    {
        let mut r = self.cont.free_vars();
        insert_name(&mut r, self.value.clone());
        r
    }
}

impl If {
    pub fn free_vars(&self) -> (r: Vec<String>)
        ensures
            names_view(r@) == fv(self@),
        decreases self,
    {
        let mut r: Vec<String> = Vec::new();
        r.push(self.cond.clone());
        assert(names_view(r@) =~= seq![self.cond@]);
        let t = self.then_.free_vars();
        union_into(&mut r, &t);
        let e = self.else_.free_vars();
        union_into(&mut r, &e);
        r
    }
}

impl Match {
    pub fn free_vars(&self) -> (r: Vec<String>)
        ensures
            names_view(r@) == fv(self@),
        decreases self,
    {
        let ghost arms = arms_view(self.matchs@);
        assert(self@->arms == arms);
        let mut r: Vec<String> = Vec::new();
        let mut i: usize = 0;
        while i < self.matchs.len()
            invariant
                i <= self.matchs.len(),
                arms == arms_view(self.matchs@),
                self@->arms == arms,
                names_view(r@) == fv_arms(arms, i as nat),
            decreases self.matchs.len() - i,
        {
            proof {
                assert(decreases_to!(self.matchs => self.matchs@));
                assert(decreases_to!(self.matchs@ => self.matchs@[i as int]));
                assert(decreases_to!(self.matchs@[i as int] => self.matchs@[i as int].1));
            }
            let body_vars = self.matchs[i].1.free_vars();
            let pat_vars = self.matchs[i].0.defined_vars();
            let d = difference_of(&body_vars, &pat_vars);
            union_into(&mut r, &d);
            assert(arms[i as int] == (self.matchs@[i as int].0@, self.matchs@[i as int].1@));
            i = i + 1;
        }
        insert_name(&mut r, self.value.clone());
        r
    }
}

} // verus!
