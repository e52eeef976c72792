//! Free variables in the linear language.
use vstd::prelude::*;

use crate::ir::common::{pattern_vars, PatternV};
use crate::ir::l3_ir::{Bind, BindPattern, Body, BodyV, Compute, ComputeV, If, Match};
use crate::names::{
    dedup, difference, difference_of, insert, insert_name, keys, lemma_difference_mono, lemma_union_mono, names_view,
    pairs_view, union, union_into, NameV,
};

verus! {

/// The variables a body reads, in order of first appearance.
///
/// Reference-counting instructions do not count as reads of their variable; a
/// constructor that reuses memory is taken to read nothing.
pub open spec fn fv(b: BodyV) -> Seq<NameV>
    decreases b, 0nat,
{
    match b {
        BodyV::Bind { value, cont, .. } => union(fv(*cont), fv_compute(*value)),
        BodyV::BindPattern { value, cont, .. } => insert(fv(*cont), value),
        BodyV::If { cond, then_, else_ } => union(union(seq![cond], fv(*then_)), fv(*else_)),
        BodyV::Match { value, arms, .. } => insert(fv_arms(arms, arms.len()), value),
        BodyV::Move(v) => seq![v],
        BodyV::Dup(_, e) => fv(*e),
        BodyV::Drop(_, e) => fv(*e),
        BodyV::DropReuse(_, _, e) => fv(*e),
    }
}

/// The variables read by the first `k` arms, without those each arm's pattern binds.
pub open spec fn fv_arms(arms: Seq<(PatternV, BodyV)>, k: nat) -> Seq<NameV>
    decreases arms, k + 1,
{
    if k == 0 || k > arms.len() {
        Seq::empty()
    } else {
        union(
            fv_arms(arms, (k - 1) as nat),
            difference(fv(arms[k - 1].1), pattern_vars(arms[k - 1].0)),
        )
    }
}

/// The variables a computation reads.
pub open spec fn fv_compute(c: ComputeV) -> Seq<NameV> {
    match c {
        ComputeV::Invoke(f, args) => union(seq![f], keys(args)),
        ComputeV::Closure { free_vars, .. } => dedup(free_vars),
        ComputeV::Constructor(c, _, reuse, params) => match reuse {
            None => insert(dedup(params), c),
            Some(_) => Seq::empty(),
        },
    }
}

pub fn names_of_args(args: &Vec<(String, crate::types::Owned)>) -> (r: Vec<String>)
    ensures
        names_view(r@) == keys(pairs_view(args@)),
{
    let mut r: Vec<String> = Vec::new();
    let mut i: usize = 0;
    while i < args.len()
        invariant
            i <= args.len(),
            names_view(r@) == keys(pairs_view(args@.take(i as int))),
        decreases args.len() - i,
    {
        r.push(args[i].0.clone());
        assert(keys(pairs_view(args@.take(i + 1))) =~= keys(pairs_view(args@.take(i as int))).push(args@[i as int].0@));
        i = i + 1;
    }
    assert(args@.take(args.len() as int) =~= args@);
    r
}

/// Arms with the same patterns, each reading no more than its counterpart, read
/// no more together.
pub proof fn lemma_fv_arms_mono(a: Seq<(PatternV, BodyV)>, b: Seq<(PatternV, BodyV)>, k: nat)
    requires
        k <= a.len(),
        k <= b.len(),
        forall|i: int| 0 <= i < k ==> (#[trigger] a[i]).0 == b[i].0 && fv(a[i].1).to_set().subset_of(fv(b[i].1).to_set()),
    ensures
        fv_arms(a, k).to_set().subset_of(fv_arms(b, k).to_set()),
    decreases k,
{
    if k > 0 {
        lemma_fv_arms_mono(a, b, (k - 1) as nat);
        assert(a[k - 1].0 == b[k - 1].0);
        lemma_difference_mono(fv(a[k - 1].1), fv(b[k - 1].1), pattern_vars(a[k - 1].0));
        lemma_union_mono(
            fv_arms(a, (k - 1) as nat),
            difference(fv(a[k - 1].1), pattern_vars(a[k - 1].0)),
            fv_arms(b, (k - 1) as nat),
            difference(fv(b[k - 1].1), pattern_vars(b[k - 1].0)),
        );
    }
}

impl Body {
    pub fn free_vars(&self) -> (r: Vec<String>)
        ensures
            names_view(r@) == fv(self@),
        decreases self,
    {
        match self {
            Body::Bind(b) => b.free_vars(),
            Body::BindPattern(b) => b.free_vars(),
            Body::If(i) => i.free_vars(),
            Body::Match(m) => m.free_vars(),
            Body::Move(var) => {
                let mut r = Vec::new();
                r.push(var.clone());
                assert(names_view(r@) =~= seq![var@]);
                r
            },
            Body::Dup(_, e) => e.free_vars(),
            Body::Drop(_, e) => e.free_vars(),
            Body::DropReuse(_, _, e) => e.free_vars(),
        }
    }
}

impl Compute {
    pub fn free_vars(&self) -> (r: Vec<String>)
        ensures
            names_view(r@) == fv_compute(self@),
    {
        match self {
            Compute::Invoke(f, args) => {
                let mut r: Vec<String> = Vec::new();
                r.push(f.clone());
                assert(names_view(r@) =~= seq![f@]);
                let names = names_of_args(args);
                union_into(&mut r, &names);
                r
            },
            Compute::Closure { free_vars, .. } => {
                let mut r: Vec<String> = Vec::new();
                assert(names_view(r@) =~= Seq::<NameV>::empty());
                union_into(&mut r, free_vars);
                r
            },
            Compute::Constructor(c, _ty, reuse, params) => {
                match reuse {
                    None => {
                        let mut r: Vec<String> = Vec::new();
                        assert(names_view(r@) =~= Seq::<NameV>::empty());
                        union_into(&mut r, params);
                        insert_name(&mut r, c.clone());
                        r
                    },
                    Some(_) => Vec::new(),
                }
            },
        }
    }
}

impl Bind {
    pub fn free_vars(&self) -> (r: Vec<String>)
        ensures
            names_view(r@) == fv(self@),
        decreases self,
    {
        let mut r = self.cont.free_vars();
        let v = self.value.free_vars();
        union_into(&mut r, &v);
        r
    }
}

impl BindPattern {
    pub fn free_vars(&self) -> (r: Vec<String>)
        ensures
            names_view(r@) == fv(self@),
        decreases self,
    {
        let mut r = self.cont.free_vars();
        insert_name(&mut r, self.value.clone());
        r
    }
}

impl If {
    pub fn free_vars(&self) -> (r: Vec<String>)
        ensures
            names_view(r@) == fv(self@),
        decreases self,
    {
        let mut r: Vec<String> = Vec::new();
        r.push(self.cond.clone());
        assert(names_view(r@) =~= seq![self.cond@]);
        let t = self.then_.free_vars();
        union_into(&mut r, &t);
        let e = self.else_.free_vars();
        union_into(&mut r, &e);
        r
    }
}

impl Match {
    pub fn free_vars(&self) -> (r: Vec<String>)
        ensures
            names_view(r@) == fv(self@),
        decreases self,
    {
        let ghost arms = crate::ir::l3_ir::arms_view(self.matchs@);
        assert(self@->arms == arms);
        let mut r: Vec<String> = Vec::new();
        let mut i: usize = 0;
        while i < self.matchs.len()
            invariant
                i <= self.matchs.len(),
                arms == crate::ir::l3_ir::arms_view(self.matchs@),
                self@->arms == arms,
                names_view(r@) == fv_arms(arms, i as nat),
            decreases self.matchs.len() - i,
        {
            proof {
                assert(decreases_to!(self.matchs => self.matchs@));
                assert(decreases_to!(self.matchs@ => self.matchs@[i as int]));
                assert(decreases_to!(self.matchs@[i as int] => self.matchs@[i as int].1));
            }
            let body_vars = self.matchs[i].1.free_vars();
            let pat_vars = self.matchs[i].0.defined_vars();
            let d = difference_of(&body_vars, &pat_vars);
            union_into(&mut r, &d);
            assert(arms[i as int] == (self.matchs@[i as int].0@, self.matchs@[i as int].1@));
            i = i + 1;
        }
        insert_name(&mut r, self.value.clone());
        r
    }
}

} // verus!
