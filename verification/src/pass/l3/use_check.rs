//! The usage check of the linear language.
use vstd::prelude::*;

use crate::ir::common::PatternV;
use crate::ir::l3_ir::{arms_view, Bind, BindPattern, Body, BodyV, Compute, ComputeV, If, Match};
use crate::names::NameV;
use crate::pass::l2::use_check::{
    all_linear, err_view, lemma_record_all_accepts, record, record_all, record_args, record_linear, Used, UsedV,
};
use crate::types::Owned;

verus! {

/// The usage check of a body of the linear language: the continuation of a
/// binding is checked before the binding itself, a condition is borrowed, bound
/// and returned variables are consumed, and a destructed or matched value is
/// used with the ownership the body states.  Reference-counting instructions
/// are not uses.
pub open spec fn uc_body(b: BodyV, u: UsedV) -> (Option<NameV>, UsedV)
    decreases b, 0nat,
{
    match b {
        BodyV::Bind { var, value, cont, .. } => {
            let r1 = uc_body(*cont, u);
            if r1.0 is Some {
                r1
            } else {
                let r2 = record(r1.1, var, Owned::Linear);
                if r2.0 is Some {
                    r2
                } else {
                    uc_compute(*value, r2.1)
                }
            }
        },
        BodyV::BindPattern { owned, value, cont, .. } => {
            let r1 = uc_body(*cont, u);
            if r1.0 is Some {
                r1
            } else {
                record(r1.1, value, owned)
            }
        },
        BodyV::If { cond, then_, else_ } => {
            let r1 = record(u, cond, Owned::Borrow);
            if r1.0 is Some {
                r1
            } else {
                let r2 = uc_body(*then_, r1.1);
                if r2.0 is Some {
                    r2
                } else {
                    uc_body(*else_, r2.1)
                }
            }
        },
        BodyV::Match { value, owned, arms } => {
            let r1 = uc_arms(arms, arms.len(), u);
            if r1.0 is Some {
                r1
            } else {
                record(r1.1, value, owned)
            }
        },
        BodyV::Move(v) => record(u, v, Owned::Linear),
        BodyV::Dup(_, e) => uc_body(*e, u),
        BodyV::Drop(_, e) => uc_body(*e, u),
        BodyV::DropReuse(_, _, e) => uc_body(*e, u),
    }
}

/// The usage check of the first `k` arms, in order, stopping at the first refusal.
pub open spec fn uc_arms(arms: Seq<(PatternV, BodyV)>, k: nat, u: UsedV) -> (Option<NameV>, UsedV)
    decreases arms, k + 1,
{
    if k == 0 || k > arms.len() {
        (None, u)
    } else {
        let r1 = uc_arms(arms, (k - 1) as nat, u);
        if r1.0 is Some {
            r1
        } else {
            uc_body(arms[k - 1].1, r1.1)
        }
    }
}

/// The usage check of a computation.
pub open spec fn uc_compute(c: ComputeV, u: UsedV) -> (Option<NameV>, UsedV) {
    match c {
        ComputeV::Invoke(_, args) => record_all(u, args, args.len()),
        ComputeV::Closure { free_vars, .. } => record_all(u, all_linear(free_vars), free_vars.len()),
        ComputeV::Constructor(_, _, _, params) => record_all(u, all_linear(params), params.len()),
    }
}

pub proof fn lemma_uc_arms_stops(arms: Seq<(PatternV, BodyV)>, k: nat, n: nat, u: UsedV)
    requires
        uc_arms(arms, k, u).0 is Some,
        k <= n <= arms.len(),
    ensures
        uc_arms(arms, n, u) == uc_arms(arms, k, u),
    decreases n,
{
    if n > k {
        lemma_uc_arms_stops(arms, k, (n - 1) as nat, u);
    }
}

/// The usage check of a body of the linear language never fails.
pub proof fn law_use_check_accepts(b: BodyV, u: UsedV)
    ensures
        uc_body(b, u).0 is None,
    decreases b, 0nat,
{
    match b {
        BodyV::Bind { var, value, cont, .. } => {
            law_use_check_accepts(*cont, u);
            let r2 = record(uc_body(*cont, u).1, var, Owned::Linear);
            match *value {
                ComputeV::Invoke(_, args) => lemma_record_all_accepts(r2.1, args, args.len()),
                ComputeV::Closure { free_vars, .. } => lemma_record_all_accepts(r2.1, all_linear(free_vars), free_vars.len()),
                ComputeV::Constructor(_, _, _, params) => lemma_record_all_accepts(r2.1, all_linear(params), params.len()),
            }
        },
        BodyV::BindPattern { cont, .. } => law_use_check_accepts(*cont, u),
        BodyV::If { cond, then_, else_ } => {
            let r1 = record(u, cond, Owned::Borrow);
            law_use_check_accepts(*then_, r1.1);
            law_use_check_accepts(*else_, uc_body(*then_, r1.1).1);
        },
        BodyV::Match { arms, .. } => lemma_uc_arms_accepts(arms, arms.len(), u),
        BodyV::Move(_) => {},
        BodyV::Dup(_, e) => law_use_check_accepts(*e, u),
        BodyV::Drop(_, e) => law_use_check_accepts(*e, u),
        BodyV::DropReuse(_, _, e) => law_use_check_accepts(*e, u),
    }
}

pub proof fn lemma_uc_arms_accepts(arms: Seq<(PatternV, BodyV)>, k: nat, u: UsedV)
    ensures
        uc_arms(arms, k, u).0 is None,
    decreases arms, k + 1,
{
    if k > 0 && k <= arms.len() {
        lemma_uc_arms_accepts(arms, (k - 1) as nat, u);
        law_use_check_accepts(arms[k - 1].1, uc_arms(arms, (k - 1) as nat, u).1);
    }
}

impl Body {
    pub fn use_check(&self, used_record: &mut Used) -> (r: Result<(), String>)
        ensures
            (err_view(r), final(used_record)@) == uc_body(self@, old(used_record)@),
            r is Ok,
        decreases self,
    {
        proof {
            law_use_check_accepts(self@, old(used_record)@);
        }
        match self {
            Body::Bind(b) => b.use_check(used_record),
            Body::BindPattern(b) => b.use_check(used_record),
            Body::If(i) => i.use_check(used_record),
            Body::Match(m) => m.use_check(used_record),
            Body::Move(v) => used_record.update(v.as_str(), Owned::Linear),
            Body::Dup(_, e) => e.use_check(used_record),
            Body::Drop(_, e) => e.use_check(used_record),
            Body::DropReuse(_, _, e) => e.use_check(used_record),
        }
    }
}

impl Compute {
    pub fn use_check(&self, used_record: &mut Used) -> (r: Result<(), String>)
        ensures
            (err_view(r), final(used_record)@) == uc_compute(self@, old(used_record)@),
    {
        match self {
            Compute::Invoke(_f, args) => record_args(used_record, args),
            Compute::Closure { free_vars, .. } => record_linear(used_record, free_vars),
            Compute::Constructor(_c, _ty, _reuse, params) => record_linear(used_record, params),
        }
    }
}

impl Bind {
    pub fn use_check(&self, used_record: &mut Used) -> (r: Result<(), String>)
        ensures
            (err_view(r), final(used_record)@) == uc_body(self@, old(used_record)@),
        decreases self,
    {
        let r = self.cont.use_check(used_record);
        if r.is_err() {
            return r;
        }
        let r = used_record.update(self.var.as_str(), Owned::Linear);
        if r.is_err() {
            return r;
        }
        self.value.use_check(used_record)
    }
}

impl BindPattern {
    pub fn use_check(&self, used_record: &mut Used) -> (r: Result<(), String>)
        ensures
            (err_view(r), final(used_record)@) == uc_body(self@, old(used_record)@),
        decreases self,
    {
        let r = self.cont.use_check(used_record);
        if r.is_err() {
            return r;
        }
        used_record.update(self.value.as_str(), self.owned)
    }
}

impl If {
    pub fn use_check(&self, used_record: &mut Used) -> (r: Result<(), String>)
        ensures
            (err_view(r), final(used_record)@) == uc_body(self@, old(used_record)@),
        decreases self,
    {
        let r = used_record.update(self.cond.as_str(), Owned::Borrow);
        if r.is_err() {
            return r;
        }
        let r = self.then_.use_check(used_record);
        if r.is_err() {
            return r;
        }
        self.else_.use_check(used_record)
    }
}

impl Match {
    pub fn use_check(&self, used_record: &mut Used) -> (r: Result<(), String>)
        ensures
            (err_view(r), final(used_record)@) == uc_body(self@, old(used_record)@),
        decreases self,
    {
        let ghost arms = arms_view(self.matchs@);
        let mut i: usize = 0;
        while i < self.matchs.len()
            invariant
                i <= self.matchs.len(),
                arms == arms_view(self.matchs@),
                arms.len() == self.matchs.len(),
                self@ == (BodyV::Match { value: self.value@, owned: self.owned, arms }),
                (None::<NameV>, used_record@) == uc_arms(arms, i as nat, old(used_record)@),
            decreases self.matchs.len() - i,
        {
            proof {
                assert(decreases_to!(self.matchs => self.matchs@));
                assert(decreases_to!(self.matchs@ => self.matchs@[i as int]));
                assert(decreases_to!(self.matchs@[i as int] => self.matchs@[i as int].1));
            }
            assert(arms[i as int] == (self.matchs@[i as int].0@, self.matchs@[i as int].1@));
            let r = self.matchs[i].1.use_check(used_record);
            if r.is_err() {
                proof {
                    lemma_uc_arms_stops(arms, (i + 1) as nat, arms.len(), old(used_record)@);
                }
                return r;
            }
            i = i + 1;
        }
        used_record.update(self.value.as_str(), self.owned)
    }
}

} // verus!
