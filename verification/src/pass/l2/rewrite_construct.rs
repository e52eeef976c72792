//! Reuse of a dead variable's memory by a constructor, in the first intermediate language.
use vstd::prelude::*;

use crate::ir::common::{pattern_bindings, pattern_fits, PatternV};
use crate::l2_ir::{arms_view, Bind, Body, BodyV, Compute, ComputeV, If, Match, Name, Pattern};
use crate::names::{copy_names, pairs_view, NameV};
use crate::pass::l3::rewrite_construct::{reuse_name, reuse_token};
use crate::types::{Type, TypeV};

verus! {

pub open spec fn opt_view(o: Option<Body>) -> Option<BodyV> {
    match o {
        Some(b) => Some(b@),
        None => None,
    }
}

/// Rewrites a constructor of type `ty` that allocates fresh memory so that it
/// reuses the memory of `name`.
pub open spec fn rewrite_value(c: ComputeV, name: NameV, ty: TypeV) -> Option<ComputeV> {
    match c {
        ComputeV::Constructor(cname, cty, None, params) => if cty == ty {
            Some(ComputeV::Constructor(cname, cty, Some(reuse_name(name)), params))
        } else {
            None
        },
        _ => None,
    }
}

/// Makes the memory of `name` (of type `ty`) reused by one fresh constructor of the
/// same type on every path that reaches one: in a binding the bound value is tried
/// before the continuation; below a reference-counting instruction the name that
/// instruction handles takes the place of `name`; a branch or match arm without
/// such a constructor drops `name` instead.  `None` when no path holds one.
pub open spec fn rewrite(b: BodyV, name: NameV, ty: TypeV) -> Option<BodyV>
    decreases b, 0nat,
{
    match b {
        BodyV::Compute(c) => match rewrite_value(c, name, ty) {
            Some(x) => Some(BodyV::Compute(x)),
            None => None,
        },
        BodyV::Bind { pat, ty: t, value, cont } => match rewrite_value(*value, name, ty) {
            Some(v) => Some(BodyV::Bind { pat, ty: t, value: Box::new(v), cont }),
            None => match rewrite(*cont, name, ty) {
                Some(c) => Some(BodyV::Bind { pat, ty: t, value, cont: Box::new(c) }),
                None => None,
            },
        },
        BodyV::Dup(v, e) => match rewrite(*e, v, ty) {
            Some(x) => Some(BodyV::Dup(v, Box::new(x))),
            None => None,
        },
        BodyV::Drop(v, e) => match rewrite(*e, v, ty) {
            Some(x) => Some(BodyV::Drop(v, Box::new(x))),
            None => None,
        },
        BodyV::DropReuse(r, v, e) => match rewrite(*e, v, ty) {
            Some(x) => Some(BodyV::DropReuse(r, v, Box::new(x))),
            None => None,
        },
        BodyV::If { cond, then_, else_ } => match (rewrite(*then_, name, ty), rewrite(*else_, name, ty)) {
            (Some(a), None) => Some(BodyV::If { cond, then_: Box::new(a), else_: Box::new(BodyV::Drop(name, else_)) }),
            (None, Some(e)) => Some(BodyV::If { cond, then_: Box::new(BodyV::Drop(name, then_)), else_: Box::new(e) }),
            (Some(a), Some(e)) => Some(BodyV::If { cond, then_: Box::new(a), else_: Box::new(e) }),
            (None, None) => None,
        },
        BodyV::Match { value, arms } => if any_rewritten(arms, arms.len(), name, ty) {
            Some(BodyV::Match { value, arms: rewrite_arms(arms, arms.len(), name, ty) })
        } else {
            None
        },
    }
}

/// Whether one of the first `k` arms can be rewritten.
pub open spec fn any_rewritten(arms: Seq<(PatternV, BodyV)>, k: nat, name: NameV, ty: TypeV) -> bool
    decreases arms, k + 1,
{
    if k == 0 || k > arms.len() {
        false
    } else {
        any_rewritten(arms, (k - 1) as nat, name, ty) || rewrite(arms[k - 1].1, name, ty) is Some
    }
}

/// The first `k` arms, each rewritten, or made to drop `name` where it cannot be.
pub open spec fn rewrite_arms(arms: Seq<(PatternV, BodyV)>, k: nat, name: NameV, ty: TypeV) -> Seq<(PatternV, BodyV)>
    decreases arms, k + 1,
{
    if k == 0 || k > arms.len() {
        Seq::empty()
    } else {
        let arm = arms[k - 1];
        rewrite_arms(arms, (k - 1) as nat, name, ty).push(
            (arm.0, match rewrite(arm.1, name, ty) {
                Some(b) => b,
                None => BodyV::Drop(name, Box::new(arm.1)),
            }),
        )
    }
}

/// The body without its reference-counting instructions and reuse annotations.
pub open spec fn erase(b: BodyV) -> BodyV
    decreases b, 0nat,
{
    match b {
        BodyV::Compute(c) => BodyV::Compute(erase_value(c)),
        BodyV::Bind { pat, ty, value, cont } => BodyV::Bind {
            pat,
            ty,
            value: Box::new(erase_value(*value)),
            cont: Box::new(erase(*cont)),
        },
        BodyV::Dup(_, e) => erase(*e),
        BodyV::Drop(_, e) => erase(*e),
        BodyV::DropReuse(_, _, e) => erase(*e),
        BodyV::If { cond, then_, else_ } => BodyV::If {
            cond,
            then_: Box::new(erase(*then_)),
            else_: Box::new(erase(*else_)),
        },
        BodyV::Match { value, arms } => BodyV::Match { value, arms: erase_arms(arms, arms.len()) },
    }
}

/// The first `k` arms, erased.
pub open spec fn erase_arms(arms: Seq<(PatternV, BodyV)>, k: nat) -> Seq<(PatternV, BodyV)>
    decreases arms, k + 1,
{
    if k == 0 || k > arms.len() {
        Seq::empty()
    } else {
        erase_arms(arms, (k - 1) as nat).push((arms[k - 1].0, erase(arms[k - 1].1)))
    }
}

/// The value without reuse annotations, closure bodies erased.
pub open spec fn erase_value(c: ComputeV) -> ComputeV
    decreases c, 0nat,
{
    match c {
        ComputeV::Variable(v) => ComputeV::Variable(v),
        ComputeV::Invoke(f, args) => ComputeV::Invoke(f, args),
        ComputeV::Closure { fun_type, free_vars, params, body } => ComputeV::Closure {
            fun_type,
            free_vars,
            params,
            body: Box::new(erase(*body)),
        },
        ComputeV::Constructor(c, ty, _, params) => ComputeV::Constructor(c, ty, None, params),
    }
}

/// Making a constructor reuse memory changes nothing but reference counting and
/// reuse annotations: the rewritten body, erased, is the body erased.
pub proof fn law_rewrite_only_annotates(b: BodyV, name: NameV, ty: TypeV)
    requires
        rewrite(b, name, ty) is Some,
    ensures
        erase(rewrite(b, name, ty).unwrap()) == erase(b),
    decreases b, 0nat,
{
    match b {
        BodyV::Compute(c) => {
            assert(erase_value(rewrite_value(c, name, ty).unwrap()) == erase_value(c));
        },
        BodyV::Bind { pat, ty: t, value, cont } => {
            if rewrite_value(*value, name, ty) is Some {
                let v = rewrite_value(*value, name, ty).unwrap();
                assert(erase_value(v) == erase_value(*value));
            } else {
                law_rewrite_only_annotates(*cont, name, ty);
            }
            assert(erase(rewrite(b, name, ty).unwrap()) == erase(b));
        },
        BodyV::Dup(v, e) => {
            law_rewrite_only_annotates(*e, v, ty);
        },
        BodyV::Drop(v, e) => {
            law_rewrite_only_annotates(*e, v, ty);
        },
        BodyV::DropReuse(_, v, e) => {
            law_rewrite_only_annotates(*e, v, ty);
        },
        BodyV::If { cond, then_, else_ } => {
            if rewrite(*then_, name, ty) is Some {
                law_rewrite_only_annotates(*then_, name, ty);
            }
            if rewrite(*else_, name, ty) is Some {
                law_rewrite_only_annotates(*else_, name, ty);
            }
            let r = rewrite(b, name, ty).unwrap();
            assert(erase(BodyV::Drop(name, then_)) == erase(*then_));
            assert(erase(BodyV::Drop(name, else_)) == erase(*else_));
            assert(erase(*r->then_) == erase(*then_));
            assert(erase(*r->else_) == erase(*else_));
        },
        BodyV::Match { value, arms } => {
            lemma_rewrite_arms_erase(arms, arms.len(), name, ty);
            lemma_rewrite_arms_len(arms, arms.len(), name, ty);
        },
    }
}

pub proof fn lemma_rewrite_arms_erase(arms: Seq<(PatternV, BodyV)>, k: nat, name: NameV, ty: TypeV)
    requires
        k <= arms.len(),
    ensures
        erase_arms(rewrite_arms(arms, k, name, ty), k) == erase_arms(arms, k),
    decreases arms, k + 1,
{
    if k > 0 {
        lemma_rewrite_arms_erase(arms, (k - 1) as nat, name, ty);
        let arm = arms[k - 1];
        if rewrite(arm.1, name, ty) is Some {
            law_rewrite_only_annotates(arm.1, name, ty);
        }
        let r = rewrite_arms(arms, k, name, ty);
        let r0 = rewrite_arms(arms, (k - 1) as nat, name, ty);
        lemma_rewrite_arms_len(arms, k, name, ty);
        lemma_rewrite_arms_len(arms, (k - 1) as nat, name, ty);
        assert(r.take(k - 1) =~= r0.take(k - 1));
        lemma_erase_arms_prefix(r, r0, (k - 1) as nat);
        assert(erase(BodyV::Drop(name, Box::new(arm.1))) == erase(arm.1));
        assert(erase(r[k - 1].1) == erase(arm.1));
        assert(erase_arms(r, k) == erase_arms(r, (k - 1) as nat).push((r[k - 1].0, erase(r[k - 1].1))));
    }
}

pub proof fn lemma_rewrite_arms_len(arms: Seq<(PatternV, BodyV)>, k: nat, name: NameV, ty: TypeV)
    requires
        k <= arms.len(),
    ensures
        rewrite_arms(arms, k, name, ty).len() == k,
        forall|i: int| 0 <= i < k ==> (#[trigger] rewrite_arms(arms, k, name, ty)[i]).0 == arms[i].0,
    decreases k,
{
    if k > 0 {
        lemma_rewrite_arms_len(arms, (k - 1) as nat, name, ty);
    }
}

/// Erasing the first `k` arms only looks at those arms.
pub proof fn lemma_erase_arms_prefix(a: Seq<(PatternV, BodyV)>, b: Seq<(PatternV, BodyV)>, k: nat)
    requires
        k <= a.len(),
        k <= b.len(),
        a.take(k as int) == b.take(k as int),
    ensures
        erase_arms(a, k) == erase_arms(b, k),
    decreases k,
{
    if k > 0 {
        assert(a.take(k - 1) =~= a.take(k as int).take(k - 1));
        assert(b.take(k - 1) =~= b.take(k as int).take(k - 1));
        assert(a[k - 1] == a.take(k as int)[k - 1]);
        assert(b[k - 1] == b.take(k as int)[k - 1]);
        lemma_erase_arms_prefix(a, b, (k - 1) as nat);
    }
}

impl Body {
    /// Reuses the memory of `name`, of type `ty`, in a constructor of this body;
    /// see [`rewrite`].
    pub fn rewrite_construct(&self, name: &Name, ty: &Type) -> (r: Option<Body>)
        ensures
            opt_view(r) == rewrite(self@, name@, ty@),
            r is Some && counts_only(self@, name@) ==> gives_up(r.unwrap()@, name@),
            r is Some && counts_only(self@, name@) && untouched(self@, name@) ==> gives_up_once(r.unwrap()@, name@),
        decreases self,
    {
        proof {
            if rewrite(self@, name@, ty@) is Some && counts_only(self@, name@) {
                law_rewrite_releases_on_every_path(self@, name@, ty@);
                if untouched(self@, name@) {
                    law_rewrite_releases_once(self@, name@, ty@);
                }
            }
        }
        match self {
            Body::Bind(b) => match b.rewrite_construct(name, ty) {
                Some(x) => Some(Body::Bind(x)),
                None => None,
            },
            Body::Compute(c) => match c.rewrite_construct(name, ty) {
                Some(x) => Some(Body::Compute(x)),
                None => None,
            },
            Body::Dup(name, e) => match e.rewrite_construct(name, ty) {
                Some(x) => Some(Body::Dup(name.clone(), Box::new(x))),
                None => None,
            },
            Body::Drop(name, e) => match e.rewrite_construct(name, ty) {
                Some(x) => Some(Body::Drop(name.clone(), Box::new(x))),
                None => None,
            },
            Body::DropReuse(new_name, name, e) => match e.rewrite_construct(name, ty) {
                Some(x) => Some(Body::DropReuse(new_name.clone(), name.clone(), Box::new(x))),
                None => None,
            },
            Body::If(i) => match i.rewrite_construct(name, ty) {
                Some(x) => Some(Body::If(x)),
                None => None,
            },
            Body::Match(m) => match m.rewrite_construct(name, ty) {
                Some(x) => Some(Body::Match(x)),
                None => None,
            },
        }
    }
}

impl Bind {
    pub fn rewrite_construct(&self, name: &Name, ty: &Type) -> (r: Option<Bind>)
        ensures
            match r {
                Some(x) => rewrite(self@, name@, ty@) == Some(x@),
                None => rewrite(self@, name@, ty@) is None,
            },
            r is Some && counts_only(self@, name@) ==> gives_up(r.unwrap()@, name@),
            r is Some && counts_only(self@, name@) && untouched(self@, name@) ==> gives_up_once(r.unwrap()@, name@),
        decreases self,
    {
        proof {
            if rewrite(self@, name@, ty@) is Some && counts_only(self@, name@) {
                law_rewrite_releases_on_every_path(self@, name@, ty@);
                if untouched(self@, name@) {
                    law_rewrite_releases_once(self@, name@, ty@);
                }
            }
        }
        if let Some(t2) = self.2.rewrite_construct(name, ty) {
            return Some(Bind(self.0.deep_copy(), self.1.clone(), Box::new(t2), Box::new(self.3.deep_copy())));
        }
        if let Some(t3) = self.3.rewrite_construct(name, ty) {
            return Some(Bind(self.0.deep_copy(), self.1.clone(), Box::new(self.2.deep_copy()), Box::new(t3)));
        }
        None
    }
}

impl If {
    pub fn rewrite_construct(&self, name: &Name, ty: &Type) -> (r: Option<If>)
        ensures
            match r {
                Some(x) => rewrite(self@, name@, ty@) == Some(x@),
                None => rewrite(self@, name@, ty@) is None,
            },
            r is Some && counts_only(self@, name@) ==> gives_up(r.unwrap()@, name@),
            r is Some && counts_only(self@, name@) && untouched(self@, name@) ==> gives_up_once(r.unwrap()@, name@),
        decreases self,
    {
        proof {
            if rewrite(self@, name@, ty@) is Some && counts_only(self@, name@) {
                law_rewrite_releases_on_every_path(self@, name@, ty@);
                if untouched(self@, name@) {
                    law_rewrite_releases_once(self@, name@, ty@);
                }
            }
        }
        let it1 = self.1.rewrite_construct(name, ty);
        let it2 = self.2.rewrite_construct(name, ty);
        assert(self@ == BodyV::If { cond: self.0@, then_: Box::new(self.1@), else_: Box::new(self.2@) });
        match it1 {
            Some(a) => match it2 {
                Some(e) => Some(If(self.0.clone(), Box::new(a), Box::new(e))),
                None => {
                    let d = Body::Drop(name.clone(), Box::new(self.2.deep_copy()));
                    assert(d@ == BodyV::Drop(name@, Box::new(self.2@)));
                    Some(If(self.0.clone(), Box::new(a), Box::new(d)))
                },
            },
            None => match it2 {
                Some(e) => {
                    let d = Body::Drop(name.clone(), Box::new(self.1.deep_copy()));
                    assert(d@ == BodyV::Drop(name@, Box::new(self.1@)));
                    Some(If(self.0.clone(), Box::new(d), Box::new(e)))
                },
                None => None,
            },
        }
    }
}

impl Match {
    pub fn rewrite_construct(&self, name: &Name, ty: &Type) -> (r: Option<Match>)
        ensures
            match r {
                Some(x) => rewrite(self@, name@, ty@) == Some(x@),
                None => rewrite(self@, name@, ty@) is None,
            },
            r is Some && counts_only(self@, name@) ==> gives_up(r.unwrap()@, name@),
            r is Some && counts_only(self@, name@) && untouched(self@, name@) ==> gives_up_once(r.unwrap()@, name@),
            r is None <==> forall|i: int| 0 <= i < self@->Match_arms.len()
                ==> (#[trigger] rewrite(self@->Match_arms[i].1, name@, ty@)) is None,
            r is Some ==> ({
                let m = r.unwrap()@;
                &&& m is Match && m->Match_value == self@->Match_value
                &&& m->Match_arms.len() == self@->Match_arms.len()
                &&& forall|i: int| 0 <= i < self@->Match_arms.len()
                    ==> #[trigger] m->Match_arms[i] == rewritten_arm(self@->Match_arms[i], name@, ty@)
            }),
        decreases self,
    {
        proof {
            if rewrite(self@, name@, ty@) is Some && counts_only(self@, name@) {
                law_rewrite_releases_on_every_path(self@, name@, ty@);
                if untouched(self@, name@) {
                    law_rewrite_releases_once(self@, name@, ty@);
                }
            }
        }
        proof {
            law_rewrite_match(self@, name@, ty@);
        }
        let ghost arms = arms_view(self.1@);
        let mut matchs: Vec<(Pattern, Body)> = Vec::new();
        let mut exist_rewrited = false;
        let mut i: usize = 0;
        while i < self.1.len()
            invariant
                i <= self.1.len(),
                arms == arms_view(self.1@),
                matchs@.len() == i,
                arms_view(matchs@) == rewrite_arms(arms, i as nat, name@, ty@),
                exist_rewrited == any_rewritten(arms, i as nat, name@, ty@),
            decreases self.1.len() - i,
        {
            proof {
                assert(decreases_to!(self.1 => self.1@));
                assert(decreases_to!(self.1@ => self.1@[i as int]));
                assert(decreases_to!(self.1@[i as int] => self.1@[i as int].1));
            }
            assert(arms[i as int] == (self.1@[i as int].0@, self.1@[i as int].1@));
            let ghost prev = matchs@;
            let pat = self.1[i].0.deep_copy();
            let body = match self.1[i].1.rewrite_construct(name, ty) {
                Some(b) => {
                    exist_rewrited = true;
                    b
                },
                None => Body::Drop(name.clone(), Box::new(self.1[i].1.deep_copy())),
            };
            matchs.push((pat, body));
            assert(arms_view(matchs@) =~= rewrite_arms(arms, (i + 1) as nat, name@, ty@)) by {
                assert forall|j: int| 0 <= j < i + 1 implies arms_view(matchs@)[j] == rewrite_arms(arms, (i + 1) as nat, name@, ty@)[j] by {
                    if j < i {
                        assert(matchs@[j] == prev[j]);
                        assert(arms_view(prev)[j] == rewrite_arms(arms, i as nat, name@, ty@)[j]);
                    }
                }
            }
            i = i + 1;
        }
        if !exist_rewrited {
            return None;
        }
        Some(Match(self.0.clone(), matchs))
    }
}

impl Compute {
    pub fn rewrite_construct(&self, name: &Name, ty: &Type) -> (r: Option<Compute>)
        ensures
            match r {
                Some(x) => rewrite_value(self@, name@, ty@) == Some(x@),
                None => rewrite_value(self@, name@, ty@) is None,
            },
    {
        match self {
            Compute::Constructor(cname, cty, None, params) => {
                if !ty.same(cty) {
                    return None;
                }
                Some(Compute::Constructor(cname.clone(), cty.clone(), Some(reuse_token(name)), copy_names(params)))
            },
            _ => None,
        }
    }
}

impl Pattern {
    /// The types of the variables the pattern binds when it is matched against a
    /// value of type `ty`, as an association list.
    pub fn type_binding(&self, ty: &Type) -> (r: Vec<(Name, Type)>)
        requires
            pattern_fits(self@, ty@),
        ensures
            pairs_view(r@) == pattern_bindings(self@, ty@),
    {
        self.to_common().type_binding(ty)
    }
}

/// The rewritten arm: the arm rewritten when it can be, else the arm dropping `name` first.
pub open spec fn rewritten_arm(arm: (PatternV, BodyV), name: NameV, ty: TypeV) -> (PatternV, BodyV) {
    (arm.0, match rewrite(arm.1, name, ty) {
        Some(b) => b,
        None => BodyV::Drop(name, Box::new(arm.1)),
    })
}

pub proof fn lemma_rewrite_arms_index(arms: Seq<(PatternV, BodyV)>, k: nat, name: NameV, ty: TypeV)
    requires
        k <= arms.len(),
    ensures
        rewrite_arms(arms, k, name, ty).len() == k,
        forall|i: int| 0 <= i < k ==> #[trigger] rewrite_arms(arms, k, name, ty)[i] == rewritten_arm(arms[i], name, ty),
        any_rewritten(arms, k, name, ty) <==> exists|i: int| 0 <= i < k && (#[trigger] rewrite(arms[i].1, name, ty)) is Some,
    decreases k,
{
    if k > 0 {
        lemma_rewrite_arms_index(arms, (k - 1) as nat, name, ty);
        if any_rewritten(arms, k, name, ty) && rewrite(arms[k - 1].1, name, ty) is None {
            let i = choose|i: int| 0 <= i < k - 1 && (#[trigger] rewrite(arms[i].1, name, ty)) is Some;
            assert(0 <= i < k);
        }
        if exists|i: int| 0 <= i < k && (#[trigger] rewrite(arms[i].1, name, ty)) is Some {
            let i = choose|i: int| 0 <= i < k && (#[trigger] rewrite(arms[i].1, name, ty)) is Some;
            if i < k - 1 {
                assert(any_rewritten(arms, (k - 1) as nat, name, ty));
            }
        }
    }
}

/// A match can be rewritten exactly when one of its arms can; then each arm is
/// rewritten where it can be and drops `name` first where it cannot, in order,
/// and the match keeps its value and ownership.
pub proof fn law_rewrite_match(b: BodyV, name: NameV, ty: TypeV)
    requires
        b is Match,
    ensures
        rewrite(b, name, ty) is None <==> forall|i: int| 0 <= i < b->Match_arms.len() ==> (#[trigger] rewrite(b->Match_arms[i].1, name, ty)) is None,
        rewrite(b, name, ty) is Some ==> rewrite(b, name, ty).unwrap() == (BodyV::Match { value: b->Match_value, arms: rewrite_arms(b->Match_arms, b->Match_arms.len(), name, ty) }),
        rewrite_arms(b->Match_arms, b->Match_arms.len(), name, ty).len() == b->Match_arms.len(),
        forall|i: int| 0 <= i < b->Match_arms.len() ==> #[trigger] rewrite_arms(b->Match_arms, b->Match_arms.len(), name, ty)[i] == rewritten_arm(b->Match_arms[i], name, ty),
{
    let arms = b->Match_arms;
    lemma_rewrite_arms_index(arms, arms.len(), name, ty);
}


/// A binding tries its bound value first, then its continuation; a
/// reference-counting instruction keeps its names around its body, rewritten for
/// the instruction's own variable.
pub proof fn law_rewrite_bind_and_wrappers(b: BodyV, name: NameV, ty: TypeV)
    ensures
        b is Bind && rewrite_value(*b->Bind_value, name, ty) is Some ==> rewrite(b, name, ty) == Some(BodyV::Bind {
            pat: b->Bind_pat,
            ty: b->Bind_ty,
            value: Box::new(rewrite_value(*b->Bind_value, name, ty).unwrap()),
            cont: b->Bind_cont,
        }),
        b is Bind && rewrite_value(*b->Bind_value, name, ty) is None ==> (rewrite(b, name, ty) is Some
            <==> rewrite(*b->Bind_cont, name, ty) is Some),
        b is Bind && rewrite_value(*b->Bind_value, name, ty) is None && rewrite(*b->Bind_cont, name, ty) is Some
            ==> rewrite(b, name, ty) == Some(BodyV::Bind {
            pat: b->Bind_pat,
            ty: b->Bind_ty,
            value: b->Bind_value,
            cont: Box::new(rewrite(*b->Bind_cont, name, ty).unwrap()),
        }),
        b is Dup ==> (rewrite(b, name, ty) is Some <==> rewrite(*b->Dup_1, b->Dup_0, ty) is Some),
        b is Dup && rewrite(b, name, ty) is Some ==> rewrite(b, name, ty).unwrap()
            == BodyV::Dup(b->Dup_0, Box::new(rewrite(*b->Dup_1, b->Dup_0, ty).unwrap())),
        b is Drop ==> (rewrite(b, name, ty) is Some <==> rewrite(*b->Drop_1, b->Drop_0, ty) is Some),
        b is Drop && rewrite(b, name, ty) is Some ==> rewrite(b, name, ty).unwrap()
            == BodyV::Drop(b->Drop_0, Box::new(rewrite(*b->Drop_1, b->Drop_0, ty).unwrap())),
        b is DropReuse ==> (rewrite(b, name, ty) is Some <==> rewrite(*b->DropReuse_2, b->DropReuse_1, ty) is Some),
        b is DropReuse && rewrite(b, name, ty) is Some ==> rewrite(b, name, ty).unwrap()
            == BodyV::DropReuse(b->DropReuse_0, b->DropReuse_1, Box::new(rewrite(*b->DropReuse_2, b->DropReuse_1, ty).unwrap())),
{
}


/// Whether a value is a constructor that reuses the memory of `name`.
pub open spec fn reuses_memory_of(c: ComputeV, name: NameV) -> bool {
    c matches ComputeV::Constructor(_, _, Some(r), _) && r == reuse_name(name)
}

/// Whether every path through `b` gives up the memory of `name`: by dropping it,
/// by dropping it for reuse, or by a constructor that reuses it.
pub open spec fn gives_up(b: BodyV, name: NameV) -> bool
    decreases b,
{
    match b {
        BodyV::Compute(c) => reuses_memory_of(c, name),
        BodyV::Bind { value, cont, .. } => reuses_memory_of(*value, name) || gives_up(*cont, name),
        BodyV::If { then_, else_, .. } => gives_up(*then_, name) && gives_up(*else_, name),
        BodyV::Match { arms, .. } => forall|i: int| 0 <= i < arms.len() ==> gives_up(#[trigger] arms[i].1, name),
        BodyV::Dup(_, e) => gives_up(*e, name),
        BodyV::Drop(v, e) => v == name || gives_up(*e, name),
        BodyV::DropReuse(_, v, e) => v == name || gives_up(*e, name),
    }
}

/// Whether no path through `b` gives up the memory of `name`, in any way.
pub open spec fn untouched(b: BodyV, name: NameV) -> bool
    decreases b,
{
    match b {
        BodyV::Compute(c) => !reuses_memory_of(c, name),
        BodyV::Bind { value, cont, .. } => !reuses_memory_of(*value, name) && untouched(*cont, name),
        BodyV::If { then_, else_, .. } => untouched(*then_, name) && untouched(*else_, name),
        BodyV::Match { arms, .. } => forall|i: int| 0 <= i < arms.len() ==> untouched(#[trigger] arms[i].1, name),
        BodyV::Dup(_, e) => untouched(*e, name),
        BodyV::Drop(v, e) => v != name && untouched(*e, name),
        BodyV::DropReuse(_, v, e) => v != name && untouched(*e, name),
    }
}

/// Whether every path through `b` gives up the memory of `name` exactly once.
pub open spec fn gives_up_once(b: BodyV, name: NameV) -> bool
    decreases b,
{
    match b {
        BodyV::Compute(c) => reuses_memory_of(c, name),
        BodyV::Bind { value, cont, .. } => if reuses_memory_of(*value, name) {
            untouched(*cont, name)
        } else {
            gives_up_once(*cont, name)
        },
        BodyV::If { then_, else_, .. } => gives_up_once(*then_, name) && gives_up_once(*else_, name),
        BodyV::Match { arms, .. } => forall|i: int| 0 <= i < arms.len() ==> gives_up_once(#[trigger] arms[i].1, name),
        BodyV::Dup(_, e) => gives_up_once(*e, name),
        BodyV::Drop(v, e) => if v == name { untouched(*e, name) } else { gives_up_once(*e, name) },
        BodyV::DropReuse(_, v, e) => if v == name { untouched(*e, name) } else { gives_up_once(*e, name) },
    }
}

/// Whether every reference-counting instruction of `b` is about `name` (the
/// rewrite goes on below such an instruction for the instruction's variable).
pub open spec fn counts_only(b: BodyV, name: NameV) -> bool
    decreases b,
{
    match b {
        BodyV::Compute(_) => true,
        BodyV::Bind { cont, .. } => counts_only(*cont, name),
        BodyV::If { then_, else_, .. } => counts_only(*then_, name) && counts_only(*else_, name),
        BodyV::Match { arms, .. } => forall|i: int| 0 <= i < arms.len() ==> counts_only(#[trigger] arms[i].1, name),
        BodyV::Dup(v, e) => v == name && counts_only(*e, name),
        BodyV::Drop(v, e) => v == name && counts_only(*e, name),
        BodyV::DropReuse(_, v, e) => v == name && counts_only(*e, name),
    }
}

/// When rewriting for reuse of `name` succeeds, every path of the result gives up
/// the memory of `name`: a branch or an arm without a constructor to reuse it
/// drops it.  (Below a reference-counting instruction on another variable the
/// rewrite is for that variable, hence the condition.)
pub proof fn law_rewrite_releases_on_every_path(b: BodyV, name: NameV, ty: TypeV)
    requires
        rewrite(b, name, ty) is Some,
        counts_only(b, name),
    ensures
        gives_up(rewrite(b, name, ty).unwrap(), name),
    decreases b,
{
    match b {
        BodyV::Compute(c) => {
            let v = rewrite_value(c, name, ty).unwrap();
            assert(v->Constructor_2 == Some(reuse_name(name)));
        },
        BodyV::Bind { pat, ty: t, value, cont } => {
            if rewrite_value(*value, name, ty) is Some {
                let v = rewrite_value(*value, name, ty).unwrap();
                assert(v->Constructor_2 == Some(reuse_name(name)));
                assert(reuses_memory_of(v, name));
                assert(rewrite(b, name, ty).unwrap() == BodyV::Bind { pat, ty: t, value: Box::new(v), cont });
            } else {
                law_rewrite_releases_on_every_path(*cont, name, ty);
                let c = rewrite(*cont, name, ty).unwrap();
                assert(rewrite(b, name, ty).unwrap() == BodyV::Bind { pat, ty: t, value, cont: Box::new(c) });
            }
        },
        BodyV::If { then_, else_, .. } => {
            if rewrite(*then_, name, ty) is Some {
                law_rewrite_releases_on_every_path(*then_, name, ty);
            }
            if rewrite(*else_, name, ty) is Some {
                law_rewrite_releases_on_every_path(*else_, name, ty);
            }
            assert(gives_up(BodyV::Drop(name, then_), name));
            assert(gives_up(BodyV::Drop(name, else_), name));
        },
        BodyV::Match { arms, .. } => {
            lemma_rewrite_arms_index(arms, arms.len(), name, ty);
            let out = rewrite_arms(arms, arms.len(), name, ty);
            assert forall|i: int| 0 <= i < out.len() implies gives_up(#[trigger] out[i].1, name) by {
                assert(out[i] == rewritten_arm(arms[i], name, ty));
                assert(counts_only(arms[i].1, name));
                if rewrite(arms[i].1, name, ty) is Some {
                    assert(decreases_to!(b => arms));
                    assert(decreases_to!(arms => arms[i]));
                    assert(decreases_to!(arms[i] => arms[i].1));
                    law_rewrite_releases_on_every_path(arms[i].1, name, ty);
                }
            }
        },
        BodyV::Dup(_, e) => law_rewrite_releases_on_every_path(*e, name, ty),
        BodyV::Drop(_, e) => law_rewrite_releases_on_every_path(*e, name, ty),
        BodyV::DropReuse(_, _, e) => law_rewrite_releases_on_every_path(*e, name, ty),
    }
}

/// When `b` does not yet give up the memory of `name` anywhere, a successful
/// rewrite for its reuse gives it up exactly once on every path.
pub proof fn law_rewrite_releases_once(b: BodyV, name: NameV, ty: TypeV)
    requires
        rewrite(b, name, ty) is Some,
        counts_only(b, name),
        untouched(b, name),
    ensures
        gives_up_once(rewrite(b, name, ty).unwrap(), name),
    decreases b,
{
    match b {
        BodyV::Compute(c) => {
            let v = rewrite_value(c, name, ty).unwrap();
            assert(v->Constructor_2 == Some(reuse_name(name)));
        },
        BodyV::Bind { pat, ty: t, value, cont } => {
            if rewrite_value(*value, name, ty) is Some {
                let v = rewrite_value(*value, name, ty).unwrap();
                assert(v->Constructor_2 == Some(reuse_name(name)));
                assert(reuses_memory_of(v, name));
                assert(rewrite(b, name, ty).unwrap() == BodyV::Bind { pat, ty: t, value: Box::new(v), cont });
            } else {
                law_rewrite_releases_once(*cont, name, ty);
                let c = rewrite(*cont, name, ty).unwrap();
                assert(rewrite(b, name, ty).unwrap() == BodyV::Bind { pat, ty: t, value, cont: Box::new(c) });
            }
        },
        BodyV::If { then_, else_, .. } => {
            if rewrite(*then_, name, ty) is Some {
                law_rewrite_releases_once(*then_, name, ty);
            }
            if rewrite(*else_, name, ty) is Some {
                law_rewrite_releases_once(*else_, name, ty);
            }
            assert(gives_up_once(BodyV::Drop(name, then_), name));
            assert(gives_up_once(BodyV::Drop(name, else_), name));
        },
        BodyV::Match { arms, .. } => {
            lemma_rewrite_arms_index(arms, arms.len(), name, ty);
            let out = rewrite_arms(arms, arms.len(), name, ty);
            assert forall|i: int| 0 <= i < out.len() implies gives_up_once(#[trigger] out[i].1, name) by {
                assert(out[i] == rewritten_arm(arms[i], name, ty));
                assert(counts_only(arms[i].1, name));
                assert(untouched(arms[i].1, name));
                if rewrite(arms[i].1, name, ty) is Some {
                    assert(decreases_to!(b => arms));
                    assert(decreases_to!(arms => arms[i]));
                    assert(decreases_to!(arms[i] => arms[i].1));
                    law_rewrite_releases_once(arms[i].1, name, ty);
                }
            }
        },
        BodyV::Dup(_, e) => law_rewrite_releases_once(*e, name, ty),
        BodyV::Drop(_, e) => law_rewrite_releases_once(*e, name, ty),
        BodyV::DropReuse(_, _, e) => law_rewrite_releases_once(*e, name, ty),
    }
}


/// Whether a computation that reuses the memory of `name` builds a value of type
/// `ty`.
pub open spec fn typed_reuse(c: ComputeV, name: NameV, ty: TypeV) -> bool {
    reuses_memory_of(c, name) ==> c->Constructor_1 == ty
}

/// Whether every constructor of `b` that reuses the memory of `name` builds a value
/// of type `ty`; closure bodies aside.
pub open spec fn reuses_typed(b: BodyV, name: NameV, ty: TypeV) -> bool
    decreases b,
{
    match b {
        BodyV::Compute(c) => typed_reuse(c, name, ty),
        BodyV::Bind { value, cont, .. } => typed_reuse(*value, name, ty) && reuses_typed(*cont, name, ty),
        BodyV::If { then_, else_, .. } => reuses_typed(*then_, name, ty) && reuses_typed(*else_, name, ty),
        BodyV::Match { arms, .. } => forall|i: int| 0 <= i < arms.len() ==> reuses_typed(#[trigger] arms[i].1, name, ty),
        BodyV::Dup(_, e) => reuses_typed(*e, name, ty),
        BodyV::Drop(_, e) => reuses_typed(*e, name, ty),
        BodyV::DropReuse(_, _, e) => reuses_typed(*e, name, ty),
    }
}

pub proof fn lemma_untouched_reuses_typed(b: BodyV, name: NameV, ty: TypeV)
    requires
        untouched(b, name),
    ensures
        reuses_typed(b, name, ty),
    decreases b,
{
    match b {
        BodyV::Compute(_) => {},
        BodyV::Bind { cont, .. } => lemma_untouched_reuses_typed(*cont, name, ty),
        BodyV::If { then_, else_, .. } => {
            lemma_untouched_reuses_typed(*then_, name, ty);
            lemma_untouched_reuses_typed(*else_, name, ty);
        },
        BodyV::Match { arms, .. } => {
            assert forall|i: int| 0 <= i < arms.len() implies reuses_typed(#[trigger] arms[i].1, name, ty) by {
                assert(decreases_to!(b => arms));
                assert(decreases_to!(arms => arms[i]));
                assert(decreases_to!(arms[i] => arms[i].1));
                lemma_untouched_reuses_typed(arms[i].1, name, ty);
            }
        },
        BodyV::Dup(_, e) => lemma_untouched_reuses_typed(*e, name, ty),
        BodyV::Drop(_, e) => lemma_untouched_reuses_typed(*e, name, ty),
        BodyV::DropReuse(_, _, e) => lemma_untouched_reuses_typed(*e, name, ty),
    }
}

/// Rewriting for reuse of `name` at type `ty` gives its memory only to
/// constructors of type `ty`, when the body reused it nowhere before.
pub proof fn law_rewrite_reuses_its_type(b: BodyV, name: NameV, ty: TypeV)
    requires
        rewrite(b, name, ty) is Some,
        counts_only(b, name),
        untouched(b, name),
    ensures
        reuses_typed(rewrite(b, name, ty).unwrap(), name, ty),
    decreases b,
{
    match b {
        BodyV::Compute(c) => {
            let v = rewrite_value(c, name, ty).unwrap();
            assert(v->Constructor_1 == ty);
        },
        BodyV::Bind { pat, ty: t, value, cont } => {
            if rewrite_value(*value, name, ty) is Some {
                let v = rewrite_value(*value, name, ty).unwrap();
                assert(v->Constructor_1 == ty);
                lemma_untouched_reuses_typed(*cont, name, ty);
                assert(rewrite(b, name, ty).unwrap() == BodyV::Bind { pat, ty: t, value: Box::new(v), cont });
            } else {
                law_rewrite_reuses_its_type(*cont, name, ty);
                let c = rewrite(*cont, name, ty).unwrap();
                assert(rewrite(b, name, ty).unwrap() == BodyV::Bind { pat, ty: t, value, cont: Box::new(c) });
            }
        },
        BodyV::If { then_, else_, .. } => {
            if rewrite(*then_, name, ty) is Some {
                law_rewrite_reuses_its_type(*then_, name, ty);
            } else {
                lemma_untouched_reuses_typed(*then_, name, ty);
            }
            if rewrite(*else_, name, ty) is Some {
                law_rewrite_reuses_its_type(*else_, name, ty);
            } else {
                lemma_untouched_reuses_typed(*else_, name, ty);
            }
            lemma_untouched_reuses_typed(*then_, name, ty);
            lemma_untouched_reuses_typed(*else_, name, ty);
            assert(reuses_typed(BodyV::Drop(name, then_), name, ty));
            assert(reuses_typed(BodyV::Drop(name, else_), name, ty));
        },
        BodyV::Match { arms, .. } => {
            lemma_rewrite_arms_index(arms, arms.len(), name, ty);
            let out = rewrite_arms(arms, arms.len(), name, ty);
            assert forall|i: int| 0 <= i < out.len() implies reuses_typed(#[trigger] out[i].1, name, ty) by {
                assert(out[i] == rewritten_arm(arms[i], name, ty));
                assert(untouched(arms[i].1, name));
                assert(decreases_to!(b => arms));
                assert(decreases_to!(arms => arms[i]));
                assert(decreases_to!(arms[i] => arms[i].1));
                if rewrite(arms[i].1, name, ty) is Some {
                    assert(counts_only(arms[i].1, name));
                    law_rewrite_reuses_its_type(arms[i].1, name, ty);
                } else {
                    lemma_untouched_reuses_typed(arms[i].1, name, ty);
                    assert(reuses_typed(BodyV::Drop(name, Box::new(arms[i].1)), name, ty));
                }
            }
        },
        BodyV::Dup(_, e) => law_rewrite_reuses_its_type(*e, name, ty),
        BodyV::Drop(_, e) => law_rewrite_reuses_its_type(*e, name, ty),
        BodyV::DropReuse(_, _, e) => law_rewrite_reuses_its_type(*e, name, ty),
    }
}

} // verus!
