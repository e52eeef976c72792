//! Free variables in the first intermediate language.
use vstd::prelude::*;

use crate::ir::common::{pattern_vars, PatternV};
use crate::l2_ir::{arms_view, Bind, BodyV, ComputeV, Expr, Match, Pattern, Value};
use crate::names::{
    dedup, difference, difference_of, insert, insert_name, lemma_difference, lemma_insert, lemma_union, names_view, union,
    union_into, NameV,
};

verus! {

/// Whether no reference-counting instruction stands where the free variables of
/// a body are collected (outside closures).
pub open spec fn rc_free(b: BodyV) -> bool
    decreases b, 0nat,
{
    match b {
        BodyV::Compute(_) => true,
        BodyV::Bind { cont, .. } => rc_free(*cont),
        BodyV::If { then_, else_, .. } => rc_free(*then_) && rc_free(*else_),
        BodyV::Match { arms, .. } => arms_rc_free(arms, arms.len()),
        BodyV::Dup(..) => false,
        BodyV::Drop(..) => false,
        BodyV::DropReuse(..) => false,
    }
}

/// Whether the bodies of the first `k` arms are free of reference counting.
pub open spec fn arms_rc_free(arms: Seq<(PatternV, BodyV)>, k: nat) -> bool
    decreases arms, k + 1,
{
    if k == 0 || k > arms.len() {
        true
    } else {
        arms_rc_free(arms, (k - 1) as nat) && rc_free(arms[k - 1].1)
    }
}

pub proof fn lemma_arms_rc_free(arms: Seq<(PatternV, BodyV)>, k: nat, i: int)
    requires
        arms_rc_free(arms, k),
        k <= arms.len(),
        0 <= i < k,
    ensures
        rc_free(arms[i].1),
    decreases k,
{
    if i < k - 1 {
        lemma_arms_rc_free(arms, (k - 1) as nat, i);
    }
}

/// The variables an expression reads, in order of first appearance.
pub open spec fn fv_expr(b: BodyV) -> Seq<NameV>
    decreases b, 0nat,
{
    match b {
        BodyV::Compute(c) => fv_value(c),
        BodyV::Bind { pat, value, cont, .. } => union(difference(fv_expr(*cont), pattern_vars(pat)), fv_value(*value)),
        BodyV::If { cond, then_, else_ } => union(union(seq![cond], fv_expr(*then_)), fv_expr(*else_)),
        BodyV::Match { value, arms } => insert(fv_expr_arms(arms, arms.len()), value),
        BodyV::Dup(..) => Seq::empty(),
        BodyV::Drop(..) => Seq::empty(),
        BodyV::DropReuse(..) => Seq::empty(),
    }
}

/// The variables read by the first `k` arms, without those each arm's pattern binds.
pub open spec fn fv_expr_arms(arms: Seq<(PatternV, BodyV)>, k: nat) -> Seq<NameV>
    decreases arms, k + 1,
{
    if k == 0 || k > arms.len() {
        Seq::empty()
    } else {
        union(
            fv_expr_arms(arms, (k - 1) as nat),
            difference(fv_expr(arms[k - 1].1), pattern_vars(arms[k - 1].0)),
        )
    }
}

/// The names a value refers to: a variable, a called function and its arguments,
/// the variables a closure captures, or a constructor's name and fields.
pub open spec fn fv_value(c: ComputeV) -> Seq<NameV> {
    match c {
        ComputeV::Variable(v) => seq![v],
        ComputeV::Invoke(f, args) => union(seq![f], args),
        ComputeV::Closure { free_vars, .. } => dedup(free_vars),
        ComputeV::Constructor(c, _, _, params) => insert(dedup(params), c),
    }
}

impl Expr {
    /// The variables the expression reads; reference-counting instructions do not
    /// occur in the expressions this is asked of.
    pub fn free_vars(&self) -> (r: Vec<String>)
        requires
            rc_free(self@),
        ensures
            names_view(r@) == fv_expr(self@),
        decreases self,
    {
        match self {
            Expr::Compute(c) => c.free_vars(),
            Expr::Bind(b) => b.free_vars(),
            Expr::Match(m) => m.free_vars(),
            Expr::If(i) => {
                let mut r: Vec<String> = Vec::new();
                r.push(i.0.clone());
                assert(names_view(r@) =~= seq![i.0@]);
                let t = i.1.free_vars();
                union_into(&mut r, &t);
                let e = i.2.free_vars();
                union_into(&mut r, &e);
                r
            },
            Expr::Dup(..) => Vec::new(),
            Expr::Drop(..) => Vec::new(),
            Expr::DropReuse(..) => Vec::new(),
        }
    }
}

impl Value {
    pub fn free_vars(&self) -> (r: Vec<String>)
        ensures
            names_view(r@) == fv_value(self@),
            forall|x: NameV| #[trigger] names_view(r@).contains(x) <==> value_reads(self@, x),
    {
        proof {
            assert forall|x: NameV| #[trigger] fv_value(self@).contains(x) <==> value_reads(self@, x) by {
                law_value_free_vars_cases(self@, x);
            }
        }
        match self {
            Value::Variable(v) => {
                let mut r = Vec::new();
                r.push(v.clone());
                assert(names_view(r@) =~= seq![v@]);
                r
            },
            Value::Invoke(f, args) => {
                let mut r: Vec<String> = Vec::new();
                r.push(f.clone());
                assert(names_view(r@) =~= seq![f@]);
                union_into(&mut r, args);
                r
            },
            Value::Closure { free_vars, .. } => {
                let mut r: Vec<String> = Vec::new();
                assert(names_view(r@) =~= Seq::<NameV>::empty());
                union_into(&mut r, free_vars);
                r
            },
            Value::Constructor(c, _ty, _reuse, params) => {
                let mut r: Vec<String> = Vec::new();
                assert(names_view(r@) =~= Seq::<NameV>::empty());
                union_into(&mut r, params);
                insert_name(&mut r, c.clone());
                r
            },
        }
    }
}

impl Bind {
    pub fn free_vars(&self) -> (r: Vec<String>)
        requires
            rc_free(self.3@),
        ensures
            names_view(r@) == fv_expr(self@),
        decreases self,
    {
        let body = self.3.free_vars();
        let defined = self.0.defined_vars();
        let mut r = difference_of(&body, &defined);
        let v = self.2.free_vars();
        union_into(&mut r, &v);
        r
    }
}

impl Match {
    pub fn free_vars(&self) -> (r: Vec<String>)
        requires
            rc_free(self@),
        ensures
            names_view(r@) == fv_expr(self@),
        decreases self,
    {
        let ghost arms = arms_view(self.1@);
        assert(self@->arms == arms);
        let mut r: Vec<String> = Vec::new();
        let mut i: usize = 0;
        while i < self.1.len()
            invariant
                i <= self.1.len(),
                arms == arms_view(self.1@),
                self@->arms == arms,
                arms_rc_free(arms, arms.len()),
                names_view(r@) == fv_expr_arms(arms, i as nat),
            decreases self.1.len() - i,
        {
            proof {
                assert(decreases_to!(self.1 => self.1@));
                assert(decreases_to!(self.1@ => self.1@[i as int]));
                assert(decreases_to!(self.1@[i as int] => self.1@[i as int].1));
                lemma_arms_rc_free(arms, arms.len(), i as int);
            }
            assert(arms[i as int] == (self.1@[i as int].0@, self.1@[i as int].1@));
            let body_vars = self.1[i].1.free_vars();
            let pat_vars = self.1[i].0.defined_vars();
            let d = difference_of(&body_vars, &pat_vars);
            union_into(&mut r, &d);
            i = i + 1;
        }
        insert_name(&mut r, self.0.clone());
        r
    }
}

impl Pattern {
    /// The variables the pattern binds.
    pub fn defined_vars(&self) -> (r: Vec<String>)
        ensures
            names_view(r@) == pattern_vars(self@),
    {
        self.to_common().defined_vars()
    }
}


/// Whether a value reads `x`: a variable itself, a called function and its
/// arguments, the variables a closure captures, a constructor's name and fields.
pub open spec fn value_reads(c: ComputeV, x: NameV) -> bool {
    match c {
        ComputeV::Variable(v) => x == v,
        ComputeV::Invoke(f, args) => x == f || args.contains(x),
        ComputeV::Closure { free_vars, .. } => free_vars.contains(x),
        ComputeV::Constructor(n, _, _, params) => x == n || params.contains(x),
    }
}

/// What a value reads, case by case: a variable itself, a called function and
/// its arguments, the variables a closure captures, a constructor's name and
/// fields.
pub proof fn law_value_free_vars_cases(c: ComputeV, x: NameV)
    ensures
        c is Variable ==> (fv_value(c).contains(x) <==> x == c->Variable_0),
        c is Invoke ==> (fv_value(c).contains(x) <==> x == c->Invoke_0 || c->Invoke_1.contains(x)),
        c is Closure ==> (fv_value(c).contains(x) <==> c->Closure_free_vars.contains(x)),
        c is Constructor ==> (fv_value(c).contains(x) <==> x == c->Constructor_0 || c->Constructor_3.contains(x)),
{
    match c {
        ComputeV::Variable(v) => {
            let one = seq![v];
            assert(fv_value(c) == one);
            assert(one.len() == 1 && one[0] == v);
            if one.contains(x) {
                let i = choose|i: int| 0 <= i < one.len() && one[i] == x;
                assert(i == 0);
            }
            if x == v {
                assert(one[0] == x);
            }
        },
        ComputeV::Invoke(f, args) => {
            lemma_union(seq![f], args);
            assert(fv_value(c).contains(x) <==> fv_value(c).to_set().contains(x));
            assert(args.contains(x) <==> args.to_set().contains(x));
            let one = seq![f];
            assert(one.contains(x) <==> one.to_set().contains(x));
            assert(one.len() == 1 && one[0] == f);
            if one.contains(x) {
                let i = choose|i: int| 0 <= i < one.len() && one[i] == x;
                assert(i == 0);
            }
            if x == f {
                assert(one[0] == x);
            }
        },
        ComputeV::Closure { free_vars, .. } => {
            lemma_union(Seq::empty(), free_vars);
            assert(fv_value(c).contains(x) <==> fv_value(c).to_set().contains(x));
            assert(free_vars.contains(x) <==> free_vars.to_set().contains(x));
            assert(Seq::<NameV>::empty().to_set().contains(x) ==> Seq::<NameV>::empty().contains(x));
        },
        ComputeV::Constructor(n, _, _, params) => {
            lemma_union(Seq::empty(), params);
            lemma_insert(dedup(params), n);
            assert(fv_value(c).contains(x) <==> fv_value(c).to_set().contains(x));
            assert(dedup(params).contains(x) <==> dedup(params).to_set().contains(x));
            assert(params.contains(x) <==> params.to_set().contains(x));
            assert(Seq::<NameV>::empty().to_set().contains(x) ==> Seq::<NameV>::empty().contains(x));
        },
    }
}

/// What an expression reads, case by case: a binding reads what its value reads
/// and what its continuation reads but the pattern's variables; a conditional its
/// condition and both branches; a match its value and what each arm reads but that
/// arm's pattern variables.
pub proof fn law_expr_free_vars_cases(b: BodyV, x: NameV)
    ensures
        fv_expr(b).contains(x) <==> match b {
            BodyV::Compute(c) => fv_value(c).contains(x),
            BodyV::Bind { pat, value, cont, .. } => (fv_expr(*cont).contains(x) && !pattern_vars(pat).contains(x))
                || fv_value(*value).contains(x),
            BodyV::If { cond, then_, else_ } => x == cond || fv_expr(*then_).contains(x) || fv_expr(*else_).contains(x),
            BodyV::Match { value, arms } => x == value || exists|i: int| 0 <= i < arms.len()
                && fv_expr(#[trigger] arms[i].1).contains(x) && !pattern_vars(arms[i].0).contains(x),
            _ => false,
        },
{
    match b {
        BodyV::Compute(_) => {},
        BodyV::Bind { pat, value, cont, .. } => {
            let d = difference(fv_expr(*cont), pattern_vars(pat));
            lemma_union(d, fv_value(*value));
            lemma_difference(fv_expr(*cont), pattern_vars(pat));
            assert(fv_expr(b).contains(x) <==> fv_expr(b).to_set().contains(x));
            assert(d.contains(x) <==> d.to_set().contains(x));
            assert(fv_value(*value).contains(x) <==> fv_value(*value).to_set().contains(x));
            assert(fv_expr(*cont).contains(x) <==> fv_expr(*cont).to_set().contains(x));
            assert(pattern_vars(pat).contains(x) <==> pattern_vars(pat).to_set().contains(x));
        },
        BodyV::If { cond, then_, else_ } => {
            let a = union(seq![cond], fv_expr(*then_));
            lemma_union(seq![cond], fv_expr(*then_));
            lemma_union(a, fv_expr(*else_));
            assert(fv_expr(b).contains(x) <==> fv_expr(b).to_set().contains(x));
            assert(fv_expr(*then_).contains(x) <==> fv_expr(*then_).to_set().contains(x));
            assert(fv_expr(*else_).contains(x) <==> fv_expr(*else_).to_set().contains(x));
            assert(seq![cond].contains(x) <==> seq![cond].to_set().contains(x));
            assert(seq![cond].contains(x) ==> seq![cond][0] == x);
            assert(x == cond ==> seq![cond][0] == x);
        },
        BodyV::Match { value, arms } => {
            lemma_fv_expr_arms_has(arms, arms.len(), x);
            lemma_insert(fv_expr_arms(arms, arms.len()), value);
            assert(fv_expr(b).contains(x) <==> fv_expr(b).to_set().contains(x));
            assert(fv_expr_arms(arms, arms.len()).contains(x) <==> fv_expr_arms(arms, arms.len()).to_set().contains(x));
        },
        _ => {},
    }
}

pub proof fn lemma_fv_expr_arms_has(arms: Seq<(PatternV, BodyV)>, k: nat, x: NameV)
    requires
        k <= arms.len(),
    ensures
        fv_expr_arms(arms, k).contains(x) <==> exists|i: int| 0 <= i < k
            && fv_expr(#[trigger] arms[i].1).contains(x) && !pattern_vars(arms[i].0).contains(x),
    decreases k,
{
    if k > 0 {
        lemma_fv_expr_arms_has(arms, (k - 1) as nat, x);
        let prev = fv_expr_arms(arms, (k - 1) as nat);
        let d = difference(fv_expr(arms[k - 1].1), pattern_vars(arms[k - 1].0));
        lemma_union(prev, d);
        lemma_difference(fv_expr(arms[k - 1].1), pattern_vars(arms[k - 1].0));
        assert(fv_expr_arms(arms, k).contains(x) <==> fv_expr_arms(arms, k).to_set().contains(x));
        assert(prev.contains(x) <==> prev.to_set().contains(x));
        assert(d.contains(x) <==> d.to_set().contains(x));
        assert(fv_expr(arms[k - 1].1).contains(x) <==> fv_expr(arms[k - 1].1).to_set().contains(x));
        assert(pattern_vars(arms[k - 1].0).contains(x) <==> pattern_vars(arms[k - 1].0).to_set().contains(x));
        if exists|i: int| 0 <= i < k && fv_expr(#[trigger] arms[i].1).contains(x) && !pattern_vars(arms[i].0).contains(x) {
            let i = choose|i: int| 0 <= i < k && fv_expr(#[trigger] arms[i].1).contains(x) && !pattern_vars(arms[i].0).contains(x);
            if i < k - 1 {
                assert(prev.contains(x));
            }
        }
    }
}

} // verus!
