//! Making ownership explicit: from consuming and borrowing uses to the linear
//! language.
use vstd::prelude::*;

use crate::ir::common::{pattern_vars, PatternV};
use crate::ir::l2_ir::{self, Bind, BindPattern, Body, BodyV, Compute, ComputeV, Function, If, Match};
use crate::ir::l3_ir;
use crate::names::{contains, keys, lemma_push_contains, lookup, names_view, NameV};
use crate::pass::l2::free_variables::{fv, fv_arms, fv_compute};
use crate::pass::l3::free_variables as fv3;
use crate::pass::l2::use_check::{
    all_borrowed, law_consumed_stays_consumed, law_linear_names, law_record_read_back, law_use_check_accepts,
    lemma_record_all_keeps_consumed, lemma_record_all_keeps_names_distinct, lemma_uc_compute_keeps, lemma_uc_keeps,
    linear_names, record, record_all, uc_body, uc_compute, uc_function, Used, UsedV,
};
use crate::pass::l3::insert_drop_reuse::{
    drops_dead, drops_dead_compute, idr_function, law_function_insert_drop_reuse_adds_no_read,
    law_function_insert_drop_reuse_drops_dead, lemma_arms_drops_dead_index, lemma_no_match_fresh, closure_owners,
    function_fresh, no_match, no_match_compute,
};
use crate::types::Owned;

verus! {

/// Wraps `b` in an increment of the reference count of each of `names`; the last
/// name's increment comes first.
pub open spec fn wrap_dups(names: Seq<NameV>, b: l3_ir::BodyV) -> l3_ir::BodyV
    decreases names.len(),
{
    if names.len() == 0 {
        b
    } else {
        l3_ir::BodyV::Dup(names.last(), Box::new(wrap_dups(names.drop_last(), b)))
    }
}

/// The names of `used`, in order, that are linear and also read by the continuation.
pub open spec fn shared(used: Seq<NameV>, linears: Seq<NameV>, cont_vars: Seq<NameV>) -> Seq<NameV>
    decreases used.len(),
{
    if used.len() == 0 {
        used
    } else {
        let r = shared(used.drop_last(), linears, cont_vars);
        if linears.contains(used.last()) && cont_vars.contains(used.last()) {
            r.push(used.last())
        } else {
            r
        }
    }
}

/// The linear variables of a closure body: those its usage check records as linear.
pub open spec fn closure_linears(body: BodyV) -> Seq<NameV> {
    linear_names(uc_body(body, Seq::empty()).1)
}

/// Whether a body can be made linear with the linear variables `linears`: every
/// returned variable is linear, and every closure body passes its usage check
/// and can be made linear with its own linear variables.
pub open spec fn linearizable(b: BodyV, linears: Seq<NameV>) -> bool
    decreases b, 0nat,
{
    match b {
        BodyV::Variable(v) => linears.contains(v),
        BodyV::Bind { value, cont, .. } => linearizable(*cont, linears) && compute_linearizable(*value),
        BodyV::BindPattern { cont, .. } => linearizable(*cont, linears),
        BodyV::If { then_, else_, .. } => linearizable(*then_, linears) && linearizable(*else_, linears),
        BodyV::Match { arms, .. } => arms_linearizable(arms, arms.len(), linears),
    }
}

pub open spec fn arms_linearizable(arms: Seq<(PatternV, BodyV)>, k: nat, linears: Seq<NameV>) -> bool
    decreases arms, k + 1,
{
    if k == 0 || k > arms.len() {
        true
    } else {
        arms_linearizable(arms, (k - 1) as nat, linears) && linearizable(arms[k - 1].1, linears)
    }
}

pub open spec fn compute_linearizable(c: ComputeV) -> bool
    decreases c, 0nat,
{
    match c {
        ComputeV::Closure { body, .. } => uc_body(*body, Seq::empty()).0 is None && linearizable(*body, closure_linears(*body)),
        _ => true,
    }
}

/// Whether one of the first `k` arms reads `value`.
pub open spec fn arms_read(arms: Seq<(PatternV, BodyV)>, k: nat, value: NameV) -> bool
    decreases k,
{
    if k == 0 || k > arms.len() {
        false
    } else {
        arms_read(arms, (k - 1) as nat, value) || fv(arms[k - 1].1).contains(value)
    }
}

/// Makes ownership explicit: a returned variable is moved; a variable that a
/// binding's computation reads and its continuation reads again is duplicated
/// first when it is linear; a destructed value is consumed when it is linear (and
/// duplicated first when the continuation reads it again), borrowed otherwise; a
/// match borrows its value, duplicated first when it is linear and an arm reads
/// it again.
pub open spec fn lin_body(b: BodyV, linears: Seq<NameV>) -> l3_ir::BodyV
    decreases b, 0nat,
{
    match b {
        BodyV::Variable(v) => l3_ir::BodyV::Move(v),
        BodyV::Bind { var, ty, value, cont } => wrap_dups(
            shared(fv_compute(*value), linears, fv(*cont)),
            l3_ir::BodyV::Bind {
                var,
                ty,
                value: Box::new(lin_compute(*value)),
                cont: Box::new(lin_body(*cont, linears)),
            },
        ),
        BodyV::BindPattern { pat, ty, value, cont } => if linears.contains(value) {
            let bp = l3_ir::BodyV::BindPattern {
                pat,
                owned: Owned::Linear,
                ty,
                value,
                cont: Box::new(lin_body(*cont, linears)),
            };
            if fv(*cont).contains(value) {
                l3_ir::BodyV::Dup(value, Box::new(bp))
            } else {
                bp
            }
        } else {
            l3_ir::BodyV::BindPattern {
                pat,
                owned: Owned::Borrow,
                ty,
                value,
                cont: Box::new(lin_body(*cont, linears)),
            }
        },
        BodyV::If { cond, then_, else_ } => l3_ir::BodyV::If {
            cond,
            then_: Box::new(lin_body(*then_, linears)),
            else_: Box::new(lin_body(*else_, linears)),
        },
        BodyV::Match { value, arms } => {
            let m = l3_ir::BodyV::Match {
                value,
                owned: Owned::Borrow,
                arms: lin_arms(arms, arms.len(), linears),
            };
            if linears.contains(value) && arms_read(arms, arms.len(), value) {
                l3_ir::BodyV::Dup(value, Box::new(m))
            } else {
                m
            }
        },
    }
}

/// The first `k` arms, made linear.
pub open spec fn lin_arms(arms: Seq<(PatternV, BodyV)>, k: nat, linears: Seq<NameV>) -> Seq<(PatternV, l3_ir::BodyV)>
    decreases arms, k + 1,
{
    if k == 0 || k > arms.len() {
        Seq::empty()
    } else {
        lin_arms(arms, (k - 1) as nat, linears).push((arms[k - 1].0, lin_body(arms[k - 1].1, linears)))
    }
}

/// A computation with explicit ownership; a closure body is made linear with
/// its own linear variables.
pub open spec fn lin_compute(c: ComputeV) -> l3_ir::ComputeV
    decreases c, 0nat,
{
    match c {
        ComputeV::Invoke(f, args) => l3_ir::ComputeV::Invoke(f, args),
        ComputeV::Closure { fun_type, free_vars, params, body } => l3_ir::ComputeV::Closure {
            fun_type,
            free_vars,
            params,
            body: Box::new(lin_body(*body, closure_linears(*body))),
        },
        ComputeV::Constructor(c, ty, args) => l3_ir::ComputeV::Constructor(c, ty, None, args),
    }
}


impl Body {
    pub fn linearize(self, linears: &Vec<String>) -> (r: l3_ir::Body)
        requires
            linearizable(self@, names_view(linears@)),
        ensures
            r@ == lin_body(self@, names_view(linears@)),
        decreases self,
    {
        match self {
            Body::Bind(b) => b.linearize(linears),
            Body::BindPattern(b) => b.linearize(linears),
            Body::If(i) => l3_ir::Body::If(i.linearize(linears)),
            Body::Match(m) => m.linearize(linears),
            Body::Variable(v) => l3_ir::Body::Move(v),
        }
    }
}

impl Bind {
    pub fn linearize(self, linears: &Vec<String>) -> (r: l3_ir::Body)
        requires
            linearizable(self@, names_view(linears@)),
        ensures
            r@ == lin_body(self@, names_view(linears@)),
            ({
                let b = self@;
                let ls = names_view(linears@);
                let d = shared(fv_compute(*b->Bind_value), ls, fv(*b->Bind_cont));
                &&& r@ == wrap_dups(d, l3_ir::BodyV::Bind {
                    var: b->Bind_var,
                    ty: b->Bind_ty,
                    value: Box::new(lin_compute(*b->Bind_value)),
                    cont: Box::new(lin_body(*b->Bind_cont, ls)),
                })
                &&& forall|x: NameV| #[trigger] d.contains(x) <==> fv_compute(*b->Bind_value).contains(x) && ls.contains(x)
                    && fv(*b->Bind_cont).contains(x)
            }),
        decreases self,
    {
        proof {
            let b = self@;
            assert forall|x: NameV| #[trigger] shared(fv_compute(*b->Bind_value), names_view(linears@), fv(*b->Bind_cont)).contains(x)
                <==> fv_compute(*b->Bind_value).contains(x) && names_view(linears@).contains(x) && fv(*b->Bind_cont).contains(x) by {
                law_linearize_shared(fv_compute(*b->Bind_value), names_view(linears@), fv(*b->Bind_cont), x);
            }
        }
        let ghost me = self@;
        let compute_used_vars = self.value.free_vars();
        let cont_free_vars = self.cont.free_vars();
        let Bind { var, ty, value, cont } = self;
        let cont = cont.linearize(linears);
        let value = value.linearize();
        let mut r = l3_ir::Body::Bind(l3_ir::Bind { var, ty, value: Box::new(value), cont: Box::new(cont) });
        let ghost bind = r@;
        let mut i: usize = 0;
        while i < compute_used_vars.len()
            invariant
                i <= compute_used_vars.len(),
                r@ == wrap_dups(
                    shared(names_view(compute_used_vars@).take(i as int), names_view(linears@), names_view(cont_free_vars@)),
                    bind,
                ),
            decreases compute_used_vars.len() - i,
        {
            assert(names_view(compute_used_vars@).take(i + 1).drop_last() =~= names_view(compute_used_vars@).take(i as int));
            assert(names_view(compute_used_vars@).take(i + 1).last() == compute_used_vars@[i as int]@);
            let name = &compute_used_vars[i];
            let ghost s_old = shared(names_view(compute_used_vars@).take(i as int), names_view(linears@), names_view(cont_free_vars@));
            if contains(linears, name) && contains(&cont_free_vars, name) {
                r = l3_ir::Body::Dup(name.clone(), Box::new(r));
                assert(s_old.push(name@).drop_last() =~= s_old);
            }
            i = i + 1;
        }
        assert(names_view(compute_used_vars@).take(compute_used_vars.len() as int) =~= names_view(compute_used_vars@));
        r
    }
}

impl Compute {
    pub fn linearize(self) -> (r: l3_ir::Compute)
        requires
            compute_linearizable(self@),
        ensures
            r@ == lin_compute(self@),
        decreases self,
    {
        match self {
            Compute::Invoke(f, args) => l3_ir::Compute::Invoke(f, args),
            Compute::Closure { fun_type, free_vars, params, body } => {
                let mut linears = Used::new();
                let checked = body.use_check(&mut linears);
                assert(checked is Ok);
                let linears = linears.to_linears();
                l3_ir::Compute::Closure { fun_type, free_vars, params, body: Box::new(body.linearize(&linears)) }
            },
            Compute::Constructor(c, ty, args) => l3_ir::Compute::Constructor(c, ty, None, args),
        }
    }
}

impl BindPattern {
    pub fn linearize(self, linears: &Vec<String>) -> (r: l3_ir::Body)
        requires
            linearizable(self@, names_view(linears@)),
        ensures
            r@ == lin_body(self@, names_view(linears@)),
            ({
                let b = self@;
                let v = b->BindPattern_value;
                let read = fv(*b->BindPattern_cont).contains(v);
                &&& names_view(linears@).contains(v) && read
                    ==> r@ == l3_ir::BodyV::Dup(v, Box::new(linear_destruct(b, Owned::Linear, names_view(linears@))))
                &&& names_view(linears@).contains(v) && !read ==> r@ == linear_destruct(b, Owned::Linear, names_view(linears@))
                &&& !names_view(linears@).contains(v) ==> r@ == linear_destruct(b, Owned::Borrow, names_view(linears@))
            }),
        decreases self,
    {
        proof {
            law_linearize_destruct(self@, names_view(linears@));
        }
        let ghost me = self@;
        let cont_free_vars = self.cont.free_vars();
        let BindPattern { pat, ty, value, cont } = self;
        assert(me == BodyV::BindPattern { pat: pat@, ty: ty@, value: value@, cont: Box::new(cont@) });
        let cont = cont.linearize(linears);
        assert(cont@ == lin_body(*me->BindPattern_cont, names_view(linears@)));
        if contains(linears, &value) {
            let shared = contains(&cont_free_vars, &value);
            let bind = l3_ir::BindPattern {
                pat,
                owned: Owned::Linear,
                ty,
                value: value.clone(),
                cont: Box::new(cont),
            };
            let mut body = l3_ir::Body::BindPattern(bind);
            assert(names_view(cont_free_vars@) == fv(*me->BindPattern_cont));
            assert(me->BindPattern_value == value@);
            if shared {
                body = l3_ir::Body::Dup(value, Box::new(body));
            }
            assert(body@ == lin_body(me, names_view(linears@)));
            body
        } else {
            let bind = l3_ir::BindPattern { pat, owned: Owned::Borrow, ty, value, cont: Box::new(cont) };
            l3_ir::Body::BindPattern(bind)
        }
    }
}

impl If {
    pub fn linearize(self, linears: &Vec<String>) -> (r: l3_ir::If)
        requires
            linearizable(self@, names_view(linears@)),
        ensures
            l3_ir::Body::If(r)@ == lin_body(self@, names_view(linears@)),
        decreases self,
    {
        let If { cond, then_, else_ } = self;
        let then_ = then_.linearize(linears);
        let else_ = else_.linearize(linears);
        l3_ir::If { cond, then_: Box::new(then_), else_: Box::new(else_) }
    }
}

impl Match {
    pub fn linearize(self, linears: &Vec<String>) -> (r: l3_ir::Body)
        requires
            linearizable(self@, names_view(linears@)),
        ensures
            r@ == lin_body(self@, names_view(linears@)),
            ({
                let b = self@;
                let arms = b->Match_arms;
                let ls = names_view(linears@);
                let m = l3_ir::BodyV::Match { value: b->Match_value, owned: Owned::Borrow, arms: lin_arms(arms, arms.len(), ls) };
                &&& lin_arms(arms, arms.len(), ls).len() == arms.len()
                &&& forall|i: int| 0 <= i < arms.len() ==> #[trigger] lin_arms(arms, arms.len(), ls)[i] == (arms[i].0, lin_body(arms[i].1, ls))
                &&& (ls.contains(b->Match_value) && exists|i: int| 0 <= i < arms.len() && #[trigger] fv(arms[i].1).contains(b->Match_value))
                    ==> r@ == l3_ir::BodyV::Dup(b->Match_value, Box::new(m))
                &&& !(ls.contains(b->Match_value) && exists|i: int| 0 <= i < arms.len() && #[trigger] fv(arms[i].1).contains(b->Match_value))
                    ==> r@ == m
            }),
        decreases self,
    {
        proof {
            law_linearize_match(self@, names_view(linears@));
        }
        let ghost me = self;
        let ghost arms = l2_ir::arms_view(self.matchs@);
        let ghost lin = names_view(linears@);
        let is_linear = contains(linears, &self.value);
        let mut reads = false;
        if is_linear {
            let mut i: usize = 0;
            while i < self.matchs.len()
                invariant
                    i <= self.matchs.len(),
                    arms == l2_ir::arms_view(self.matchs@),
                    reads == arms_read(arms, i as nat, self.value@),
                decreases self.matchs.len() - i,
            {
                assert(arms[i as int] == (self.matchs@[i as int].0@, self.matchs@[i as int].1@));
                let vars = self.matchs[i].1.free_vars();
                if contains(&vars, &self.value) {
                    reads = true;
                }
                i = i + 1;
            }
            assert(arms.len() == self.matchs.len());
        }
        assert(is_linear ==> reads == arms_read(arms, arms.len(), self.value@));
        let Match { value, matchs } = self;
        let mut matchs = matchs;
        let mut new_arms: Vec<(crate::ir::common::Pattern, l3_ir::Body)> = Vec::new();
        let ghost mut k: int = 0;
        #[verifier::loop_isolation(false)]
        while matchs.len() > 0
            invariant
                0 <= k <= arms.len(),
                me.matchs@.len() == arms.len(),
                arms == l2_ir::arms_view(me.matchs@),
                matchs@ == me.matchs@.skip(k),
                arms_linearizable(arms, arms.len(), lin),
                lin == names_view(linears@),
                new_arms@.len() == k,
                l3_ir::arms_view(new_arms@) == lin_arms(arms, k as nat, lin),
            decreases matchs.len(),
        {
            let ghost before = matchs@;
            let (pat, body) = matchs.remove(0);
            assert(before[0] == me.matchs@[k]);
            assert(body == me.matchs@[k].1);
            assert(matchs@ =~= me.matchs@.skip(k + 1));
            proof {
                assert(decreases_to!(me => me.matchs));
                assert(decreases_to!(me.matchs => me.matchs@));
                assert(decreases_to!(me.matchs@ => me.matchs@[k]));
                assert(decreases_to!(me.matchs@[k] => me.matchs@[k].1));
                assert(decreases_to!(me => body));
                lemma_arms_linearizable(arms, arms.len(), lin, k);
            }
            assert(arms[k] == (pat@, body@));
            let ghost prev = new_arms@;
            let b = body.linearize(linears);
            new_arms.push((pat, b));
            assert(l3_ir::arms_view(new_arms@) =~= lin_arms(arms, (k + 1) as nat, lin)) by {
                assert forall|j: int| 0 <= j < k + 1 implies l3_ir::arms_view(new_arms@)[j] == lin_arms(arms, (k + 1) as nat, lin)[j] by {
                    if j < k {
                        assert(new_arms@[j] == prev[j]);
                        assert(l3_ir::arms_view(prev)[j] == lin_arms(arms, k as nat, lin)[j]);
                    }
                }
            }
            proof {
                k = k + 1;
            }
        }
        assert(k == arms.len());
        assert(me@ == (BodyV::Match { value: value@, arms }));
        let m = l3_ir::Body::Match(l3_ir::Match { value: value.clone(), owned: Owned::Borrow, matchs: new_arms });
        assert(m@ == l3_ir::BodyV::Match { value: value@, owned: Owned::Borrow, arms: lin_arms(arms, arms.len(), lin) });
        assert(is_linear == lin.contains(value@));
        if is_linear && reads {
            l3_ir::Body::Dup(value, Box::new(m))
        } else {
            m
        }
    }
}

pub proof fn lemma_arms_linearizable(arms: Seq<(PatternV, BodyV)>, k: nat, linears: Seq<NameV>, i: int)
    requires
        arms_linearizable(arms, k, linears),
        k <= arms.len(),
        0 <= i < k,
    ensures
        linearizable(arms[i].1, linears),
    decreases k,
{
    if i < k - 1 {
        lemma_arms_linearizable(arms, (k - 1) as nat, linears, i);
    }
}

impl Function {
    /// The function with ownership made explicit, given its linear variables.
    pub fn linearize(self, linears: &Vec<String>) -> (r: l3_ir::Function)
        requires
            linearizable(self.body@, names_view(linears@)),
        ensures
            r.name == self.name,
            r.return_type == self.return_type,
            r.args == self.args,
            r.body@ == lin_body(self.body@, names_view(linears@)),
    {
        let Function { name, return_type, args, body } = self;
        l3_ir::Function { name, return_type, args, body: body.linearize(linears) }
    }
}


pub proof fn lemma_wrap_dups_fv(names: Seq<NameV>, b: l3_ir::BodyV)
    ensures
        fv3::fv(wrap_dups(names, b)) == fv3::fv(b),
    decreases names.len(),
{
    if names.len() > 0 {
        lemma_wrap_dups_fv(names.drop_last(), b);
    }
}

/// Making ownership explicit neither adds nor removes a variable read: the
/// linear body reads exactly the variables the body reads, in the same order.
pub proof fn law_linearize_keeps_free_vars(b: BodyV, linears: Seq<NameV>)
    ensures
        fv3::fv(lin_body(b, linears)) == fv(b),
    decreases b, 0nat,
{
    match b {
        BodyV::Variable(_) => {},
        BodyV::Bind { var, ty, value, cont } => {
            law_linearize_keeps_free_vars(*cont, linears);
            let inner = l3_ir::BodyV::Bind {
                var,
                ty,
                value: Box::new(lin_compute(*value)),
                cont: Box::new(lin_body(*cont, linears)),
            };
            lemma_wrap_dups_fv(shared(fv_compute(*value), linears, fv(*cont)), inner);
            assert(fv3::fv_compute(lin_compute(*value)) == fv_compute(*value));
            assert(fv3::fv(lin_body(b, linears)) == fv(b));
        },
        BodyV::BindPattern { pat, ty, value, cont } => {
            law_linearize_keeps_free_vars(*cont, linears);
            let o = if linears.contains(value) { Owned::Linear } else { Owned::Borrow };
            let bp = l3_ir::BodyV::BindPattern { pat, owned: o, ty, value, cont: Box::new(lin_body(*cont, linears)) };
            assert(fv3::fv(bp) == fv(b));
            assert(fv3::fv(l3_ir::BodyV::Dup(value, Box::new(bp))) == fv3::fv(bp));
            assert(fv3::fv(lin_body(b, linears)) == fv(b));
        },
        BodyV::If { then_, else_, .. } => {
            law_linearize_keeps_free_vars(*then_, linears);
            law_linearize_keeps_free_vars(*else_, linears);
            assert(fv3::fv(lin_body(b, linears)) == fv(b));
        },
        BodyV::Match { value, arms } => {
            lemma_lin_arms_fv(arms, arms.len(), linears);
            let m = l3_ir::BodyV::Match { value, owned: Owned::Borrow, arms: lin_arms(arms, arms.len(), linears) };
            assert(fv3::fv(m) == fv(b));
            assert(fv3::fv(l3_ir::BodyV::Dup(value, Box::new(m))) == fv3::fv(m));
            assert(fv3::fv(lin_body(b, linears)) == fv(b));
        },
    }
}

pub proof fn lemma_lin_arms_fv(arms: Seq<(PatternV, BodyV)>, k: nat, linears: Seq<NameV>)
    requires
        k <= arms.len(),
    ensures
        lin_arms(arms, k, linears).len() == k,
        fv3::fv_arms(lin_arms(arms, k, linears), k) == fv_arms(arms, k),
    decreases arms, k + 1,
{
    if k > 0 {
        lemma_lin_arms_fv(arms, (k - 1) as nat, linears);
        law_linearize_keeps_free_vars(arms[k - 1].1, linears);
        let r = lin_arms(arms, k, linears);
        let r0 = lin_arms(arms, (k - 1) as nat, linears);
        assert(r.take(k - 1) =~= r0.take(k - 1));
        lemma_fv_arms_prefix(r, r0, (k - 1) as nat);
    }
}

/// The variables read by the first `k` arms only depend on those arms.
pub proof fn lemma_fv_arms_prefix(a: Seq<(PatternV, l3_ir::BodyV)>, b: Seq<(PatternV, l3_ir::BodyV)>, k: nat)
    requires
        k <= a.len(),
        k <= b.len(),
        a.take(k as int) == b.take(k as int),
    ensures
        fv3::fv_arms(a, k) == fv3::fv_arms(b, k),
    decreases k,
{
    if k > 0 {
        assert(a.take(k - 1) =~= a.take(k as int).take(k - 1));
        assert(b.take(k - 1) =~= b.take(k as int).take(k - 1));
        assert(a[k - 1] == a.take(k as int)[k - 1]);
        assert(b[k - 1] == b.take(k as int)[k - 1]);
        lemma_fv_arms_prefix(a, b, (k - 1) as nat);
    }
}

/// Whether no match occurs in a body, the bodies of its closures included.
pub open spec fn match_free(b: BodyV) -> bool
    decreases b, 0nat,
{
    match b {
        BodyV::Variable(_) => true,
        BodyV::Bind { value, cont, .. } => match_free(*cont) && match_free_compute(*value),
        BodyV::BindPattern { cont, .. } => match_free(*cont),
        BodyV::If { then_, else_, .. } => match_free(*then_) && match_free(*else_),
        BodyV::Match { .. } => false,
    }
}

pub open spec fn match_free_compute(c: ComputeV) -> bool
    decreases c, 0nat,
{
    match c {
        ComputeV::Closure { body, .. } => match_free(*body),
        _ => true,
    }
}

/// Whether every variable a body without matches returns is recorded as consumed in `u`.
pub open spec fn returns_consumed(b: BodyV, u: UsedV) -> bool
    decreases b,
{
    match b {
        BodyV::Variable(v) => lookup(u, v) == Some(Some(Owned::Linear)),
        BodyV::Bind { cont, .. } => returns_consumed(*cont, u),
        BodyV::BindPattern { cont, .. } => returns_consumed(*cont, u),
        BodyV::If { then_, else_, .. } => returns_consumed(*then_, u) && returns_consumed(*else_, u),
        BodyV::Match { .. } => false,
    }
}

pub proof fn lemma_returns_consumed_kept(b: BodyV, u1: UsedV, u2: UsedV)
    requires
        returns_consumed(b, u1),
        forall|v: NameV| #[trigger] lookup(u1, v) == Some(Some(Owned::Linear)) ==> lookup(u2, v) == Some(Some(Owned::Linear)),
    ensures
        returns_consumed(b, u2),
    decreases b,
{
    match b {
        BodyV::Variable(v) => {
            assert(lookup(u1, v) == Some(Some(Owned::Linear)));
        },
        BodyV::Bind { cont, .. } => lemma_returns_consumed_kept(*cont, u1, u2),
        BodyV::BindPattern { cont, .. } => lemma_returns_consumed_kept(*cont, u1, u2),
        BodyV::If { then_, else_, .. } => {
            lemma_returns_consumed_kept(*then_, u1, u2);
            lemma_returns_consumed_kept(*else_, u1, u2);
        },
        BodyV::Match { .. } => {},
    }
}

/// The usage check of a body without matches records every variable the body
/// returns as consumed.
pub proof fn lemma_uc_records_returns(b: BodyV, u: UsedV)
    requires
        match_free(b),
    ensures
        returns_consumed(b, uc_body(b, u).1),
    decreases b,
{
    match b {
        BodyV::Variable(x) => {
            law_record_read_back(u, x, Owned::Linear, x);
        },
        BodyV::Bind { var, value, cont, .. } => {
            lemma_uc_records_returns(*cont, u);
            law_use_check_accepts(*cont, u);
            let u1 = uc_body(*cont, u).1;
            let u2 = record(u1, var, Owned::Linear).1;
            let u3 = uc_compute(*value, u2).1;
            assert forall|v: NameV| #[trigger] lookup(u1, v) == Some(Some(Owned::Linear)) implies lookup(u3, v) == Some(
                Some(Owned::Linear),
            ) by {
                law_consumed_stays_consumed(u1, var, Owned::Linear, v);
                lemma_uc_compute_keeps(*value, u2, v);
            }
            lemma_returns_consumed_kept(*cont, u1, u3);
        },
        BodyV::BindPattern { pat, value, cont, .. } => {
            lemma_uc_records_returns(*cont, u);
            law_use_check_accepts(*cont, u);
            let u1 = uc_body(*cont, u).1;
            let o = if all_borrowed(u1, pattern_vars(pat)) { Owned::Borrow } else { Owned::Linear };
            let u2 = record(u1, value, o).1;
            assert forall|v: NameV| #[trigger] lookup(u1, v) == Some(Some(Owned::Linear)) implies lookup(u2, v) == Some(
                Some(Owned::Linear),
            ) by {
                law_consumed_stays_consumed(u1, value, o, v);
            }
            lemma_returns_consumed_kept(*cont, u1, u2);
        },
        BodyV::If { cond, then_, else_ } => {
            let u1 = record(u, cond, Owned::Borrow).1;
            lemma_uc_records_returns(*then_, u1);
            law_use_check_accepts(*then_, u1);
            let ut = uc_body(*then_, u1).1;
            lemma_uc_records_returns(*else_, ut);
            let ue = uc_body(*else_, ut).1;
            assert forall|v: NameV| #[trigger] lookup(ut, v) == Some(Some(Owned::Linear)) implies lookup(ue, v) == Some(
                Some(Owned::Linear),
            ) by {
                lemma_uc_keeps(*else_, ut, v);
            }
            lemma_returns_consumed_kept(*then_, ut, ue);
        },
        BodyV::Match { .. } => {},
    }
}

pub proof fn lemma_linearizable_from(b: BodyV, u: UsedV)
    requires
        match_free(b),
        returns_consumed(b, u),
        keys(u).no_duplicates(),
    ensures
        linearizable(b, linear_names(u)),
    decreases b, 0nat,
{
    match b {
        BodyV::Variable(v) => {
            law_linear_names(u, v);
            assert(linear_names(u).contains(v));
        },
        BodyV::Bind { value, cont, .. } => {
            lemma_linearizable_from(*cont, u);
            assert(match_free_compute(*value));
            if let ComputeV::Closure { body, .. } = *value {
                assert(match_free(*body));
                law_use_check_accepts(*body, Seq::empty());
                law_checked_body_is_linearizable(*body);
                assert(compute_linearizable(*value));
            }
            assert(compute_linearizable(*value));
        },
        BodyV::BindPattern { cont, .. } => lemma_linearizable_from(*cont, u),
        BodyV::If { then_, else_, .. } => {
            lemma_linearizable_from(*then_, u);
            lemma_linearizable_from(*else_, u);
        },
        BodyV::Match { .. } => {},
    }
}

/// A body without matches can be made linear with the linear variables its own
/// usage check finds.
pub proof fn law_checked_body_is_linearizable(b: BodyV)
    requires
        match_free(b),
    ensures
        linearizable(b, linear_names(uc_body(b, Seq::empty()).1)),
    decreases b, 1nat,
{
    let e = Seq::<(NameV, Option<Owned>)>::empty();
    assert(keys(e) =~= Seq::<NameV>::empty());
    lemma_uc_records_returns(b, e);
    lemma_uc_keeps(b, e, Seq::empty());
    lemma_linearizable_from(b, uc_body(b, e).1);
}

/// The body of a function without matches can be made linear with the linear
/// variables found by the usage check of the function.
pub proof fn law_checked_function_is_linearizable(body: BodyV, args: Seq<(NameV, Owned)>)
    requires
        match_free(body),
    ensures
        linearizable(body, linear_names(uc_function(body, args, Seq::empty()).1)),
{
    let e = Seq::<(NameV, Option<Owned>)>::empty();
    assert(keys(e) =~= Seq::<NameV>::empty());
    law_use_check_accepts(body, e);
    lemma_uc_records_returns(body, e);
    lemma_uc_keeps(body, e, Seq::empty());
    let u1 = uc_body(body, e).1;
    let u2 = record_all(u1, args, args.len()).1;
    assert forall|v: NameV| #[trigger] lookup(u1, v) == Some(Some(Owned::Linear)) implies lookup(u2, v) == Some(
        Some(Owned::Linear),
    ) by {
        lemma_record_all_keeps_consumed(u1, args, args.len(), v);
    }
    lemma_returns_consumed_kept(body, u1, u2);
    lemma_record_all_keeps_names_distinct(u1, args, args.len());
    lemma_linearizable_from(body, u2);
}

/// Making ownership explicit and then inserting reference counting adds no read:
/// the processed body reads only variables the body read before both passes.
pub proof fn law_linearized_function_adds_no_read(
    b: BodyV,
    linears: Seq<NameV>,
    args: Seq<(String, (crate::types::Type, Owned))>,
)
    requires
        idr_function(lin_body(b, linears), args) is Some,
    ensures
        fv3::fv(idr_function(lin_body(b, linears), args).unwrap()).to_set().subset_of(fv(b).to_set()),
{
    law_linearize_keeps_free_vars(b, linears);
    law_function_insert_drop_reuse_adds_no_read(lin_body(b, linears), args);
}

pub proof fn lemma_wrap_dups_keeps(names: Seq<NameV>, b: l3_ir::BodyV)
    requires
        no_match(b),
        drops_dead(b),
    ensures
        no_match(wrap_dups(names, b)),
        drops_dead(wrap_dups(names, b)),
    decreases names.len(),
{
    if names.len() > 0 {
        lemma_wrap_dups_keeps(names.drop_last(), b);
    }
}

/// Making a body without matches linear gives a linear body without matches and
/// without drops.
pub proof fn lemma_linearize_match_free(b: BodyV, linears: Seq<NameV>)
    requires
        match_free(b),
    ensures
        no_match(lin_body(b, linears)),
        drops_dead(lin_body(b, linears)),
    decreases b, 0nat,
{
    match b {
        BodyV::Variable(_) => {},
        BodyV::Bind { var, ty, value, cont } => {
            lemma_linearize_match_free(*cont, linears);
            assert(match_free_compute(*value));
            if let ComputeV::Closure { body, .. } = *value {
                assert(match_free(*body));
                lemma_linearize_match_free(*body, closure_linears(*body));
            }
            assert(no_match_compute(lin_compute(*value)) && drops_dead_compute(lin_compute(*value)));
            let inner = l3_ir::BodyV::Bind {
                var,
                ty,
                value: Box::new(lin_compute(*value)),
                cont: Box::new(lin_body(*cont, linears)),
            };
            assert(no_match(inner) && drops_dead(inner));
            lemma_wrap_dups_keeps(shared(fv_compute(*value), linears, fv(*cont)), inner);
        },
        BodyV::BindPattern { pat, ty, value, cont } => {
            lemma_linearize_match_free(*cont, linears);
            let c = Box::new(lin_body(*cont, linears));
            let owned = l3_ir::BodyV::BindPattern { pat, owned: Owned::Linear, ty, value, cont: c };
            let borrowed = l3_ir::BodyV::BindPattern { pat, owned: Owned::Borrow, ty, value, cont: c };
            assert(no_match(owned) && drops_dead(owned));
            assert(no_match(borrowed) && drops_dead(borrowed));
            assert(no_match(l3_ir::BodyV::Dup(value, Box::new(owned))));
            assert(drops_dead(l3_ir::BodyV::Dup(value, Box::new(owned))));
        },
        BodyV::If { then_, else_, .. } => {
            lemma_linearize_match_free(*then_, linears);
            lemma_linearize_match_free(*else_, linears);
        },
        BodyV::Match { .. } => {},
    }
}

pub proof fn lemma_wrap_dups_drops_dead(names: Seq<NameV>, b: l3_ir::BodyV)
    requires
        drops_dead(b),
    ensures
        drops_dead(wrap_dups(names, b)),
    decreases names.len(),
{
    if names.len() > 0 {
        lemma_wrap_dups_drops_dead(names.drop_last(), b);
    }
}

/// Making a body linear inserts no drop: every drop of the linear body is dead.
pub proof fn lemma_linearize_drops_dead(b: BodyV, linears: Seq<NameV>)
    ensures
        drops_dead(lin_body(b, linears)),
    decreases b, 0nat,
{
    match b {
        BodyV::Variable(_) => {},
        BodyV::Bind { var, ty, value, cont } => {
            lemma_linearize_drops_dead(*cont, linears);
            match *value {
                ComputeV::Closure { body, .. } => {
                    lemma_linearize_drops_dead(*body, closure_linears(*body));
                },
                _ => {},
            }
            assert(drops_dead_compute(lin_compute(*value)));
            let inner = l3_ir::BodyV::Bind {
                var,
                ty,
                value: Box::new(lin_compute(*value)),
                cont: Box::new(lin_body(*cont, linears)),
            };
            assert(drops_dead(inner));
            lemma_wrap_dups_drops_dead(shared(fv_compute(*value), linears, fv(*cont)), inner);
        },
        BodyV::BindPattern { pat, ty, value, cont } => {
            lemma_linearize_drops_dead(*cont, linears);
            let c = Box::new(lin_body(*cont, linears));
            let owned = l3_ir::BodyV::BindPattern { pat, owned: Owned::Linear, ty, value, cont: c };
            assert(drops_dead(owned));
            assert(drops_dead(l3_ir::BodyV::Dup(value, Box::new(owned))));
        },
        BodyV::If { then_, else_, .. } => {
            lemma_linearize_drops_dead(*then_, linears);
            lemma_linearize_drops_dead(*else_, linears);
        },
        BodyV::Match { value, arms } => {
            lemma_lin_arms_index(arms, arms.len(), linears);
            let out = lin_arms(arms, arms.len(), linears);
            assert forall|i: int| 0 <= i < arms.len() implies drops_dead(#[trigger] out[i].1) by {
                assert(decreases_to!(b => arms));
                assert(decreases_to!(arms => arms[i]));
                assert(decreases_to!(arms[i] => arms[i].1));
                lemma_linearize_drops_dead(arms[i].1, linears);
                assert(out[i] == (arms[i].0, lin_body(arms[i].1, linears)));
            }
            lemma_arms_drops_dead_index(out, arms.len());
            let m = l3_ir::BodyV::Match { value, owned: Owned::Borrow, arms: out };
            assert(drops_dead(m));
            assert(drops_dead(l3_ir::BodyV::Dup(value, Box::new(m))));
        },
    }
}

/// Making ownership explicit and then inserting reference counting drops, or
/// gives up for reuse, only variables that are not read after: for a function
/// without matches, and for one whose linear body binds in no match arm a linear
/// variable of it (see [`function_fresh`]).
pub proof fn law_linearized_function_drops_dead(
    b: BodyV,
    linears: Seq<NameV>,
    args: Seq<(String, (crate::types::Type, Owned))>,
)
    requires
        match_free(b) || function_fresh(lin_body(b, linears)),
        idr_function(lin_body(b, linears), args) is Some,
    ensures
        drops_dead(idr_function(lin_body(b, linears), args).unwrap()),
{
    let l = lin_body(b, linears);
    lemma_linearize_drops_dead(b, linears);
    if match_free(b) {
        lemma_linearize_match_free(b, linears);
        lemma_no_match_fresh(l, closure_owners(l));
    }
    law_function_insert_drop_reuse_drops_dead(l, args);
}

/// A destructuring with the given ownership, its continuation made linear.
pub open spec fn linear_destruct(b: BodyV, owned: Owned, linears: Seq<NameV>) -> l3_ir::BodyV {
    l3_ir::BodyV::BindPattern {
        pat: b->BindPattern_pat,
        owned,
        ty: b->BindPattern_ty,
        value: b->BindPattern_value,
        cont: Box::new(lin_body(*b->BindPattern_cont, linears)),
    }
}

/// A destructuring of a linear value consumes it, and is preceded by a
/// duplication of the value exactly when the continuation reads the value
/// again; a destructuring of any other value borrows it, with no duplication.
pub proof fn law_linearize_destruct(b: BodyV, linears: Seq<NameV>)
    requires
        b is BindPattern,
    ensures
        linears.contains(b->BindPattern_value) && fv(*b->BindPattern_cont).contains(b->BindPattern_value)
            ==> lin_body(b, linears) == l3_ir::BodyV::Dup(b->BindPattern_value, Box::new(linear_destruct(b, Owned::Linear, linears))),
        linears.contains(b->BindPattern_value) && !fv(*b->BindPattern_cont).contains(b->BindPattern_value)
            ==> lin_body(b, linears) == linear_destruct(b, Owned::Linear, linears),
        !linears.contains(b->BindPattern_value) ==> lin_body(b, linears) == linear_destruct(b, Owned::Borrow, linears),
{
}

/// The names a binding duplicates first: those its computation reads that are
/// linear and read again by the continuation.
pub proof fn law_linearize_shared(used: Seq<NameV>, linears: Seq<NameV>, cont_vars: Seq<NameV>, x: NameV)
    ensures
        shared(used, linears, cont_vars).contains(x) <==> (used.contains(x) && linears.contains(x) && cont_vars.contains(x)),
    decreases used.len(),
{
    if used.len() > 0 {
        law_linearize_shared(used.drop_last(), linears, cont_vars, x);
        let r = shared(used.drop_last(), linears, cont_vars);
        assert(used =~= used.drop_last().push(used.last()));
        lemma_push_contains(used.drop_last(), used.last(), x);
        if linears.contains(used.last()) && cont_vars.contains(used.last()) {
            lemma_push_contains(r, used.last(), x);
        }
    } else {
        assert(!used.contains(x));
    }
}

pub proof fn lemma_lin_arms_index(arms: Seq<(PatternV, BodyV)>, k: nat, linears: Seq<NameV>)
    requires
        k <= arms.len(),
    ensures
        lin_arms(arms, k, linears).len() == k,
        forall|i: int| 0 <= i < k ==> #[trigger] lin_arms(arms, k, linears)[i] == (arms[i].0, lin_body(arms[i].1, linears)),
    decreases k,
{
    if k > 0 {
        lemma_lin_arms_index(arms, (k - 1) as nat, linears);
    }
}

pub proof fn lemma_arms_read_exists(arms: Seq<(PatternV, BodyV)>, k: nat, value: NameV)
    requires
        k <= arms.len(),
    ensures
        arms_read(arms, k, value) <==> exists|i: int| 0 <= i < k && #[trigger] fv(arms[i].1).contains(value),
    decreases k,
{
    if k > 0 {
        lemma_arms_read_exists(arms, (k - 1) as nat, value);
        if arms_read(arms, k, value) && !fv(arms[k - 1].1).contains(value) {
            let i = choose|i: int| 0 <= i < k - 1 && #[trigger] fv(arms[i].1).contains(value);
            assert(0 <= i < k);
        }
    }
}

/// A match made linear borrows its value and makes each arm linear, in order;
/// it is preceded by a duplication of the value exactly when the value is linear
/// and some arm reads it.
pub proof fn law_linearize_match(b: BodyV, linears: Seq<NameV>)
    requires
        b is Match,
    ensures
        ({
            let arms = b->Match_arms;
            let m = l3_ir::BodyV::Match { value: b->Match_value, owned: Owned::Borrow, arms: lin_arms(arms, arms.len(), linears) };
            &&& lin_arms(arms, arms.len(), linears).len() == arms.len()
            &&& forall|i: int| 0 <= i < arms.len() ==> #[trigger] lin_arms(arms, arms.len(), linears)[i] == (arms[i].0, lin_body(arms[i].1, linears))
            &&& (linears.contains(b->Match_value) && exists|i: int| 0 <= i < arms.len() && #[trigger] fv(arms[i].1).contains(b->Match_value))
                ==> lin_body(b, linears) == l3_ir::BodyV::Dup(b->Match_value, Box::new(m))
            &&& !(linears.contains(b->Match_value) && exists|i: int| 0 <= i < arms.len() && #[trigger] fv(arms[i].1).contains(b->Match_value))
                ==> lin_body(b, linears) == m
        }),
{
    let arms = b->Match_arms;
    lemma_lin_arms_index(arms, arms.len(), linears);
    lemma_arms_read_exists(arms, arms.len(), b->Match_value);
}

} // verus!
