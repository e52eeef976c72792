//! Reference counting around bindings and matches, in the first intermediate
//! language: the variables a pattern binds are duplicated where they are bound,
//! and at the start of every body each variable of the scope that is not live
//! there is released.
use std::rc::Rc;

use vstd::prelude::*;

use crate::ir::common::{pattern_bindings, pattern_fits, pattern_vars, PatternV};
use crate::l2_ir::{arms_view, Bind, Body, BodyV, Compute, ComputeV, If, Match, Pattern};
use crate::names::{contains, dedup, difference, difference_of, insert, insert_name, lemma_difference, lemma_insert, lemma_union, lookup, names_view, union, union_into, NameV};
use crate::pass::l2::free_variable::fv_value;
use crate::pass::l2::insert_reuse_from_liveness::{lemma_release_erase, release, release_var, EnvV};
use crate::pass::l2::rewrite_construct::{erase, erase_arms, erase_value, lemma_erase_arms_prefix};
use crate::types::{params_view, Owned, Type, TypeV};
use crate::utils::{entries_of, extend_scope, lemma_scope_lookup, nullable_entries, parent_entries, scope_entries, share, Scope};

verus! {

/// Releases each variable bound in `entries` that is not in `live`, the
/// innermost binding first, each with the type of that binding.
pub open spec fn release_env(b: BodyV, entries: EnvV, live: Seq<NameV>) -> BodyV
    decreases entries.len(),
{
    if entries.len() == 0 {
        b
    } else {
        let (n, t) = entries.last();
        release_env(if live.contains(n) { b } else { release(b, n, t) }, entries.drop_last(), live)
    }
}

/// Duplicates each of `vars` before `b`, the first one innermost.
pub open spec fn dup_vars(b: BodyV, vars: Seq<NameV>) -> BodyV
    decreases vars.len(),
{
    if vars.len() == 0 {
        b
    } else {
        BodyV::Dup(vars.last(), Box::new(dup_vars(b, vars.drop_last())))
    }
}

/// The scope extended by the first `k` variables a closure captures, each with
/// the type the scope gives it; `None` when one has none.
pub open spec fn capture(env: EnvV, fvs: Seq<NameV>, k: nat) -> Option<EnvV>
    decreases k,
{
    if k == 0 || k > fvs.len() {
        Some(env)
    } else {
        match capture(env, fvs, (k - 1) as nat) {
            None => None,
            Some(e) => match lookup(e, fvs[k - 1]) {
                None => None,
                Some(t) => Some(e.push((fvs[k - 1], t))),
            },
        }
    }
}

/// The parameter types of a function type.
pub open spec fn param_types(fun_type: TypeV) -> Seq<(TypeV, Owned)> {
    match fun_type {
        TypeV::Function(ps, _) => ps,
        _ => Seq::empty(),
    }
}

/// The scope of a closure's body: the captured variables, then the parameters
/// with the types of the function type; `None` when a captured variable has no
/// type or there are more parameters than parameter types.
pub open spec fn closure_env(env: EnvV, fvs: Seq<NameV>, params: Seq<NameV>, fun_type: TypeV) -> Option<EnvV> {
    let ps = param_types(fun_type);
    match capture(env, fvs, fvs.len()) {
        None => None,
        Some(e) => if params.len() <= ps.len() {
            Some(e + Seq::new(params.len(), |i: int| (params[i], ps[i].0)))
        } else {
            None
        },
    }
}

/// The body processed, then every variable of `env` that is not live at its start
/// released before it; with the variables live at its start.  `None` where the
/// pass has no answer (a pattern that does not fit its type, a variable without
/// a type, a closure with more parameters than its type).
pub open spec fn pm(b: BodyV, env: EnvV) -> Option<(BodyV, Seq<NameV>)>
    decreases b, 1nat,
{
    match pm_raw(b, env) {
        None => None,
        Some((body, live)) => Some((release_env(body, env, live), live)),
    }
}

/// One step of [`pm`]: a binding duplicates the variables its pattern binds at the
/// start of its continuation, a match arm those of its pattern; the variables
/// live at the start of a binding are those of its continuation but the pattern's
/// and those its value reads.
pub open spec fn pm_raw(b: BodyV, env: EnvV) -> Option<(BodyV, Seq<NameV>)>
    decreases b, 0nat,
{
    match b {
        BodyV::Compute(c) => Some((b, fv_value(c))),
        BodyV::Bind { pat, ty, value, cont } => if !pattern_fits(pat, ty) {
            None
        } else {
            let env2 = env + pattern_bindings(pat, ty);
            match pm(*cont, env2) {
                None => None,
                Some((body, live)) => match pm_value(*value, env2) {
                    None => None,
                    Some((c, used)) => Some(
                        (
                            BodyV::Bind { pat, ty, value: Box::new(c), cont: Box::new(dup_vars(body, pattern_vars(pat))) },
                            union(difference(live, pattern_vars(pat)), used),
                        ),
                    ),
                },
            }
        },
        BodyV::Dup(v, e) => match pm(*e, env) {
            Some((r, l)) => Some((BodyV::Dup(v, Box::new(r)), l)),
            None => None,
        },
        BodyV::Drop(v, e) => match pm(*e, env) {
            Some((r, l)) => Some((BodyV::Drop(v, Box::new(r)), l)),
            None => None,
        },
        BodyV::DropReuse(n, v, e) => match pm(*e, env) {
            Some((r, l)) => Some((BodyV::DropReuse(n, v, Box::new(r)), l)),
            None => None,
        },
        BodyV::If { cond, then_, else_ } => match (pm(*then_, env), pm(*else_, env)) {
            (Some((a, la)), Some((e, le))) => Some(
                (BodyV::If { cond, then_: Box::new(a), else_: Box::new(e) }, insert(union(la, le), cond)),
            ),
            _ => None,
        },
        BodyV::Match { value, arms } => match lookup(env, value) {
            None => None,
            Some(t) => match pm_arms(arms, arms.len(), t, env) {
                None => None,
                Some((arms2, live)) => Some((BodyV::Match { value, arms: arms2 }, live)),
            },
        },
    }
}

/// A value processed: the body of a closure is processed in the closure's scope,
/// and what a closure reads is what it captures.
pub open spec fn pm_value(c: ComputeV, env: EnvV) -> Option<(ComputeV, Seq<NameV>)>
    decreases c, 0nat,
{
    match c {
        ComputeV::Closure { fun_type, free_vars, params, body } => match closure_env(env, free_vars, params, fun_type) {
            None => None,
            Some(e2) => match pm(*body, e2) {
                None => None,
                Some((nb, _)) => Some(
                    (ComputeV::Closure { fun_type, free_vars, params, body: Box::new(nb) }, dedup(free_vars)),
                ),
            },
        },
        _ => Some((c, fv_value(c))),
    }
}

/// The first `k` arms of a match on a value of type `t`, each processed in the
/// scope extended by its pattern, and the union of what is live at their starts.
pub open spec fn pm_arms(arms: Seq<(PatternV, BodyV)>, k: nat, t: TypeV, env: EnvV) -> Option<
    (Seq<(PatternV, BodyV)>, Seq<NameV>),
>
    decreases arms, k + 1,
{
    if k == 0 || k > arms.len() {
        Some((Seq::empty(), Seq::empty()))
    } else {
        match pm_arms(arms, (k - 1) as nat, t, env) {
            None => None,
            Some((done, live)) => {
                let pat = arms[k - 1].0;
                if !pattern_fits(pat, t) {
                    None
                } else {
                    match pm(arms[k - 1].1, env + pattern_bindings(pat, t)) {
                        None => None,
                        Some((b, l)) => Some(
                            (
                                done.push((pat, dup_vars(b, pattern_vars(pat)))),
                                union(live, difference(l, pattern_vars(pat))),
                            ),
                        ),
                    }
                }
            },
        }
    }
}

pub proof fn lemma_pm_arms_prefix(arms: Seq<(PatternV, BodyV)>, k: nat, j: nat, t: TypeV, env: EnvV)
    requires
        pm_arms(arms, k, t, env) is Some,
        j <= k <= arms.len(),
    ensures
        pm_arms(arms, j, t, env) is Some,
    decreases k,
{
    if j < k {
        lemma_pm_arms_prefix(arms, (k - 1) as nat, j, t, env);
    }
}

pub proof fn lemma_capture_prefix(env: EnvV, fvs: Seq<NameV>, k: nat, j: nat)
    requires
        capture(env, fvs, k) is Some,
        j <= k <= fvs.len(),
    ensures
        capture(env, fvs, j) is Some,
    decreases k,
{
    if j < k {
        lemma_capture_prefix(env, fvs, (k - 1) as nat, j);
    }
}

pub proof fn lemma_release_env_erase(b: BodyV, entries: EnvV, live: Seq<NameV>)
    ensures
        erase(release_env(b, entries, live)) == erase(b),
    decreases entries.len(),
{
    if entries.len() > 0 {
        let (n, t) = entries.last();
        let b2 = if live.contains(n) { b } else { release(b, n, t) };
        lemma_release_erase(b, n, t);
        lemma_release_env_erase(b2, entries.drop_last(), live);
    }
}

pub proof fn lemma_dup_vars_erase(b: BodyV, vars: Seq<NameV>)
    ensures
        erase(dup_vars(b, vars)) == erase(b),
    decreases vars.len(),
{
    if vars.len() > 0 {
        lemma_dup_vars_erase(b, vars.drop_last());
    }
}

/// Adding reference counting around bindings and matches changes nothing else:
/// the processed body, erased, is the body erased.
pub proof fn law_process_match_only_annotates(b: BodyV, env: EnvV)
    requires
        pm(b, env) is Some,
    ensures
        erase(pm(b, env).unwrap().0) == erase(b),
    decreases b, 1nat,
{
    lemma_pm_raw_erase(b, env);
    let (body, live) = pm_raw(b, env).unwrap();
    lemma_release_env_erase(body, env, live);
}

pub proof fn lemma_pm_raw_erase(b: BodyV, env: EnvV)
    requires
        pm_raw(b, env) is Some,
    ensures
        erase(pm_raw(b, env).unwrap().0) == erase(b),
    decreases b, 0nat,
{
    match b {
        BodyV::Compute(_) => {},
        BodyV::Bind { pat, ty, value, cont } => {
            let env2 = env + pattern_bindings(pat, ty);
            law_process_match_only_annotates(*cont, env2);
            lemma_pm_value_erase(*value, env2);
            let (body, _) = pm(*cont, env2).unwrap();
            lemma_dup_vars_erase(body, pattern_vars(pat));
        },
        BodyV::Dup(_, e) => {
            law_process_match_only_annotates(*e, env);
        },
        BodyV::Drop(_, e) => {
            law_process_match_only_annotates(*e, env);
        },
        BodyV::DropReuse(_, _, e) => {
            law_process_match_only_annotates(*e, env);
        },
        BodyV::If { then_, else_, .. } => {
            law_process_match_only_annotates(*then_, env);
            law_process_match_only_annotates(*else_, env);
        },
        BodyV::Match { value, arms } => {
            let t = lookup(env, value).unwrap();
            lemma_pm_arms_erase(arms, arms.len(), t, env);
        },
    }
}

pub proof fn lemma_pm_value_erase(c: ComputeV, env: EnvV)
    requires
        pm_value(c, env) is Some,
    ensures
        erase_value(pm_value(c, env).unwrap().0) == erase_value(c),
    decreases c, 0nat,
{
    match c {
        ComputeV::Closure { fun_type, free_vars, params, body } => {
            let e2 = closure_env(env, free_vars, params, fun_type).unwrap();
            law_process_match_only_annotates(*body, e2);
        },
        _ => {},
    }
}

pub proof fn lemma_pm_arms_erase(arms: Seq<(PatternV, BodyV)>, k: nat, t: TypeV, env: EnvV)
    requires
        pm_arms(arms, k, t, env) is Some,
        k <= arms.len(),
    ensures
        pm_arms(arms, k, t, env).unwrap().0.len() == k,
        erase_arms(pm_arms(arms, k, t, env).unwrap().0, k) == erase_arms(arms, k),
    decreases arms, k + 1,
{
    if k > 0 {
        lemma_pm_arms_erase(arms, (k - 1) as nat, t, env);
        let (done0, _) = pm_arms(arms, (k - 1) as nat, t, env).unwrap();
        let done = pm_arms(arms, k, t, env).unwrap().0;
        let pat = arms[k - 1].0;
        let env2 = env + pattern_bindings(pat, t);
        law_process_match_only_annotates(arms[k - 1].1, env2);
        let (b, _) = pm(arms[k - 1].1, env2).unwrap();
        lemma_dup_vars_erase(b, pattern_vars(pat));
        assert(done.take(k - 1) =~= done0.take(k - 1));
        lemma_erase_arms_prefix(done, done0, (k - 1) as nat);
        assert(erase(done[k - 1].1) == erase(arms[k - 1].1));
        assert(erase_arms(done, k) == erase_arms(done, (k - 1) as nat).push((done[k - 1].0, erase(done[k - 1].1))));
    }
}

/// Duplicates each of `vars` before `body`, the first one innermost.
pub fn dup_names(body: Body, vars: &Vec<String>) -> (r: Body)
    ensures
        r@ == dup_vars(body@, names_view(vars@)),
{
    let ghost b0 = body@;
    let mut body = body;
    let mut i: usize = 0;
    while i < vars.len()
        invariant
            i <= vars.len(),
            body@ == dup_vars(b0, names_view(vars@.take(i as int))),
        decreases vars.len() - i,
    {
        assert(names_view(vars@.take(i + 1)).drop_last() =~= names_view(vars@.take(i as int)));
        body = Body::Dup(vars[i].clone(), Box::new(body));
        i = i + 1;
    }
    assert(vars@.take(vars.len() as int) =~= vars@);
    body
}

impl Body {
    /// Processes the body in the scope of variable types `env`, then releases
    /// before it each variable of the scope that is not live at its start; see
    /// [`pm`].
    pub fn process_match(self, env: Rc<Scope<Type>>) -> (r: (Body, Vec<String>))
        requires
            pm(self@, scope_entries(*env)) is Some,
        ensures
            (r.0@, names_view(r.1@)) == pm(self@, scope_entries(*env)).unwrap(),
        decreases self, 1nat,
    {
        let ghost e0 = entries_of(&*env);
        let (body, liveness) = self.process_match_raw(share(&env));
        let ghost b0 = body@;
        let ghost live = names_view(liveness@);
        let mut body = body;
        let mut cur: Option<Rc<Scope<Type>>> = Some(env);
        while cur.is_some()
            invariant
                live == names_view(liveness@),
                release_env(body@, nullable_entries(cur), live) == release_env(b0, e0, live),
            decreases nullable_entries(cur).len(),
        {
            let var = cur.unwrap();
            let ghost inner = parent_entries(&*var);
            assert(scope_entries(*var) == inner.push((var.0@, var.1@)));
            assert(scope_entries(*var).drop_last() =~= inner);
            if !contains(&liveness, &var.0) {
                body = release_var(body, &var.0, &var.1);
            }
            cur = match &var.2 {
                Some(p) => Some(share(p)),
                None => None,
            };
        }
        (body, liveness)
    }

    /// One step of [`Body::process_match`]; see [`pm_raw`].
    pub fn process_match_raw(self, env: Rc<Scope<Type>>) -> (r: (Body, Vec<String>))
        requires
            pm_raw(self@, scope_entries(*env)) is Some,
        ensures
            (r.0@, names_view(r.1@)) == pm_raw(self@, scope_entries(*env)).unwrap(),
            self@ is Compute ==> r.0@ == self@ && names_view(r.1@) == fv_value(self@->Compute_0),
            self@ is Dup ==> r.0@ == BodyV::Dup(self@->Dup_0, Box::new(pm(*self@->Dup_1, scope_entries(*env)).unwrap().0))
                && names_view(r.1@) == pm(*self@->Dup_1, scope_entries(*env)).unwrap().1,
            self@ is Drop ==> r.0@ == BodyV::Drop(self@->Drop_0, Box::new(pm(*self@->Drop_1, scope_entries(*env)).unwrap().0))
                && names_view(r.1@) == pm(*self@->Drop_1, scope_entries(*env)).unwrap().1,
            self@ is DropReuse ==> r.0@ == BodyV::DropReuse(
                self@->DropReuse_0,
                self@->DropReuse_1,
                Box::new(pm(*self@->DropReuse_2, scope_entries(*env)).unwrap().0),
            ) && names_view(r.1@) == pm(*self@->DropReuse_2, scope_entries(*env)).unwrap().1,
        decreases self, 0nat,
    {
        match self {
            Body::Bind(b) => {
                let (r, liveness) = b.process_match(env);
                (Body::Bind(r), liveness)
            },
            Body::If(i) => {
                let (r, liveness) = i.process_match(env);
                (Body::If(r), liveness)
            },
            Body::Match(m) => {
                let (r, liveness) = m.process_match(env);
                (Body::Match(r), liveness)
            },
            Body::Compute(c) => {
                let liveness = c.free_vars();
                (Body::Compute(c), liveness)
            },
            Body::Dup(name, e) => {
                let (r, liveness) = e.process_match(env);
                (Body::Dup(name, Box::new(r)), liveness)
            },
            Body::Drop(name, e) => {
                let (r, liveness) = e.process_match(env);
                (Body::Drop(name, Box::new(r)), liveness)
            },
            Body::DropReuse(new_name, name, e) => {
                let (r, liveness) = e.process_match(env);
                (Body::DropReuse(new_name, name, Box::new(r)), liveness)
            },
        }
    }
}

impl Bind {
    pub fn process_match(self, env: Rc<Scope<Type>>) -> (r: (Bind, Vec<String>))
        requires
            pm_raw(self@, scope_entries(*env)) is Some,
        ensures
            (r.0@, names_view(r.1@)) == pm_raw(self@, scope_entries(*env)).unwrap(),
            ({
                let b = self@;
                let env2 = scope_entries(*env) + pattern_bindings(b->Bind_pat, b->Bind_ty);
                let (c, l) = pm(*b->Bind_cont, env2).unwrap();
                let (v, used) = pm_value(*b->Bind_value, env2).unwrap();
                &&& r.0@ == BodyV::Bind {
                    pat: b->Bind_pat,
                    ty: b->Bind_ty,
                    value: Box::new(v),
                    cont: Box::new(dup_vars(c, pattern_vars(b->Bind_pat))),
                }
                &&& forall|x: NameV| #[trigger] names_view(r.1@).contains(x) <==> ((l.contains(x)
                    && !pattern_vars(b->Bind_pat).contains(x)) || used.contains(x))
            }),
        decreases self, 0nat,
    {
        let ghost me = self@;
        let ghost e0 = entries_of(&*env);
        let Bind(pat, ty, value, cont) = self;
        let bindings = pat.type_binding(&ty);
        let env = extend_scope(env, bindings);
        let pat_defined_vars = pat.defined_vars();
        let (body, liveness) = cont.process_match(share(&env));
        let mut liveness = difference_of(&liveness, &pat_defined_vars);
        let (compute, compute_used_vars) = value.process_match(env);
        union_into(&mut liveness, &compute_used_vars);
        let body = dup_names(body, &pat_defined_vars);
        proof {
            let env2 = e0 + pattern_bindings(me->Bind_pat, me->Bind_ty);
            let l = pm(*me->Bind_cont, env2).unwrap().1;
            let used = pm_value(*me->Bind_value, env2).unwrap().1;
            assert forall|x: NameV| #[trigger] names_view(liveness@).contains(x) <==> ((l.contains(x)
                && !pattern_vars(me->Bind_pat).contains(x)) || used.contains(x)) by {
                law_process_match_bind(me, e0, x);
            }
        }
        (Bind(pat, ty, Box::new(compute), Box::new(body)), liveness)
    }
}

impl Compute {
    pub fn process_match(self, env: Rc<Scope<Type>>) -> (r: (Compute, Vec<String>))
        requires
            pm_value(self@, scope_entries(*env)) is Some,
        ensures
            (r.0@, names_view(r.1@)) == pm_value(self@, scope_entries(*env)).unwrap(),
        decreases self, 0nat,
    {
        match self {
            Compute::Closure { fun_type, free_vars, params, body } => {
                let ghost e0 = entries_of(&*env);
                let ghost fvs = names_view(free_vars@);
                let mut env = env;
                let mut i: usize = 0;
                while i < free_vars.len()
                    invariant
                        i <= free_vars.len(),
                        fvs == names_view(free_vars@),
                        capture(e0, fvs, fvs.len()) is Some,
                        capture(e0, fvs, i as nat) == Some(scope_entries(*env)),
                    decreases free_vars.len() - i,
                {
                    proof {
                        lemma_capture_prefix(e0, fvs, fvs.len(), (i + 1) as nat);
                        lemma_scope_lookup(&*env, fvs[i as int]);
                    }
                    let ty: Type = match env.find_variable(free_vars[i].as_str()) {
                        Some(t) => t.clone(),
                        None => Type::Bool,
                    };
                    env = Rc::new(Scope(free_vars[i].clone(), ty, Some(env)));
                    i = i + 1;
                }
                let ghost captured = entries_of(&*env);
                let ghost ps = params_view(fun_type.params@);
                let mut j: usize = 0;
                while j < params.len()
                    invariant
                        j <= params.len(),
                        params.len() <= fun_type.params.len(),
                        ps == params_view(fun_type.params@),
                        scope_entries(*env) == captured + Seq::new(j as nat, |t: int| (params@[t]@, ps[t].0)),
                    decreases params.len() - j,
                {
                    let ty = fun_type.params[j].0.clone();
                    env = Rc::new(Scope(params[j].clone(), ty, Some(env)));
                    assert(captured + Seq::new((j + 1) as nat, |t: int| (params@[t]@, ps[t].0)) =~= (captured
                        + Seq::new(j as nat, |t: int| (params@[t]@, ps[t].0))).push((params@[j as int]@, ps[j as int].0)));
                    j = j + 1;
                }
                assert(Seq::new(params.len() as nat, |t: int| (params@[t]@, ps[t].0)) =~= Seq::new(
                    names_view(params@).len(),
                    |t: int| (names_view(params@)[t], param_types(Type::Function(fun_type)@)[t].0),
                ));
                let (body, _) = body.process_match(env);
                let mut liveness: Vec<String> = Vec::new();
                assert(names_view(liveness@) =~= Seq::<NameV>::empty());
                union_into(&mut liveness, &free_vars);
                (Compute::Closure { fun_type, free_vars, params, body: Box::new(body) }, liveness)
            },
            _ => {
                let free_vars = self.free_vars();
                (self, free_vars)
            },
        }
    }
}

impl If {
    pub fn process_match(self, env: Rc<Scope<Type>>) -> (r: (If, Vec<String>))
        requires
            pm_raw(self@, scope_entries(*env)) is Some,
        ensures
            (r.0@, names_view(r.1@)) == pm_raw(self@, scope_entries(*env)).unwrap(),
            forall|x: NameV| #[trigger] names_view(r.1@).contains(x) <==> x == self@->If_cond
                || pm(*self@->If_then_, scope_entries(*env)).unwrap().1.contains(x)
                || pm(*self@->If_else_, scope_entries(*env)).unwrap().1.contains(x),
        decreases self, 0nat,
    {
        let ghost me = self@;
        let ghost e0 = entries_of(&*env);
        let If(cond, t, e) = self;
        let (it1, mut liveness1) = t.process_match(share(&env));
        let (it2, liveness2) = e.process_match(env);
        union_into(&mut liveness1, &liveness2);
        insert_name(&mut liveness1, cond.clone());
        proof {
            assert forall|x: NameV| #[trigger] names_view(liveness1@).contains(x) <==> x == me->If_cond
                || pm(*me->If_then_, e0).unwrap().1.contains(x)
                || pm(*me->If_else_, e0).unwrap().1.contains(x) by {
                law_process_match_if(me, e0, x);
            }
        }
        (If(cond, Box::new(it1), Box::new(it2)), liveness1)
    }
}

impl Match {
    pub fn process_match(self, env: Rc<Scope<Type>>) -> (r: (Match, Vec<String>))
        requires
            pm_raw(self@, scope_entries(*env)) is Some,
        ensures
            (r.0@, names_view(r.1@)) == pm_raw(self@, scope_entries(*env)).unwrap(),
            ({
                let b = self@;
                let arms = b->Match_arms;
                let t = lookup(scope_entries(*env), b->Match_value).unwrap();
                &&& r.0@ is Match && r.0@->Match_value == b->Match_value
                &&& r.0@->Match_arms.len() == arms.len()
                &&& forall|i: int| 0 <= i < arms.len() ==> (#[trigger] pm_arm(arms[i], t, scope_entries(*env))) is Some
                    && r.0@->Match_arms[i] == pm_arm(arms[i], t, scope_entries(*env)).unwrap().0
                &&& forall|x: NameV| #[trigger] names_view(r.1@).contains(x) <==> exists|i: int| 0 <= i < arms.len()
                    && (#[trigger] pm_arm(arms[i], t, scope_entries(*env))).unwrap().1.contains(x)
            }),
        decreases self, 0nat,
    {
        proof {
            let b = self@;
            let t = lookup(entries_of(&*env), b->Match_value).unwrap();
            law_process_match_match(b, entries_of(&*env), b->Match_value);
            assert forall|x: NameV| #[trigger] pm_raw(b, entries_of(&*env)).unwrap().1.contains(x) <==> exists|i: int|
                0 <= i < b->Match_arms.len() && (#[trigger] pm_arm(b->Match_arms[i], t, entries_of(&*env))).unwrap().1.contains(x) by {
                law_process_match_match(b, entries_of(&*env), x);
            }
        }
        let ghost me = self;
        let ghost arms = arms_view(self.1@);
        let ghost e0 = entries_of(&*env);
        proof {
            lemma_scope_lookup(&*env, self.0@);
        }
        let ty: Type = match env.find_variable(self.0.as_str()) {
            Some(t) => t.clone(),
            None => Type::Bool,
        };
        let Match(value, matchs) = self;
        let mut matchs = matchs;
        let mut new_liveness: Vec<String> = Vec::new();
        let mut pairs: Vec<(Pattern, Body)> = Vec::new();
        let ghost mut k: int = 0;
        #[verifier::loop_isolation(false)]
        while matchs.len() > 0
            invariant
                0 <= k <= arms.len(),
                me.1@.len() == arms.len(),
                arms == arms_view(me.1@),
                matchs@ == me.1@.skip(k),
                pairs@.len() == k,
                pm_arms(arms, arms.len(), ty@, e0) is Some,
                pm_arms(arms, k as nat, ty@, e0) == Some((arms_view(pairs@), names_view(new_liveness@))),
            decreases matchs.len(),
        {
            let ghost before = matchs@;
            let (pat, body) = matchs.remove(0);
            assert(before[0] == me.1@[k]);
            assert(matchs@ =~= me.1@.skip(k + 1));
            assert(body == me.1@[k].1);
            proof {
                assert(decreases_to!(me => me.1));
                assert(decreases_to!(me.1 => me.1@));
                assert(decreases_to!(me.1@ => me.1@[k]));
                assert(decreases_to!(me.1@[k] => me.1@[k].1));
                assert(decreases_to!(me => body));
                lemma_pm_arms_prefix(arms, arms.len(), (k + 1) as nat, ty@, e0);
            }
            assert(arms[k] == (pat@, body@));
            let ghost prev = pairs@;
            let bindings = pat.type_binding(&ty);
            let arm_env = extend_scope(share(&env), bindings);
            let pat_defined_vars = pat.defined_vars();
            let (body, liveness) = body.process_match(arm_env);
            let liveness = difference_of(&liveness, &pat_defined_vars);
            let body = dup_names(body, &pat_defined_vars);
            union_into(&mut new_liveness, &liveness);
            pairs.push((pat, body));
            assert(arms_view(pairs@) =~= arms_view(prev).push(arms_view(pairs@).last())) by {
                assert forall|j: int| 0 <= j < k implies arms_view(pairs@)[j] == arms_view(prev)[j] by {
                    assert(pairs@[j] == prev[j]);
                }
            }
            proof {
                k = k + 1;
            }
        }
        (Match(value, pairs), new_liveness)
    }
}


/// A processed body is its step (see [`pm_raw`]) with every variable of the scope
/// that is not live at its start released before it; what is live is the step's.
pub proof fn law_process_match_releases_scope(b: BodyV, env: EnvV)
    requires
        pm(b, env) is Some,
    ensures
        pm_raw(b, env) is Some,
        pm(b, env).unwrap().1 == pm_raw(b, env).unwrap().1,
        pm(b, env).unwrap().0 == release_env(pm_raw(b, env).unwrap().0, env, pm_raw(b, env).unwrap().1),
{
}

/// At a binding the variables live are those live in its continuation but the
/// pattern's, together with those the bound value reads; the continuation starts
/// by duplicating each variable the pattern binds.
pub proof fn law_process_match_bind(b: BodyV, env: EnvV, x: NameV)
    requires
        b is Bind,
        pm_raw(b, env) is Some,
    ensures
        ({
            let env2 = env + pattern_bindings(b->Bind_pat, b->Bind_ty);
            let (c, l) = pm(*b->Bind_cont, env2).unwrap();
            let (v, used) = pm_value(*b->Bind_value, env2).unwrap();
            let live = pm_raw(b, env).unwrap().1;
            &&& pm_raw(b, env).unwrap().0 == BodyV::Bind {
                pat: b->Bind_pat,
                ty: b->Bind_ty,
                value: Box::new(v),
                cont: Box::new(dup_vars(c, pattern_vars(b->Bind_pat))),
            }
            &&& live.contains(x) <==> ((l.contains(x) && !pattern_vars(b->Bind_pat).contains(x)) || used.contains(x))
        }),
{
    let env2 = env + pattern_bindings(b->Bind_pat, b->Bind_ty);
    let (c, l) = pm(*b->Bind_cont, env2).unwrap();
    let (v, used) = pm_value(*b->Bind_value, env2).unwrap();
    let d = difference(l, pattern_vars(b->Bind_pat));
    lemma_union(d, used);
    lemma_difference(l, pattern_vars(b->Bind_pat));
    assert(union(d, used).contains(x) <==> union(d, used).to_set().contains(x));
    assert(d.contains(x) <==> d.to_set().contains(x));
    assert(used.contains(x) <==> used.to_set().contains(x));
    assert(l.contains(x) <==> l.to_set().contains(x));
    assert(pattern_vars(b->Bind_pat).contains(x) <==> pattern_vars(b->Bind_pat).to_set().contains(x));
}

/// At a conditional the variables live are those of either branch and the
/// condition.
pub proof fn law_process_match_if(b: BodyV, env: EnvV, x: NameV)
    requires
        b is If,
        pm_raw(b, env) is Some,
    ensures
        ({
            let (t, lt) = pm(*b->If_then_, env).unwrap();
            let (e, le) = pm(*b->If_else_, env).unwrap();
            &&& pm_raw(b, env).unwrap().0 == BodyV::If { cond: b->If_cond, then_: Box::new(t), else_: Box::new(e) }
            &&& pm_raw(b, env).unwrap().1.contains(x) <==> (lt.contains(x) || le.contains(x) || x == b->If_cond)
        }),
{
    let (t, lt) = pm(*b->If_then_, env).unwrap();
    let (e, le) = pm(*b->If_else_, env).unwrap();
    lemma_union(lt, le);
    lemma_insert(union(lt, le), b->If_cond);
    assert(insert(union(lt, le), b->If_cond).contains(x) <==> insert(union(lt, le), b->If_cond).to_set().contains(x));
    assert(union(lt, le).contains(x) <==> union(lt, le).to_set().contains(x));
    assert(lt.contains(x) <==> lt.to_set().contains(x));
    assert(le.contains(x) <==> le.to_set().contains(x));
}

/// One arm of a match on a value of type `t`: its body processed in the scope
/// extended by its pattern and started by duplicating the pattern's variables,
/// and what is live at its start but the pattern's variables.
pub open spec fn pm_arm(arm: (PatternV, BodyV), t: TypeV, env: EnvV) -> Option<((PatternV, BodyV), Seq<NameV>)> {
    if !pattern_fits(arm.0, t) {
        None
    } else {
        match pm(arm.1, env + pattern_bindings(arm.0, t)) {
            None => None,
            Some((b, l)) => Some(((arm.0, dup_vars(b, pattern_vars(arm.0))), difference(l, pattern_vars(arm.0)))),
        }
    }
}

pub proof fn lemma_pm_arms_index(arms: Seq<(PatternV, BodyV)>, k: nat, t: TypeV, env: EnvV, x: NameV)
    requires
        pm_arms(arms, k, t, env) is Some,
        k <= arms.len(),
    ensures
        pm_arms(arms, k, t, env).unwrap().0.len() == k,
        forall|i: int| 0 <= i < k ==> (#[trigger] pm_arm(arms[i], t, env)) is Some
            && pm_arms(arms, k, t, env).unwrap().0[i] == pm_arm(arms[i], t, env).unwrap().0,
        pm_arms(arms, k, t, env).unwrap().1.contains(x)
            <==> exists|i: int| 0 <= i < k && (#[trigger] pm_arm(arms[i], t, env)).unwrap().1.contains(x),
    decreases k,
{
    if k > 0 {
        lemma_pm_arms_index(arms, (k - 1) as nat, t, env, x);
        let (done, live) = pm_arms(arms, (k - 1) as nat, t, env).unwrap();
        let (a, l) = pm_arm(arms[k - 1], t, env).unwrap();
        let out = pm_arms(arms, k, t, env).unwrap();
        assert(out == (done.push(a), union(live, l)));
        lemma_union(live, l);
        assert(out.1.contains(x) <==> (live.contains(x) || l.contains(x))) by {
            assert(out.1.to_set().contains(x) <==> live.to_set().contains(x) || l.to_set().contains(x));
        }
        assert forall|i: int| 0 <= i < k implies (#[trigger] pm_arm(arms[i], t, env)) is Some
            && out.0[i] == pm_arm(arms[i], t, env).unwrap().0 by {
            if i < k - 1 {
                assert(out.0[i] == done[i]);
            }
        }
        if out.1.contains(x) && !l.contains(x) {
            let i = choose|i: int| 0 <= i < k - 1 && (#[trigger] pm_arm(arms[i], t, env)).unwrap().1.contains(x);
            assert(0 <= i < k);
        }
        if exists|i: int| 0 <= i < k && (#[trigger] pm_arm(arms[i], t, env)).unwrap().1.contains(x) {
            let i = choose|i: int| 0 <= i < k && (#[trigger] pm_arm(arms[i], t, env)).unwrap().1.contains(x);
            if i < k - 1 {
                assert(live.contains(x));
            }
        }
    }
}

/// A match keeps its value and processes each arm on its own, in order (see
/// [`pm_arm`]); what is live at the match is what is live at some arm but that
/// arm's pattern variables.
pub proof fn law_process_match_match(b: BodyV, env: EnvV, x: NameV)
    requires
        b is Match,
        pm_raw(b, env) is Some,
    ensures
        ({
            let arms = b->Match_arms;
            let t = lookup(env, b->Match_value).unwrap();
            let out = pm_raw(b, env).unwrap();
            &&& out.0 is Match && out.0->Match_value == b->Match_value
            &&& out.0->Match_arms.len() == arms.len()
            &&& forall|i: int| 0 <= i < arms.len() ==> (#[trigger] pm_arm(arms[i], t, env)) is Some
                && out.0->Match_arms[i] == pm_arm(arms[i], t, env).unwrap().0
            &&& pm_raw(b, env).unwrap().1.contains(x) <==> exists|i: int| 0 <= i < arms.len()
                && (#[trigger] pm_arm(arms[i], t, env)).unwrap().1.contains(x)
        }),
{
    let t = lookup(env, b->Match_value).unwrap();
    lemma_pm_arms_index(b->Match_arms, b->Match_arms.len(), t, env, x);
}

} // verus!
