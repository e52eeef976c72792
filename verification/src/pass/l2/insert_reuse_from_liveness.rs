//! Releasing variables where they stop being live, in the first intermediate
//! language: a dead variable is dropped, or its memory is reused by a constructor
//! of the same type that follows.
use std::rc::Rc;

use vstd::prelude::*;

use crate::ir::common::{pattern_bindings, pattern_fits, pattern_vars, PatternV};
use crate::l2_ir::{arms_view, Bind, Body, BodyV, If, Match, Name, Pattern};
use crate::names::{
    contains, difference, difference_of, insert, insert_name, lemma_insert, lemma_union, lookup, names_view, union, union_into, NameV,
};
use crate::pass::l2::free_variable::fv_value;
use crate::pass::l2::rewrite_construct::{erase, erase_arms, law_rewrite_only_annotates, lemma_erase_arms_prefix, rewrite};
use crate::pass::l3::rewrite_construct::{reuse_name, reuse_token};
use crate::types::{Type, TypeV};
use crate::utils::{entries_of, extend_scope, lemma_scope_lookup, scope_entries, share, Scope};

verus! {

/// The model of a scope of variable types: its bindings, outermost first.
pub type EnvV = Seq<(NameV, TypeV)>;

/// Releases `v`, of type `t`, before `b`: its memory goes to a constructor of `b`
/// when one can take it, else it is dropped.
pub open spec fn release(b: BodyV, v: NameV, t: TypeV) -> BodyV {
    match rewrite(b, v, t) {
        Some(nb) => BodyV::DropReuse(reuse_name(v), v, Box::new(nb)),
        None => BodyV::Drop(v, Box::new(b)),
    }
}

/// Releases, in turn, each of the first `k` of `vars` that is not in `live`, with
/// the type `env` gives it; `None` when one of them has no type in `env`.
pub open spec fn release_dead(b: BodyV, vars: Seq<NameV>, k: nat, live: Seq<NameV>, env: EnvV) -> Option<BodyV>
    decreases k,
{
    if k == 0 || k > vars.len() {
        Some(b)
    } else {
        match release_dead(b, vars, (k - 1) as nat, live, env) {
            None => None,
            Some(r) => {
                let v = vars[k - 1];
                if live.contains(v) {
                    Some(r)
                } else {
                    match lookup(env, v) {
                        Some(t) => Some(release(r, v, t)),
                        None => None,
                    }
                }
            },
        }
    }
}

/// The body with every variable released where it stops being live, and the
/// variables live at its start; `None` where the pass has no answer (a pattern
/// that does not fit its type, a variable without a type).  In a binding, the
/// variables the bound value reads and the continuation does not are released
/// before the continuation; in a match arm, the matched variable is, when the arm
/// does not read it.
pub open spec fn irl(b: BodyV, env: EnvV) -> Option<(BodyV, Seq<NameV>)>
    decreases b, 0nat,
{
    match b {
        BodyV::Compute(c) => Some((b, fv_value(c))),
        BodyV::Bind { pat, ty, value, cont } => if !pattern_fits(pat, ty) {
            None
        } else {
            let env2 = env + pattern_bindings(pat, ty);
            match irl(*cont, env2) {
                None => None,
                Some((body, live)) => {
                    let live = difference(live, pattern_vars(pat));
                    let vars = fv_value(*value);
                    match release_dead(body, vars, vars.len(), live, env2) {
                        None => None,
                        Some(body) => Some((BodyV::Bind { pat, ty, value, cont: Box::new(body) }, live)),
                    }
                },
            }
        },
        BodyV::Dup(v, e) => match irl(*e, env) {
            Some((r, l)) => Some((BodyV::Dup(v, Box::new(r)), l)),
            None => None,
        },
        BodyV::Drop(v, e) => match irl(*e, env) {
            Some((r, l)) => Some((BodyV::Drop(v, Box::new(r)), l)),
            None => None,
        },
        BodyV::DropReuse(n, v, e) => match irl(*e, env) {
            Some((r, l)) => Some((BodyV::DropReuse(n, v, Box::new(r)), l)),
            None => None,
        },
        BodyV::If { cond, then_, else_ } => match (irl(*then_, env), irl(*else_, env)) {
            (Some((a, la)), Some((e, le))) => Some(
                (BodyV::If { cond, then_: Box::new(a), else_: Box::new(e) }, insert(union(la, le), cond)),
            ),
            _ => None,
        },
        BodyV::Match { value, arms } => match lookup(env, value) {
            None => None,
            Some(t) => match irl_arms(arms, arms.len(), value, t, env) {
                None => None,
                Some((arms2, live)) => Some((BodyV::Match { value, arms: arms2 }, live)),
            },
        },
    }
}

/// The first `k` arms of a match on `value`, of type `t`, each processed in the
/// scope extended by its pattern, and the union of what is live at their starts.
pub open spec fn irl_arms(arms: Seq<(PatternV, BodyV)>, k: nat, value: NameV, t: TypeV, env: EnvV) -> Option<
    (Seq<(PatternV, BodyV)>, Seq<NameV>),
>
    decreases arms, k + 1,
{
    if k == 0 || k > arms.len() {
        Some((Seq::empty(), Seq::empty()))
    } else {
        match irl_arms(arms, (k - 1) as nat, value, t, env) {
            None => None,
            Some((done, live)) => {
                let pat = arms[k - 1].0;
                if !pattern_fits(pat, t) {
                    None
                } else {
                    match irl(arms[k - 1].1, env + pattern_bindings(pat, t)) {
                        None => None,
                        Some((b, l)) => {
                            let l = difference(l, pattern_vars(pat));
                            let b = if l.contains(value) { b } else { release(b, value, t) };
                            Some((done.push((pat, b)), union(live, l)))
                        },
                    }
                }
            },
        }
    }
}

pub proof fn lemma_release_dead_prefix(b: BodyV, vars: Seq<NameV>, k: nat, j: nat, live: Seq<NameV>, env: EnvV)
    requires
        release_dead(b, vars, k, live, env) is Some,
        j <= k <= vars.len(),
    ensures
        release_dead(b, vars, j, live, env) is Some,
    decreases k,
{
    if j < k {
        lemma_release_dead_prefix(b, vars, (k - 1) as nat, j, live, env);
    }
}

pub proof fn lemma_irl_arms_prefix(arms: Seq<(PatternV, BodyV)>, k: nat, j: nat, value: NameV, t: TypeV, env: EnvV)
    requires
        irl_arms(arms, k, value, t, env) is Some,
        j <= k <= arms.len(),
    ensures
        irl_arms(arms, j, value, t, env) is Some,
    decreases k,
{
    if j < k {
        lemma_irl_arms_prefix(arms, (k - 1) as nat, j, value, t, env);
    }
}

/// Releasing a variable only adds reference counting and reuse annotations.
pub proof fn lemma_release_erase(b: BodyV, v: NameV, t: TypeV)
    ensures
        erase(release(b, v, t)) == erase(b),
{
    if rewrite(b, v, t) is Some {
        law_rewrite_only_annotates(b, v, t);
    }
}

pub proof fn lemma_release_dead_erase(b: BodyV, vars: Seq<NameV>, k: nat, live: Seq<NameV>, env: EnvV)
    requires
        release_dead(b, vars, k, live, env) is Some,
    ensures
        erase(release_dead(b, vars, k, live, env).unwrap()) == erase(b),
    decreases k,
{
    if k > 0 && k <= vars.len() {
        lemma_release_dead_erase(b, vars, (k - 1) as nat, live, env);
        let r = release_dead(b, vars, (k - 1) as nat, live, env).unwrap();
        let v = vars[k - 1];
        if !live.contains(v) {
            lemma_release_erase(r, v, lookup(env, v).unwrap());
        }
    }
}

/// Releasing dead variables changes nothing but reference counting and reuse
/// annotations: the new body, erased, is the body erased.
pub proof fn law_irl_only_annotates(b: BodyV, env: EnvV)
    requires
        irl(b, env) is Some,
    ensures
        erase(irl(b, env).unwrap().0) == erase(b),
    decreases b, 0nat,
{
    match b {
        BodyV::Compute(_) => {},
        BodyV::Bind { pat, ty, value, cont } => {
            let env2 = env + pattern_bindings(pat, ty);
            law_irl_only_annotates(*cont, env2);
            let (body, live) = irl(*cont, env2).unwrap();
            let live = difference(live, pattern_vars(pat));
            let vars = fv_value(*value);
            lemma_release_dead_erase(body, vars, vars.len(), live, env2);
        },
        BodyV::Dup(_, e) => {
            law_irl_only_annotates(*e, env);
        },
        BodyV::Drop(_, e) => {
            law_irl_only_annotates(*e, env);
        },
        BodyV::DropReuse(_, _, e) => {
            law_irl_only_annotates(*e, env);
        },
        BodyV::If { then_, else_, .. } => {
            law_irl_only_annotates(*then_, env);
            law_irl_only_annotates(*else_, env);
        },
        BodyV::Match { value, arms } => {
            let t = lookup(env, value).unwrap();
            lemma_irl_arms_erase(arms, arms.len(), value, t, env);
        },
    }
}

pub proof fn lemma_irl_arms_erase(arms: Seq<(PatternV, BodyV)>, k: nat, value: NameV, t: TypeV, env: EnvV)
    requires
        irl_arms(arms, k, value, t, env) is Some,
        k <= arms.len(),
    ensures
        irl_arms(arms, k, value, t, env).unwrap().0.len() == k,
        erase_arms(irl_arms(arms, k, value, t, env).unwrap().0, k) == erase_arms(arms, k),
    decreases arms, k + 1,
{
    if k > 0 {
        lemma_irl_arms_erase(arms, (k - 1) as nat, value, t, env);
        let (done0, _) = irl_arms(arms, (k - 1) as nat, value, t, env).unwrap();
        let done = irl_arms(arms, k, value, t, env).unwrap().0;
        let pat = arms[k - 1].0;
        let env2 = env + pattern_bindings(pat, t);
        law_irl_only_annotates(arms[k - 1].1, env2);
        let (b, l) = irl(arms[k - 1].1, env2).unwrap();
        lemma_release_erase(b, value, t);
        assert(done.take(k - 1) =~= done0.take(k - 1));
        lemma_erase_arms_prefix(done, done0, (k - 1) as nat);
        assert(erase(done[k - 1].1) == erase(arms[k - 1].1));
        assert(erase_arms(done, k) == erase_arms(done, (k - 1) as nat).push((done[k - 1].0, erase(done[k - 1].1))));
    }
}

/// Releases `v`, of type `t`, before `body`.
pub fn release_var(body: Body, v: &Name, t: &Type) -> (r: Body)
    ensures
        r@ == release(body@, v@, t@),
{
    match body.rewrite_construct(v, t) {
        Some(nb) => Body::DropReuse(reuse_token(v), v.clone(), Box::new(nb)),
        None => Body::Drop(v.clone(), Box::new(body)),
    }
}

/// Releases, in turn, each of `vars` that is not in `live`; see [`release_dead`].
pub fn release_dead_vars(body: Body, vars: &Vec<String>, live: &Vec<String>, env: &Scope<Type>) -> (r: Body)
    requires
        release_dead(body@, names_view(vars@), vars.len() as nat, names_view(live@), scope_entries(*env)) is Some,
    ensures
        r@ == release_dead(body@, names_view(vars@), vars.len() as nat, names_view(live@), scope_entries(*env)).unwrap(),
{
    let ghost b0 = body@;
    let ghost vs = names_view(vars@);
    let ghost lv = names_view(live@);
    let ghost e = entries_of(env);
    let mut body = body;
    let mut i: usize = 0;
    while i < vars.len()
        invariant
            i <= vars.len(),
            vs == names_view(vars@),
            lv == names_view(live@),
            e == scope_entries(*env),
            release_dead(b0, vs, vars.len() as nat, lv, e) is Some,
            release_dead(b0, vs, i as nat, lv, e) == Some(body@),
        decreases vars.len() - i,
    {
        proof {
            lemma_release_dead_prefix(b0, vs, vars.len() as nat, (i + 1) as nat, lv, e);
            lemma_scope_lookup(env, vars@[i as int]@);
        }
        assert(vs[i as int] == vars@[i as int]@);
        if !contains(live, &vars[i]) {
            match env.find_variable(vars[i].as_str()) {
                Some(t) => {
                    body = release_var(body, &vars[i], t);
                },
                None => {},
            }
        }
        i = i + 1;
    }
    body
}

impl Body {
    /// Releases every variable where it stops being live, in the scope of
    /// variable types `env`; returns the new body and the variables live at its
    /// start; see [`irl`].
    pub fn insert_reuse_from_liveness(self, env: Rc<Scope<Type>>) -> (r: (Body, Vec<String>))
        requires
            irl(self@, scope_entries(*env)) is Some,
        ensures
            (r.0@, names_view(r.1@)) == irl(self@, scope_entries(*env)).unwrap(),
            self@ is Compute ==> r.0@ == self@ && names_view(r.1@) == fv_value(self@->Compute_0),
            self@ is Dup ==> r.0@ == BodyV::Dup(self@->Dup_0, Box::new(irl(*self@->Dup_1, scope_entries(*env)).unwrap().0))
                && names_view(r.1@) == irl(*self@->Dup_1, scope_entries(*env)).unwrap().1,
            self@ is Drop ==> r.0@ == BodyV::Drop(self@->Drop_0, Box::new(irl(*self@->Drop_1, scope_entries(*env)).unwrap().0))
                && names_view(r.1@) == irl(*self@->Drop_1, scope_entries(*env)).unwrap().1,
            self@ is DropReuse ==> r.0@ == BodyV::DropReuse(
                self@->DropReuse_0,
                self@->DropReuse_1,
                Box::new(irl(*self@->DropReuse_2, scope_entries(*env)).unwrap().0),
            ) && names_view(r.1@) == irl(*self@->DropReuse_2, scope_entries(*env)).unwrap().1,
        decreases self,
    {
        proof {
            law_liveness_leaves_and_wrappers(self@, entries_of(&*env));
        }
        match self {
            Body::Bind(b) => {
                let (r, liveness) = b.insert_reuse_from_liveness(env);
                (Body::Bind(r), liveness)
            },
            Body::If(i) => {
                let (r, liveness) = i.insert_reuse_from_liveness(env);
                (Body::If(r), liveness)
            },
            Body::Match(m) => {
                let (r, liveness) = m.insert_reuse_from_liveness(env);
                (Body::Match(r), liveness)
            },
            Body::Compute(c) => {
                let liveness = c.free_vars();
                (Body::Compute(c), liveness)
            },
            Body::Dup(name, e) => {
                let (r, liveness) = e.insert_reuse_from_liveness(env);
                (Body::Dup(name, Box::new(r)), liveness)
            },
            Body::Drop(name, e) => {
                let (r, liveness) = e.insert_reuse_from_liveness(env);
                (Body::Drop(name, Box::new(r)), liveness)
            },
            Body::DropReuse(new_name, name, e) => {
                let (r, liveness) = e.insert_reuse_from_liveness(env);
                (Body::DropReuse(new_name, name, Box::new(r)), liveness)
            },
        }
    }
}

impl Bind {
    pub fn insert_reuse_from_liveness(self, env: Rc<Scope<Type>>) -> (r: (Bind, Vec<String>))
        requires
            irl(self@, scope_entries(*env)) is Some,
        ensures
            (r.0@, names_view(r.1@)) == irl(self@, scope_entries(*env)).unwrap(),
            ({
                let b = self@;
                let env2 = scope_entries(*env) + pattern_bindings(b->Bind_pat, b->Bind_ty);
                let (c, l) = irl(*b->Bind_cont, env2).unwrap();
                let live = difference(l, pattern_vars(b->Bind_pat));
                let vars = fv_value(*b->Bind_value);
                let k = release_dead(c, vars, vars.len(), live, env2).unwrap();
                &&& names_view(r.1@) == live
                &&& r.0@ == BodyV::Bind { pat: b->Bind_pat, ty: b->Bind_ty, value: b->Bind_value, cont: Box::new(k) }
                &&& outer_releases(k, dead_in(vars, vars.len(), live).len()) == Some(dead_in(vars, vars.len(), live))
            }),
        decreases self,
    {
        proof {
            law_liveness_bind(self@, entries_of(&*env));
        }
        let ghost me = self@;
        let Bind(pat, ty, value, cont) = self;
        let bindings = pat.type_binding(&ty);
        let env = extend_scope(env, bindings);
        let (body, liveness) = cont.insert_reuse_from_liveness(share(&env));
        let defined = pat.defined_vars();
        let liveness = difference_of(&liveness, &defined);
        let vars = value.free_vars();
        let body = release_dead_vars(body, &vars, &liveness, &*env);
        (Bind(pat, ty, value, Box::new(body)), liveness)
    }
}

impl If {
    pub fn insert_reuse_from_liveness(self, env: Rc<Scope<Type>>) -> (r: (If, Vec<String>))
        requires
            irl(self@, scope_entries(*env)) is Some,
        ensures
            (r.0@, names_view(r.1@)) == irl(self@, scope_entries(*env)).unwrap(),
            forall|x: NameV| #[trigger] names_view(r.1@).contains(x) <==> x == self@->If_cond
                || irl(*self@->If_then_, scope_entries(*env)).unwrap().1.contains(x)
                || irl(*self@->If_else_, scope_entries(*env)).unwrap().1.contains(x),
        decreases self,
    {
        let ghost me = self@;
        let ghost e0 = entries_of(&*env);
        let If(cond, t, e) = self;
        let (it1, mut liveness1) = t.insert_reuse_from_liveness(share(&env));
        let (it2, liveness2) = e.insert_reuse_from_liveness(env);
        union_into(&mut liveness1, &liveness2);
        insert_name(&mut liveness1, cond.clone());
        proof {
            assert forall|x: NameV| #[trigger] names_view(liveness1@).contains(x) <==> x == me->If_cond
                || irl(*me->If_then_, e0).unwrap().1.contains(x)
                || irl(*me->If_else_, e0).unwrap().1.contains(x) by {
                law_liveness_if(me, e0, x);
            }
        }
        (If(cond, Box::new(it1), Box::new(it2)), liveness1)
    }
}

impl Match {
    pub fn insert_reuse_from_liveness(self, env: Rc<Scope<Type>>) -> (r: (Match, Vec<String>))
        requires
            irl(self@, scope_entries(*env)) is Some,
        ensures
            (r.0@, names_view(r.1@)) == irl(self@, scope_entries(*env)).unwrap(),
            ({
                let b = self@;
                let arms = b->Match_arms;
                let t = lookup(scope_entries(*env), b->Match_value).unwrap();
                &&& r.0@ is Match && r.0@->Match_value == b->Match_value
                &&& r.0@->Match_arms.len() == arms.len()
                &&& forall|i: int| 0 <= i < arms.len() ==> (#[trigger] irl_arm(arms[i], b->Match_value, t, scope_entries(*env))) is Some
                    && r.0@->Match_arms[i] == irl_arm(arms[i], b->Match_value, t, scope_entries(*env)).unwrap().0
                &&& forall|x: NameV| #[trigger] names_view(r.1@).contains(x) <==> exists|i: int| 0 <= i < arms.len()
                    && (#[trigger] irl_arm(arms[i], b->Match_value, t, scope_entries(*env))).unwrap().1.contains(x)
            }),
        decreases self,
    {
        proof {
            let b = self@;
            let t = lookup(entries_of(&*env), b->Match_value).unwrap();
            law_liveness_match(b, entries_of(&*env), b->Match_value);
            assert forall|x: NameV| #[trigger] irl(b, entries_of(&*env)).unwrap().1.contains(x) <==> exists|i: int|
                0 <= i < b->Match_arms.len() && (#[trigger] irl_arm(b->Match_arms[i], b->Match_value, t, entries_of(&*env))).unwrap().1.contains(x) by {
                law_liveness_match(b, entries_of(&*env), x);
            }
        }
        let ghost me = self;
        let ghost arms = arms_view(self.1@);
        let ghost e0 = entries_of(&*env);
        proof {
            lemma_scope_lookup(&*env, self.0@);
        }
        let ty: Type = match env.find_variable(self.0.as_str()) {
            Some(t) => t.clone(),
            None => Type::Bool,
        };
        let Match(value, matchs) = self;
        let mut matchs = matchs;
        let mut new_liveness: Vec<String> = Vec::new();
        let mut pairs: Vec<(Pattern, Body)> = Vec::new();
        let ghost mut k: int = 0;
        #[verifier::loop_isolation(false)]
        while matchs.len() > 0
            invariant
                0 <= k <= arms.len(),
                me.1@.len() == arms.len(),
                arms == arms_view(me.1@),
                matchs@ == me.1@.skip(k),
                pairs@.len() == k,
                irl_arms(arms, arms.len(), value@, ty@, e0) is Some,
                irl_arms(arms, k as nat, value@, ty@, e0) == Some((arms_view(pairs@), names_view(new_liveness@))),
            decreases matchs.len(),
        {
            let ghost before = matchs@;
            let (pat, body) = matchs.remove(0);
            assert(before[0] == me.1@[k]);
            assert(matchs@ =~= me.1@.skip(k + 1));
            assert(body == me.1@[k].1);
            proof {
                assert(decreases_to!(me => me.1));
                assert(decreases_to!(me.1 => me.1@));
                assert(decreases_to!(me.1@ => me.1@[k]));
                assert(decreases_to!(me.1@[k] => me.1@[k].1));
                assert(decreases_to!(me => body));
                lemma_irl_arms_prefix(arms, arms.len(), (k + 1) as nat, value@, ty@, e0);
            }
            assert(arms[k] == (pat@, body@));
            let ghost prev = pairs@;
            let bindings = pat.type_binding(&ty);
            let arm_env = extend_scope(share(&env), bindings);
            let (body, liveness) = body.insert_reuse_from_liveness(arm_env);
            let defined = pat.defined_vars();
            let liveness = difference_of(&liveness, &defined);
            let body = if contains(&liveness, &value) {
                body
            } else {
                release_var(body, &value, &ty)
            };
            union_into(&mut new_liveness, &liveness);
            pairs.push((pat, body));
            assert(arms_view(pairs@) =~= arms_view(prev).push(arms_view(pairs@).last())) by {
                assert forall|j: int| 0 <= j < k implies arms_view(pairs@)[j] == arms_view(prev)[j] by {
                    assert(pairs@[j] == prev[j]);
                }
            }
            proof {
                k = k + 1;
            }
        }
        (Match(value, pairs), new_liveness)
    }
}

/// A computation is left as it is and the names it reads are live; below a
/// reference-counting instruction the pass works on the body, and the
/// instruction's own names are not made live.
pub proof fn law_liveness_leaves_and_wrappers(b: BodyV, env: EnvV)
    ensures
        b is Compute ==> irl(b, env) == Some((b, fv_value(b->Compute_0))),
        b is Dup ==> irl(b, env) == match irl(*b->Dup_1, env) {
            Some((r, l)) => Some((BodyV::Dup(b->Dup_0, Box::new(r)), l)),
            None => None,
        },
        b is Drop ==> irl(b, env) == match irl(*b->Drop_1, env) {
            Some((r, l)) => Some((BodyV::Drop(b->Drop_0, Box::new(r)), l)),
            None => None,
        },
        b is DropReuse ==> irl(b, env) == match irl(*b->DropReuse_2, env) {
            Some((r, l)) => Some((BodyV::DropReuse(b->DropReuse_0, b->DropReuse_1, Box::new(r)), l)),
            None => None,
        },
{
}

/// The names released, outermost first, by the first `k` steps of
/// [`release_dead`]: the later a name comes in `vars`, the further out it is.
pub open spec fn dead_in(vars: Seq<NameV>, k: nat, live: Seq<NameV>) -> Seq<NameV>
    decreases k,
{
    if k == 0 || k > vars.len() {
        Seq::empty()
    } else if live.contains(vars[k - 1]) {
        dead_in(vars, (k - 1) as nat, live)
    } else {
        seq![vars[k - 1]] + dead_in(vars, (k - 1) as nat, live)
    }
}

/// The names of the `n` outermost layers of `b`, when each is a drop or a drop
/// for reuse.
pub open spec fn outer_releases(b: BodyV, n: nat) -> Option<Seq<NameV>>
    decreases n,
{
    if n == 0 {
        Some(Seq::empty())
    } else {
        match b {
            BodyV::Drop(v, e) => match outer_releases(*e, (n - 1) as nat) {
                Some(s) => Some(seq![v] + s),
                None => None,
            },
            BodyV::DropReuse(_, v, e) => match outer_releases(*e, (n - 1) as nat) {
                Some(s) => Some(seq![v] + s),
                None => None,
            },
            _ => None,
        }
    }
}

/// Rewriting for reuse keeps the outer layers of drops as they are.
pub proof fn lemma_rewrite_keeps_outer_releases(b: BodyV, name: NameV, ty: TypeV, n: nat)
    requires
        rewrite(b, name, ty) is Some,
        outer_releases(b, n) is Some,
    ensures
        outer_releases(rewrite(b, name, ty).unwrap(), n) == outer_releases(b, n),
    decreases n,
{
    if n > 0 {
        match b {
            BodyV::Drop(v, e) => lemma_rewrite_keeps_outer_releases(*e, v, ty, (n - 1) as nat),
            BodyV::DropReuse(_, v, e) => lemma_rewrite_keeps_outer_releases(*e, v, ty, (n - 1) as nat),
            _ => {},
        }
    }
}

/// Releasing the dead variables wraps the body in exactly one drop, or drop for
/// reuse, of each variable of `vars` that is not live, the first one innermost.
pub proof fn law_release_dead_layers(b: BodyV, vars: Seq<NameV>, k: nat, live: Seq<NameV>, env: EnvV)
    requires
        release_dead(b, vars, k, live, env) is Some,
    ensures
        outer_releases(release_dead(b, vars, k, live, env).unwrap(), dead_in(vars, k, live).len()) == Some(dead_in(vars, k, live)),
    decreases k,
{
    if k > 0 && k <= vars.len() {
        law_release_dead_layers(b, vars, (k - 1) as nat, live, env);
        let r = release_dead(b, vars, (k - 1) as nat, live, env).unwrap();
        let v = vars[k - 1];
        let d = dead_in(vars, (k - 1) as nat, live);
        if !live.contains(v) {
            let t = lookup(env, v).unwrap();
            if rewrite(r, v, t) is Some {
                lemma_rewrite_keeps_outer_releases(r, v, t, d.len());
            }
            assert(dead_in(vars, k, live).len() == d.len() + 1);
        }
    } else {
        assert(dead_in(vars, k, live).len() == 0);
    }
}

/// A binding's live variables are its continuation's but the pattern's; each
/// variable the bound value reads that is not live after the pattern is released
/// once, outside the continuation.
pub proof fn law_liveness_bind(b: BodyV, env: EnvV)
    requires
        b is Bind,
        irl(b, env) is Some,
    ensures
        ({
            let env2 = env + pattern_bindings(b->Bind_pat, b->Bind_ty);
            let (c, l) = irl(*b->Bind_cont, env2).unwrap();
            let live = difference(l, pattern_vars(b->Bind_pat));
            let vars = fv_value(*b->Bind_value);
            let k = release_dead(c, vars, vars.len(), live, env2).unwrap();
            &&& irl(b, env).unwrap().1 == live
            &&& irl(b, env).unwrap().0 == BodyV::Bind { pat: b->Bind_pat, ty: b->Bind_ty, value: b->Bind_value, cont: Box::new(k) }
            &&& outer_releases(k, dead_in(vars, vars.len(), live).len()) == Some(dead_in(vars, vars.len(), live))
        }),
{
    let env2 = env + pattern_bindings(b->Bind_pat, b->Bind_ty);
    let (c, l) = irl(*b->Bind_cont, env2).unwrap();
    let live = difference(l, pattern_vars(b->Bind_pat));
    let vars = fv_value(*b->Bind_value);
    law_release_dead_layers(c, vars, vars.len(), live, env2);
}

/// One arm of a match on `value`, of type `t`: its body processed in the scope
/// extended by its pattern, released of `value` when it does not read it, and
/// what is live at its start but the pattern's variables.
pub open spec fn irl_arm(arm: (PatternV, BodyV), value: NameV, t: TypeV, env: EnvV) -> Option<((PatternV, BodyV), Seq<NameV>)> {
    if !pattern_fits(arm.0, t) {
        None
    } else {
        match irl(arm.1, env + pattern_bindings(arm.0, t)) {
            None => None,
            Some((b, l)) => {
                let l = difference(l, pattern_vars(arm.0));
                Some(((arm.0, if l.contains(value) { b } else { release(b, value, t) }), l))
            },
        }
    }
}

pub proof fn lemma_irl_arms_index(arms: Seq<(PatternV, BodyV)>, k: nat, value: NameV, t: TypeV, env: EnvV, x: NameV)
    requires
        irl_arms(arms, k, value, t, env) is Some,
        k <= arms.len(),
    ensures
        irl_arms(arms, k, value, t, env).unwrap().0.len() == k,
        forall|i: int| 0 <= i < k ==> (#[trigger] irl_arm(arms[i], value, t, env)) is Some
            && irl_arms(arms, k, value, t, env).unwrap().0[i] == irl_arm(arms[i], value, t, env).unwrap().0,
        irl_arms(arms, k, value, t, env).unwrap().1.contains(x)
            <==> exists|i: int| 0 <= i < k && (#[trigger] irl_arm(arms[i], value, t, env)).unwrap().1.contains(x),
    decreases k,
{
    if k > 0 {
        lemma_irl_arms_index(arms, (k - 1) as nat, value, t, env, x);
        let (done, live) = irl_arms(arms, (k - 1) as nat, value, t, env).unwrap();
        let (a, l) = irl_arm(arms[k - 1], value, t, env).unwrap();
        let out = irl_arms(arms, k, value, t, env).unwrap();
        assert(out == (done.push(a), union(live, l)));
        lemma_union(live, l);
        assert(out.1.contains(x) <==> (live.contains(x) || l.contains(x))) by {
            assert(out.1.to_set().contains(x) <==> live.to_set().contains(x) || l.to_set().contains(x));
        }
        assert forall|i: int| 0 <= i < k implies (#[trigger] irl_arm(arms[i], value, t, env)) is Some
            && out.0[i] == irl_arm(arms[i], value, t, env).unwrap().0 by {
            if i < k - 1 {
                assert(out.0[i] == done[i]);
            }
        }
        if out.1.contains(x) && !l.contains(x) {
            let i = choose|i: int| 0 <= i < k - 1 && (#[trigger] irl_arm(arms[i], value, t, env)).unwrap().1.contains(x);
            assert(0 <= i < k);
        }
        if exists|i: int| 0 <= i < k && (#[trigger] irl_arm(arms[i], value, t, env)).unwrap().1.contains(x) {
            let i = choose|i: int| 0 <= i < k && (#[trigger] irl_arm(arms[i], value, t, env)).unwrap().1.contains(x);
            if i < k - 1 {
                assert(live.contains(x));
            }
        }
    }
}

/// A match keeps its value and processes each arm on its own, in order (see
/// [`irl_arm`]): an arm that does not read the matched value releases it first.
/// What is live at the match is what is live at some arm.
pub proof fn law_liveness_match(b: BodyV, env: EnvV, x: NameV)
    requires
        b is Match,
        irl(b, env) is Some,
    ensures
        ({
            let arms = b->Match_arms;
            let t = lookup(env, b->Match_value).unwrap();
            let out = irl(b, env).unwrap();
            &&& out.0 is Match && out.0->Match_value == b->Match_value
            &&& out.0->Match_arms.len() == arms.len()
            &&& forall|i: int| 0 <= i < arms.len() ==> (#[trigger] irl_arm(arms[i], b->Match_value, t, env)) is Some
                && out.0->Match_arms[i] == irl_arm(arms[i], b->Match_value, t, env).unwrap().0
            &&& out.1.contains(x) <==> exists|i: int| 0 <= i < arms.len()
                && (#[trigger] irl_arm(arms[i], b->Match_value, t, env)).unwrap().1.contains(x)
        }),
{
    let t = lookup(env, b->Match_value).unwrap();
    lemma_irl_arms_index(b->Match_arms, b->Match_arms.len(), b->Match_value, t, env, x);
}


/// At a conditional the variables live are those of either branch and the
/// condition; each branch is processed on its own.
pub proof fn law_liveness_if(b: BodyV, env: EnvV, x: NameV)
    requires
        b is If,
        irl(b, env) is Some,
    ensures
        ({
            let (t, lt) = irl(*b->If_then_, env).unwrap();
            let (e, le) = irl(*b->If_else_, env).unwrap();
            &&& irl(b, env).unwrap().0 == BodyV::If { cond: b->If_cond, then_: Box::new(t), else_: Box::new(e) }
            &&& irl(b, env).unwrap().1.contains(x) <==> (lt.contains(x) || le.contains(x) || x == b->If_cond)
        }),
{
    let (t, lt) = irl(*b->If_then_, env).unwrap();
    let (e, le) = irl(*b->If_else_, env).unwrap();
    lemma_union(lt, le);
    lemma_insert(union(lt, le), b->If_cond);
    assert(insert(union(lt, le), b->If_cond).contains(x) <==> insert(union(lt, le), b->If_cond).to_set().contains(x));
    assert(union(lt, le).contains(x) <==> union(lt, le).to_set().contains(x));
    assert(lt.contains(x) <==> lt.to_set().contains(x));
    assert(le.contains(x) <==> le.to_set().contains(x));
}

} // verus!
