//! Inserting reference counting into the linear language: owned variables are
//! released where they stop being read, their memory reused by a constructor of
//! the same type where one follows.
use vstd::prelude::*;

use crate::ir::common::{extend, extend_bindings, pattern_bindings, pattern_fits, pattern_vars, PatternV};
use crate::ir::l3_ir::{
    arms_view, Bind, BindPattern, Body, BodyV, Compute, ComputeV, Function, If, Match, Name, Pattern,
};
use crate::names::{
    assoc_get, assoc_put, assoc_remove, contains, difference, insert, insert_name, lemma_difference, lemma_insert, lemma_insert_mono,
    lemma_lookup_put, lemma_lookup_remove_key, lemma_push_contains, lemma_union, lemma_union_mono, lookup, names_view, pairs_view, put, remove_key, union, NameV,
};
use crate::pass::l2::use_check::{linear_names, Used};
use crate::pass::l3::free_variables::{fv, fv_arms, fv_compute, lemma_fv_arms_mono};
use crate::pass::l3::rewrite_construct::{
    erase, erase_arms, erase_compute, law_rewrite_adds_no_read, law_rewrite_only_annotates, rewrite_compute, rewrite_arms, rewritten_arm, lemma_rewrite_arms_index, lemma_erase_arms_prefix, reuse_name, reuse_token, rewrite,
};
use crate::pass::l3::use_check::uc_body;
use crate::types::{Owned, Type, TypeV};

verus! {

/// Reference counts of the linear variables that are still owned.
pub type LinV = Seq<(NameV, usize)>;

/// The types of the variables whose memory can be reused.
pub type EnvV = Seq<(NameV, TypeV)>;

/// The state of the pass at a point of the body.
pub type StateV = (LinV, EnvV);

/// A consuming use of `name`: a count other than one is incremented, and
/// a count of one removes the variable.  `None` when `name` is not
/// owned, or when its count cannot be incremented.
pub open spec fn consume(lin: LinV, name: NameV) -> Option<LinV> {
    match lookup(lin, name) {
        None => None,
        Some(c) => if c != 1 {
            if c + 1 > usize::MAX {
                None
            } else {
                Some(put(lin, name, (c + 1) as usize))
            }
        } else {
            Some(remove_key(lin, name))
        },
    }
}

/// Consuming uses of the first `k` of `names`, in order.
pub open spec fn consume_all(lin: LinV, names: Seq<NameV>, k: nat) -> Option<LinV>
    decreases k,
{
    if k == 0 || k > names.len() {
        Some(lin)
    } else {
        match consume_all(lin, names, (k - 1) as nat) {
            None => None,
            Some(l) => consume(l, names[k - 1]),
        }
    }
}

/// An increment of the count of `name`; `None` when `name` is not owned or its
/// count cannot be incremented.
pub open spec fn bump(lin: LinV, name: NameV) -> Option<LinV> {
    match lookup(lin, name) {
        None => None,
        Some(c) => if c + 1 > usize::MAX {
            None
        } else {
            Some(put(lin, name, (c + 1) as usize))
        },
    }
}

/// The use of the invoked function's name: a count of one becomes two, any other
/// entry is removed.
pub open spec fn use_callee(lin: LinV, f: NameV) -> LinV {
    if lookup(lin, f) == Some(1usize) {
        put(lin, f, 2usize)
    } else {
        remove_key(lin, f)
    }
}

/// Consuming uses of the first `k` arguments that are passed linearly, in order.
pub open spec fn consume_args(lin: LinV, args: Seq<(NameV, Owned)>, k: nat) -> Option<LinV>
    decreases k,
{
    if k == 0 || k > args.len() {
        Some(lin)
    } else {
        match consume_args(lin, args, (k - 1) as nat) {
            None => None,
            Some(l) => if args[k - 1].1 == Owned::Linear {
                consume(l, args[k - 1].0)
            } else {
                Some(l)
            },
        }
    }
}

/// The owned variables with a count of one that `fvs` does not read, without repetitions.
pub open spec fn dead_vars(lin: LinV, fvs: Seq<NameV>) -> Seq<NameV>
    decreases lin.len(),
{
    if lin.len() == 0 {
        Seq::empty()
    } else {
        let r = dead_vars(lin.drop_last(), fvs);
        if lin.last().1 == 1 && !fvs.contains(lin.last().0) {
            insert(r, lin.last().0)
        } else {
            r
        }
    }
}

/// Removes each of the first `k` of `names` from the owned variables.
pub open spec fn remove_all(lin: LinV, names: Seq<NameV>, k: nat) -> LinV
    decreases k,
{
    if k == 0 || k > names.len() {
        lin
    } else {
        remove_key(remove_all(lin, names, (k - 1) as nat), names[k - 1])
    }
}

/// Releases each of the first `k` of `names` around `b`, in order: where the body
/// holds a fresh constructor of the variable's type the memory is reused,
/// otherwise the variable is dropped.  `None` when a variable has no known type.
pub open spec fn release_all(b: BodyV, names: Seq<NameV>, k: nat, env: EnvV) -> Option<BodyV>
    decreases k,
{
    if k == 0 || k > names.len() {
        Some(b)
    } else {
        match release_all(b, names, (k - 1) as nat, env) {
            None => None,
            Some(body) => {
                let var = names[k - 1];
                match lookup(env, var) {
                    None => None,
                    Some(ty) => match rewrite(body, var, ty) {
                        Some(nb) => Some(BodyV::DropReuse(reuse_name(var), var, Box::new(nb))),
                        None => Some(BodyV::Drop(var, Box::new(body))),
                    },
                }
            },
        }
    }
}

/// The names of `vars` that are still owned, in order.
pub open spec fn owned_vars(vars: Seq<NameV>, lin: LinV) -> Seq<NameV>
    decreases vars.len(),
{
    if vars.len() == 0 {
        vars
    } else if lookup(lin, vars.last()) is Some {
        owned_vars(vars.drop_last(), lin).push(vars.last())
    } else {
        owned_vars(vars.drop_last(), lin)
    }
}

/// Wraps `b` in a duplication of each of `names`; the last name's comes first.
pub open spec fn dup_all(names: Seq<NameV>, b: BodyV) -> BodyV
    decreases names.len(),
{
    if names.len() == 0 {
        b
    } else {
        BodyV::Dup(names.last(), Box::new(dup_all(names.drop_last(), b)))
    }
}

/// The reference-counting pass on a body, with the state before it.  Owned
/// variables with a count of one that the body does not read are released
/// around the body, after the body itself is processed.  `None` where the pass
/// fails: an unowned variable is consumed or duplicated, a variable has no
/// known type, a pattern does not fit its type, a closure body fails its usage
/// check, or a closure has more parameters than its type.
pub open spec fn idr_body(b: BodyV, lin: LinV, env: EnvV) -> Option<(BodyV, LinV, EnvV)>
    decreases b, 1nat,
{
    let dead = dead_vars(lin, fv(b));
    match pmr(b, remove_all(lin, dead, dead.len()), env) {
        None => None,
        Some((body, l, e)) => match release_all(body, dead, dead.len(), e) {
            None => None,
            Some(nb) => Some((nb, l, e)),
        },
    }
}

/// The reference-counting pass on the parts of a body.
pub open spec fn pmr(b: BodyV, lin: LinV, env: EnvV) -> Option<(BodyV, LinV, EnvV)>
    decreases b, 0nat,
{
    match b {
        BodyV::Bind { var, ty, value, cont } => match idr_compute(*value, lin, put(env, var, ty)) {
            None => None,
            Some((v, l1, e1)) => match idr_body(*cont, l1, e1) {
                None => None,
                Some((c, l2, e2)) => Some((BodyV::Bind { var, ty, value: Box::new(v), cont: Box::new(c) }, l2, e2)),
            },
        },
        BodyV::BindPattern { pat, owned, ty, value, cont } => {
            if owned == Owned::Linear && !pattern_fits(pat, ty) {
                None
            } else {
                let env1 = if owned == Owned::Linear { extend(env, pattern_bindings(pat, ty)) } else { env };
                match idr_body(*cont, lin, env1) {
                    None => None,
                    Some((c, l2, e2)) => Some((
                        BodyV::BindPattern {
                            pat,
                            owned,
                            ty,
                            value,
                            cont: Box::new(dup_all(owned_vars(pattern_vars(pat), l2), c)),
                        },
                        l2,
                        e2,
                    )),
                }
            }
        },
        BodyV::If { cond, then_, else_ } => match idr_body(*then_, lin, env) {
            None => None,
            Some((t, l1, e1)) => match idr_body(*else_, l1, e1) {
                None => None,
                Some((e, l2, e2)) => Some((BodyV::If { cond, then_: Box::new(t), else_: Box::new(e) }, l2, e2)),
            },
        },
        BodyV::Match { value, owned, arms } => match lookup(env, value) {
            None => None,
            Some(ty) => match idr_arms(arms, arms.len(), ty, owned, lin, env) {
                None => None,
                Some((new_arms, l, e)) => Some((BodyV::Match { value, owned, arms: new_arms }, l, e)),
            },
        },
        BodyV::Move(_) => Some((b, lin, env)),
        BodyV::Dup(name, e) => match bump(lin, name) {
            None => None,
            Some(l1) => match idr_body(*e, l1, env) {
                None => None,
                Some((x, l2, e2)) => Some((BodyV::Dup(name, Box::new(x)), l2, e2)),
            },
        },
        BodyV::Drop(name, e) => match consume(lin, name) {
            None => None,
            Some(l1) => match idr_body(*e, l1, env) {
                None => None,
                Some((x, l2, e2)) => Some((BodyV::Drop(name, Box::new(x)), l2, e2)),
            },
        },
        BodyV::DropReuse(r, name, e) => match idr_body(*e, lin, env) {
            None => None,
            Some((x, l2, e2)) => Some((BodyV::DropReuse(r, name, Box::new(x)), l2, e2)),
        },
    }
}

/// The reference-counting pass on the first `k` arms of a match on a value of
/// type `ty`, in order, with the state threaded through them.
pub open spec fn idr_arms(
    arms: Seq<(PatternV, BodyV)>,
    k: nat,
    ty: TypeV,
    owned: Owned,
    lin: LinV,
    env: EnvV,
) -> Option<(Seq<(PatternV, BodyV)>, LinV, EnvV)>
    decreases arms, k + 1,
{
    if k == 0 || k > arms.len() {
        Some((Seq::empty(), lin, env))
    } else {
        match idr_arms(arms, (k - 1) as nat, ty, owned, lin, env) {
            None => None,
            Some((done, l1, e1)) => {
                let pat = arms[k - 1].0;
                if owned == Owned::Linear && !pattern_fits(pat, ty) {
                    None
                } else {
                    let e2 = if owned == Owned::Linear { extend(e1, pattern_bindings(pat, ty)) } else { e1 };
                    match idr_body(arms[k - 1].1, l1, e2) {
                        None => None,
                        Some((body, l3, e3)) => Some((
                            done.push((pat, dup_all(owned_vars(pattern_vars(pat), l3), body))),
                            l3,
                            e3,
                        )),
                    }
                }
            },
        }
    }
}

/// The initial counts of a closure body's linear variables.
pub open spec fn initial_counts(names: Seq<NameV>) -> LinV {
    names.map_values(|n: NameV| (n, 1usize))
}

/// The types of the first `k` of a closure's free variables, looked up in `env`.
pub open spec fn captured_types(env: EnvV, free_vars: Seq<NameV>, k: nat) -> Option<EnvV>
    decreases k,
{
    if k == 0 || k > free_vars.len() {
        Some(Seq::empty())
    } else {
        match captured_types(env, free_vars, (k - 1) as nat) {
            None => None,
            Some(e) => match lookup(env, free_vars[k - 1]) {
                None => None,
                Some(t) => Some(put(e, free_vars[k - 1], t)),
            },
        }
    }
}

/// Adds the types of the first `k` linear parameters of a closure; `None` when a
/// parameter has no type in the closure's function type.
pub open spec fn param_types(env: EnvV, params: Seq<NameV>, ptys: Seq<(TypeV, Owned)>, k: nat) -> Option<EnvV>
    decreases k,
{
    if k == 0 || k > params.len() {
        Some(env)
    } else {
        match param_types(env, params, ptys, (k - 1) as nat) {
            None => None,
            Some(e) => if k - 1 >= ptys.len() {
                None
            } else if ptys[k - 1].1 == Owned::Linear {
                Some(put(e, params[k - 1], ptys[k - 1].0))
            } else {
                Some(e)
            },
        }
    }
}

/// The parameter types of a function type.
pub open spec fn fun_params(t: TypeV) -> Seq<(TypeV, Owned)> {
    match t {
        TypeV::Function(ps, _) => ps,
        _ => Seq::empty(),
    }
}

/// The reference-counting pass on a computation: a closure consumes its free
/// variables and its body is processed on its own, with the linear variables its
/// usage check finds and the types of its free variables and linear
/// parameters; an invocation and a constructor consume the variables they take
/// linearly.
pub open spec fn idr_compute(c: ComputeV, lin: LinV, env: EnvV) -> Option<(ComputeV, LinV, EnvV)>
    decreases c, 2nat,
{
    match c {
        ComputeV::Closure { fun_type, free_vars, params, body } => match consume_all(lin, free_vars, free_vars.len()) {
            None => None,
            Some(l1) => match captured_types(env, free_vars, free_vars.len()) {
                None => None,
                Some(e0) => match param_types(e0, params, fun_params(fun_type), params.len()) {
                    None => None,
                    Some(e1) => {
                        let used = uc_body(*body, Seq::empty());
                        if used.0 is Some {
                            None
                        } else {
                            match idr_body(*body, initial_counts(linear_names(used.1)), e1) {
                                None => None,
                                Some((nb, _, _)) => Some((
                                    ComputeV::Closure { fun_type, free_vars, params, body: Box::new(nb) },
                                    l1,
                                    env,
                                )),
                            }
                        }
                    },
                },
            },
        },
        ComputeV::Invoke(f, args) => {
            match consume_args(use_callee(lin, f), args, args.len()) {
                None => None,
                Some(l1) => Some((c, l1, env)),
            }
        },
        ComputeV::Constructor(_, _, _, args) => match consume_all(lin, args, args.len()) {
            None => None,
            Some(l1) => Some((c, l1, env)),
        },
    }
}

/// The linear arguments of a function and their types.
pub open spec fn linear_arg_types(args: Seq<(String, (Type, Owned))>, k: nat) -> EnvV
    decreases k,
{
    if k == 0 || k > args.len() {
        Seq::empty()
    } else {
        let a = args[k - 1];
        let e = linear_arg_types(args, (k - 1) as nat);
        if a.1.1 == Owned::Linear {
            put(e, a.0@, a.1.0@)
        } else {
            e
        }
    }
}

/// The reference-counting pass on a function: its linear arguments' memory can
/// be reused, and the linear variables its usage check finds start with a count
/// of one.  `None` where the usage check or the pass fails.
pub open spec fn idr_function(body: BodyV, args: Seq<(String, (Type, Owned))>) -> Option<BodyV> {
    let used = uc_body(body, Seq::empty());
    if used.0 is Some {
        None
    } else {
        match idr_body(body, initial_counts(linear_names(used.1)), linear_arg_types(args, args.len())) {
            None => None,
            Some((b, _, _)) => Some(b),
        }
    }
}


pub proof fn lemma_consume_all_prefix(lin: LinV, names: Seq<NameV>, k: nat, i: nat)
    requires
        consume_all(lin, names, k) is Some,
        i <= k <= names.len(),
    ensures
        consume_all(lin, names, i) is Some,
    decreases k,
{
    if i < k {
        lemma_consume_all_prefix(lin, names, (k - 1) as nat, i);
    }
}

pub proof fn lemma_consume_args_prefix(lin: LinV, args: Seq<(NameV, Owned)>, k: nat, i: nat)
    requires
        consume_args(lin, args, k) is Some,
        i <= k <= args.len(),
    ensures
        consume_args(lin, args, i) is Some,
    decreases k,
{
    if i < k {
        lemma_consume_args_prefix(lin, args, (k - 1) as nat, i);
    }
}

pub proof fn lemma_release_all_prefix(b: BodyV, names: Seq<NameV>, k: nat, i: nat, env: EnvV)
    requires
        release_all(b, names, k, env) is Some,
        i <= k <= names.len(),
    ensures
        release_all(b, names, i, env) is Some,
    decreases k,
{
    if i < k {
        lemma_release_all_prefix(b, names, (k - 1) as nat, i, env);
    }
}

pub proof fn lemma_captured_types_prefix(env: EnvV, free_vars: Seq<NameV>, k: nat, i: nat)
    requires
        captured_types(env, free_vars, k) is Some,
        i <= k <= free_vars.len(),
    ensures
        captured_types(env, free_vars, i) is Some,
    decreases k,
{
    if i < k {
        lemma_captured_types_prefix(env, free_vars, (k - 1) as nat, i);
    }
}

pub proof fn lemma_param_types_prefix(env: EnvV, params: Seq<NameV>, ptys: Seq<(TypeV, Owned)>, k: nat, i: nat)
    requires
        param_types(env, params, ptys, k) is Some,
        i <= k <= params.len(),
    ensures
        param_types(env, params, ptys, i) is Some,
    decreases k,
{
    if i < k {
        lemma_param_types_prefix(env, params, ptys, (k - 1) as nat, i);
    }
}

/// A consuming use of `name`.
pub fn consume_name(linears: &mut Vec<(String, usize)>, name: &String)
    requires
        consume(pairs_view(old(linears)@), name@) is Some,
    ensures
        pairs_view(final(linears)@) == consume(pairs_view(old(linears)@), name@).unwrap(),
{
    let c: usize = match assoc_get(linears, name) {
        Some(c) => *c,
        None => 0,
    };
    if c != 1 {
        assoc_put(linears, name.clone(), c + 1);
    } else {
        assoc_remove(linears, name);
    }
}

/// An increment of the count of `name`.
pub fn bump_name(linears: &mut Vec<(String, usize)>, name: &String)
    requires
        bump(pairs_view(old(linears)@), name@) is Some,
    ensures
        pairs_view(final(linears)@) == bump(pairs_view(old(linears)@), name@).unwrap(),
{
    let c: usize = match assoc_get(linears, name) {
        Some(c) => *c,
        None => 0,
    };
    assoc_put(linears, name.clone(), c + 1);
}

/// Consuming uses of each of `names`, in order.
pub fn consume_names(linears: &mut Vec<(String, usize)>, names: &Vec<String>)
    requires
        consume_all(pairs_view(old(linears)@), names_view(names@), names@.len() as nat) is Some,
    ensures
        pairs_view(final(linears)@) == consume_all(pairs_view(old(linears)@), names_view(names@), names@.len() as nat).unwrap(),
{
    let ghost l0 = pairs_view(linears@);
    let ghost ns = names_view(names@);
    let mut i: usize = 0;
    while i < names.len()
        invariant
            i <= names.len(),
            ns == names_view(names@),
            consume_all(l0, ns, names@.len() as nat) is Some,
            consume_all(l0, ns, i as nat) == Some(pairs_view(linears@)),
        decreases names.len() - i,
    {
        proof {
            lemma_consume_all_prefix(l0, ns, names@.len() as nat, (i + 1) as nat);
        }
        assert(ns[i as int] == names@[i as int]@);
        consume_name(linears, &names[i]);
        i = i + 1;
    }
}

/// Consuming uses of each argument passed linearly, in order.
pub fn consume_linear_args(linears: &mut Vec<(String, usize)>, args: &Vec<(String, Owned)>)
    requires
        consume_args(pairs_view(old(linears)@), pairs_view(args@), args@.len() as nat) is Some,
    ensures
        pairs_view(final(linears)@) == consume_args(pairs_view(old(linears)@), pairs_view(args@), args@.len() as nat).unwrap(),
{
    let ghost l0 = pairs_view(linears@);
    let ghost xs = pairs_view(args@);
    let mut i: usize = 0;
    while i < args.len()
        invariant
            i <= args.len(),
            xs == pairs_view(args@),
            consume_args(l0, xs, args@.len() as nat) is Some,
            consume_args(l0, xs, i as nat) == Some(pairs_view(linears@)),
        decreases args.len() - i,
    {
        proof {
            lemma_consume_args_prefix(l0, xs, args@.len() as nat, (i + 1) as nat);
        }
        assert(xs[i as int] == (args@[i as int].0@, args@[i as int].1));
        if let Owned::Linear = args[i].1 {
            consume_name(linears, &args[i].0);
        }
        i = i + 1;
    }
}

/// Wraps `body` in a duplication of each of `vars` that is still owned.
pub fn dup_owned(vars: &Vec<String>, linears: &Vec<(String, usize)>, body: Body) -> (r: Body)
    ensures
        r@ == dup_all(owned_vars(names_view(vars@), pairs_view(linears@)), body@),
{
    let ghost b0 = body@;
    let ghost lin = pairs_view(linears@);
    let mut r = body;
    let mut i: usize = 0;
    while i < vars.len()
        invariant
            i <= vars.len(),
            lin == pairs_view(linears@),
            r@ == dup_all(owned_vars(names_view(vars@).take(i as int), lin), b0),
        decreases vars.len() - i,
    {
        let ghost prefix = names_view(vars@).take(i as int);
        assert(names_view(vars@).take(i + 1).drop_last() =~= prefix);
        assert(names_view(vars@).take(i + 1).last() == vars@[i as int]@);
        if assoc_get(linears, &vars[i]).is_some() {
            let ghost o = owned_vars(prefix, lin);
            r = Body::Dup(vars[i].clone(), Box::new(r));
            assert(o.push(vars@[i as int]@).drop_last() =~= o);
        }
        i = i + 1;
    }
    assert(names_view(vars@).take(vars.len() as int) =~= names_view(vars@));
    r
}

/// The initial counts of the given linear variables: one each.
pub fn counts_of(names: &Vec<String>) -> (r: Vec<(String, usize)>)
    ensures
        pairs_view(r@) == initial_counts(names_view(names@)),
{
    let ghost ns = names_view(names@);
    let mut r: Vec<(String, usize)> = Vec::new();
    let mut i: usize = 0;
    while i < names.len()
        invariant
            i <= names.len(),
            ns == names_view(names@),
            r@.len() == i,
            pairs_view(r@) == initial_counts(ns.take(i as int)),
        decreases names.len() - i,
    {
        let ghost prev = r@;
        r.push((names[i].clone(), 1));
        assert(pairs_view(r@) =~= initial_counts(ns.take(i + 1))) by {
            assert forall|t: int| 0 <= t < i + 1 implies pairs_view(r@)[t] == initial_counts(ns.take(i + 1))[t] by {
                if t < i {
                    assert(r@[t] == prev[t]);
                    assert(pairs_view(prev)[t] == initial_counts(ns.take(i as int))[t]);
                }
            }
        }
        i = i + 1;
    }
    assert(ns.take(names.len() as int) =~= ns);
    r
}


impl Body {
    /// Inserts the reference-counting instructions into the body: owned variables
    /// with a count of one that the body does not read are released around it,
    /// their memory reused by a fresh constructor of the same type where there is one.
    pub fn insert_drop_reuse(self, linears: &mut Vec<(String, usize)>, reuse_types: &mut Vec<(Name, Type)>) -> (r: Body)
        requires
            idr_body(self@, pairs_view(old(linears)@), pairs_view(old(reuse_types)@)) is Some,
        ensures
            (r@, pairs_view(final(linears)@), pairs_view(final(reuse_types)@))
                == idr_body(self@, pairs_view(old(linears)@), pairs_view(old(reuse_types)@)).unwrap(),
            ({
                let dead = dead_vars(pairs_view(old(linears)@), fv(self@));
                &&& dead.no_duplicates()
                &&& released_names(r@, dead.len()) == Some(latest_first(dead, dead.len()))
            }),
        decreases self, 1nat,
    {
        proof {
            law_insert_drop_reuse_releases_dead(self@, pairs_view(linears@), pairs_view(reuse_types@));
        }
        let ghost b0 = self@;
        let ghost l0 = pairs_view(linears@);
        let ghost e0 = pairs_view(reuse_types@);
        let free_vars = self.free_vars();
        let mut drop_vars: Vec<String> = Vec::new();
        let mut i: usize = 0;
        while i < linears.len()
            invariant
                i <= linears.len(),
                l0 == pairs_view(linears@),
                names_view(free_vars@) == fv(b0),
                names_view(drop_vars@) == dead_vars(l0.take(i as int), fv(b0)),
            decreases linears.len() - i,
        {
            assert(l0.take(i + 1).drop_last() =~= l0.take(i as int));
            assert(l0.take(i + 1).last() == (linears@[i as int].0@, linears@[i as int].1));
            if linears[i].1 == 1 && !contains(&free_vars, &linears[i].0) {
                insert_name(&mut drop_vars, linears[i].0.clone());
            }
            i = i + 1;
        }
        assert(l0.take(linears.len() as int) =~= l0);
        let ghost dead = names_view(drop_vars@);
        let mut j: usize = 0;
        while j < drop_vars.len()
            invariant
                j <= drop_vars.len(),
                dead == names_view(drop_vars@),
                pairs_view(linears@) == remove_all(l0, dead, j as nat),
            decreases drop_vars.len() - j,
        {
            assert(dead[j as int] == drop_vars@[j as int]@);
            assoc_remove(linears, &drop_vars[j]);
            j = j + 1;
        }
        let ghost mid = pmr(b0, remove_all(l0, dead, dead.len()), e0).unwrap();
        let mut body = self.process_match_raw(linears, reuse_types);
        let ghost e1 = pairs_view(reuse_types@);
        let mut k: usize = 0;
        while k < drop_vars.len()
            invariant
                k <= drop_vars.len(),
                dead == names_view(drop_vars@),
                e1 == pairs_view(reuse_types@),
                release_all(mid.0, dead, dead.len(), e1) is Some,
                release_all(mid.0, dead, k as nat, e1) == Some(body@),
            decreases drop_vars.len() - k,
        {
            proof {
                lemma_release_all_prefix(mid.0, dead, dead.len(), (k + 1) as nat, e1);
            }
            let var = &drop_vars[k];
            assert(dead[k as int] == var@);
            match assoc_get(reuse_types, var) {
                Some(ty) => {
                    body = match body.rewrite_construct(var, ty) {
                        Some(nb) => Body::DropReuse(reuse_token(var), var.clone(), Box::new(nb)),
                        None => Body::Drop(var.clone(), Box::new(body)),
                    };
                },
                None => {},
            }
            k = k + 1;
        }
        body
    }

    /// Inserts the reference-counting instructions into the parts of the body.
    pub fn process_match_raw(self, linears: &mut Vec<(String, usize)>, reuse_types: &mut Vec<(Name, Type)>) -> (r: Body)
        requires
            pmr(self@, pairs_view(old(linears)@), pairs_view(old(reuse_types)@)) is Some,
        ensures
            (r@, pairs_view(final(linears)@), pairs_view(final(reuse_types)@))
                == pmr(self@, pairs_view(old(linears)@), pairs_view(old(reuse_types)@)).unwrap(),
            self@ is Move ==> r@ == self@ && pairs_view(final(linears)@) == pairs_view(old(linears)@)
                && pairs_view(final(reuse_types)@) == pairs_view(old(reuse_types)@),
            self@ is Dup ==> ({
                let n = self@->Dup_0;
                let l = pairs_view(old(linears)@);
                let bumped = put(l, n, (lookup(l, n).unwrap() + 1) as usize);
                &&& lookup(l, n) is Some
                &&& r@ == BodyV::Dup(n, Box::new(idr_body(*self@->Dup_1, bumped, pairs_view(old(reuse_types)@)).unwrap().0))
            }),
        decreases self, 0nat,
    {
        proof {
            law_parts_pass_move_and_dup(self@, pairs_view(linears@), pairs_view(reuse_types@));
        }
        match self {
            Body::Bind(e) => Body::Bind(e.insert_drop_reuse(linears, reuse_types)),
            Body::BindPattern(e) => Body::BindPattern(e.insert_drop_reuse(linears, reuse_types)),
            Body::If(e) => Body::If(e.insert_drop_reuse(linears, reuse_types)),
            Body::Match(e) => Body::Match(e.insert_drop_reuse(linears, reuse_types)),
            Body::Move(v) => Body::Move(v),
            Body::Dup(name, e) => {
                bump_name(linears, &name);
                Body::Dup(name, Box::new(e.insert_drop_reuse(linears, reuse_types)))
            },
            Body::Drop(name, e) => {
                consume_name(linears, &name);
                Body::Drop(name, Box::new(e.insert_drop_reuse(linears, reuse_types)))
            },
            Body::DropReuse(new_name, name, e) => Body::DropReuse(
                new_name,
                name,
                Box::new(e.insert_drop_reuse(linears, reuse_types)),
            ),
        }
    }
}

impl Bind {
    pub fn insert_drop_reuse(self, linears: &mut Vec<(String, usize)>, reuse_types: &mut Vec<(Name, Type)>) -> (r: Bind)
        requires
            pmr(self@, pairs_view(old(linears)@), pairs_view(old(reuse_types)@)) is Some,
        ensures
            (r@, pairs_view(final(linears)@), pairs_view(final(reuse_types)@))
                == pmr(self@, pairs_view(old(linears)@), pairs_view(old(reuse_types)@)).unwrap(),
            ({
                let (var, ty) = (self@->Bind_var, self@->Bind_ty);
                let e1 = put(pairs_view(old(reuse_types)@), var, ty);
                let (v, l1, e2) = idr_compute(*self@->Bind_value, pairs_view(old(linears)@), e1).unwrap();
                &&& lookup(e1, var) == Some(ty)
                &&& e2 == e1
                &&& r@ == BodyV::Bind { var, ty, value: Box::new(v), cont: Box::new(idr_body(*self@->Bind_cont, l1, e1).unwrap().0) }
            }),
        decreases self, 2nat,
    {
        proof {
            let e1 = put(pairs_view(reuse_types@), self@->Bind_var, self@->Bind_ty);
            lemma_lookup_put(pairs_view(reuse_types@), self@->Bind_var, self@->Bind_ty, self@->Bind_var);
            law_compute_pass_shape(*self@->Bind_value, pairs_view(linears@), e1, self@->Bind_var);
        }
        let Bind { var, ty, value, cont } = self;
        assoc_put(reuse_types, var.clone(), ty.clone());
        let value = value.insert_drop_reuse(linears, reuse_types);
        let cont = cont.insert_drop_reuse(linears, reuse_types);
        Bind { var, ty, value: Box::new(value), cont: Box::new(cont) }
    }
}

impl BindPattern {
    pub fn insert_drop_reuse(self, linears: &mut Vec<(String, usize)>, reuse_types: &mut Vec<(Name, Type)>) -> (r: BindPattern)
        requires
            pmr(self@, pairs_view(old(linears)@), pairs_view(old(reuse_types)@)) is Some,
        ensures
            (r@, pairs_view(final(linears)@), pairs_view(final(reuse_types)@))
                == pmr(self@, pairs_view(old(linears)@), pairs_view(old(reuse_types)@)).unwrap(),
            ({
                let b = self@;
                let env1 = if b->BindPattern_owned == Owned::Linear {
                    extend(pairs_view(old(reuse_types)@), pattern_bindings(b->BindPattern_pat, b->BindPattern_ty))
                } else {
                    pairs_view(old(reuse_types)@)
                };
                let (c, l2, _) = idr_body(*b->BindPattern_cont, pairs_view(old(linears)@), env1).unwrap();
                let dups = owned_vars(pattern_vars(b->BindPattern_pat), l2);
                &&& r@ is BindPattern
                &&& *r@->BindPattern_cont == dup_all(dups, c)
                &&& forall|x: NameV| #[trigger] dups.contains(x) <==> pattern_vars(b->BindPattern_pat).contains(x)
                    && lookup(l2, x) is Some
            }),
        decreases self, 2nat,
    {
        proof {
            let b = self@;
            let env1 = if b->BindPattern_owned == Owned::Linear {
                extend(pairs_view(reuse_types@), pattern_bindings(b->BindPattern_pat, b->BindPattern_ty))
            } else {
                pairs_view(reuse_types@)
            };
            let (c, l2, _) = idr_body(*b->BindPattern_cont, pairs_view(linears@), env1).unwrap();
            assert forall|x: NameV| #[trigger] owned_vars(pattern_vars(b->BindPattern_pat), l2).contains(x)
                <==> pattern_vars(b->BindPattern_pat).contains(x) && lookup(l2, x) is Some by {
                lemma_owned_vars(pattern_vars(b->BindPattern_pat), l2, x);
            }
        }
        let BindPattern { pat, owned, ty, value, cont } = self;
        if let Owned::Linear = owned {
            let bindings = pat.type_binding(&ty);
            extend_bindings(reuse_types, bindings);
        }
        let pat_defined_vars = pat.defined_vars();
        let cont = cont.insert_drop_reuse(linears, reuse_types);
        let cont = dup_owned(&pat_defined_vars, linears, cont);
        BindPattern { pat, owned, ty, value, cont: Box::new(cont) }
    }
}

impl If {
    pub fn insert_drop_reuse(self, linears: &mut Vec<(String, usize)>, reuse_types: &mut Vec<(Name, Type)>) -> (r: If)
        requires
            pmr(self@, pairs_view(old(linears)@), pairs_view(old(reuse_types)@)) is Some,
        ensures
            (r@, pairs_view(final(linears)@), pairs_view(final(reuse_types)@))
                == pmr(self@, pairs_view(old(linears)@), pairs_view(old(reuse_types)@)).unwrap(),
        decreases self, 2nat,
    {
        let If { cond, then_, else_ } = self;
        let it1 = then_.insert_drop_reuse(linears, reuse_types);
        let it2 = else_.insert_drop_reuse(linears, reuse_types);
        If { cond, then_: Box::new(it1), else_: Box::new(it2) }
    }
}


impl Compute {
    /// A closure consumes its free variables and has its body processed on its own;
    /// an invocation and a constructor consume what they take linearly.
    pub fn insert_drop_reuse(self, linears: &mut Vec<(String, usize)>, reuse_types: &mut Vec<(Name, Type)>) -> (r: Compute)
        requires
            idr_compute(self@, pairs_view(old(linears)@), pairs_view(old(reuse_types)@)) is Some,
        ensures
            (r@, pairs_view(final(linears)@), pairs_view(final(reuse_types)@))
                == idr_compute(self@, pairs_view(old(linears)@), pairs_view(old(reuse_types)@)).unwrap(),
            pairs_view(final(reuse_types)@) == pairs_view(old(reuse_types)@),
            forall|k: NameV| #[trigger] lookup(pairs_view(final(linears)@), k) is Some
                ==> lookup(pairs_view(old(linears)@), k) is Some,
            !(self@ is Closure) ==> r@ == self@,
            self@ is Closure ==> r@ == closure_pass(self@, pairs_view(old(reuse_types)@)),
            taken_names(self@).no_duplicates() && (self@ is Invoke ==> lookup(pairs_view(old(linears)@), self@->Invoke_0) is None)
                ==> forall|v: NameV| #[trigger] lookup(pairs_view(final(linears)@), v) == if taken_names(self@).contains(v) {
                    consumed_count(lookup(pairs_view(old(linears)@), v))
                } else {
                    lookup(pairs_view(old(linears)@), v)
                },
        decreases self, 2nat,
    {
        proof {
            let c = self@;
            let l = pairs_view(linears@);
            let e = pairs_view(reuse_types@);
            assert forall|k: NameV| #[trigger] lookup(idr_compute(c, l, e).unwrap().1, k) is Some implies lookup(l, k) is Some by {
                law_compute_pass_shape(c, l, e, k);
            }
            law_compute_pass_shape(c, l, e, c->Invoke_0);
            if taken_names(c).no_duplicates() && (c is Invoke ==> lookup(l, c->Invoke_0) is None) {
                assert forall|v: NameV| #[trigger] lookup(idr_compute(c, l, e).unwrap().1, v) == if taken_names(c).contains(v) {
                    consumed_count(lookup(l, v))
                } else {
                    lookup(l, v)
                } by {
                    law_compute_pass_consumes(c, l, e, v);
                }
            }
        }
        match self {
            Compute::Closure { fun_type, free_vars, params, body } => {
                consume_names(linears, &free_vars);
                let ghost env = pairs_view(reuse_types@);
                let ghost fvs = names_view(free_vars@);
                let mut new_reuse_types: Vec<(Name, Type)> = Vec::new();
                let mut i: usize = 0;
                while i < free_vars.len()
                    invariant
                        i <= free_vars.len(),
                        env == pairs_view(reuse_types@),
                        fvs == names_view(free_vars@),
                        captured_types(env, fvs, free_vars@.len() as nat) is Some,
                        captured_types(env, fvs, i as nat) == Some(pairs_view(new_reuse_types@)),
                    decreases free_vars.len() - i,
                {
                    proof {
                        lemma_captured_types_prefix(env, fvs, free_vars@.len() as nat, (i + 1) as nat);
                    }
                    assert(fvs[i as int] == free_vars@[i as int]@);
                    match assoc_get(reuse_types, &free_vars[i]) {
                        Some(t) => {
                            let t = t.clone();
                            assoc_put(&mut new_reuse_types, free_vars[i].clone(), t);
                        },
                        None => {},
                    }
                    i = i + 1;
                }
                let ghost e0 = pairs_view(new_reuse_types@);
                let ghost ps = names_view(params@);
                let ghost ptys = crate::types::params_view(fun_type.params@);
                let mut j: usize = 0;
                while j < params.len()
                    invariant
                        j <= params.len(),
                        ps == names_view(params@),
                        ptys == crate::types::params_view(fun_type.params@),
                        param_types(e0, ps, ptys, params@.len() as nat) is Some,
                        param_types(e0, ps, ptys, j as nat) == Some(pairs_view(new_reuse_types@)),
                    decreases params.len() - j,
                {
                    proof {
                        lemma_param_types_prefix(e0, ps, ptys, params@.len() as nat, (j + 1) as nat);
                    }
                    assert(ps[j as int] == params@[j as int]@);
                    if j < fun_type.params.len() {
                        assert(ptys[j as int] == (fun_type.params@[j as int].0@, fun_type.params@[j as int].1));
                        if let Owned::Linear = fun_type.params[j].1 {
                            let t = fun_type.params[j].0.clone();
                            assoc_put(&mut new_reuse_types, params[j].clone(), t);
                        }
                    }
                    j = j + 1;
                }
                let mut used_record = Used::new();
                let _ = body.use_check(&mut used_record);
                let names = used_record.to_linears();
                let mut new_linears = counts_of(&names);
                let body = body.insert_drop_reuse(&mut new_linears, &mut new_reuse_types);
                Compute::Closure { fun_type, free_vars, params, body: Box::new(body) }
            },
            Compute::Invoke(f, args) => {
                let is_one = match assoc_get(linears, &f) {
                    Some(c) => *c == 1,
                    None => false,
                };
                if is_one {
                    assoc_put(linears, f.clone(), 2);
                } else {
                    assoc_remove(linears, &f);
                }
                consume_linear_args(linears, &args);
                Compute::Invoke(f, args)
            },
            Compute::Constructor(c, ty, reuse, args) => {
                consume_names(linears, &args);
                Compute::Constructor(c, ty, reuse, args)
            },
        }
    }
}

impl Match {
    #[verifier::rlimit(30)]
    pub fn insert_drop_reuse(self, linears: &mut Vec<(String, usize)>, reuse_types: &mut Vec<(Name, Type)>) -> (r: Match)
        requires
            pmr(self@, pairs_view(old(linears)@), pairs_view(old(reuse_types)@)) is Some,
        ensures
            (r@, pairs_view(final(linears)@), pairs_view(final(reuse_types)@))
                == pmr(self@, pairs_view(old(linears)@), pairs_view(old(reuse_types)@)).unwrap(),
        decreases self, 2nat,
    {
        let ghost me = self;
        let ghost arms = arms_view(self.matchs@);
        let ghost l0 = pairs_view(linears@);
        let ghost env0 = pairs_view(reuse_types@);
        let ty: Type = match assoc_get(reuse_types, &self.value) {
            Some(t) => t.clone(),
            None => Type::Bool,
        };
        let Match { value, owned, matchs } = self;
        let mut matchs = matchs;
        let mut pairs: Vec<(Pattern, Body)> = Vec::new();
        let ghost mut k: int = 0;
        #[verifier::loop_isolation(false)]
        while matchs.len() > 0
            invariant
                0 <= k <= arms.len(),
                me.matchs@.len() == arms.len(),
                arms == arms_view(me.matchs@),
                matchs@ == me.matchs@.skip(k),
                pairs@.len() == k,
                idr_arms(arms, arms.len(), ty@, owned, l0, env0) is Some,
                idr_arms(arms, k as nat, ty@, owned, l0, env0)
                    == Some((arms_view(pairs@), pairs_view(linears@), pairs_view(reuse_types@))),
            decreases matchs.len(),
        {
            let ghost before = matchs@;
            let (pat, body) = matchs.remove(0);
            assert(before[0] == me.matchs@[k]);
            assert(matchs@ =~= me.matchs@.skip(k + 1));
            assert(body == me.matchs@[k].1);
            proof {
                assert(decreases_to!(me => me.matchs));
                assert(decreases_to!(me.matchs => me.matchs@));
                assert(decreases_to!(me.matchs@ => me.matchs@[k]));
                assert(decreases_to!(me.matchs@[k] => me.matchs@[k].1));
                assert(decreases_to!(me => body));
                lemma_idr_arms_prefix(arms, arms.len(), (k + 1) as nat, ty@, owned, l0, env0);
            }
            assert(arms[k] == (pat@, body@));
            let ghost prev = pairs@;
            if let Owned::Linear = owned {
                let bindings = pat.type_binding(&ty);
                extend_bindings(reuse_types, bindings);
            }
            let pat_defined_vars = pat.defined_vars();
            let body = body.insert_drop_reuse(linears, reuse_types);
            let body = dup_owned(&pat_defined_vars, linears, body);
            pairs.push((pat, body));
            assert(arms_view(pairs@) =~= arms_view(prev).push(arms_view(pairs@).last())) by {
                assert forall|j: int| 0 <= j < k implies arms_view(pairs@)[j] == arms_view(prev)[j] by {
                    assert(pairs@[j] == prev[j]);
                }
            }
            proof {
                k = k + 1;
            }
        }
        Match { value, owned, matchs: pairs }
    }
}

pub proof fn lemma_idr_arms_prefix(
    arms: Seq<(PatternV, BodyV)>,
    k: nat,
    i: nat,
    ty: TypeV,
    owned: Owned,
    lin: LinV,
    env: EnvV,
)
    requires
        idr_arms(arms, k, ty, owned, lin, env) is Some,
        i <= k <= arms.len(),
    ensures
        idr_arms(arms, i, ty, owned, lin, env) is Some,
    decreases k,
{
    if i < k {
        lemma_idr_arms_prefix(arms, (k - 1) as nat, i, ty, owned, lin, env);
    }
}

impl Function {
    /// Inserts the reference-counting instructions into the function's body; also
    /// gives the variables the new body reads.
    pub fn insert_drop_reuse(self) -> (r: (Function, Vec<String>))
        requires
            idr_function(self.body@, self.args@) is Some,
        ensures
            r.0.name == self.name,
            r.0.return_type == self.return_type,
            r.0.args == self.args,
            r.0.body@ == idr_function(self.body@, self.args@).unwrap(),
            names_view(r.1@) == fv(r.0.body@),
    {
        let mut reuse_types: Vec<(Name, Type)> = Vec::new();
        let mut i: usize = 0;
        while i < self.args.len()
            invariant
                i <= self.args.len(),
                pairs_view(reuse_types@) == linear_arg_types(self.args@, i as nat),
            decreases self.args.len() - i,
        {
            if let Owned::Linear = self.args[i].1.1 {
                assoc_put(&mut reuse_types, self.args[i].0.clone(), self.args[i].1.0.clone());
            }
            i = i + 1;
        }
        let mut used_record = Used::new();
        let _ = self.body.use_check(&mut used_record);
        let names = used_record.to_linears();
        let mut linears = counts_of(&names);
        let Function { name, return_type, args, body } = self;
        let body = body.insert_drop_reuse(&mut linears, &mut reuse_types);
        let liveness = body.free_vars();
        (Function { name, return_type, args, body }, liveness)
    }
}


pub proof fn lemma_dup_all_erase(names: Seq<NameV>, b: BodyV)
    ensures
        erase(dup_all(names, b)) == erase(b),
    decreases names.len(),
{
    if names.len() > 0 {
        lemma_dup_all_erase(names.drop_last(), b);
    }
}

pub proof fn lemma_release_all_erase(b: BodyV, names: Seq<NameV>, k: nat, env: EnvV)
    requires
        release_all(b, names, k, env) is Some,
    ensures
        erase(release_all(b, names, k, env).unwrap()) == erase(b),
    decreases k,
{
    if k > 0 && k <= names.len() {
        lemma_release_all_erase(b, names, (k - 1) as nat, env);
        let body = release_all(b, names, (k - 1) as nat, env).unwrap();
        let var = names[k - 1];
        let ty = lookup(env, var).unwrap();
        if rewrite(body, var, ty) is Some {
            law_rewrite_only_annotates(body, var, ty);
        }
    }
}

/// The reference-counting pass changes nothing but reference counting and reuse
/// annotations: the processed body, erased, is the body erased.
pub proof fn law_insert_drop_reuse_only_annotates(b: BodyV, lin: LinV, env: EnvV)
    requires
        idr_body(b, lin, env) is Some,
    ensures
        erase(idr_body(b, lin, env).unwrap().0) == erase(b),
    decreases b, 1nat,
{
    let dead = dead_vars(lin, fv(b));
    lemma_pmr_erase(b, remove_all(lin, dead, dead.len()), env);
    let (body, l, e) = pmr(b, remove_all(lin, dead, dead.len()), env).unwrap();
    lemma_release_all_erase(body, dead, dead.len(), e);
}

pub proof fn lemma_pmr_erase(b: BodyV, lin: LinV, env: EnvV)
    requires
        pmr(b, lin, env) is Some,
    ensures
        erase(pmr(b, lin, env).unwrap().0) == erase(b),
    decreases b, 0nat,
{
    match b {
        BodyV::Bind { var, ty, value, cont } => {
            let env1 = put(env, var, ty);
            lemma_idr_compute_erase(*value, lin, env1);
            let (v, l1, e1) = idr_compute(*value, lin, env1).unwrap();
            law_insert_drop_reuse_only_annotates(*cont, l1, e1);
        },
        BodyV::BindPattern { pat, owned, ty, value, cont } => {
            let env1 = if owned == Owned::Linear { extend(env, pattern_bindings(pat, ty)) } else { env };
            law_insert_drop_reuse_only_annotates(*cont, lin, env1);
            let (c, l2, e2) = idr_body(*cont, lin, env1).unwrap();
            lemma_dup_all_erase(owned_vars(pattern_vars(pat), l2), c);
        },
        BodyV::If { cond, then_, else_ } => {
            law_insert_drop_reuse_only_annotates(*then_, lin, env);
            let (t, l1, e1) = idr_body(*then_, lin, env).unwrap();
            law_insert_drop_reuse_only_annotates(*else_, l1, e1);
        },
        BodyV::Match { value, owned, arms } => {
            let ty = lookup(env, value).unwrap();
            lemma_idr_arms_erase(arms, arms.len(), ty, owned, lin, env);
        },
        BodyV::Move(_) => {},
        BodyV::Dup(name, e) => {
            law_insert_drop_reuse_only_annotates(*e, bump(lin, name).unwrap(), env);
        },
        BodyV::Drop(name, e) => {
            law_insert_drop_reuse_only_annotates(*e, consume(lin, name).unwrap(), env);
        },
        BodyV::DropReuse(_, _, e) => {
            law_insert_drop_reuse_only_annotates(*e, lin, env);
        },
    }
}

pub proof fn lemma_idr_arms_erase(
    arms: Seq<(PatternV, BodyV)>,
    k: nat,
    ty: TypeV,
    owned: Owned,
    lin: LinV,
    env: EnvV,
)
    requires
        idr_arms(arms, k, ty, owned, lin, env) is Some,
        k <= arms.len(),
    ensures
        idr_arms(arms, k, ty, owned, lin, env).unwrap().0.len() == k,
        erase_arms(idr_arms(arms, k, ty, owned, lin, env).unwrap().0, k) == erase_arms(arms, k),
    decreases arms, k + 1,
{
    if k > 0 {
        lemma_idr_arms_erase(arms, (k - 1) as nat, ty, owned, lin, env);
        let (done, l1, e1) = idr_arms(arms, (k - 1) as nat, ty, owned, lin, env).unwrap();
        let pat = arms[k - 1].0;
        let e2 = if owned == Owned::Linear { extend(e1, pattern_bindings(pat, ty)) } else { e1 };
        law_insert_drop_reuse_only_annotates(arms[k - 1].1, l1, e2);
        let (body, l3, e3) = idr_body(arms[k - 1].1, l1, e2).unwrap();
        lemma_dup_all_erase(owned_vars(pattern_vars(pat), l3), body);
        let r = idr_arms(arms, k, ty, owned, lin, env).unwrap().0;
        assert(r == done.push((pat, dup_all(owned_vars(pattern_vars(pat), l3), body))));
        assert(r.take(k - 1) =~= done.take(k - 1));
        lemma_erase_arms_prefix(r, done, (k - 1) as nat);
        assert(erase_arms(r, k) == erase_arms(r, (k - 1) as nat).push((r[k - 1].0, erase(r[k - 1].1))));
    }
}

pub proof fn lemma_idr_compute_erase(c: ComputeV, lin: LinV, env: EnvV)
    requires
        idr_compute(c, lin, env) is Some,
    ensures
        erase_compute(idr_compute(c, lin, env).unwrap().0) == erase_compute(c),
    decreases c, 2nat,
{
    match c {
        ComputeV::Closure { fun_type, free_vars, params, body } => {
            let e0 = captured_types(env, free_vars, free_vars.len()).unwrap();
            let e1 = param_types(e0, params, fun_params(fun_type), params.len()).unwrap();
            let used = uc_body(*body, Seq::empty());
            law_insert_drop_reuse_only_annotates(*body, initial_counts(linear_names(used.1)), e1);
        },
        _ => {},
    }
}

/// The reference-counting pass on a function changes nothing but reference
/// counting and reuse annotations.
pub proof fn law_function_insert_drop_reuse_only_annotates(body: BodyV, args: Seq<(String, (Type, Owned))>)
    requires
        idr_function(body, args) is Some,
    ensures
        erase(idr_function(body, args).unwrap()) == erase(body),
{
    let used = uc_body(body, Seq::empty());
    law_insert_drop_reuse_only_annotates(body, initial_counts(linear_names(used.1)), linear_arg_types(args, args.len()));
}

pub proof fn lemma_dup_all_reads(names: Seq<NameV>, b: BodyV)
    ensures
        fv(dup_all(names, b)) == fv(b),
    decreases names.len(),
{
    if names.len() > 0 {
        lemma_dup_all_reads(names.drop_last(), b);
    }
}

pub proof fn lemma_release_all_reads(b: BodyV, names: Seq<NameV>, k: nat, env: EnvV)
    requires
        release_all(b, names, k, env) is Some,
    ensures
        fv(release_all(b, names, k, env).unwrap()).to_set().subset_of(fv(b).to_set()),
    decreases k,
{
    if k > 0 && k <= names.len() {
        lemma_release_all_reads(b, names, (k - 1) as nat, env);
        let body = release_all(b, names, (k - 1) as nat, env).unwrap();
        let var = names[k - 1];
        let ty = lookup(env, var).unwrap();
        if rewrite(body, var, ty) is Some {
            law_rewrite_adds_no_read(body, var, ty);
        }
    }
}

/// The variables `dead_vars` gives are not read.
pub proof fn lemma_dead_vars_unread(lin: LinV, fvs: Seq<NameV>)
    ensures
        forall|v: NameV| #[trigger] dead_vars(lin, fvs).contains(v) ==> !fvs.contains(v),
    decreases lin.len(),
{
    if lin.len() > 0 {
        lemma_dead_vars_unread(lin.drop_last(), fvs);
        let r = dead_vars(lin.drop_last(), fvs);
        if lin.last().1 == 1 && !fvs.contains(lin.last().0) {
            lemma_insert(r, lin.last().0);
            assert forall|v: NameV| #[trigger] dead_vars(lin, fvs).contains(v) implies !fvs.contains(v) by {
                assert(insert(r, lin.last().0).to_set().contains(v));
            }
        }
    }
}

/// The reference-counting pass adds no read: the new body reads no variable the
/// body did not read, and none of the variables released before the body.
pub proof fn law_insert_drop_reuse_adds_no_read(b: BodyV, lin: LinV, env: EnvV)
    requires
        idr_body(b, lin, env) is Some,
    ensures
        fv(idr_body(b, lin, env).unwrap().0).to_set().subset_of(fv(b).to_set()),
        forall|v: NameV| #[trigger] dead_vars(lin, fv(b)).contains(v) ==> !fv(idr_body(b, lin, env).unwrap().0).contains(v),
    decreases b, 1nat,
{
    let dead = dead_vars(lin, fv(b));
    let l0 = remove_all(lin, dead, dead.len());
    lemma_pmr_reads(b, l0, env);
    let (body, l, e) = pmr(b, l0, env).unwrap();
    lemma_release_all_reads(body, dead, dead.len(), e);
    lemma_dead_vars_unread(lin, fv(b));
    let out = idr_body(b, lin, env).unwrap().0;
    assert forall|v: NameV| #[trigger] dead_vars(lin, fv(b)).contains(v) implies !fv(out).contains(v) by {
        if fv(out).contains(v) {
            assert(fv(out).to_set().contains(v));
            assert(fv(b).to_set().contains(v));
        }
    }
}

pub proof fn lemma_pmr_reads(b: BodyV, lin: LinV, env: EnvV)
    requires
        pmr(b, lin, env) is Some,
    ensures
        fv(pmr(b, lin, env).unwrap().0).to_set().subset_of(fv(b).to_set()),
    decreases b, 0nat,
{
    let out = pmr(b, lin, env).unwrap().0;
    match b {
        BodyV::Bind { var, ty, value, cont } => {
            let (v, l1, e1) = idr_compute(*value, lin, put(env, var, ty)).unwrap();
            law_insert_drop_reuse_adds_no_read(*cont, l1, e1);
            let (c, _, _) = idr_body(*cont, l1, e1).unwrap();
            assert(fv_compute(v) == fv_compute(*value));
            lemma_union_mono(fv(c), fv_compute(v), fv(*cont), fv_compute(*value));
        },
        BodyV::BindPattern { pat, owned, ty, value, cont } => {
            let env1 = if owned == Owned::Linear { extend(env, pattern_bindings(pat, ty)) } else { env };
            law_insert_drop_reuse_adds_no_read(*cont, lin, env1);
            let (c, l2, _) = idr_body(*cont, lin, env1).unwrap();
            lemma_dup_all_reads(owned_vars(pattern_vars(pat), l2), c);
            lemma_insert_mono(fv(dup_all(owned_vars(pattern_vars(pat), l2), c)), fv(*cont), value);
        },
        BodyV::If { cond, then_, else_ } => {
            law_insert_drop_reuse_adds_no_read(*then_, lin, env);
            let (t, l1, e1) = idr_body(*then_, lin, env).unwrap();
            law_insert_drop_reuse_adds_no_read(*else_, l1, e1);
            let (e, _, _) = idr_body(*else_, l1, e1).unwrap();
            lemma_union_mono(seq![cond], fv(t), seq![cond], fv(*then_));
            lemma_union_mono(union(seq![cond], fv(t)), fv(e), union(seq![cond], fv(*then_)), fv(*else_));
        },
        BodyV::Match { value, owned, arms } => {
            let ty = lookup(env, value).unwrap();
            lemma_idr_arms_reads(arms, arms.len(), ty, owned, lin, env);
            let new_arms = idr_arms(arms, arms.len(), ty, owned, lin, env).unwrap().0;
            lemma_fv_arms_mono(new_arms, arms, arms.len());
            lemma_insert_mono(fv_arms(new_arms, arms.len()), fv_arms(arms, arms.len()), value);
        },
        BodyV::Move(_) => {},
        BodyV::Dup(name, e) => {
            law_insert_drop_reuse_adds_no_read(*e, bump(lin, name).unwrap(), env);
        },
        BodyV::Drop(name, e) => {
            law_insert_drop_reuse_adds_no_read(*e, consume(lin, name).unwrap(), env);
        },
        BodyV::DropReuse(_, _, e) => {
            law_insert_drop_reuse_adds_no_read(*e, lin, env);
        },
    }
}

pub proof fn lemma_idr_arms_reads(
    arms: Seq<(PatternV, BodyV)>,
    k: nat,
    ty: TypeV,
    owned: Owned,
    lin: LinV,
    env: EnvV,
)
    requires
        idr_arms(arms, k, ty, owned, lin, env) is Some,
        k <= arms.len(),
    ensures
        idr_arms(arms, k, ty, owned, lin, env).unwrap().0.len() == k,
        forall|i: int| 0 <= i < k ==> (#[trigger] idr_arms(arms, k, ty, owned, lin, env).unwrap().0[i]).0 == arms[i].0
            && fv(idr_arms(arms, k, ty, owned, lin, env).unwrap().0[i].1).to_set().subset_of(fv(arms[i].1).to_set()),
    decreases arms, k + 1,
{
    if k > 0 {
        lemma_idr_arms_reads(arms, (k - 1) as nat, ty, owned, lin, env);
        let (done, l1, e1) = idr_arms(arms, (k - 1) as nat, ty, owned, lin, env).unwrap();
        let pat = arms[k - 1].0;
        let e2 = if owned == Owned::Linear { extend(e1, pattern_bindings(pat, ty)) } else { e1 };
        law_insert_drop_reuse_adds_no_read(arms[k - 1].1, l1, e2);
        let (body, l3, _) = idr_body(arms[k - 1].1, l1, e2).unwrap();
        lemma_dup_all_reads(owned_vars(pattern_vars(pat), l3), body);
        let out = idr_arms(arms, k, ty, owned, lin, env).unwrap().0;
        assert forall|i: int| 0 <= i < k implies (#[trigger] out[i]).0 == arms[i].0
            && fv(out[i].1).to_set().subset_of(fv(arms[i].1).to_set()) by {
            if i < k - 1 {
                assert(out[i] == done[i]);
            }
        }
    }
}

/// The reference-counting pass on a function adds no read.
pub proof fn law_function_insert_drop_reuse_adds_no_read(body: BodyV, args: Seq<(String, (Type, Owned))>)
    requires
        idr_function(body, args) is Some,
    ensures
        fv(idr_function(body, args).unwrap()).to_set().subset_of(fv(body).to_set()),
{
    let used = uc_body(body, Seq::empty());
    law_insert_drop_reuse_adds_no_read(body, initial_counts(linear_names(used.1)), linear_arg_types(args, args.len()));
}

/// Whether no match occurs in a body of the linear language, closure bodies included.
pub open spec fn no_match(b: BodyV) -> bool
    decreases b, 0nat,
{
    match b {
        BodyV::Bind { value, cont, .. } => no_match(*cont) && no_match_compute(*value),
        BodyV::BindPattern { cont, .. } => no_match(*cont),
        BodyV::If { then_, else_, .. } => no_match(*then_) && no_match(*else_),
        BodyV::Match { .. } => false,
        BodyV::Move(_) => true,
        BodyV::Dup(_, e) => no_match(*e),
        BodyV::Drop(_, e) => no_match(*e),
        BodyV::DropReuse(_, _, e) => no_match(*e),
    }
}

pub open spec fn no_match_compute(c: ComputeV) -> bool
    decreases c, 0nat,
{
    match c {
        ComputeV::Closure { body, .. } => no_match(*body),
        _ => true,
    }
}

/// Whether every variable a body drops, or gives up for reuse, is not read by
/// what follows the drop; closure bodies included.
pub open spec fn drops_dead(b: BodyV) -> bool
    decreases b, 0nat,
{
    match b {
        BodyV::Bind { value, cont, .. } => drops_dead(*cont) && drops_dead_compute(*value),
        BodyV::BindPattern { cont, .. } => drops_dead(*cont),
        BodyV::If { then_, else_, .. } => drops_dead(*then_) && drops_dead(*else_),
        BodyV::Match { arms, .. } => arms_drops_dead(arms, arms.len()),
        BodyV::Move(_) => true,
        BodyV::Dup(_, e) => drops_dead(*e),
        BodyV::Drop(v, e) => !fv(*e).contains(v) && drops_dead(*e),
        BodyV::DropReuse(_, v, e) => !fv(*e).contains(v) && drops_dead(*e),
    }
}

pub open spec fn arms_drops_dead(arms: Seq<(PatternV, BodyV)>, k: nat) -> bool
    decreases arms, k + 1,
{
    if k == 0 || k > arms.len() {
        true
    } else {
        arms_drops_dead(arms, (k - 1) as nat) && drops_dead(arms[k - 1].1)
    }
}

pub open spec fn drops_dead_compute(c: ComputeV) -> bool
    decreases c, 0nat,
{
    match c {
        ComputeV::Closure { body, .. } => drops_dead(*body),
        _ => true,
    }
}

/// Whether every owned variable of `lin` is one of `s`.
pub open spec fn owns_within(lin: LinV, s: Set<NameV>) -> bool {
    forall|x: NameV| #[trigger] lookup(lin, x) is Some ==> s.contains(x)
}

/// Whether no arm of a match in `b` binds a name of `s`; closure bodies aside.
pub open spec fn match_fresh(b: BodyV, s: Set<NameV>) -> bool
    decreases b, 0nat,
{
    match b {
        BodyV::Bind { cont, .. } => match_fresh(*cont, s),
        BodyV::BindPattern { cont, .. } => match_fresh(*cont, s),
        BodyV::If { then_, else_, .. } => match_fresh(*then_, s) && match_fresh(*else_, s),
        BodyV::Match { arms, .. } => arms_fresh(arms, arms.len(), s),
        BodyV::Move(_) => true,
        BodyV::Dup(_, e) => match_fresh(*e, s),
        BodyV::Drop(_, e) => match_fresh(*e, s),
        BodyV::DropReuse(_, _, e) => match_fresh(*e, s),
    }
}

/// Whether an arm's pattern binds no name of `s` and its body is [`match_fresh`].
pub open spec fn arm_fresh(arm: (PatternV, BodyV), s: Set<NameV>) -> bool {
    &&& forall|x: NameV| #[trigger] pattern_vars(arm.0).contains(x) ==> !s.contains(x)
    &&& match_fresh(arm.1, s)
}

pub open spec fn arms_fresh(arms: Seq<(PatternV, BodyV)>, k: nat, s: Set<NameV>) -> bool
    decreases arms, k + 1,
{
    if k == 0 || k > arms.len() {
        true
    } else {
        arms_fresh(arms, (k - 1) as nat, s) && (forall|x: NameV|
            #[trigger] pattern_vars(arms[k - 1].0).contains(x) ==> !s.contains(x)) && match_fresh(arms[k - 1].1, s)
    }
}

/// The linear variables a closure body starts with: those its usage check finds.
pub open spec fn closure_owners(body: BodyV) -> Set<NameV> {
    linear_names(uc_body(body, Seq::empty()).1).to_set()
}

/// Whether the body of every closure in `b` is [`match_fresh`] for the linear
/// variables it starts with.
pub open spec fn closures_fresh(b: BodyV) -> bool
    decreases b, 0nat,
{
    match b {
        BodyV::Bind { value, cont, .. } => closures_fresh(*cont) && closure_fresh(*value),
        BodyV::BindPattern { cont, .. } => closures_fresh(*cont),
        BodyV::If { then_, else_, .. } => closures_fresh(*then_) && closures_fresh(*else_),
        BodyV::Match { arms, .. } => arms_closures_fresh(arms, arms.len()),
        BodyV::Move(_) => true,
        BodyV::Dup(_, e) => closures_fresh(*e),
        BodyV::Drop(_, e) => closures_fresh(*e),
        BodyV::DropReuse(_, _, e) => closures_fresh(*e),
    }
}

pub open spec fn arms_closures_fresh(arms: Seq<(PatternV, BodyV)>, k: nat) -> bool
    decreases arms, k + 1,
{
    if k == 0 || k > arms.len() {
        true
    } else {
        arms_closures_fresh(arms, (k - 1) as nat) && closures_fresh(arms[k - 1].1)
    }
}

pub open spec fn closure_fresh(c: ComputeV) -> bool
    decreases c, 0nat,
{
    match c {
        ComputeV::Closure { body, .. } => match_fresh(*body, closure_owners(*body)) && closures_fresh(*body),
        _ => true,
    }
}

pub proof fn lemma_arms_fresh_index(arms: Seq<(PatternV, BodyV)>, k: nat, s: Set<NameV>)
    requires
        k <= arms.len(),
    ensures
        arms_fresh(arms, k, s) <==> forall|i: int| 0 <= i < k ==> #[trigger] arm_fresh(arms[i], s),
    decreases k,
{
    if k > 0 {
        lemma_arms_fresh_index(arms, (k - 1) as nat, s);
        if arms_fresh(arms, k, s) {
            assert forall|i: int| 0 <= i < k implies #[trigger] arm_fresh(arms[i], s) by {}
        }
        if forall|i: int| 0 <= i < k ==> #[trigger] arm_fresh(arms[i], s) {
            assert(arm_fresh(arms[k - 1], s));
            assert forall|i: int| 0 <= i < k - 1 implies #[trigger] arm_fresh(arms[i], s) by {}
        }
    }
}

pub proof fn lemma_arms_drops_dead_index(arms: Seq<(PatternV, BodyV)>, k: nat)
    requires
        k <= arms.len(),
    ensures
        arms_drops_dead(arms, k) <==> forall|i: int| 0 <= i < k ==> drops_dead(#[trigger] arms[i].1),
    decreases k,
{
    if k > 0 {
        lemma_arms_drops_dead_index(arms, (k - 1) as nat);
        if forall|i: int| 0 <= i < k ==> drops_dead(#[trigger] arms[i].1) {
            assert(drops_dead(arms[k - 1].1));
        }
    }
}

pub proof fn lemma_arms_closures_fresh_index(arms: Seq<(PatternV, BodyV)>, k: nat)
    requires
        k <= arms.len(),
    ensures
        arms_closures_fresh(arms, k) <==> forall|i: int| 0 <= i < k ==> closures_fresh(#[trigger] arms[i].1),
    decreases k,
{
    if k > 0 {
        lemma_arms_closures_fresh_index(arms, (k - 1) as nat);
        if forall|i: int| 0 <= i < k ==> closures_fresh(#[trigger] arms[i].1) {
            assert(closures_fresh(arms[k - 1].1));
        }
    }
}

/// What an arm reads, but its pattern's variables, the match reads.
pub proof fn lemma_fv_arms_has(arms: Seq<(PatternV, BodyV)>, k: nat, i: int, x: NameV)
    requires
        0 <= i < k <= arms.len(),
        fv(arms[i].1).contains(x),
        !pattern_vars(arms[i].0).contains(x),
    ensures
        fv_arms(arms, k).contains(x),
    decreases k,
{
    let prev = fv_arms(arms, (k - 1) as nat);
    let d = difference(fv(arms[k - 1].1), pattern_vars(arms[k - 1].0));
    lemma_union(prev, d);
    if i < k - 1 {
        lemma_fv_arms_has(arms, (k - 1) as nat, i, x);
        assert(prev.to_set().contains(x));
    } else {
        lemma_difference(fv(arms[k - 1].1), pattern_vars(arms[k - 1].0));
        assert(fv(arms[i].1).to_set().contains(x));
        assert(!pattern_vars(arms[i].0).to_set().contains(x));
        assert(d.to_set().contains(x));
    }
    assert(union(prev, d).to_set().contains(x));
}

/// A name a match does not read, and that no arm's pattern binds, no arm reads.
pub proof fn lemma_match_unread_arms(b: BodyV, name: NameV, s: Set<NameV>)
    requires
        b is Match,
        !fv(b).contains(name),
        s.contains(name),
        arms_fresh(b->Match_arms, b->Match_arms.len(), s),
    ensures
        forall|i: int| 0 <= i < b->Match_arms.len() ==> !fv(#[trigger] b->Match_arms[i].1).contains(name),
{
    let arms = b->Match_arms;
    lemma_arms_fresh_index(arms, arms.len(), s);
    lemma_insert(fv_arms(arms, arms.len()), b->Match_value);
    assert forall|i: int| 0 <= i < arms.len() implies !fv(#[trigger] arms[i].1).contains(name) by {
        assert(arm_fresh(arms[i], s));
        if fv(arms[i].1).contains(name) {
            lemma_fv_arms_has(arms, arms.len(), i, name);
            assert(fv(b).to_set().contains(name));
        }
    }
}

pub proof fn lemma_unread_parts(b: BodyV, name: NameV)
    requires
        !fv(b).contains(name),
    ensures
        b is Bind ==> !fv(*b->Bind_cont).contains(name) && !fv_compute(*b->Bind_value).contains(name),
        b is BindPattern ==> !fv(*b->BindPattern_cont).contains(name),
        b is If ==> !fv(*b->If_then_).contains(name) && !fv(*b->If_else_).contains(name),
{
    match b {
        BodyV::Bind { value, cont, .. } => {
            lemma_union(fv(*cont), fv_compute(*value));
            if fv(*cont).contains(name) {
                assert(fv(*cont).to_set().contains(name));
                assert(fv(b).to_set().contains(name));
            }
            if fv_compute(*value).contains(name) {
                assert(fv_compute(*value).to_set().contains(name));
                assert(fv(b).to_set().contains(name));
            }
        },
        BodyV::BindPattern { value, cont, .. } => {
            lemma_insert(fv(*cont), value);
            if fv(*cont).contains(name) {
                assert(fv(*cont).to_set().contains(name));
                assert(fv(b).to_set().contains(name));
            }
        },
        BodyV::If { cond, then_, else_ } => {
            lemma_union(seq![cond], fv(*then_));
            lemma_union(union(seq![cond], fv(*then_)), fv(*else_));
            if fv(*then_).contains(name) {
                assert(fv(*then_).to_set().contains(name));
                assert(union(seq![cond], fv(*then_)).to_set().contains(name));
                assert(fv(b).to_set().contains(name));
            }
            if fv(*else_).contains(name) {
                assert(fv(*else_).to_set().contains(name));
                assert(fv(b).to_set().contains(name));
            }
        },
        _ => {},
    }
}

/// Rewriting for reuse around one of `s` that the body does not read keeps every
/// drop dead and every match arm clear of `s`.
pub proof fn lemma_rewrite_keeps_drops_dead(b: BodyV, name: NameV, ty: TypeV, s: Set<NameV>)
    requires
        rewrite(b, name, ty) is Some,
        match_fresh(b, s),
        drops_dead(b),
        !fv(b).contains(name),
        s.contains(name),
    ensures
        match_fresh(rewrite(b, name, ty).unwrap(), s),
        drops_dead(rewrite(b, name, ty).unwrap()),
    decreases b,
{
    lemma_unread_parts(b, name);
    match b {
        BodyV::Bind { value, cont, .. } => {
            if rewrite(*cont, name, ty) is Some {
                lemma_rewrite_keeps_drops_dead(*cont, name, ty, s);
            } else {
                let v = rewrite_compute(*value, name, ty).unwrap();
                assert(drops_dead_compute(v));
            }
        },
        BodyV::BindPattern { cont, .. } => {
            lemma_rewrite_keeps_drops_dead(*cont, name, ty, s);
        },
        BodyV::If { then_, else_, .. } => {
            if rewrite(*then_, name, ty) is Some {
                lemma_rewrite_keeps_drops_dead(*then_, name, ty, s);
            }
            if rewrite(*else_, name, ty) is Some {
                lemma_rewrite_keeps_drops_dead(*else_, name, ty, s);
            }
            assert(match_fresh(BodyV::Drop(name, then_), s) && drops_dead(BodyV::Drop(name, then_)));
            assert(match_fresh(BodyV::Drop(name, else_), s) && drops_dead(BodyV::Drop(name, else_)));
        },
        BodyV::Match { value, owned, arms } => {
            lemma_match_unread_arms(b, name, s);
            lemma_arms_fresh_index(arms, arms.len(), s);
            lemma_arms_drops_dead_index(arms, arms.len());
            lemma_rewrite_arms_index(arms, arms.len(), name, ty);
            let out = rewrite_arms(arms, arms.len(), name, ty);
            assert forall|i: int| 0 <= i < arms.len() implies #[trigger] arm_fresh(out[i], s) && drops_dead(out[i].1) by {
                assert(arm_fresh(arms[i], s));
                assert(drops_dead(arms[i].1));
                assert(!fv(arms[i].1).contains(name));
                assert(out[i] == rewritten_arm(arms[i], name, ty));
                assert(decreases_to!(b => arms));
                assert(decreases_to!(arms => arms[i]));
                assert(decreases_to!(arms[i] => arms[i].1));
                if rewrite(arms[i].1, name, ty) is Some {
                    lemma_rewrite_keeps_drops_dead(arms[i].1, name, ty, s);
                }
            }
            lemma_arms_fresh_index(out, arms.len(), s);
            lemma_arms_drops_dead_index(out, arms.len());
            assert forall|i: int| 0 <= i < arms.len() implies drops_dead(#[trigger] out[i].1) by {
                assert(arm_fresh(out[i], s) && drops_dead(out[i].1));
            }
        },
        BodyV::Move(_) => {},
        BodyV::Dup(_, e) => {
            lemma_rewrite_keeps_drops_dead(*e, name, ty, s);
        },
        BodyV::Drop(v, e) => {
            lemma_rewrite_keeps_drops_dead(*e, name, ty, s);
            law_rewrite_adds_no_read(*e, name, ty);
            let r = rewrite(*e, name, ty).unwrap();
            assert(!fv(r).contains(v)) by {
                if fv(r).contains(v) {
                    assert(fv(r).to_set().contains(v));
                    assert(fv(*e).to_set().contains(v));
                }
            }
        },
        BodyV::DropReuse(_, v, e) => {
            lemma_rewrite_keeps_drops_dead(*e, name, ty, s);
            law_rewrite_adds_no_read(*e, name, ty);
            let r = rewrite(*e, name, ty).unwrap();
            assert(!fv(r).contains(v)) by {
                if fv(r).contains(v) {
                    assert(fv(r).to_set().contains(v));
                    assert(fv(*e).to_set().contains(v));
                }
            }
        },
    }
}

pub proof fn lemma_release_all_keeps_drops_dead(b: BodyV, names: Seq<NameV>, k: nat, env: EnvV, s: Set<NameV>)
    requires
        release_all(b, names, k, env) is Some,
        match_fresh(b, s),
        drops_dead(b),
        forall|i: int| 0 <= i < k && i < names.len() ==> !fv(b).contains(#[trigger] names[i]) && s.contains(names[i]),
    ensures
        match_fresh(release_all(b, names, k, env).unwrap(), s),
        drops_dead(release_all(b, names, k, env).unwrap()),
    decreases k,
{
    if k > 0 && k <= names.len() {
        lemma_release_all_keeps_drops_dead(b, names, (k - 1) as nat, env, s);
        lemma_release_all_reads(b, names, (k - 1) as nat, env);
        let body = release_all(b, names, (k - 1) as nat, env).unwrap();
        let var = names[k - 1];
        let ty = lookup(env, var).unwrap();
        assert(!fv(b).contains(var) && s.contains(var));
        assert(!fv(body).contains(var)) by {
            if fv(body).contains(var) {
                assert(fv(body).to_set().contains(var));
                assert(fv(b).to_set().contains(var));
            }
        }
        if rewrite(body, var, ty) is Some {
            lemma_rewrite_keeps_drops_dead(body, var, ty, s);
            law_rewrite_adds_no_read(body, var, ty);
            let nb = rewrite(body, var, ty).unwrap();
            assert(!fv(nb).contains(var)) by {
                if fv(nb).contains(var) {
                    assert(fv(nb).to_set().contains(var));
                    assert(fv(body).to_set().contains(var));
                }
            }
        }
    }
}

pub proof fn lemma_dup_all_keeps_drops_dead(names: Seq<NameV>, b: BodyV, s: Set<NameV>)
    requires
        match_fresh(b, s),
        drops_dead(b),
    ensures
        match_fresh(dup_all(names, b), s),
        drops_dead(dup_all(names, b)),
    decreases names.len(),
{
    if names.len() > 0 {
        lemma_dup_all_keeps_drops_dead(names.drop_last(), b, s);
    }
}

/// The variables `dead_vars` gives are owned.
pub proof fn lemma_dead_vars_owned(lin: LinV, fvs: Seq<NameV>, v: NameV)
    requires
        dead_vars(lin, fvs).contains(v),
    ensures
        lookup(lin, v) is Some,
    decreases lin.len(),
{
    let r = dead_vars(lin.drop_last(), fvs);
    if lin.last().0 != v {
        if lin.last().1 == 1 && !fvs.contains(lin.last().0) {
            lemma_insert(r, lin.last().0);
            assert(insert(r, lin.last().0).to_set().contains(v));
            assert(r.to_set().contains(v));
        }
        lemma_dead_vars_owned(lin.drop_last(), fvs, v);
    }
}

pub proof fn lemma_remove_all_adds_no_owner(lin: LinV, names: Seq<NameV>, n: nat, k: NameV)
    ensures
        lookup(remove_all(lin, names, n), k) is Some ==> lookup(lin, k) is Some,
    decreases n,
{
    if n > 0 && n <= names.len() {
        lemma_remove_all_adds_no_owner(lin, names, (n - 1) as nat, k);
        lemma_lookup_remove_key(remove_all(lin, names, (n - 1) as nat), names[n - 1], k);
    }
}

/// The pass never adds an owned variable.
pub proof fn lemma_idr_adds_no_owner(b: BodyV, lin: LinV, env: EnvV, k: NameV)
    requires
        idr_body(b, lin, env) is Some,
    ensures
        lookup(idr_body(b, lin, env).unwrap().1, k) is Some ==> lookup(lin, k) is Some,
    decreases b, 1nat,
{
    let dead = dead_vars(lin, fv(b));
    let l0 = remove_all(lin, dead, dead.len());
    lemma_remove_all_adds_no_owner(lin, dead, dead.len(), k);
    lemma_pmr_adds_no_owner(b, l0, env, k);
}

pub proof fn lemma_pmr_adds_no_owner(b: BodyV, lin: LinV, env: EnvV, k: NameV)
    requires
        pmr(b, lin, env) is Some,
    ensures
        lookup(pmr(b, lin, env).unwrap().1, k) is Some ==> lookup(lin, k) is Some,
    decreases b, 0nat,
{
    match b {
        BodyV::Bind { var, ty, value, cont } => {
            law_compute_pass_shape(*value, lin, put(env, var, ty), k);
            let (v, l1, e1) = idr_compute(*value, lin, put(env, var, ty)).unwrap();
            lemma_idr_adds_no_owner(*cont, l1, e1, k);
        },
        BodyV::BindPattern { pat, owned, ty, value, cont } => {
            let env1 = if owned == Owned::Linear { extend(env, pattern_bindings(pat, ty)) } else { env };
            lemma_idr_adds_no_owner(*cont, lin, env1, k);
        },
        BodyV::If { then_, else_, .. } => {
            lemma_idr_adds_no_owner(*then_, lin, env, k);
            let (t, l1, e1) = idr_body(*then_, lin, env).unwrap();
            lemma_idr_adds_no_owner(*else_, l1, e1, k);
        },
        BodyV::Match { value, owned, arms } => {
            let ty = lookup(env, value).unwrap();
            lemma_idr_arms_adds_no_owner(arms, arms.len(), ty, owned, lin, env, k);
        },
        BodyV::Move(_) => {},
        BodyV::Dup(name, e) => {
            let l1 = bump(lin, name).unwrap();
            lemma_lookup_put(lin, name, (lookup(lin, name).unwrap() + 1) as usize, k);
            lemma_idr_adds_no_owner(*e, l1, env, k);
        },
        BodyV::Drop(name, e) => {
            let l1 = consume(lin, name).unwrap();
            lemma_consume_adds_no_owner(lin, name, k);
            lemma_idr_adds_no_owner(*e, l1, env, k);
        },
        BodyV::DropReuse(_, _, e) => {
            lemma_idr_adds_no_owner(*e, lin, env, k);
        },
    }
}

pub proof fn lemma_idr_arms_adds_no_owner(
    arms: Seq<(PatternV, BodyV)>,
    n: nat,
    ty: TypeV,
    owned: Owned,
    lin: LinV,
    env: EnvV,
    k: NameV,
)
    requires
        idr_arms(arms, n, ty, owned, lin, env) is Some,
    ensures
        lookup(idr_arms(arms, n, ty, owned, lin, env).unwrap().1, k) is Some ==> lookup(lin, k) is Some,
    decreases arms, n + 1,
{
    if n > 0 && n <= arms.len() {
        lemma_idr_arms_adds_no_owner(arms, (n - 1) as nat, ty, owned, lin, env, k);
        let (done, l1, e1) = idr_arms(arms, (n - 1) as nat, ty, owned, lin, env).unwrap();
        let pat = arms[n - 1].0;
        let e2 = if owned == Owned::Linear { extend(e1, pattern_bindings(pat, ty)) } else { e1 };
        lemma_idr_adds_no_owner(arms[n - 1].1, l1, e2, k);
    }
}

/// A count of one for each of `names` owns exactly the names.
pub proof fn lemma_initial_counts_owners(names: Seq<NameV>, x: NameV)
    ensures
        lookup(initial_counts(names), x) is Some ==> names.contains(x),
    decreases names.len(),
{
    if names.len() > 0 {
        let m = initial_counts(names);
        assert(m.drop_last() =~= initial_counts(names.drop_last()));
        lemma_initial_counts_owners(names.drop_last(), x);
        if lookup(m, x) is Some && m.last().0 != x {
            let i = choose|i: int| 0 <= i < names.drop_last().len() && names.drop_last()[i] == x;
            assert(names[i] == x);
        }
        if m.last().0 == x {
            assert(names[names.len() - 1] == x);
        }
    }
}

/// The reference-counting pass drops, or gives up for reuse, only variables that
/// are not read after: in the new body every drop is dead, provided the drops the
/// body already had were, and no arm of a match binds a name that may be owned
/// where the match stands (the owned variables are among `s`; a closure body
/// starts with the linear variables its usage check finds).
pub proof fn law_insert_drop_reuse_drops_dead(b: BodyV, lin: LinV, env: EnvV, s: Set<NameV>)
    requires
        idr_body(b, lin, env) is Some,
        owns_within(lin, s),
        match_fresh(b, s),
        closures_fresh(b),
        drops_dead(b),
    ensures
        match_fresh(idr_body(b, lin, env).unwrap().0, s),
        drops_dead(idr_body(b, lin, env).unwrap().0),
    decreases b, 1nat,
{
    let dead = dead_vars(lin, fv(b));
    let l0 = remove_all(lin, dead, dead.len());
    assert forall|x: NameV| #[trigger] lookup(l0, x) is Some implies s.contains(x) by {
        lemma_remove_all_adds_no_owner(lin, dead, dead.len(), x);
    }
    lemma_pmr_drops_dead(b, l0, env, s);
    lemma_pmr_reads(b, l0, env);
    let (body, l, e) = pmr(b, l0, env).unwrap();
    lemma_dead_vars_unread(lin, fv(b));
    assert forall|i: int| 0 <= i < dead.len() && i < dead.len() implies !fv(body).contains(#[trigger] dead[i]) && s.contains(
        dead[i],
    ) by {
        assert(dead.contains(dead[i]));
        lemma_dead_vars_owned(lin, fv(b), dead[i]);
        if fv(body).contains(dead[i]) {
            assert(fv(body).to_set().contains(dead[i]));
            assert(fv(b).to_set().contains(dead[i]));
        }
    }
    lemma_release_all_keeps_drops_dead(body, dead, dead.len(), e, s);
}

pub proof fn lemma_pmr_drops_dead(b: BodyV, lin: LinV, env: EnvV, s: Set<NameV>)
    requires
        pmr(b, lin, env) is Some,
        owns_within(lin, s),
        match_fresh(b, s),
        closures_fresh(b),
        drops_dead(b),
    ensures
        match_fresh(pmr(b, lin, env).unwrap().0, s),
        drops_dead(pmr(b, lin, env).unwrap().0),
    decreases b, 0nat,
{
    match b {
        BodyV::Bind { var, ty, value, cont } => {
            lemma_idr_compute_drops_dead(*value, lin, put(env, var, ty));
            let (v, l1, e1) = idr_compute(*value, lin, put(env, var, ty)).unwrap();
            assert forall|x: NameV| #[trigger] lookup(l1, x) is Some implies s.contains(x) by {
                law_compute_pass_shape(*value, lin, put(env, var, ty), x);
            }
            law_insert_drop_reuse_drops_dead(*cont, l1, e1, s);
        },
        BodyV::BindPattern { pat, owned, ty, value, cont } => {
            let env1 = if owned == Owned::Linear { extend(env, pattern_bindings(pat, ty)) } else { env };
            law_insert_drop_reuse_drops_dead(*cont, lin, env1, s);
            let (c, l2, _) = idr_body(*cont, lin, env1).unwrap();
            lemma_dup_all_keeps_drops_dead(owned_vars(pattern_vars(pat), l2), c, s);
        },
        BodyV::If { cond, then_, else_ } => {
            law_insert_drop_reuse_drops_dead(*then_, lin, env, s);
            let (t, l1, e1) = idr_body(*then_, lin, env).unwrap();
            assert forall|x: NameV| #[trigger] lookup(l1, x) is Some implies s.contains(x) by {
                lemma_idr_adds_no_owner(*then_, lin, env, x);
            }
            law_insert_drop_reuse_drops_dead(*else_, l1, e1, s);
        },
        BodyV::Match { value, owned, arms } => {
            let ty = lookup(env, value).unwrap();
            lemma_arms_fresh_index(arms, arms.len(), s);
            lemma_arms_drops_dead_index(arms, arms.len());
            lemma_arms_closures_fresh_index(arms, arms.len());
            lemma_idr_arms_drops_dead(arms, arms.len(), ty, owned, lin, env, s);
            let out = idr_arms(arms, arms.len(), ty, owned, lin, env).unwrap().0;
            lemma_arms_fresh_index(out, arms.len(), s);
            lemma_arms_drops_dead_index(out, arms.len());
            assert forall|i: int| 0 <= i < arms.len() implies #[trigger] arm_fresh(out[i], s) by {
                assert(arm_fresh(arms[i], s));
                assert(out[i].0 == arms[i].0);
            }
        },
        BodyV::Move(_) => {},
        BodyV::Dup(name, e) => {
            let l1 = bump(lin, name).unwrap();
            assert forall|x: NameV| #[trigger] lookup(l1, x) is Some implies s.contains(x) by {
                lemma_lookup_put(lin, name, (lookup(lin, name).unwrap() + 1) as usize, x);
            }
            law_insert_drop_reuse_drops_dead(*e, l1, env, s);
        },
        BodyV::Drop(name, e) => {
            let l1 = consume(lin, name).unwrap();
            assert forall|x: NameV| #[trigger] lookup(l1, x) is Some implies s.contains(x) by {
                lemma_consume_adds_no_owner(lin, name, x);
            }
            law_insert_drop_reuse_drops_dead(*e, l1, env, s);
            law_insert_drop_reuse_adds_no_read(*e, l1, env);
            let x = idr_body(*e, l1, env).unwrap().0;
            assert(!fv(x).contains(name)) by {
                if fv(x).contains(name) {
                    assert(fv(x).to_set().contains(name));
                    assert(fv(*e).to_set().contains(name));
                }
            }
        },
        BodyV::DropReuse(_, name, e) => {
            law_insert_drop_reuse_drops_dead(*e, lin, env, s);
            law_insert_drop_reuse_adds_no_read(*e, lin, env);
            let x = idr_body(*e, lin, env).unwrap().0;
            assert(!fv(x).contains(name)) by {
                if fv(x).contains(name) {
                    assert(fv(x).to_set().contains(name));
                    assert(fv(*e).to_set().contains(name));
                }
            }
        },
    }
}

pub proof fn lemma_idr_arms_drops_dead(
    arms: Seq<(PatternV, BodyV)>,
    k: nat,
    ty: TypeV,
    owned: Owned,
    lin: LinV,
    env: EnvV,
    s: Set<NameV>,
)
    requires
        idr_arms(arms, k, ty, owned, lin, env) is Some,
        k <= arms.len(),
        owns_within(lin, s),
        forall|i: int| 0 <= i < k ==> #[trigger] arm_fresh(arms[i], s),
        forall|i: int| 0 <= i < k ==> drops_dead(#[trigger] arms[i].1),
        forall|i: int| 0 <= i < k ==> closures_fresh(#[trigger] arms[i].1),
    ensures
        idr_arms(arms, k, ty, owned, lin, env).unwrap().0.len() == k,
        forall|i: int| 0 <= i < k ==> (#[trigger] idr_arms(arms, k, ty, owned, lin, env).unwrap().0[i]).0 == arms[i].0
            && match_fresh(idr_arms(arms, k, ty, owned, lin, env).unwrap().0[i].1, s)
            && drops_dead(idr_arms(arms, k, ty, owned, lin, env).unwrap().0[i].1),
    decreases arms, k + 1,
{
    if k > 0 {
        lemma_idr_arms_drops_dead(arms, (k - 1) as nat, ty, owned, lin, env, s);
        let (done, l1, e1) = idr_arms(arms, (k - 1) as nat, ty, owned, lin, env).unwrap();
        assert forall|x: NameV| #[trigger] lookup(l1, x) is Some implies s.contains(x) by {
            lemma_idr_arms_adds_no_owner(arms, (k - 1) as nat, ty, owned, lin, env, x);
        }
        let pat = arms[k - 1].0;
        let e2 = if owned == Owned::Linear { extend(e1, pattern_bindings(pat, ty)) } else { e1 };
        assert(arm_fresh(arms[k - 1], s));
        assert(drops_dead(arms[k - 1].1));
        assert(closures_fresh(arms[k - 1].1));
        law_insert_drop_reuse_drops_dead(arms[k - 1].1, l1, e2, s);
        let (body, l3, _) = idr_body(arms[k - 1].1, l1, e2).unwrap();
        lemma_dup_all_keeps_drops_dead(owned_vars(pattern_vars(pat), l3), body, s);
        let out = idr_arms(arms, k, ty, owned, lin, env).unwrap().0;
        assert forall|i: int| 0 <= i < k implies (#[trigger] out[i]).0 == arms[i].0 && match_fresh(out[i].1, s)
            && drops_dead(out[i].1) by {
            if i < k - 1 {
                assert(out[i] == done[i]);
            }
        }
    }
}

pub proof fn lemma_idr_compute_drops_dead(c: ComputeV, lin: LinV, env: EnvV)
    requires
        idr_compute(c, lin, env) is Some,
        closure_fresh(c),
        drops_dead_compute(c),
    ensures
        drops_dead_compute(idr_compute(c, lin, env).unwrap().0),
    decreases c, 2nat,
{
    match c {
        ComputeV::Closure { fun_type, free_vars, params, body } => {
            let e0 = captured_types(env, free_vars, free_vars.len()).unwrap();
            let e1 = param_types(e0, params, fun_params(fun_type), params.len()).unwrap();
            let used = uc_body(*body, Seq::empty());
            let names = linear_names(used.1);
            assert forall|x: NameV| #[trigger] lookup(initial_counts(names), x) is Some implies closure_owners(
                *body,
            ).contains(x) by {
                lemma_initial_counts_owners(names, x);
            }
            law_insert_drop_reuse_drops_dead(*body, initial_counts(names), e1, closure_owners(*body));
        },
        _ => {},
    }
}

/// Whether no arm of a match in a function's body binds one of the body's linear
/// variables, the same holding of every closure body; see [`match_fresh`].
pub open spec fn function_fresh(body: BodyV) -> bool {
    match_fresh(body, closure_owners(body)) && closures_fresh(body)
}

/// On a function whose matches bind none of its linear variables (see
/// [`function_fresh`]), the reference-counting pass drops, or gives up for reuse,
/// only variables that are not read after, provided the drops the body already
/// had were.
pub proof fn law_function_insert_drop_reuse_drops_dead(body: BodyV, args: Seq<(String, (Type, Owned))>)
    requires
        idr_function(body, args) is Some,
        function_fresh(body),
        drops_dead(body),
    ensures
        drops_dead(idr_function(body, args).unwrap()),
{
    let used = uc_body(body, Seq::empty());
    let names = linear_names(used.1);
    assert forall|x: NameV| #[trigger] lookup(initial_counts(names), x) is Some implies closure_owners(body).contains(x) by {
        lemma_initial_counts_owners(names, x);
    }
    law_insert_drop_reuse_drops_dead(body, initial_counts(names), linear_arg_types(args, args.len()), closure_owners(body));
}

/// A body without matches has no arm that binds anything.
pub proof fn lemma_no_match_fresh(b: BodyV, s: Set<NameV>)
    requires
        no_match(b),
    ensures
        match_fresh(b, s),
        closures_fresh(b),
    decreases b, 0nat,
{
    match b {
        BodyV::Bind { value, cont, .. } => {
            lemma_no_match_fresh(*cont, s);
            assert(no_match_compute(*value));
            match *value {
                ComputeV::Closure { body, .. } => {
                    assert(no_match(*body));
                    lemma_no_match_fresh(*body, closure_owners(*body));
                    assert(closure_fresh(*value));
                },
                _ => {
                    assert(closure_fresh(*value));
                },
            }
        },
        BodyV::BindPattern { cont, .. } => lemma_no_match_fresh(*cont, s),
        BodyV::If { then_, else_, .. } => {
            lemma_no_match_fresh(*then_, s);
            lemma_no_match_fresh(*else_, s);
        },
        BodyV::Match { .. } => {},
        BodyV::Move(_) => {},
        BodyV::Dup(_, e) => lemma_no_match_fresh(*e, s),
        BodyV::Drop(_, e) => lemma_no_match_fresh(*e, s),
        BodyV::DropReuse(_, _, e) => lemma_no_match_fresh(*e, s),
    }
}

/// A closure with its body processed on its own: with a count of one for each
/// linear variable its usage check finds, and the types of its captured variables
/// and of its linear parameters.
pub open spec fn closure_pass(c: ComputeV, env: EnvV) -> ComputeV {
    let scope = param_types(
        captured_types(env, c->free_vars, c->free_vars.len()).unwrap(),
        c->params,
        fun_params(c->fun_type),
        c->params.len(),
    ).unwrap();
    let counts = initial_counts(linear_names(uc_body(*c->body, Seq::empty()).1));
    ComputeV::Closure {
        fun_type: c->fun_type,
        free_vars: c->free_vars,
        params: c->params,
        body: Box::new(idr_body(*c->body, counts, scope).unwrap().0),
    }
}

/// The names of the first `k` arguments that are passed linearly, in order.
pub open spec fn linear_args(args: Seq<(NameV, Owned)>, k: nat) -> Seq<NameV>
    decreases k,
{
    if k == 0 || k > args.len() {
        Seq::empty()
    } else if args[k - 1].1 == Owned::Linear {
        linear_args(args, (k - 1) as nat).push(args[k - 1].0)
    } else {
        linear_args(args, (k - 1) as nat)
    }
}

/// The names a computation consumes: an invocation's arguments passed linearly,
/// a constructor's fields, or a closure's captured variables.
pub open spec fn taken_names(c: ComputeV) -> Seq<NameV> {
    match c {
        ComputeV::Invoke(_, args) => linear_args(args, args.len()),
        ComputeV::Constructor(_, _, _, args) => args,
        ComputeV::Closure { free_vars, .. } => free_vars,
    }
}

/// A consuming use only keeps or removes owned variables, it adds none.
pub proof fn lemma_consume_adds_no_owner(lin: LinV, name: NameV, k: NameV)
    requires
        consume(lin, name) is Some,
    ensures
        lookup(consume(lin, name).unwrap(), k) is Some ==> lookup(lin, k) is Some,
{
    let c = lookup(lin, name).unwrap();
    if c != 1 {
        lemma_lookup_put(lin, name, (c + 1) as usize, k);
    } else {
        lemma_lookup_remove_key(lin, name, k);
    }
}

pub proof fn lemma_consume_all_adds_no_owner(lin: LinV, names: Seq<NameV>, n: nat, k: NameV)
    requires
        consume_all(lin, names, n) is Some,
    ensures
        lookup(consume_all(lin, names, n).unwrap(), k) is Some ==> lookup(lin, k) is Some,
    decreases n,
{
    if n > 0 && n <= names.len() {
        lemma_consume_all_adds_no_owner(lin, names, (n - 1) as nat, k);
        lemma_consume_adds_no_owner(consume_all(lin, names, (n - 1) as nat).unwrap(), names[n - 1], k);
    }
}

pub proof fn lemma_consume_args_adds_no_owner(lin: LinV, args: Seq<(NameV, Owned)>, n: nat, k: NameV)
    requires
        consume_args(lin, args, n) is Some,
    ensures
        lookup(consume_args(lin, args, n).unwrap(), k) is Some ==> lookup(lin, k) is Some,
    decreases n,
{
    if n > 0 && n <= args.len() {
        lemma_consume_args_adds_no_owner(lin, args, (n - 1) as nat, k);
        if args[n - 1].1 == Owned::Linear {
            lemma_consume_adds_no_owner(consume_args(lin, args, (n - 1) as nat).unwrap(), args[n - 1].0, k);
        }
    }
}

/// The pass on a computation keeps the types of reusable memory as they are, adds
/// no owned variable, leaves an invocation and a constructor as they are, and
/// processes a closure's body on its own: with a count of one for each linear
/// variable its usage check finds, and the types of its captured variables and
/// of its linear parameters.
pub proof fn law_compute_pass_shape(c: ComputeV, lin: LinV, env: EnvV, k: NameV)
    requires
        idr_compute(c, lin, env) is Some,
    ensures
        idr_compute(c, lin, env).unwrap().2 == env,
        lookup(idr_compute(c, lin, env).unwrap().1, k) is Some ==> lookup(lin, k) is Some,
        !(c is Closure) ==> idr_compute(c, lin, env).unwrap().0 == c,
        c is Closure ==> idr_compute(c, lin, env).unwrap().0 == closure_pass(c, env),
{
    match c {
        ComputeV::Closure { free_vars, .. } => {
            lemma_consume_all_adds_no_owner(lin, free_vars, free_vars.len(), k);
        },
        ComputeV::Invoke(f, args) => {
            let l0 = use_callee(lin, f);
            lemma_consume_args_adds_no_owner(l0, args, args.len(), k);
            if lookup(lin, f) == Some(1usize) {
                lemma_lookup_put(lin, f, 2usize, k);
            } else {
                lemma_lookup_remove_key(lin, f, k);
            }
        },
        ComputeV::Constructor(_, _, _, args) => {
            lemma_consume_all_adds_no_owner(lin, args, args.len(), k);
        },
    }
}

/// The count a consuming use leaves: a count of one removes the variable, any
/// other count is raised by one.
pub open spec fn consumed_count(c: Option<usize>) -> Option<usize> {
    match c {
        Some(n) => if n == 1 { None } else { Some((n + 1) as usize) },
        None => None,
    }
}

/// Consuming distinct names in turn: each consumed name's count is that of one
/// consuming use, every other name keeps its count.
pub proof fn lemma_consume_all_effect(lin: LinV, names: Seq<NameV>, n: nat, v: NameV)
    requires
        consume_all(lin, names, n) is Some,
        n <= names.len(),
        names.no_duplicates(),
    ensures
        names.take(n as int).contains(v) ==> lookup(consume_all(lin, names, n).unwrap(), v) == consumed_count(lookup(lin, v)),
        !names.take(n as int).contains(v) ==> lookup(consume_all(lin, names, n).unwrap(), v) == lookup(lin, v),
    decreases n,
{
    if n > 0 {
        lemma_consume_all_effect(lin, names, (n - 1) as nat, v);
        let l1 = consume_all(lin, names, (n - 1) as nat).unwrap();
        let x = names[n - 1];
        assert(names.take(n as int) =~= names.take(n - 1).push(x));
        lemma_push_contains(names.take(n - 1), x, v);
        let c = lookup(l1, x).unwrap();
        if c != 1 {
            lemma_lookup_put(l1, x, (c + 1) as usize, v);
        } else {
            lemma_lookup_remove_key(l1, x, v);
        }
        if v == x {
            assert(!names.take(n - 1).contains(x)) by {
                if names.take(n - 1).contains(x) {
                    let i = choose|i: int| 0 <= i < n - 1 && #[trigger] names.take(n - 1)[i] == x;
                    assert(names[i] == names[n - 1]);
                }
            }
        }
    } else {
        assert(names.take(0) =~= Seq::<NameV>::empty());
    }
}

/// Consuming the distinct arguments passed linearly, in turn: each one's count is
/// that of one consuming use, every other name keeps its count.
pub proof fn lemma_consume_args_effect(lin: LinV, args: Seq<(NameV, Owned)>, n: nat, v: NameV)
    requires
        consume_args(lin, args, n) is Some,
        n <= args.len(),
        linear_args(args, n).no_duplicates(),
    ensures
        linear_args(args, n).contains(v) ==> lookup(consume_args(lin, args, n).unwrap(), v) == consumed_count(lookup(lin, v)),
        !linear_args(args, n).contains(v) ==> lookup(consume_args(lin, args, n).unwrap(), v) == lookup(lin, v),
    decreases n,
{
    if n > 0 {
        let prev = linear_args(args, (n - 1) as nat);
        let x = args[n - 1].0;
        if args[n - 1].1 == Owned::Linear {
            assert(prev.no_duplicates()) by {
                assert forall|i: int, j: int| 0 <= i < prev.len() && 0 <= j < prev.len() && i != j implies prev[i] != prev[j] by {
                    assert(prev[i] == linear_args(args, n)[i] && prev[j] == linear_args(args, n)[j]);
                }
            }
        }
        lemma_consume_args_effect(lin, args, (n - 1) as nat, v);
        if args[n - 1].1 == Owned::Linear {
            let l1 = consume_args(lin, args, (n - 1) as nat).unwrap();
            lemma_push_contains(prev, x, v);
            let c = lookup(l1, x).unwrap();
            if c != 1 {
                lemma_lookup_put(l1, x, (c + 1) as usize, v);
            } else {
                lemma_lookup_remove_key(l1, x, v);
            }
            if v == x {
                assert(!prev.contains(x)) by {
                    if prev.contains(x) {
                        let i = choose|i: int| 0 <= i < prev.len() && prev[i] == x;
                        assert(linear_args(args, n)[i] == linear_args(args, n)[prev.len() as int]);
                    }
                }
            }
        }
    }
}

/// The pass on a computation consumes each name it takes (see [`taken_names`]),
/// when they are distinct and, for an invocation, the invoked name is not owned:
/// a count of one removes the name, another count is raised by one, and every
/// other owned variable keeps its count.
pub proof fn law_compute_pass_consumes(c: ComputeV, lin: LinV, env: EnvV, v: NameV)
    requires
        idr_compute(c, lin, env) is Some,
        taken_names(c).no_duplicates(),
        c is Invoke ==> lookup(lin, c->Invoke_0) is None,
    ensures
        taken_names(c).contains(v) ==> lookup(idr_compute(c, lin, env).unwrap().1, v) == consumed_count(lookup(lin, v)),
        !taken_names(c).contains(v) ==> lookup(idr_compute(c, lin, env).unwrap().1, v) == lookup(lin, v),
{
    match c {
        ComputeV::Constructor(_, _, _, args) => {
            lemma_consume_all_effect(lin, args, args.len(), v);
            assert(args.take(args.len() as int) =~= args);
        },
        ComputeV::Closure { free_vars, .. } => {
            lemma_consume_all_effect(lin, free_vars, free_vars.len(), v);
            assert(free_vars.take(free_vars.len() as int) =~= free_vars);
        },
        ComputeV::Invoke(f, args) => {
            let l0 = use_callee(lin, f);
            lemma_lookup_remove_key(lin, f, v);
            lemma_lookup_remove_key(lin, f, f);
            assert(lookup(l0, v) == lookup(lin, v));
            lemma_consume_args_effect(l0, args, args.len(), v);
        },
    }
}

/// A returned variable is left as it is, with the state; a duplication raises the
/// count of its variable before its continuation is processed.
pub proof fn law_parts_pass_move_and_dup(b: BodyV, lin: LinV, env: EnvV)
    ensures
        b is Move ==> pmr(b, lin, env) == Some((b, lin, env)),
        b is Dup ==> pmr(b, lin, env) == match bump(lin, b->Dup_0) {
            None => None,
            Some(l1) => match idr_body(*b->Dup_1, l1, env) {
                None => None,
                Some((x, l2, e2)) => Some((BodyV::Dup(b->Dup_0, Box::new(x)), l2, e2)),
            },
        },
        b is Dup && lookup(lin, b->Dup_0) is Some && lookup(lin, b->Dup_0).unwrap() + 1 <= usize::MAX
            ==> bump(lin, b->Dup_0) == Some(put(lin, b->Dup_0, (lookup(lin, b->Dup_0).unwrap() + 1) as usize)),
{
}


/// The names of `vars` that are still owned are exactly those of `vars` that `lin`
/// owns.
pub proof fn lemma_owned_vars(vars: Seq<NameV>, lin: LinV, x: NameV)
    ensures
        owned_vars(vars, lin).contains(x) <==> vars.contains(x) && lookup(lin, x) is Some,
    decreases vars.len(),
{
    if vars.len() > 0 {
        lemma_owned_vars(vars.drop_last(), lin, x);
        let r = owned_vars(vars.drop_last(), lin);
        lemma_push_contains(r, vars.last(), x);
        lemma_push_contains(vars.drop_last(), vars.last(), x);
        assert(vars.drop_last().push(vars.last()) =~= vars);
    }
}


/// The names of the `n` outermost layers of `b`, when each is a drop or a drop
/// for reuse.
pub open spec fn released_names(b: BodyV, n: nat) -> Option<Seq<NameV>>
    decreases n,
{
    if n == 0 {
        Some(Seq::empty())
    } else {
        match b {
            BodyV::Drop(v, e) => match released_names(*e, (n - 1) as nat) {
                Some(s) => Some(seq![v] + s),
                None => None,
            },
            BodyV::DropReuse(_, v, e) => match released_names(*e, (n - 1) as nat) {
                Some(s) => Some(seq![v] + s),
                None => None,
            },
            _ => None,
        }
    }
}

/// The first `k` of `names`, the last one first.
pub open spec fn latest_first(names: Seq<NameV>, k: nat) -> Seq<NameV>
    decreases k,
{
    if k == 0 || k > names.len() {
        Seq::empty()
    } else {
        seq![names[k - 1]] + latest_first(names, (k - 1) as nat)
    }
}

/// Rewriting for reuse keeps the outer layers of drops as they are.
pub proof fn lemma_rewrite_keeps_released(b: BodyV, name: NameV, ty: TypeV, n: nat)
    requires
        rewrite(b, name, ty) is Some,
        released_names(b, n) is Some,
    ensures
        released_names(rewrite(b, name, ty).unwrap(), n) == released_names(b, n),
    decreases n,
{
    if n > 0 {
        match b {
            BodyV::Drop(_, e) => lemma_rewrite_keeps_released(*e, name, ty, (n - 1) as nat),
            BodyV::DropReuse(_, _, e) => lemma_rewrite_keeps_released(*e, name, ty, (n - 1) as nat),
            _ => {},
        }
    }
}

/// Releasing the first `k` of `names` wraps the body in exactly one drop, or drop
/// for reuse, of each, the first one innermost.
pub proof fn law_release_all_layers(b: BodyV, names: Seq<NameV>, k: nat, env: EnvV)
    requires
        release_all(b, names, k, env) is Some,
        k <= names.len(),
    ensures
        released_names(release_all(b, names, k, env).unwrap(), k) == Some(latest_first(names, k)),
    decreases k,
{
    if k > 0 {
        law_release_all_layers(b, names, (k - 1) as nat, env);
        let body = release_all(b, names, (k - 1) as nat, env).unwrap();
        let var = names[k - 1];
        let ty = lookup(env, var).unwrap();
        if rewrite(body, var, ty) is Some {
            lemma_rewrite_keeps_released(body, var, ty, (k - 1) as nat);
        }
    }
}

/// The owned variables released before a body are distinct.
pub proof fn lemma_dead_vars_distinct(lin: LinV, fvs: Seq<NameV>)
    ensures
        dead_vars(lin, fvs).no_duplicates(),
    decreases lin.len(),
{
    if lin.len() > 0 {
        lemma_dead_vars_distinct(lin.drop_last(), fvs);
        lemma_insert(dead_vars(lin.drop_last(), fvs), lin.last().0);
    }
}

/// The pass on a body: the body's parts are processed (see [`pmr`]) after the
/// owned variables with a count of one that it does not read are taken out of the
/// counts; those variables are distinct, and the new body is wrapped in exactly
/// one drop, or drop for reuse, of each.
pub proof fn law_insert_drop_reuse_releases_dead(b: BodyV, lin: LinV, env: EnvV)
    requires
        idr_body(b, lin, env) is Some,
    ensures
        ({
            let dead = dead_vars(lin, fv(b));
            let (c, l, e) = pmr(b, remove_all(lin, dead, dead.len()), env).unwrap();
            &&& dead.no_duplicates()
            &&& forall|v: NameV| #[trigger] dead.contains(v) ==> lookup(lin, v) is Some && !fv(b).contains(v)
            &&& forall|v: NameV| #[trigger] lookup(lin, v) == Some(1usize) && !fv(b).contains(v) ==> dead.contains(v)
            &&& idr_body(b, lin, env).unwrap().1 == l
            &&& idr_body(b, lin, env).unwrap().2 == e
            &&& released_names(idr_body(b, lin, env).unwrap().0, dead.len()) == Some(latest_first(dead, dead.len()))
        }),
{
    let dead = dead_vars(lin, fv(b));
    let (c, l, e) = pmr(b, remove_all(lin, dead, dead.len()), env).unwrap();
    lemma_dead_vars_distinct(lin, fv(b));
    assert forall|v: NameV| #[trigger] dead.contains(v) implies lookup(lin, v) is Some && !fv(b).contains(v) by {
        lemma_dead_vars_members(lin, fv(b), v);
    }
    assert forall|v: NameV| #[trigger] lookup(lin, v) == Some(1usize) && !fv(b).contains(v) implies dead.contains(v) by {
        lemma_dead_vars_members(lin, fv(b), v);
    }
    law_release_all_layers(c, dead, dead.len(), e);
}

pub proof fn lemma_dead_vars_members(lin: LinV, fvs: Seq<NameV>, v: NameV)
    ensures
        dead_vars(lin, fvs).contains(v) ==> lookup(lin, v) is Some && !fvs.contains(v),
        lookup(lin, v) == Some(1usize) && !fvs.contains(v) ==> dead_vars(lin, fvs).contains(v),
    decreases lin.len(),
{
    if lin.len() > 0 {
        lemma_dead_vars_members(lin.drop_last(), fvs, v);
        let r = dead_vars(lin.drop_last(), fvs);
        lemma_insert(r, lin.last().0);
        assert(insert(r, lin.last().0).contains(v) <==> insert(r, lin.last().0).to_set().contains(v));
        assert(r.contains(v) <==> r.to_set().contains(v));
    }
}

} // verus!
