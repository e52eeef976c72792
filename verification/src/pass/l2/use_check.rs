//! The usage check: which variables are consumed and which only borrowed.
use vstd::prelude::*;

use crate::ir::common::{pattern_vars, PatternV};
use crate::ir::l2_ir::{arms_view, Bind, BindPattern, Body, BodyV, Compute, ComputeV, Function, If, Match};
use crate::names::{
    assoc_get, assoc_put, keys, lemma_lookup_put, lemma_push_contains, lemma_push_no_duplicates, lemma_remove_key_keys,
    lookup, names_view, pairs_view, put, remove_key, NameV,
};
use crate::types::Owned;

verus! {

/// The model of a usage record: for each variable, how it was last recorded as used.
pub type UsedV = Seq<(NameV, Option<Owned>)>;

/// Records, for each variable, whether it is consumed (linear) or only borrowed.
#[derive(Debug)]
pub struct Used(Vec<(String, Option<Owned>)>);

impl View for Used {
    type V = UsedV;

    closed spec fn view(&self) -> UsedV {
        pairs_view(self.0@)
    }
}

/// Records a use of `name` with ownership `owned`: the record of `name` becomes
/// `Some(owned)`, except that a borrow of a variable already recorded as consumed
/// leaves the record as it is.  The first component names a refused use; no use
/// is refused.
pub open spec fn record(u: UsedV, name: NameV, owned: Owned) -> (Option<NameV>, UsedV) {
    if owned == Owned::Borrow && lookup(u, name) == Some(Some(Owned::Linear)) {
        (None, u)
    } else {
        (None, put(u, name, Some(owned)))
    }
}

/// Records the first `k` uses of `uses` in order, stopping at the first refusal.
pub open spec fn record_all(u: UsedV, uses: Seq<(NameV, Owned)>, k: nat) -> (Option<NameV>, UsedV)
    decreases k,
{
    if k == 0 || k > uses.len() {
        (None, u)
    } else {
        let (e, u1) = record_all(u, uses, (k - 1) as nat);
        if e is Some {
            (e, u1)
        } else {
            record(u1, uses[k - 1].0, uses[k - 1].1)
        }
    }
}

/// Once a use is refused, the later uses are not recorded.
pub proof fn lemma_record_all_stops(u: UsedV, uses: Seq<(NameV, Owned)>, k: nat, n: nat)
    requires
        record_all(u, uses, k).0 is Some,
        k <= n <= uses.len(),
    ensures
        record_all(u, uses, n) == record_all(u, uses, k),
    decreases n,
{
    if n > k {
        lemma_record_all_stops(u, uses, k, (n - 1) as nat);
    }
}

/// A recorded use can be read back: after a use of `name`, `name` is recorded
/// with the ownership of that use, or stays recorded as consumed when it was;
/// every other variable is recorded as before.
pub proof fn law_record_read_back(u: UsedV, name: NameV, owned: Owned, other: NameV)
    ensures
        lookup(record(u, name, owned).1, name) == Some(Some(
            if lookup(u, name) == Some(Some(Owned::Linear)) { Owned::Linear } else { owned },
        )),
        other != name ==> lookup(record(u, name, owned).1, other) == lookup(u, other),
{
    lemma_lookup_put(u, name, Some(owned), name);
    lemma_lookup_put(u, name, Some(owned), other);
}

/// No use is refused, and borrowing a variable recorded as consumed changes nothing.
pub proof fn law_record_never_refuses(u: UsedV, name: NameV, owned: Owned)
    ensures
        record(u, name, owned).0 is None,
        owned == Owned::Borrow && lookup(u, name) == Some(Some(Owned::Linear)) ==> record(u, name, owned).1 == u,
{
}

/// Once recorded as consumed, a variable stays recorded as consumed, whatever use
/// is recorded next.
pub proof fn law_consumed_stays_consumed(u: UsedV, name: NameV, owned: Owned, v: NameV)
    requires
        lookup(u, v) == Some(Some(Owned::Linear)),
    ensures
        lookup(record(u, name, owned).1, v) == Some(Some(Owned::Linear)),
{
    lemma_lookup_put(u, name, Some(owned), v);
}

/// Recording a use never records a variable twice.
pub proof fn law_record_keeps_names_distinct(u: UsedV, name: NameV, owned: Owned)
    requires
        keys(u).no_duplicates(),
    ensures
        keys(record(u, name, owned).1).no_duplicates(),
{
    if record(u, name, owned).1 != u {
        lemma_remove_key_keys(u, name);
        let r = remove_key(u, name);
        assert(keys(put(u, name, Some(owned))) =~= keys(r).push(name));
        lemma_push_no_duplicates(keys(r), name);
    }
}

/// Recording uses in turn never refuses one.
pub proof fn lemma_record_all_accepts(u: UsedV, uses: Seq<(NameV, Owned)>, k: nat)
    ensures
        record_all(u, uses, k).0 is None,
    decreases k,
{
    if k > 0 && k <= uses.len() {
        lemma_record_all_accepts(u, uses, (k - 1) as nat);
    }
}

/// The usage check of a body never fails.
pub proof fn law_use_check_accepts(b: BodyV, u: UsedV)
    ensures
        uc_body(b, u).0 is None,
    decreases b, 0nat,
{
    match b {
        BodyV::Variable(_) => {},
        BodyV::Bind { var, value, cont, .. } => {
            law_use_check_accepts(*cont, u);
            let r2 = record(uc_body(*cont, u).1, var, Owned::Linear);
            lemma_uc_compute_accepts(*value, r2.1);
        },
        BodyV::BindPattern { cont, .. } => {
            law_use_check_accepts(*cont, u);
        },
        BodyV::If { cond, then_, else_ } => {
            let r1 = record(u, cond, Owned::Borrow);
            law_use_check_accepts(*then_, r1.1);
            law_use_check_accepts(*else_, uc_body(*then_, r1.1).1);
        },
        BodyV::Match { value, arms } => {
            lemma_uc_arms_accepts(arms, 0, value, u);
        },
    }
}

pub proof fn lemma_uc_arms_accepts(arms: Seq<(PatternV, BodyV)>, i: int, value: NameV, u: UsedV)
    ensures
        uc_arms(arms, i, value, u).0 is None,
    decreases arms, arms.len() - i + 1,
{
    if 0 <= i < arms.len() {
        law_use_check_accepts(arms[i].1, u);
        lemma_uc_arms_accepts(arms, i + 1, value, uc_body(arms[i].1, u).1);
    }
}

pub proof fn lemma_uc_compute_accepts(c: ComputeV, u: UsedV)
    ensures
        uc_compute(c, u).0 is None,
{
    match c {
        ComputeV::Invoke(_, args) => lemma_record_all_accepts(u, args, args.len()),
        ComputeV::Closure { free_vars, .. } => lemma_record_all_accepts(u, all_linear(free_vars), free_vars.len()),
        ComputeV::Constructor(_, _, params) => lemma_record_all_accepts(u, all_linear(params), params.len()),
    }
}

/// Recording uses in turn keeps a consumed variable consumed.
pub proof fn lemma_record_all_keeps_consumed(u: UsedV, uses: Seq<(NameV, Owned)>, k: nat, v: NameV)
    requires
        lookup(u, v) == Some(Some(Owned::Linear)),
    ensures
        lookup(record_all(u, uses, k).1, v) == Some(Some(Owned::Linear)),
    decreases k,
{
    if k > 0 && k <= uses.len() {
        lemma_record_all_keeps_consumed(u, uses, (k - 1) as nat, v);
        lemma_record_all_accepts(u, uses, (k - 1) as nat);
        let u1 = record_all(u, uses, (k - 1) as nat).1;
        law_consumed_stays_consumed(u1, uses[k - 1].0, uses[k - 1].1, v);
    }
}

/// Recording uses in turn never records a variable twice.
pub proof fn lemma_record_all_keeps_names_distinct(u: UsedV, uses: Seq<(NameV, Owned)>, k: nat)
    requires
        keys(u).no_duplicates(),
    ensures
        keys(record_all(u, uses, k).1).no_duplicates(),
    decreases k,
{
    if k > 0 && k <= uses.len() {
        lemma_record_all_keeps_names_distinct(u, uses, (k - 1) as nat);
        lemma_record_all_accepts(u, uses, (k - 1) as nat);
        law_record_keeps_names_distinct(record_all(u, uses, (k - 1) as nat).1, uses[k - 1].0, uses[k - 1].1);
    }
}

pub proof fn lemma_uc_compute_keeps(c: ComputeV, u: UsedV, v: NameV)
    ensures
        lookup(u, v) == Some(Some(Owned::Linear)) ==> lookup(uc_compute(c, u).1, v) == Some(Some(Owned::Linear)),
        keys(u).no_duplicates() ==> keys(uc_compute(c, u).1).no_duplicates(),
{
    match c {
        ComputeV::Invoke(_, args) => {
            if lookup(u, v) == Some(Some(Owned::Linear)) {
                lemma_record_all_keeps_consumed(u, args, args.len(), v);
            }
            if keys(u).no_duplicates() {
                lemma_record_all_keeps_names_distinct(u, args, args.len());
            }
        },
        ComputeV::Closure { free_vars, .. } => {
            if lookup(u, v) == Some(Some(Owned::Linear)) {
                lemma_record_all_keeps_consumed(u, all_linear(free_vars), free_vars.len(), v);
            }
            if keys(u).no_duplicates() {
                lemma_record_all_keeps_names_distinct(u, all_linear(free_vars), free_vars.len());
            }
        },
        ComputeV::Constructor(_, _, params) => {
            if lookup(u, v) == Some(Some(Owned::Linear)) {
                lemma_record_all_keeps_consumed(u, all_linear(params), params.len(), v);
            }
            if keys(u).no_duplicates() {
                lemma_record_all_keeps_names_distinct(u, all_linear(params), params.len());
            }
        },
    }
}

/// The usage check keeps a consumed variable consumed, and never records a
/// variable twice.
pub proof fn lemma_uc_keeps(b: BodyV, u: UsedV, v: NameV)
    ensures
        lookup(u, v) == Some(Some(Owned::Linear)) ==> lookup(uc_body(b, u).1, v) == Some(Some(Owned::Linear)),
        keys(u).no_duplicates() ==> keys(uc_body(b, u).1).no_duplicates(),
    decreases b, 0nat,
{
    law_use_check_accepts(b, u);
    match b {
        BodyV::Variable(x) => {
            if lookup(u, v) == Some(Some(Owned::Linear)) {
                law_consumed_stays_consumed(u, x, Owned::Linear, v);
            }
            if keys(u).no_duplicates() {
                law_record_keeps_names_distinct(u, x, Owned::Linear);
            }
        },
        BodyV::Bind { var, value, cont, .. } => {
            lemma_uc_keeps(*cont, u, v);
            law_use_check_accepts(*cont, u);
            let u1 = uc_body(*cont, u).1;
            if lookup(u1, v) == Some(Some(Owned::Linear)) {
                law_consumed_stays_consumed(u1, var, Owned::Linear, v);
            }
            if keys(u1).no_duplicates() {
                law_record_keeps_names_distinct(u1, var, Owned::Linear);
            }
            lemma_uc_compute_keeps(*value, record(u1, var, Owned::Linear).1, v);
        },
        BodyV::BindPattern { pat, value, cont, .. } => {
            lemma_uc_keeps(*cont, u, v);
            law_use_check_accepts(*cont, u);
            let u1 = uc_body(*cont, u).1;
            let o = if all_borrowed(u1, pattern_vars(pat)) { Owned::Borrow } else { Owned::Linear };
            if lookup(u1, v) == Some(Some(Owned::Linear)) {
                law_consumed_stays_consumed(u1, value, o, v);
            }
            if keys(u1).no_duplicates() {
                law_record_keeps_names_distinct(u1, value, o);
            }
        },
        BodyV::If { cond, then_, else_ } => {
            if lookup(u, v) == Some(Some(Owned::Linear)) {
                law_consumed_stays_consumed(u, cond, Owned::Borrow, v);
            }
            if keys(u).no_duplicates() {
                law_record_keeps_names_distinct(u, cond, Owned::Borrow);
            }
            let u1 = record(u, cond, Owned::Borrow).1;
            lemma_uc_keeps(*then_, u1, v);
            law_use_check_accepts(*then_, u1);
            lemma_uc_keeps(*else_, uc_body(*then_, u1).1, v);
        },
        BodyV::Match { value, arms } => {
            lemma_uc_arms_keeps(arms, 0, value, u, v);
        },
    }
}

pub proof fn lemma_uc_arms_keeps(arms: Seq<(PatternV, BodyV)>, i: int, value: NameV, u: UsedV, v: NameV)
    ensures
        lookup(u, v) == Some(Some(Owned::Linear)) ==> lookup(uc_arms(arms, i, value, u).1, v) == Some(Some(Owned::Linear)),
        keys(u).no_duplicates() ==> keys(uc_arms(arms, i, value, u).1).no_duplicates(),
    decreases arms, arms.len() - i + 1,
{
    if i < 0 || i >= arms.len() {
        if lookup(u, v) == Some(Some(Owned::Linear)) {
            law_consumed_stays_consumed(u, value, Owned::Borrow, v);
        }
        if keys(u).no_duplicates() {
            law_record_keeps_names_distinct(u, value, Owned::Borrow);
        }
    } else {
        lemma_uc_keeps(arms[i].1, u, v);
        law_use_check_accepts(arms[i].1, u);
        let u1 = uc_body(arms[i].1, u).1;
        if !all_borrowed(u1, pattern_vars(arms[i].0)) {
            if lookup(u1, v) == Some(Some(Owned::Linear)) {
                law_consumed_stays_consumed(u1, value, Owned::Linear, v);
            }
            if keys(u1).no_duplicates() {
                law_record_keeps_names_distinct(u1, value, Owned::Linear);
            }
        } else {
            lemma_uc_arms_keeps(arms, i + 1, value, u1, v);
        }
    }
}

/// The variables of a record that [`Used::to_linears`] gives back are exactly those
/// recorded as consumed.
pub proof fn law_linear_names(u: UsedV, v: NameV)
    requires
        keys(u).no_duplicates(),
    ensures
        linear_names(u).contains(v) <==> lookup(u, v) == Some(Some(Owned::Linear)),
    decreases u.len(),
{
    if u.len() > 0 {
        let d = u.drop_last();
        let e = u.last();
        assert(keys(u) =~= keys(d).push(e.0));
        lemma_push_no_duplicates(keys(d), e.0);
        law_linear_names(d, v);
        lemma_linear_names_keys(d);
        if e.1 == Some(Owned::Linear) {
            lemma_push_contains(linear_names(d), e.0, v);
        }
        if e.0 == v {
            assert(!linear_names(d).contains(v));
        }
    }
}

/// The variables recorded as linear are recorded variables.
pub proof fn lemma_linear_names_keys(u: UsedV)
    ensures
        forall|x: NameV| #[trigger] linear_names(u).contains(x) ==> keys(u).contains(x),
    decreases u.len(),
{
    if u.len() == 0 {
        assert(linear_names(u) =~= Seq::<NameV>::empty());
    } else {
        let d = u.drop_last();
        let e = u.last();
        lemma_linear_names_keys(d);
        assert(keys(u) =~= keys(d).push(e.0));
        assert forall|x: NameV| #[trigger] linear_names(u).contains(x) implies keys(u).contains(x) by {
            lemma_push_contains(keys(d), e.0, x);
            if e.1 == Some(Owned::Linear) {
                lemma_push_contains(linear_names(d), e.0, x);
            }
        }
    }
}

/// Pairs each name with linear ownership.
pub open spec fn all_linear(names: Seq<NameV>) -> Seq<(NameV, Owned)> {
    names.map_values(|n: NameV| (n, Owned::Linear))
}

/// The variables recorded as linear, in order.
pub open spec fn linear_names(u: UsedV) -> Seq<NameV>
    decreases u.len(),
{
    if u.len() == 0 {
        Seq::empty()
    } else if u.last().1 == Some(Owned::Linear) {
        linear_names(u.drop_last()).push(u.last().0)
    } else {
        linear_names(u.drop_last())
    }
}

/// Whether every variable of `vars` is unrecorded or recorded as borrowed.
pub open spec fn all_borrowed(u: UsedV, vars: Seq<NameV>) -> bool {
    forall|i: int| 0 <= i < vars.len() ==> {
        let o = #[trigger] lookup(u, vars[i]);
        o is None || o == Some(Some(Owned::Borrow))
    }
}

/// The usage check of a body: the continuation of a binding is checked before
/// the binding itself, a condition is borrowed, a bound variable and a returned
/// variable are consumed, and the value a pattern destructs is consumed exactly
/// when one of the pattern's variables is consumed.
pub open spec fn uc_body(b: BodyV, u: UsedV) -> (Option<NameV>, UsedV)
    decreases b, 0nat,
{
    match b {
        BodyV::Variable(v) => record(u, v, Owned::Linear),
        BodyV::Bind { var, value, cont, .. } => {
            let r1 = uc_body(*cont, u);
            if r1.0 is Some {
                r1
            } else {
                let r2 = record(r1.1, var, Owned::Linear);
                if r2.0 is Some {
                    r2
                } else {
                    uc_compute(*value, r2.1)
                }
            }
        },
        BodyV::BindPattern { pat, value, cont, .. } => {
            let r1 = uc_body(*cont, u);
            if r1.0 is Some {
                r1
            } else {
                record(
                    r1.1,
                    value,
                    if all_borrowed(r1.1, pattern_vars(pat)) { Owned::Borrow } else { Owned::Linear },
                )
            }
        },
        BodyV::If { cond, then_, else_ } => {
            let r1 = record(u, cond, Owned::Borrow);
            if r1.0 is Some {
                r1
            } else {
                let r2 = uc_body(*then_, r1.1);
                if r2.0 is Some {
                    r2
                } else {
                    uc_body(*else_, r2.1)
                }
            }
        },
        BodyV::Match { value, arms } => uc_arms(arms, 0, value, u),
    }
}

/// The usage check of the arms of a match from arm `i` on: the matched value is
/// consumed at the first arm whose pattern has a consumed variable, and borrowed
/// if there is none.
pub open spec fn uc_arms(arms: Seq<(PatternV, BodyV)>, i: int, value: NameV, u: UsedV) -> (Option<NameV>, UsedV)
    decreases arms, arms.len() - i + 1,
{
    if i < 0 || i >= arms.len() {
        record(u, value, Owned::Borrow)
    } else {
        let r1 = uc_body(arms[i].1, u);
        if r1.0 is Some {
            r1
        } else if !all_borrowed(r1.1, pattern_vars(arms[i].0)) {
            record(r1.1, value, Owned::Linear)
        } else {
            uc_arms(arms, i + 1, value, r1.1)
        }
    }
}

/// The usage check of a computation.
pub open spec fn uc_compute(c: ComputeV, u: UsedV) -> (Option<NameV>, UsedV) {
    match c {
        ComputeV::Invoke(_, args) => record_all(u, args, args.len()),
        ComputeV::Closure { free_vars, .. } => record_all(u, all_linear(free_vars), free_vars.len()),
        ComputeV::Constructor(_, _, params) => record_all(u, all_linear(params), params.len()),
    }
}

pub open spec fn err_view(r: Result<(), String>) -> Option<NameV> {
    match r {
        Ok(_) => None,
        Err(e) => Some(e@),
    }
}

impl Used {
    pub fn new() -> (r: Self)
        ensures
            r@ == Seq::<(NameV, Option<Owned>)>::empty(),
    {
        let r = Used(Vec::new());
        assert(r@ =~= Seq::<(NameV, Option<Owned>)>::empty());
        r
    }

    /// Records a use of `name` with ownership `owned`; a borrow of a variable
    /// already recorded as consumed is accepted and leaves it recorded as
    /// consumed.  No use is refused: the result is always `Ok` (see
    /// [`law_record_never_refuses`]).
    pub fn update(&mut self, name: &str, owned: Owned) -> (r: Result<(), String>)
        ensures
            (err_view(r), final(self)@) == record(old(self)@, name@, owned),
            r is Ok,
    {
        proof {
            law_record_never_refuses(self@, name@, owned);
        }
        let key = String::from_str(name);
        if owned.is_borrow() {
            if let Some(Some(Owned::Linear)) = assoc_get(&self.0, &key) {
                return Ok(());
            }
        }
        assoc_put(&mut self.0, key, Some(owned));
        Ok(())
    }

    /// How `k` was recorded, if it was.
    pub fn find(&self, k: &str) -> (r: Option<Option<Owned>>)
        ensures
            r == lookup(self@, k@),
    {
        let key = String::from_str(k);
        match assoc_get(&self.0, &key) {
            Some(x) => Some(*x),
            None => None,
        }
    }

    /// The variables recorded as linear.
    pub fn to_linears(self) -> (r: Vec<String>)
        ensures
            names_view(r@) == linear_names(self@),
    {
        let v = self.0;
        let mut r: Vec<String> = Vec::new();
        let mut i: usize = 0;
        while i < v.len()
            invariant
                i <= v.len(),
                names_view(r@) == linear_names(pairs_view(v@.take(i as int))),
            decreases v.len() - i,
        {
            assert(pairs_view(v@.take(i + 1)).drop_last() =~= pairs_view(v@.take(i as int)));
            if let Some(Owned::Linear) = v[i].1 {
                r.push(v[i].0.clone());
                assert(names_view(r@) =~= names_view(r@).drop_last().push(v@[i as int].0@));
            }
            i = i + 1;
        }
        assert(v@.take(v.len() as int) =~= v@);
        r
    }
}


/// Records, in order, a use of each `args[i].0` with ownership `args[i].1`.
pub fn record_args(used_record: &mut Used, args: &Vec<(String, Owned)>) -> (r: Result<(), String>)
    ensures
        (err_view(r), final(used_record)@) == record_all(old(used_record)@, pairs_view(args@), args@.len() as nat),
{
    let ghost uses = pairs_view(args@);
    let mut i: usize = 0;
    while i < args.len()
        invariant
            i <= args.len(),
            uses == pairs_view(args@),
            (None::<NameV>, used_record@) == record_all(old(used_record)@, uses, i as nat),
        decreases args.len() - i,
    {
        let r = used_record.update(args[i].0.as_str(), args[i].1);
        if r.is_err() {
            proof {
                lemma_record_all_stops(old(used_record)@, uses, (i + 1) as nat, args@.len() as nat);
            }
            return r;
        }
        i = i + 1;
    }
    Ok(())
}

/// Records, in order, a consuming use of each of `names`.
pub fn record_linear(used_record: &mut Used, names: &Vec<String>) -> (r: Result<(), String>)
    ensures
        (err_view(r), final(used_record)@) == record_all(old(used_record)@, all_linear(names_view(names@)), names@.len() as nat),
{
    let ghost uses = all_linear(names_view(names@));
    let mut i: usize = 0;
    while i < names.len()
        invariant
            i <= names.len(),
            uses == all_linear(names_view(names@)),
            (None::<NameV>, used_record@) == record_all(old(used_record)@, uses, i as nat),
        decreases names.len() - i,
    {
        let r = used_record.update(names[i].as_str(), Owned::Linear);
        if r.is_err() {
            proof {
                lemma_record_all_stops(old(used_record)@, uses, (i + 1) as nat, names@.len() as nat);
            }
            return r;
        }
        i = i + 1;
    }
    Ok(())
}

/// Whether every variable the pattern binds is unrecorded or recorded as borrowed.
pub fn pattern_borrowed(used_record: &Used, pat: &crate::ir::common::Pattern) -> (r: bool)
    ensures
        r == all_borrowed(used_record@, pattern_vars(pat@)),
{
    let vars = pat.defined_vars();
    let mut i: usize = 0;
    while i < vars.len()
        invariant
            i <= vars.len(),
            names_view(vars@) == pattern_vars(pat@),
            forall|j: int| 0 <= j < i ==> {
                let o = #[trigger] lookup(used_record@, names_view(vars@)[j]);
                o is None || o == Some(Some(Owned::Borrow))
            },
        decreases vars.len() - i,
    {
        let o = used_record.find(vars[i].as_str());
        assert(names_view(vars@)[i as int] == vars@[i as int]@);
        match o {
            Some(Some(Owned::Borrow)) => {},
            None => {},
            _ => {
                return false;
            },
        }
        i = i + 1;
    }
    true
}

impl Function {
    /// Checks the uses of the body, then records the uses the arguments' ownership implies.
    pub fn use_check(&self, used_record: &mut Used) -> (r: Result<(), String>)
        ensures
            (err_view(r), final(used_record)@) == uc_function(self.body@, arg_uses(self.args@), old(used_record)@),
    {
        let r = self.body.use_check(used_record);
        if r.is_err() {
            return r;
        }
        let ghost uses = arg_uses(self.args@);
        let mut i: usize = 0;
        while i < self.args.len()
            invariant
                i <= self.args.len(),
                uses == arg_uses(self.args@),
                uses.len() == self.args@.len(),
                uc_body(self.body@, old(used_record)@).0 is None,
                (None::<NameV>, used_record@) == record_all(uc_body(self.body@, old(used_record)@).1, uses, i as nat),
            decreases self.args.len() - i,
        {
            assert(uses[i as int] == (self.args@[i as int].0@, self.args@[i as int].1.1));
            let r = used_record.update(self.args[i].0.as_str(), self.args[i].1.1);
            if r.is_err() {
                proof {
                    lemma_record_all_stops(uc_body(self.body@, old(used_record)@).1, uses, (i + 1) as nat, self.args@.len() as nat);
                }
                return r;
            }
            i = i + 1;
        }
        Ok(())
    }
}

/// The usage check of a function: its body, then its arguments with their ownership.
pub open spec fn uc_function(body: BodyV, args: Seq<(NameV, Owned)>, u: UsedV) -> (Option<NameV>, UsedV) {
    let r1 = uc_body(body, u);
    if r1.0 is Some {
        r1
    } else {
        record_all(r1.1, args, args.len())
    }
}

/// The uses the arguments' ownership implies.
pub open spec fn arg_uses(args: Seq<(String, (crate::types::Type, Owned))>) -> Seq<(NameV, Owned)> {
    args.map_values(|a: (String, (crate::types::Type, Owned))| (a.0@, a.1.1))
}

impl Body {
    pub fn use_check(&self, used_record: &mut Used) -> (r: Result<(), String>)
        ensures
            (err_view(r), final(used_record)@) == uc_body(self@, old(used_record)@),
            r is Ok,
        decreases self,
    {
        proof {
            law_use_check_accepts(self@, old(used_record)@);
        }
        match self {
            Body::Bind(b) => b.use_check(used_record),
            Body::BindPattern(b) => b.use_check(used_record),
            Body::If(i) => i.use_check(used_record),
            Body::Match(m) => m.use_check(used_record),
            Body::Variable(v) => used_record.update(v.as_str(), Owned::Linear),
        }
    }
}

impl Compute {
    pub fn use_check(&self, used_record: &mut Used) -> (r: Result<(), String>)
        ensures
            (err_view(r), final(used_record)@) == uc_compute(self@, old(used_record)@),
    {
        match self {
            Compute::Invoke(_f, args) => record_args(used_record, args),
            Compute::Closure { free_vars, .. } => record_linear(used_record, free_vars),
            Compute::Constructor(_c, _ty, params) => record_linear(used_record, params),
        }
    }
}

impl Bind {
    pub fn use_check(&self, used_record: &mut Used) -> (r: Result<(), String>)
        ensures
            (err_view(r), final(used_record)@) == uc_body(self@, old(used_record)@),
        decreases self,
    {
        let r = self.cont.use_check(used_record);
        if r.is_err() {
            return r;
        }
        let r = used_record.update(self.var.as_str(), Owned::Linear);
        if r.is_err() {
            return r;
        }
        self.value.use_check(used_record)
    }
}

impl BindPattern {
    pub fn use_check(&self, used_record: &mut Used) -> (r: Result<(), String>)
        ensures
            (err_view(r), final(used_record)@) == uc_body(self@, old(used_record)@),
        decreases self,
    {
        let r = self.cont.use_check(used_record);
        if r.is_err() {
            return r;
        }
        let is_borrow = pattern_borrowed(used_record, &self.pat);
        if !is_borrow {
            used_record.update(self.value.as_str(), Owned::Linear)
        } else {
            used_record.update(self.value.as_str(), Owned::Borrow)
        }
    }
}

impl If {
    pub fn use_check(&self, used_record: &mut Used) -> (r: Result<(), String>)
        ensures
            (err_view(r), final(used_record)@) == uc_body(self@, old(used_record)@),
        decreases self,
    {
        let r = used_record.update(self.cond.as_str(), Owned::Borrow);
        if r.is_err() {
            return r;
        }
        let r = self.then_.use_check(used_record);
        if r.is_err() {
            return r;
        }
        self.else_.use_check(used_record)
    }
}

impl Match {
    pub fn use_check(&self, used_record: &mut Used) -> (r: Result<(), String>)
        ensures
            (err_view(r), final(used_record)@) == uc_body(self@, old(used_record)@),
        decreases self,
    {
        let ghost arms = arms_view(self.matchs@);
        let ghost u0 = used_record@;
        let mut i: usize = 0;
        while i < self.matchs.len()
            invariant
                i <= self.matchs.len(),
                arms == arms_view(self.matchs@),
                arms.len() == self.matchs.len(),
                u0 == old(used_record)@,
                self@ == (BodyV::Match { value: self.value@, arms }),
                uc_body(self@, u0) == uc_arms(arms, i as int, self.value@, used_record@),
            decreases self.matchs.len() - i,
        {
            proof {
                assert(decreases_to!(self.matchs => self.matchs@));
                assert(decreases_to!(self.matchs@ => self.matchs@[i as int]));
                assert(decreases_to!(self.matchs@[i as int] => self.matchs@[i as int].1));
            }
            assert(arms[i as int] == (self.matchs@[i as int].0@, self.matchs@[i as int].1@));
            let ghost before = used_record@;
            let r = self.matchs[i].1.use_check(used_record);
            assert(uc_arms(arms, i as int, self.value@, before) == {
                let r1 = uc_body(arms[i as int].1, before);
                if r1.0 is Some {
                    r1
                } else if !all_borrowed(r1.1, pattern_vars(arms[i as int].0)) {
                    record(r1.1, self.value@, Owned::Linear)
                } else {
                    uc_arms(arms, i + 1, self.value@, r1.1)
                }
            });
            if r.is_err() {
                return r;
            }
            let is_borrow = pattern_borrowed(used_record, &self.matchs[i].0);
            if !is_borrow {
                return used_record.update(self.value.as_str(), Owned::Linear);
            }
            i = i + 1;
        }
        used_record.update(self.value.as_str(), Owned::Borrow)
    }
}

} // verus!
