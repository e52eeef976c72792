//! Scopes: chains of bindings, innermost first.
use std::rc::Rc;

use vstd::prelude::*;

use crate::names::{lookup, pairs_view, NameV};

verus! {

/// A chain of variable bindings; the first binding is the innermost one.
#[derive(Debug)]
pub struct Scope<T>(pub String, pub T, pub NullableScope<T>);

pub type NullableScope<T> = Option<Rc<Scope<T>>>;

/// The value bound to `name`, from the innermost binding outwards.
pub open spec fn scope_lookup<T>(s: Scope<T>, name: NameV) -> Option<T>
    decreases s,
{
    if s.0@ == name {
        Some(s.1)
    } else {
        match s.2 {
            Some(p) => scope_lookup(*p, name),
            None => None,
        }
    }
}

/// The value bound to `name` in a possibly empty chain.
pub open spec fn nullable_lookup<T>(s: NullableScope<T>, name: NameV) -> Option<T> {
    match s {
        Some(p) => scope_lookup(*p, name),
        None => None,
    }
}

/// The bindings of a chain, outermost first, each name with the model of its value.
pub open spec fn scope_entries<T: View>(s: Scope<T>) -> Seq<(NameV, T::V)>
    decreases s,
{
    match s.2 {
        Some(p) => scope_entries(*p),
        None => Seq::empty(),
    }.push((s.0@, s.1@))
}

/// The bindings of a possibly empty chain, outermost first.
pub open spec fn nullable_entries<T: View>(s: NullableScope<T>) -> Seq<(NameV, T::V)> {
    match s {
        Some(p) => scope_entries(*p),
        None => Seq::empty(),
    }
}

/// The bindings of the chain outside the innermost binding of `s`.
pub open spec fn parent_entries<T: View>(s: &Scope<T>) -> Seq<(NameV, T::V)> {
    nullable_entries(s.2)
}

/// The bindings of the chain that `s` points to.
pub open spec fn entries_of<T: View>(s: &Scope<T>) -> Seq<(NameV, T::V)> {
    scope_entries(*s)
}

/// Looking a name up in a chain is looking it up, last entry first, in its bindings.
pub proof fn lemma_scope_lookup<T: View>(s: &Scope<T>, name: NameV)
    ensures
        match scope_lookup(*s, name) {
            Some(v) => lookup(scope_entries(*s), name) == Some(v@),
            None => lookup(scope_entries(*s), name) is None,
        },
    decreases s,
{
    let e = scope_entries(*s);
    assert(e.drop_last() == match s.2 {
        Some(p) => scope_entries(*p),
        None => Seq::empty(),
    });
    assert(e.last() == (s.0@, s.1@));
    if s.0@ != name {
        match &s.2 {
            Some(p) => {
                lemma_scope_lookup(&**p, name);
                assert(scope_lookup(*s, name) == scope_lookup(**p, name));
                assert(e.drop_last() == scope_entries(**p));
            },
            None => {
                assert(lookup(e.drop_last(), name) is None);
            },
        }
    } else {
        assert(lookup(e, name) == Some(s.1@));
    }
}

/// Binds each name of `bindings` in turn, innermost last.
pub fn extend_scope<T>(env: Rc<Scope<T>>, bindings: Vec<(String, T)>) -> (r: Rc<Scope<T>>)
    where T: View,
    ensures
        scope_entries(*r) == scope_entries(*env) + pairs_view(bindings@),
{
    let ghost orig = pairs_view(bindings@);
    let mut bindings = bindings;
    let mut env = env;
    let ghost mut k: int = 0;
    let ghost start = entries_of(&*env);
    while bindings.len() > 0
        invariant
            0 <= k <= orig.len(),
            pairs_view(bindings@) == orig.skip(k),
            scope_entries(*env) == start + orig.take(k),
        decreases bindings.len(),
    {
        let ghost before = bindings@;
        assert(pairs_view(bindings@).len() == bindings@.len());
        let (name, value) = bindings.remove(0);
        assert(pairs_view(bindings@) =~= orig.skip(k + 1)) by {
            assert forall|t: int| 0 <= t < pairs_view(bindings@).len() implies pairs_view(bindings@)[t] == orig.skip(k + 1)[t] by {
                assert(bindings@[t] == before[t + 1]);
                assert(pairs_view(before)[t + 1] == orig.skip(k)[t + 1]);
            }
        }
        assert(orig[k] == orig.skip(k)[0]);
        env = Rc::new(Scope(name, value, Some(env)));
        assert(start + orig.take(k + 1) =~= (start + orig.take(k)).push(orig[k]));
        proof {
            k = k + 1;
        }
    }
    assert(orig.take(orig.len() as int) =~= orig);
    env
}

/// Another pointer to the same scope.
///
/// Trusted: `Rc::clone` makes a new pointer to the same allocation, so the value
/// it points to is the same.
#[verifier::external_body]
pub fn share<T>(s: &Rc<T>) -> (r: Rc<T>)
    ensures
        r == *s,
{
    Rc::clone(s)
}

/// A clone of the value bound to `name` in the chain.
pub fn find_variable<T: Clone>(record: &NullableScope<T>, name: &str) -> (r: Option<T>)
    ensures
        r is Some == nullable_lookup(*record, name@) is Some,
        r matches Some(v) ==> cloned(nullable_lookup(*record, name@).unwrap(), v),
{
    match record {
        Some(re) => match re.find_variable(name) {
            Some(v) => Some(v.clone()),
            None => None,
        },
        None => None,
    }
}

impl<T> Scope<T> {
    pub fn get_parent(&self) -> (r: Option<&Rc<Scope<T>>>)
        ensures
            r == match self.2 {
                Some(p) => Some(&p),
                None => None::<&Rc<Scope<T>>>,
            },
    {
        match &self.2 {
            Some(p) => Some(p),
            None => None,
        }
    }

    /// The value bound to `name`, from this binding outwards.
    pub fn find_variable(&self, name: &str) -> (r: Option<&T>)
        ensures
            match r {
                Some(v) => scope_lookup(*self, name@) == Some(*v),
                None => scope_lookup(*self, name@) is None,
            },
    {
        let key = String::from_str(name);
        self.find_named(&key)
    }

    fn find_named(&self, name: &String) -> (r: Option<&T>)
        ensures
            match r {
                Some(v) => scope_lookup(*self, name@) == Some(*v),
                None => scope_lookup(*self, name@) is None,
            },
        decreases self,
    {
        if self.0 == *name {
            return Some(&self.1);
        } else if let Some(parent) = self.get_parent() {
            return parent.find_named(name);
        }
        None
    }
}

} // verus!
