//! The walk over the first intermediate language that carries the scope of
//! variable types down to every body, closures included.  It changes nothing.
use std::rc::Rc;

use vstd::prelude::*;

use crate::l2_ir::{arms_view, Bind, Body, Compute, If, Match, Pattern};
use crate::types::Type;
use crate::utils::{share, Scope};

verus! {

impl Body {
    /// Visits every body below this one in `scope`; the body is left unchanged.
    pub fn insert_drop_reuse(&mut self, scope: Rc<Scope<Type>>)
        ensures
            final(self)@ == old(self)@,
        decreases *old(self),
    {
        match self {
            Body::Bind(b) => b.insert_drop_reuse(scope),
            Body::If(i) => i.insert_drop_reuse(scope),
            Body::Match(m) => m.insert_drop_reuse(scope),
            Body::Compute(c) => c.insert_drop_reuse(scope),
            Body::Dup(_, e) => e.insert_drop_reuse(scope),
            Body::Drop(_, e) => e.insert_drop_reuse(scope),
            Body::DropReuse(_, _, e) => e.insert_drop_reuse(scope),
        }
    }
}

impl Compute {
    /// Visits the body of a closure; the value is left unchanged.
    pub fn insert_drop_reuse(&mut self, scope: Rc<Scope<Type>>)
        ensures
            final(self)@ == old(self)@,
        decreases *old(self),
    {
        match self {
            Compute::Closure { fun_type: _, free_vars: _, params: _, body } => body.insert_drop_reuse(scope),
            Compute::Variable(_) => {},
            Compute::Invoke(_, _) => {},
            Compute::Constructor(_, _, _, _) => {},
        }
    }
}

impl Bind {
    pub fn insert_drop_reuse(&mut self, scope: Rc<Scope<Type>>)
        ensures
            final(self)@ == old(self)@,
        decreases *old(self),
    {
        self.2.insert_drop_reuse(share(&scope));
        self.3.insert_drop_reuse(scope);
    }
}

impl If {
    pub fn insert_drop_reuse(&mut self, scope: Rc<Scope<Type>>)
        ensures
            final(self)@ == old(self)@,
        decreases *old(self),
    {
        self.1.insert_drop_reuse(share(&scope));
        self.2.insert_drop_reuse(scope);
    }
}

impl Match {
    pub fn insert_drop_reuse(&mut self, scope: Rc<Scope<Type>>)
        ensures
            final(self)@ == old(self)@,
        decreases *old(self),
    {
        let ghost me = *self;
        let ghost arms = arms_view(me.1@);
        let mut rest: Vec<(Pattern, Body)> = Vec::new();
        std::mem::swap(&mut rest, &mut self.1);
        let mut done: Vec<(Pattern, Body)> = Vec::new();
        let ghost mut k: int = 0;
        while rest.len() > 0
            invariant
                0 <= k <= me.1@.len(),
                me == *old(self),
                arms == arms_view(me.1@),
                rest@ == me.1@.skip(k),
                done@.len() == k,
                arms_view(done@) == arms.take(k),
            decreases rest.len(),
        {
            let ghost before = rest@;
            let (pat, mut body) = rest.remove(0);
            assert(before[0] == me.1@[k]);
            assert(rest@ =~= me.1@.skip(k + 1));
            proof {
                assert(decreases_to!(me => me.1));
                assert(decreases_to!(me.1 => me.1@));
                assert(decreases_to!(me.1@ => me.1@[k]));
                assert(decreases_to!(me.1@[k] => me.1@[k].1));
            }
            body.insert_drop_reuse(share(&scope));
            let ghost prev = done@;
            done.push((pat, body));
            assert(arms_view(done@) =~= arms.take(k + 1)) by {
                assert forall|j: int| 0 <= j < k + 1 implies arms_view(done@)[j] == arms.take(k + 1)[j] by {
                    if j < k {
                        assert(done@[j] == prev[j]);
                        assert(arms_view(prev)[j] == arms.take(k)[j]);
                    }
                }
            }
            proof {
                k = k + 1;
            }
        }
        assert(arms.take(k) =~= arms);
        self.1 = done;
    }
}

} // verus!
