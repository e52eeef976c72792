//! Renaming of shadowed variables in the second intermediate language.
use vstd::prelude::*;

use crate::ir::common::Name;
use crate::ir::l2_ir::{Body, BodyV};
use crate::names::{assoc_get, lookup, pairs_view, NameV};

verus! {

/// The name `v` is given by `namespace`, or `v` itself when it has none.
pub open spec fn renamed(namespace: Seq<(NameV, NameV)>, v: NameV) -> NameV {
    match lookup(namespace, v) {
        Some(w) => w,
        None => v,
    }
}

impl Body {
    /// Renames the variables of the body by `namespace`, counting fresh names from
    /// `rename_counter`.  Only a returned variable is renamed so far: renaming
    /// below a binding, a branch or a match is not defined, so the body must be a
    /// bare variable.
    pub fn shadow_variable_rename(self, namespace: Vec<(Name, Name)>, rename_counter: usize) -> (r: Body)
        requires
            self is Variable,
        ensures
            r@ == BodyV::Variable(renamed(pairs_view(namespace@), self->Variable_0@)),
    {
        match self {
            Body::Variable(v) => match assoc_get(&namespace, &v) {
                Some(w) => Body::Variable(w.clone()),
                None => Body::Variable(v),
            },
            _ => self,
        }
    }
}

} // verus!
