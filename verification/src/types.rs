//! Types and ownership modes.
use vstd::prelude::*;

verus! {

/// Ownership mode of a variable use: consumed (`Linear`) or only inspected (`Borrow`).
#[derive(Debug, Clone, Copy, PartialEq, Eq, Structural, PartialOrd, Ord)]
pub enum Owned {
    Borrow,
    Linear,
}

impl View for Owned {
    type V = Owned;

    open spec fn view(&self) -> Owned {
        *self
    }
}

impl Owned {
    pub fn is_linear(&self) -> (r: bool)
        ensures
            r == (*self == Owned::Linear),
    {
        match self {
            Owned::Linear => true,
            Owned::Borrow => false,
        }
    }

    pub fn is_borrow(&self) -> (r: bool)
        ensures
            r == (*self == Owned::Borrow),
    {
        match self {
            Owned::Borrow => true,
            Owned::Linear => false,
        }
    }
}

/// A value is either linear or borrowed, never both.
pub proof fn law_linear_or_borrow(o: Owned)
    ensures
        (o == Owned::Linear) != (o == Owned::Borrow),
{
}

#[derive(Debug)]
pub enum Type {
    Bool,
    Int,
    Float,
    Struct(StructType),
    Function(FunctionType),
}

#[derive(Debug)]
pub struct StructType {
    pub name: String,
    pub fields: Vec<Type>,
}

#[derive(Debug)]
pub struct FunctionType {
    pub params: Vec<(Type, Owned)>,
    pub ret_type: Box<Type>,
}

/// Mathematical model of a [`Type`].
pub enum TypeV {
    Bool,
    Int,
    Float,
    Struct(Seq<char>, Seq<TypeV>),
    Function(Seq<(TypeV, Owned)>, Box<TypeV>),
}

pub open spec fn types_view(s: Seq<Type>) -> Seq<TypeV>
    decreases s,
{
    Seq::new(s.len(), |i: int| if 0 <= i < s.len() { type_view(s[i]) } else { TypeV::Bool })
}

pub open spec fn params_view(s: Seq<(Type, Owned)>) -> Seq<(TypeV, Owned)>
    decreases s,
{
    Seq::new(s.len(), |i: int| if 0 <= i < s.len() { (type_view(s[i].0), s[i].1) } else { (TypeV::Bool, Owned::Borrow) })
}

pub open spec fn type_view(t: Type) -> TypeV
    decreases t,
{
    match t {
        Type::Bool => TypeV::Bool,
        Type::Int => TypeV::Int,
        Type::Float => TypeV::Float,
        Type::Struct(st) => TypeV::Struct(st.name@, types_view(st.fields@)),
        Type::Function(f) => TypeV::Function(params_view(f.params@), Box::new(type_view(*f.ret_type))),
    }
}

}
verus! {

broadcast use vstd::std_specs::vec::axiom_vec_decreases_to_view;

impl View for Type {
    type V = TypeV;
    open spec fn view(&self) -> TypeV { type_view(*self) }
}

impl Type {
    pub fn deep_copy(&self) -> (r: Type)
        ensures r@ == self@,
        decreases self,
    {
        match self {
            Type::Bool => Type::Bool,
            Type::Int => Type::Int,
            Type::Float => Type::Float,
            Type::Struct(st) => {
                let mut fields: Vec<Type> = Vec::new();
                let mut i: usize = 0;
                while i < st.fields.len()
                    invariant
                        *self == Type::Struct(*st),
                        i <= st.fields.len(),
                        fields@.len() == i,
                        forall|j: int| 0 <= j < i ==> type_view(#[trigger] fields@[j]) == type_view(st.fields@[j]),
                    decreases st.fields.len() - i,
                {
                    proof {
                        assert(decreases_to!(*self => self->Struct_0));
                        assert(decreases_to!(*st => st.fields));
                        assert(decreases_to!(st.fields => st.fields@));
                        assert(decreases_to!(st.fields@ => st.fields@[i as int]));
                        assert(decreases_to!(*self => st.fields@[i as int]));
                    }
                    let t = st.fields[i].deep_copy();
                    fields.push(t);
                    i = i + 1;
                }
                assert(types_view(fields@) =~= types_view(st.fields@));
                Type::Struct(StructType { name: st.name.clone(), fields })
            },
            Type::Function(f) => {
                proof {
                    assert(decreases_to!(*self => self->Function_0));
                }
                Type::Function(f.deep_copy())
            },
        }
    }
}

impl FunctionType {
    pub fn deep_copy(&self) -> (r: FunctionType)
        ensures
            Type::Function(r)@ == Type::Function(*self)@,
        decreases self,
    {
        let mut params: Vec<(Type, Owned)> = Vec::new();
        let mut i: usize = 0;
        while i < self.params.len()
            invariant
                i <= self.params.len(),
                params@.len() == i,
                forall|j: int| 0 <= j < i ==> type_view(#[trigger] params@[j].0) == type_view(self.params@[j].0) && params@[j].1 == self.params@[j].1,
            decreases self.params.len() - i,
        {
            proof {
                assert(decreases_to!(*self => self.params));
                assert(decreases_to!(self.params => self.params@));
                assert(decreases_to!(self.params@ => self.params@[i as int]));
                assert(decreases_to!(*self => self.params@[i as int].0));
            }
            let t = self.params[i].0.deep_copy();
            params.push((t, self.params[i].1));
            i = i + 1;
        }
        assert(params_view(params@) =~= params_view(self.params@));
        let r = self.ret_type.deep_copy();
        FunctionType { params, ret_type: Box::new(r) }
    }
}

impl Type {
    /// Structural equality of types.
    pub fn same(&self, other: &Type) -> (r: bool)
        ensures
            r == (self@ == other@),
        decreases self,
    {
        match (self, other) {
            (Type::Bool, Type::Bool) => true,
            (Type::Int, Type::Int) => true,
            (Type::Float, Type::Float) => true,
            (Type::Struct(a), Type::Struct(b)) => {
                if a.name != b.name {
                    return false;
                }
                if a.fields.len() != b.fields.len() {
                    assert(types_view(a.fields@).len() != types_view(b.fields@).len());
                    return false;
                }
                let mut i: usize = 0;
                while i < a.fields.len()
                    invariant
                        *self == Type::Struct(*a),
                        *other == Type::Struct(*b),
                        i <= a.fields.len(),
                        a.fields.len() == b.fields.len(),
                        forall|j: int| 0 <= j < i ==> type_view(a.fields@[j]) == type_view(b.fields@[j]),
                    decreases a.fields.len() - i,
                {
                    proof {
                        assert(decreases_to!(*self => self->Struct_0));
                        assert(decreases_to!(*a => a.fields));
                        assert(decreases_to!(a.fields => a.fields@));
                        assert(decreases_to!(a.fields@ => a.fields@[i as int]));
                        assert(decreases_to!(*self => a.fields@[i as int]));
                    }
                    if !a.fields[i].same(&b.fields[i]) {
                        assert(types_view(a.fields@)[i as int] != types_view(b.fields@)[i as int]);
                        return false;
                    }
                    i = i + 1;
                }
                assert(types_view(a.fields@) =~= types_view(b.fields@));
                true
            },
            (Type::Function(a), Type::Function(b)) => {
                if a.params.len() != b.params.len() {
                    assert(params_view(a.params@).len() != params_view(b.params@).len());
                    return false;
                }
                let mut i: usize = 0;
                while i < a.params.len()
                    invariant
                        *self == Type::Function(*a),
                        *other == Type::Function(*b),
                        i <= a.params.len(),
                        a.params.len() == b.params.len(),
                        forall|j: int| 0 <= j < i ==> params_view(a.params@)[j] == params_view(b.params@)[j],
                    decreases a.params.len() - i,
                {
                    proof {
                        assert(decreases_to!(*self => self->Function_0));
                        assert(decreases_to!(*a => a.params));
                        assert(decreases_to!(a.params => a.params@));
                        assert(decreases_to!(a.params@ => a.params@[i as int]));
                        assert(decreases_to!(*self => a.params@[i as int].0));
                    }
                    if a.params[i].1 != b.params[i].1 {
                        assert(params_view(a.params@)[i as int] != params_view(b.params@)[i as int]);
                        return false;
                    }
                    if !a.params[i].0.same(&b.params[i].0) {
                        assert(params_view(a.params@)[i as int] != params_view(b.params@)[i as int]);
                        return false;
                    }
                    i = i + 1;
                }
                assert(params_view(a.params@) =~= params_view(b.params@));
                proof {
                    assert(decreases_to!(*self => self->Function_0));
                    assert(decreases_to!(*a => a.ret_type));
                }
                a.ret_type.same(&b.ret_type)
            },
            _ => false,
        }
    }
}

impl Clone for Type {
    fn clone(&self) -> (r: Type)
        ensures r@ == self@,
    {
        self.deep_copy()
    }
}

impl Clone for StructType {
    fn clone(&self) -> (r: StructType)
        ensures
            Type::Struct(r)@ == Type::Struct(*self)@,
    {
        let mut fields: Vec<Type> = Vec::new();
        let mut i: usize = 0;
        while i < self.fields.len()
            invariant
                i <= self.fields.len(),
                fields@.len() == i,
                forall|j: int| 0 <= j < i ==> type_view(#[trigger] fields@[j]) == type_view(self.fields@[j]),
            decreases self.fields.len() - i,
        {
            fields.push(self.fields[i].clone());
            i = i + 1;
        }
        assert(types_view(fields@) =~= types_view(self.fields@));
        StructType { name: self.name.clone(), fields }
    }
}

impl Clone for FunctionType {
    fn clone(&self) -> (r: FunctionType)
        ensures
            Type::Function(r)@ == Type::Function(*self)@,
    {
        self.deep_copy()
    }
}

}
