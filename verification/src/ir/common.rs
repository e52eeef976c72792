//! Patterns shared by the intermediate languages, the variables they bind and
//! the types they give to those variables.
use vstd::prelude::*;

use crate::names::{
    assoc_put, keys, lemma_push_contains, lemma_remove_key_keys, lemma_union, names_view, pairs_view, put, remove_key,
    union, union_into, NameV,
};
use crate::types::{Type, TypeV, types_view};

verus! {

pub type Name = String;

#[derive(Debug)]
pub enum Pattern {
    Wildcard,
    Variable(Name),
    Constructor(Name, Vec<Pattern>),
}

/// Mathematical model of a pattern.
pub enum PatternV {
    Wildcard,
    Variable(NameV),
    Constructor(NameV, Seq<PatternV>),
}

pub open spec fn pattern_view(p: Pattern) -> PatternV
    decreases p,
{
    match p {
        Pattern::Wildcard => PatternV::Wildcard,
        Pattern::Variable(v) => PatternV::Variable(v@),
        Pattern::Constructor(c, ps) => PatternV::Constructor(c@, patterns_view(ps@)),
    }
}

pub open spec fn patterns_view(ps: Seq<Pattern>) -> Seq<PatternV>
    decreases ps,
{
    Seq::new(
        ps.len(),
        |i: int|
            if 0 <= i < ps.len() {
                pattern_view(ps[i])
            } else {
                PatternV::Wildcard
            },
    )
}

impl View for Pattern {
    type V = PatternV;

    open spec fn view(&self) -> PatternV {
        pattern_view(*self)
    }
}

/// The variables a pattern binds, without repetitions, from left to right.
pub open spec fn pattern_vars(p: PatternV) -> Seq<NameV>
    decreases p, 1nat,
{
    match p {
        PatternV::Wildcard => Seq::empty(),
        PatternV::Variable(v) => seq![v],
        PatternV::Constructor(_, ps) => patterns_vars(ps),
    }
}

/// The variables the patterns bind, without repetitions, from left to right.
pub open spec fn patterns_vars(ps: Seq<PatternV>) -> Seq<NameV>
    decreases ps, 0nat,
{
    if ps.len() == 0 {
        Seq::empty()
    } else {
        union(patterns_vars(ps.drop_last()), pattern_vars(ps.last()))
    }
}


/// Whether pattern `p` can be matched against values of type `t`: a constructor
/// pattern needs a struct type of the same name, and its sub-patterns must fit
/// the fields they are paired with.
pub open spec fn pattern_fits(p: PatternV, t: TypeV) -> bool
    decreases p, 0nat,
{
    match p {
        PatternV::Wildcard => true,
        PatternV::Variable(_) => true,
        PatternV::Constructor(c, ps) => match t {
            TypeV::Struct(n, fs) => c == n && fields_fit(ps, fs, ps.len()),
            _ => false,
        },
    }
}

/// Whether each of the first `k` sub-patterns of `ps` that has a field type in `fs` fits it.
pub open spec fn fields_fit(ps: Seq<PatternV>, fs: Seq<TypeV>, k: nat) -> bool
    decreases ps, k + 1,
{
    if k == 0 || k > ps.len() {
        true
    } else {
        fields_fit(ps, fs, (k - 1) as nat) && (k - 1 < fs.len() ==> pattern_fits(ps[k - 1], fs[k - 1]))
    }
}

pub proof fn lemma_fields_fit(ps: Seq<PatternV>, fs: Seq<TypeV>, k: nat, i: int)
    requires
        fields_fit(ps, fs, k),
        k <= ps.len(),
        0 <= i < k,
        i < fs.len(),
    ensures
        pattern_fits(ps[i], fs[i]),
    decreases k,
{
    if i < k - 1 {
        lemma_fields_fit(ps, fs, (k - 1) as nat, i);
    }
}

/// Adds the bindings of `r`, in order, to `m`; a later binding of a name replaces an earlier one.
pub open spec fn extend<W>(m: Seq<(NameV, W)>, r: Seq<(NameV, W)>) -> Seq<(NameV, W)>
    decreases r.len(),
{
    if r.len() == 0 {
        m
    } else {
        let e = r.last();
        put(extend(m, r.drop_last()), e.0, e.1)
    }
}

/// The types given to the variables of `p` when it is matched against a value of type `t`.
pub open spec fn pattern_bindings(p: PatternV, t: TypeV) -> Seq<(NameV, TypeV)>
    decreases p, 0nat,
{
    match p {
        PatternV::Wildcard => Seq::empty(),
        PatternV::Variable(v) => seq![(v, t)],
        PatternV::Constructor(_, ps) => match t {
            TypeV::Struct(_, fs) => fields_bindings(ps, fs, if ps.len() < fs.len() { ps.len() } else { fs.len() }),
            _ => Seq::empty(),
        },
    }
}

/// The bindings of the first `k` sub-patterns of `ps`, paired with the field types `fs`.
pub open spec fn fields_bindings(ps: Seq<PatternV>, fs: Seq<TypeV>, k: nat) -> Seq<(NameV, TypeV)>
    decreases ps, k + 1,
{
    if k == 0 || k > ps.len() || k > fs.len() {
        Seq::empty()
    } else {
        extend(fields_bindings(ps, fs, (k - 1) as nat), pattern_bindings(ps[k - 1], fs[k - 1]))
    }
}

/// Extending a binding list only binds names it had or names the extension binds.
pub proof fn lemma_extend_keys<W>(m: Seq<(NameV, W)>, r: Seq<(NameV, W)>)
    ensures
        forall|x: NameV| #[trigger] keys(extend(m, r)).contains(x) ==> keys(m).contains(x) || keys(r).contains(x),
    decreases r.len(),
{
    if r.len() > 0 {
        let d = r.drop_last();
        let e = r.last();
        lemma_extend_keys(m, d);
        let s = extend(m, d);
        lemma_remove_key_keys(s, e.0);
        assert(keys(put(s, e.0, e.1)) =~= keys(remove_key(s, e.0)).push(e.0));
        assert(keys(r) =~= keys(d).push(e.0));
        assert forall|x: NameV| #[trigger] keys(extend(m, r)).contains(x) implies keys(m).contains(x) || keys(r).contains(x) by {
            lemma_push_contains(keys(remove_key(s, e.0)), e.0, x);
            lemma_push_contains(keys(d), e.0, x);
        }
    }
}

/// The variables of one of the patterns are variables of the sequence of patterns.
pub proof fn lemma_patterns_vars_contains(ps: Seq<PatternV>, i: int, x: NameV)
    requires
        0 <= i < ps.len(),
        pattern_vars(ps[i]).contains(x),
    ensures
        patterns_vars(ps).contains(x),
    decreases ps.len(),
{
    let d = ps.drop_last();
    lemma_union(patterns_vars(d), pattern_vars(ps.last()));
    if i < ps.len() - 1 {
        assert(d[i] == ps[i]);
        lemma_patterns_vars_contains(d, i, x);
        assert(patterns_vars(d).to_set().contains(x));
    } else {
        assert(pattern_vars(ps.last()).to_set().contains(x));
    }
    assert(union(patterns_vars(d), pattern_vars(ps.last())).to_set().contains(x));
}

/// The types a pattern gives are given to variables the pattern binds.
pub proof fn law_type_binding_binds_pattern_vars(p: PatternV, t: TypeV, x: NameV)
    ensures
        keys(pattern_bindings(p, t)).contains(x) ==> pattern_vars(p).contains(x),
    decreases p, 0nat,
{
    match p {
        PatternV::Wildcard => {
            assert(keys(pattern_bindings(p, t)) =~= Seq::<NameV>::empty());
        },
        PatternV::Variable(v) => {
            assert(keys(pattern_bindings(p, t)) =~= seq![v]);
        },
        PatternV::Constructor(_, ps) => match t {
            TypeV::Struct(_, fs) => {
                let k = if ps.len() < fs.len() { ps.len() } else { fs.len() };
                lemma_fields_bindings_keys(ps, fs, k, x);
            },
            _ => {
                assert(keys(pattern_bindings(p, t)) =~= Seq::<NameV>::empty());
            },
        },
    }
}

pub proof fn lemma_fields_bindings_keys(ps: Seq<PatternV>, fs: Seq<TypeV>, k: nat, x: NameV)
    requires
        k <= ps.len(),
    ensures
        keys(fields_bindings(ps, fs, k)).contains(x) ==> patterns_vars(ps).contains(x),
    decreases ps, k + 1,
{
    if k == 0 || k > fs.len() {
        assert(keys(fields_bindings(ps, fs, k)) =~= Seq::<NameV>::empty());
    } else {
        lemma_fields_bindings_keys(ps, fs, (k - 1) as nat, x);
        law_type_binding_binds_pattern_vars(ps[k - 1], fs[k - 1], x);
        lemma_extend_keys(fields_bindings(ps, fs, (k - 1) as nat), pattern_bindings(ps[k - 1], fs[k - 1]));
        if pattern_vars(ps[k - 1]).contains(x) {
            lemma_patterns_vars_contains(ps, k - 1, x);
        }
    }
}

pub fn extend_bindings(m: &mut Vec<(Name, Type)>, r: Vec<(Name, Type)>)
    ensures
        pairs_view(final(m)@) == extend(pairs_view(old(m)@), pairs_view(r@)),
{
    let ghost orig = pairs_view(r@);
    let mut r = r;
    let ghost mut k: int = 0;
    while r.len() > 0
        invariant
            0 <= k <= orig.len(),
            pairs_view(r@) == orig.skip(k),
            pairs_view(m@) == extend(pairs_view(old(m)@), orig.take(k)),
        decreases r.len(),
    {
        let ghost before = r@;
        assert(pairs_view(r@).len() == r@.len());
        assert(k < orig.len());
        let (name, ty) = r.remove(0);
        assert(pairs_view(r@) =~= orig.skip(k + 1)) by {
            assert forall|t: int| 0 <= t < pairs_view(r@).len() implies pairs_view(r@)[t] == orig.skip(k + 1)[t] by {
                assert(r@[t] == before[t + 1]);
                assert(pairs_view(before)[t + 1] == orig.skip(k)[t + 1]);
            }
        }
        assert(orig.take(k + 1).drop_last() =~= orig.take(k));
        assert(orig.take(k + 1).last() == orig[k]);
        assert(orig[k] == orig.skip(k)[0]);
        assoc_put(m, name, ty);
        proof {
            k = k + 1;
        }
    }
    assert(orig.take(orig.len() as int) =~= orig);
}

impl Pattern {
    /// The variables the pattern binds.
    pub fn defined_vars(&self) -> (r: Vec<String>)
        ensures
            names_view(r@) == pattern_vars(self@),
        decreases self,
    {
        match self {
            Pattern::Wildcard => Vec::new(),
            Pattern::Variable(v) => {
                let mut r = Vec::new();
                r.push(v.clone());
                assert(names_view(r@) =~= seq![v@]);
                r
            },
            Pattern::Constructor(_, ps) => {
                let mut r: Vec<String> = Vec::new();
                let mut i: usize = 0;
                while i < ps.len()
                    invariant
                        *self == Pattern::Constructor(self->Constructor_0, *ps),
                        i <= ps.len(),
                        names_view(r@) == patterns_vars(patterns_view(ps@).take(i as int)),
                    decreases ps.len() - i,
                {
                    proof {
                        assert(decreases_to!(*self => self->Constructor_1));
                        assert(decreases_to!(*ps => ps@));
                        assert(decreases_to!(ps@ => ps@[i as int]));
                    }
                    let d = ps[i].defined_vars();
                    union_into(&mut r, &d);
                    assert(patterns_view(ps@).take(i + 1).drop_last() =~= patterns_view(ps@).take(i as int));
                    i = i + 1;
                }
                assert(patterns_view(ps@).take(ps.len() as int) =~= patterns_view(ps@));
                r
            },
        }
    }

    /// The types of the variables the pattern binds when it is matched against a
    /// value of type `ty`, as an association list.
    pub fn type_binding(&self, ty: &Type) -> (r: Vec<(Name, Type)>)
        requires
            pattern_fits(self@, ty@),
        ensures
            pairs_view(r@) == pattern_bindings(self@, ty@),
        decreases self,
    {
        match self {
            Pattern::Wildcard => Vec::new(),
            Pattern::Variable(v) => {
                let mut r = Vec::new();
                r.push((v.clone(), ty.clone()));
                assert(pairs_view(r@) =~= seq![(v@, ty@)]);
                r
            },
            Pattern::Constructor(_, ps) => {
                match ty {
                    Type::Struct(st) => {
                        let n: usize = if ps.len() < st.fields.len() { ps.len() } else { st.fields.len() };
                        let mut r: Vec<(Name, Type)> = Vec::new();
                        let mut i: usize = 0;
                        while i < n
                            invariant
                                *self == Pattern::Constructor(self->Constructor_0, *ps),
                                *ty == Type::Struct(*st),
                                pattern_fits(self@, ty@),
                                n <= ps.len(),
                                n <= st.fields.len(),
                                i <= n,
                                pairs_view(r@) == fields_bindings(patterns_view(ps@), types_view(st.fields@), i as nat),
                            decreases n - i,
                        {
                            proof {
                                assert(decreases_to!(*self => self->Constructor_1));
                                assert(decreases_to!(*ps => ps@));
                                assert(decreases_to!(ps@ => ps@[i as int]));
                                assert(self@ == PatternV::Constructor(self->Constructor_0@, patterns_view(ps@)));
                                assert(ty@ == TypeV::Struct(st.name@, types_view(st.fields@)));
                                lemma_fields_fit(patterns_view(ps@), types_view(st.fields@), ps.len() as nat, i as int);
                            }
                            let b = ps[i].type_binding(&st.fields[i]);
                            extend_bindings(&mut r, b);
                            i = i + 1;
                        }
                        r
                    },
                    _ => Vec::new(),
                }
            },
        }
    }

    pub fn deep_copy(&self) -> (r: Pattern)
        ensures
            r@ == self@,
        decreases self,
    {
        match self {
            Pattern::Wildcard => Pattern::Wildcard,
            Pattern::Variable(v) => Pattern::Variable(v.clone()),
            Pattern::Constructor(c, ps) => {
                let mut qs: Vec<Pattern> = Vec::new();
                let mut i: usize = 0;
                while i < ps.len()
                    invariant
                        *self == Pattern::Constructor(self->Constructor_0, *ps),
                        i <= ps.len(),
                        qs@.len() == i,
                        forall|j: int| 0 <= j < i ==> pattern_view(#[trigger] qs@[j]) == pattern_view(ps@[j]),
                    decreases ps.len() - i,
                {
                    proof {
                        assert(decreases_to!(*self => self->Constructor_1));
                        assert(decreases_to!(*ps => ps@));
                        assert(decreases_to!(ps@ => ps@[i as int]));
                    }
                    qs.push(ps[i].deep_copy());
                    i = i + 1;
                }
                assert(patterns_view(qs@) =~= patterns_view(ps@));
                Pattern::Constructor(c.clone(), qs)
            },
        }
    }
}

impl Clone for Pattern {
    fn clone(&self) -> (r: Pattern)
        ensures
            r@ == self@,
    {
        self.deep_copy()
    }
}

} // verus!
