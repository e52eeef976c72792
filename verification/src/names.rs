//! Finite sets of variable names and association lists keyed by names.
//!
//! A set of names is a `Vec<String>` without repetitions, whose model is the
//! sequence of the names' character sequences; an association list is a
//! `Vec<(String, V)>` with at most one entry per name.
use vstd::prelude::*;

verus! {

/// The model of a variable name.
pub type NameV = Seq<char>;

/// The model of a vector of names.
pub open spec fn names_view(v: Seq<String>) -> Seq<NameV> {
    v.map_values(|s: String| s@)
}

/// Adds `x` at the end of `s` unless it is already there.
pub open spec fn insert(s: Seq<NameV>, x: NameV) -> Seq<NameV> {
    if s.contains(x) {
        s
    } else {
        s.push(x)
    }
}

/// Adds the names of `b`, in order, to `a`.
pub open spec fn union(a: Seq<NameV>, b: Seq<NameV>) -> Seq<NameV>
    decreases b.len(),
{
    if b.len() == 0 {
        a
    } else {
        insert(union(a, b.drop_last()), b.last())
    }
}

/// The names of `a` that do not occur in `b`, in the order of `a`.
pub open spec fn difference(a: Seq<NameV>, b: Seq<NameV>) -> Seq<NameV>
    decreases a.len(),
{
    if a.len() == 0 {
        a
    } else {
        let d = difference(a.drop_last(), b);
        if b.contains(a.last()) {
            d
        } else {
            d.push(a.last())
        }
    }
}

/// The set of names of a vector of names, without repetitions, in order.
pub open spec fn dedup(s: Seq<NameV>) -> Seq<NameV> {
    union(Seq::empty(), s)
}

pub proof fn lemma_push_to_set<A>(s: Seq<A>, x: A)
    ensures
        s.push(x).to_set() == s.to_set().insert(x),
{
    assert forall|y| s.push(x).to_set().contains(y) <==> s.to_set().insert(x).contains(y) by {
        if s.push(x).contains(y) {
            let i = choose|i: int| 0 <= i < s.push(x).len() && s.push(x)[i] == y;
            if i < s.len() {
                assert(s.contains(y));
            }
        }
        if s.contains(y) {
            let i = choose|i: int| 0 <= i < s.len() && s[i] == y;
            assert(s.push(x)[i] == y);
        }
        assert(s.push(x)[s.len() as int] == x);
    }
    assert(s.push(x).to_set() =~= s.to_set().insert(x));
}

pub proof fn lemma_insert(s: Seq<NameV>, x: NameV)
    ensures
        insert(s, x).to_set() == s.to_set().insert(x),
        s.no_duplicates() ==> insert(s, x).no_duplicates(),
        insert(s, x).contains(x),
{
    if s.contains(x) {
        assert(s.to_set().insert(x) =~= s.to_set());
    } else {
        assert(s.push(x).to_set() =~= s.to_set().insert(x)) by {
            assert forall|y| s.push(x).to_set().contains(y) <==> s.to_set().insert(x).contains(y) by {
                if s.push(x).contains(y) {
                    let i = choose|i: int| 0 <= i < s.push(x).len() && s.push(x)[i] == y;
                    if i < s.len() {
                        assert(s.contains(y));
                    }
                }
                if s.contains(y) {
                    let i = choose|i: int| 0 <= i < s.len() && s[i] == y;
                    assert(s.push(x)[i] == y);
                }
                assert(s.push(x)[s.len() as int] == x);
            }
        }
        assert(s.push(x)[s.len() as int] == x);
    }
}

pub proof fn lemma_union(a: Seq<NameV>, b: Seq<NameV>)
    ensures
        union(a, b).to_set() == a.to_set().union(b.to_set()),
        a.no_duplicates() ==> union(a, b).no_duplicates(),
    decreases b.len(),
{
    if b.len() == 0 {
        assert(b.to_set() =~= Set::empty());
        assert(a.to_set().union(b.to_set()) =~= a.to_set());
    } else {
        lemma_union(a, b.drop_last());
        lemma_insert(union(a, b.drop_last()), b.last());
        assert(b.to_set() =~= b.drop_last().to_set().insert(b.last())) by {
            assert forall|y| b.to_set().contains(y) <==> b.drop_last().to_set().insert(b.last()).contains(y) by {
                if b.contains(y) {
                    let i = choose|i: int| 0 <= i < b.len() && b[i] == y;
                    if i < b.len() - 1 {
                        assert(b.drop_last()[i] == y);
                    }
                }
                if b.drop_last().contains(y) {
                    let i = choose|i: int| 0 <= i < b.drop_last().len() && b.drop_last()[i] == y;
                    assert(b[i] == y);
                }
            }
        }
        assert(union(a, b).to_set() =~= a.to_set().union(b.to_set()));
    }
}

pub proof fn lemma_difference(a: Seq<NameV>, b: Seq<NameV>)
    ensures
        difference(a, b).to_set() == a.to_set().difference(b.to_set()),
        a.no_duplicates() ==> difference(a, b).no_duplicates(),
        forall|x| #[trigger] difference(a, b).contains(x) ==> a.contains(x),
    decreases a.len(),
{
    if a.len() == 0 {
        assert(a.to_set() =~= Set::empty());
        assert(difference(a, b).to_set() =~= a.to_set().difference(b.to_set()));
    } else {
        lemma_difference(a.drop_last(), b);
        let d = difference(a.drop_last(), b);
        assert(a.to_set() =~= a.drop_last().to_set().insert(a.last())) by {
            assert forall|y| a.to_set().contains(y) <==> a.drop_last().to_set().insert(a.last()).contains(y) by {
                if a.contains(y) {
                    let i = choose|i: int| 0 <= i < a.len() && a[i] == y;
                    if i < a.len() - 1 {
                        assert(a.drop_last()[i] == y);
                    }
                }
                if a.drop_last().contains(y) {
                    let i = choose|i: int| 0 <= i < a.drop_last().len() && a.drop_last()[i] == y;
                    assert(a[i] == y);
                }
            }
        }
        assert forall|x| #[trigger] difference(a, b).contains(x) implies a.contains(x) by {
            if d.contains(x) {
                assert(a.drop_last().contains(x));
                let i = choose|i: int| 0 <= i < a.drop_last().len() && a.drop_last()[i] == x;
                assert(a[i] == x);
            } else {
                assert(a[a.len() - 1] == x);
            }
        }
        if !b.contains(a.last()) {
            lemma_push_to_set(d, a.last());
            if a.no_duplicates() {
                assert(!a.drop_last().contains(a.last())) by {
                    if a.drop_last().contains(a.last()) {
                        let i = choose|i: int| 0 <= i < a.drop_last().len() && a.drop_last()[i] == a.last();
                        assert(a[i] == a[a.len() - 1]);
                    }
                }
                assert(!d.contains(a.last()));
                assert(a.drop_last().no_duplicates()) by {
                    assert forall|i: int, j: int| 0 <= i < a.drop_last().len() && 0 <= j < a.drop_last().len() && i != j
                        implies a.drop_last()[i] != a.drop_last()[j] by {
                        assert(a[i] != a[j]);
                    }
                }
            }
        } else {
            if a.no_duplicates() {
                assert(a.drop_last().no_duplicates()) by {
                    assert forall|i: int, j: int| 0 <= i < a.drop_last().len() && 0 <= j < a.drop_last().len() && i != j
                        implies a.drop_last()[i] != a.drop_last()[j] by {
                        assert(a[i] != a[j]);
                    }
                }
            }
        }
        assert(difference(a, b).to_set() =~= a.to_set().difference(b.to_set()));
    }
}

pub proof fn lemma_union_mono(a: Seq<NameV>, b: Seq<NameV>, c: Seq<NameV>, d: Seq<NameV>)
    requires
        a.to_set().subset_of(c.to_set()),
        b.to_set().subset_of(d.to_set()),
    ensures
        union(a, b).to_set().subset_of(union(c, d).to_set()),
{
    lemma_union(a, b);
    lemma_union(c, d);
}

pub proof fn lemma_insert_mono(a: Seq<NameV>, c: Seq<NameV>, x: NameV)
    requires
        a.to_set().subset_of(c.to_set()),
    ensures
        insert(a, x).to_set().subset_of(insert(c, x).to_set()),
{
    lemma_insert(a, x);
    lemma_insert(c, x);
}

pub proof fn lemma_difference_mono(a: Seq<NameV>, c: Seq<NameV>, p: Seq<NameV>)
    requires
        a.to_set().subset_of(c.to_set()),
    ensures
        difference(a, p).to_set().subset_of(difference(c, p).to_set()),
{
    lemma_difference(a, p);
    lemma_difference(c, p);
}

/// Whether `v` holds the name `x`.
pub fn contains(v: &Vec<String>, x: &String) -> (r: bool)
    ensures
        r == names_view(v@).contains(x@),
{
    let mut i: usize = 0;
    while i < v.len()
        invariant
            i <= v.len(),
            forall|j: int| 0 <= j < i ==> v@[j]@ != x@,
        decreases v.len() - i,
    {
        if v[i] == *x {
            assert(names_view(v@)[i as int] == x@);
            return true;
        }
        i = i + 1;
    }
    assert(!names_view(v@).contains(x@)) by {
        if names_view(v@).contains(x@) {
            let j = choose|j: int| 0 <= j < names_view(v@).len() && names_view(v@)[j] == x@;
            assert(v@[j]@ == x@);
        }
    }
    false
}

/// Adds `x` to the set `v`.
pub fn insert_name(v: &mut Vec<String>, x: String)
    ensures
        names_view(final(v)@) == insert(names_view(old(v)@), x@),
{
    if !contains(v, &x) {
        let ghost xv = x@;
        v.push(x);
        assert(names_view(v@) =~= names_view(old(v)@).push(xv));
    }
}

/// Adds the names of `other`, in order, to the set `v`.
pub fn union_into(v: &mut Vec<String>, other: &Vec<String>)
    ensures
        names_view(final(v)@) == union(names_view(old(v)@), names_view(other@)),
{
    let mut i: usize = 0;
    while i < other.len()
        invariant
            i <= other.len(),
            names_view(v@) == union(names_view(old(v)@), names_view(other@.take(i as int))),
        decreases other.len() - i,
    {
        let x = other[i].clone();
        insert_name(v, x);
        assert(names_view(other@.take(i + 1)).drop_last() =~= names_view(other@.take(i as int)));
        i = i + 1;
    }
    assert(other@.take(other.len() as int) =~= other@);
}

/// The names of `a` that are not in `b`.
pub fn difference_of(a: &Vec<String>, b: &Vec<String>) -> (r: Vec<String>)
    ensures
        names_view(r@) == difference(names_view(a@), names_view(b@)),
{
    let mut r: Vec<String> = Vec::new();
    let mut i: usize = 0;
    while i < a.len()
        invariant
            i <= a.len(),
            names_view(r@) == difference(names_view(a@.take(i as int)), names_view(b@)),
        decreases a.len() - i,
    {
        assert(names_view(a@.take(i + 1)).drop_last() =~= names_view(a@.take(i as int)));
        if !contains(b, &a[i]) {
            r.push(a[i].clone());
            assert(names_view(r@) =~= names_view(r@).drop_last().push(a@[i as int]@));
        }
        i = i + 1;
    }
    assert(a@.take(a.len() as int) =~= a@);
    r
}

/// Copies a vector of names.
pub fn copy_names(a: &Vec<String>) -> (r: Vec<String>)
    ensures
        names_view(r@) == names_view(a@),
{
    let mut r: Vec<String> = Vec::new();
    let mut i: usize = 0;
    while i < a.len()
        invariant
            i <= a.len(),
            names_view(r@) == names_view(a@.take(i as int)),
        decreases a.len() - i,
    {
        r.push(a[i].clone());
        assert(names_view(a@.take(i + 1)) =~= names_view(a@.take(i as int)).push(a@[i as int]@));
        i = i + 1;
    }
    assert(a@.take(a.len() as int) =~= a@);
    r
}


/// The model of an association list keyed by names.
pub open spec fn pairs_view<V: View>(s: Seq<(String, V)>) -> Seq<(NameV, V::V)> {
    s.map_values(|p: (String, V)| (p.0@, p.1@))
}

/// The keys of an association list, in order.
pub open spec fn keys<W>(s: Seq<(NameV, W)>) -> Seq<NameV> {
    s.map_values(|p: (NameV, W)| p.0)
}

/// The value bound to `k`; the last entry for `k` wins.
pub open spec fn lookup<W>(s: Seq<(NameV, W)>, k: NameV) -> Option<W>
    decreases s.len(),
{
    if s.len() == 0 {
        None
    } else if s.last().0 == k {
        Some(s.last().1)
    } else {
        lookup(s.drop_last(), k)
    }
}

/// The entries of `s` whose key is not `k`, in order.
pub open spec fn remove_key<W>(s: Seq<(NameV, W)>, k: NameV) -> Seq<(NameV, W)>
    decreases s.len(),
{
    if s.len() == 0 {
        s
    } else {
        let r = remove_key(s.drop_last(), k);
        if s.last().0 == k {
            r
        } else {
            r.push(s.last())
        }
    }
}

/// Binds `k` to `w`, replacing any earlier binding of `k`; the entry moves to the end.
pub open spec fn put<W>(s: Seq<(NameV, W)>, k: NameV, w: W) -> Seq<(NameV, W)> {
    remove_key(s, k).push((k, w))
}

pub proof fn lemma_lookup_remove_key<W>(s: Seq<(NameV, W)>, k: NameV, j: NameV)
    ensures
        lookup(remove_key(s, k), j) == if j == k { None } else { lookup(s, j) },
    decreases s.len(),
{
    if s.len() > 0 {
        lemma_lookup_remove_key(s.drop_last(), k, j);
        let r = remove_key(s.drop_last(), k);
        if s.last().0 != k {
            assert(r.push(s.last()).drop_last() =~= r);
        }
    }
}

pub proof fn lemma_lookup_put<W>(s: Seq<(NameV, W)>, k: NameV, w: W, j: NameV)
    ensures
        lookup(put(s, k, w), j) == if j == k { Some(w) } else { lookup(s, j) },
{
    lemma_lookup_remove_key(s, k, j);
    assert(put(s, k, w).drop_last() =~= remove_key(s, k));
}

pub proof fn lemma_push_contains<A>(s: Seq<A>, a: A, x: A)
    ensures
        s.push(a).contains(x) <==> (s.contains(x) || x == a),
{
    if s.contains(x) {
        let i = choose|i: int| 0 <= i < s.len() && s[i] == x;
        assert(s.push(a)[i] == x);
    }
    if x == a {
        assert(s.push(a)[s.len() as int] == x);
    }
    if s.push(a).contains(x) {
        let i = choose|i: int| 0 <= i < s.push(a).len() && s.push(a)[i] == x;
        if i < s.len() {
            assert(s[i] == x);
        }
    }
}

pub proof fn lemma_push_no_duplicates<A>(s: Seq<A>, a: A)
    ensures
        s.push(a).no_duplicates() <==> (s.no_duplicates() && !s.contains(a)),
{
    let t = s.push(a);
    if t.no_duplicates() {
        assert forall|i: int, j: int| 0 <= i < s.len() && 0 <= j < s.len() && i != j implies s[i] != s[j] by {
            assert(t[i] == s[i] && t[j] == s[j]);
        }
        if s.contains(a) {
            let i = choose|i: int| 0 <= i < s.len() && s[i] == a;
            assert(t[i] == t[s.len() as int]);
        }
    }
    if s.no_duplicates() && !s.contains(a) {
        assert forall|i: int, j: int| 0 <= i < t.len() && 0 <= j < t.len() && i != j implies t[i] != t[j] by {
            if i < s.len() && j < s.len() {
                assert(t[i] == s[i] && t[j] == s[j]);
            } else if i < s.len() {
                assert(t[i] == s[i]);
            } else if j < s.len() {
                assert(t[j] == s[j]);
            }
        }
    }
}

/// The names of `remove_key(s, k)` are names of `s` other than `k`, each at most once
/// when they were at most once in `s`.
pub proof fn lemma_remove_key_keys<W>(s: Seq<(NameV, W)>, k: NameV)
    ensures
        forall|x: NameV| #[trigger] keys(remove_key(s, k)).contains(x) ==> x != k && keys(s).contains(x),
        keys(s).no_duplicates() ==> keys(remove_key(s, k)).no_duplicates(),
    decreases s.len(),
{
    if s.len() == 0 {
        assert(keys(remove_key(s, k)) =~= Seq::<NameV>::empty());
    } else {
        let d = s.drop_last();
        let e = s.last();
        lemma_remove_key_keys(d, k);
        assert(keys(s) =~= keys(d).push(e.0));
        lemma_push_no_duplicates(keys(d), e.0);
        let r = remove_key(d, k);
        assert forall|x: NameV| #[trigger] keys(d).contains(x) implies keys(s).contains(x) by {
            lemma_push_contains(keys(d), e.0, x);
        }
        if e.0 != k {
            assert(remove_key(s, k) == r.push(e));
            assert(keys(r.push(e)) =~= keys(r).push(e.0));
            assert forall|x: NameV| #[trigger] keys(remove_key(s, k)).contains(x) implies x != k && keys(s).contains(x) by {
                lemma_push_contains(keys(r), e.0, x);
                lemma_push_contains(keys(d), e.0, x);
            }
            if keys(s).no_duplicates() {
                assert(!keys(r).contains(e.0));
                lemma_push_no_duplicates(keys(r), e.0);
            }
        }
    }
}

/// The entry bound to `k` in `v`, if any.
pub fn assoc_get<'a, V: View>(v: &'a Vec<(String, V)>, k: &String) -> (r: Option<&'a V>)
    ensures
        match r {
            Some(x) => lookup(pairs_view(v@), k@) == Some(x@),
            None => lookup(pairs_view(v@), k@) is None,
        },
{
    let mut i: usize = v.len();
    assert(v@.take(v.len() as int) =~= v@);
    while i > 0
        invariant
            i <= v.len(),
            lookup(pairs_view(v@), k@) == lookup(pairs_view(v@.take(i as int)), k@),
        decreases i,
    {
        assert(pairs_view(v@.take(i as int)).drop_last() =~= pairs_view(v@.take(i - 1)));
        if v[i - 1].0 == *k {
            return Some(&v[i - 1].1);
        }
        i = i - 1;
    }
    None
}

/// Removes the entries bound to `k`.
pub fn assoc_remove<V: View>(v: &mut Vec<(String, V)>, k: &String)
    ensures
        pairs_view(final(v)@) == remove_key(pairs_view(old(v)@), k@),
{
    let ghost orig = pairs_view(v@);
    let mut i: usize = 0;
    let ghost mut j: int = 0;
    while i < v.len()
        invariant
            0 <= j <= orig.len(),
            i == remove_key(orig.take(j), k@).len(),
            pairs_view(v@) == remove_key(orig.take(j), k@) + orig.skip(j),
        decreases v.len() - i,
    {
        let ghost before = pairs_view(v@);
        assert(before[i as int] == orig[j]);
        assert(orig.take(j + 1).drop_last() =~= orig.take(j));
        if v[i].0 == *k {
            let ghost raw = v@;
            let _ = v.remove(i);
            assert(v@ =~= raw.remove(i as int));
            assert(remove_key(orig.take(j + 1), k@) =~= remove_key(orig.take(j), k@));
            assert(pairs_view(v@).len() == before.len() - 1);
            assert(pairs_view(v@) =~= remove_key(orig.take(j + 1), k@) + orig.skip(j + 1)) by {
                assert forall|t: int| 0 <= t < pairs_view(v@).len() implies pairs_view(v@)[t] == (remove_key(orig.take(j + 1), k@) + orig.skip(j + 1))[t] by {
                    if t < i {
                        assert(v@[t] == raw[t]);
                        assert(pairs_view(v@)[t] == before[t]);
                    } else {
                        assert(v@[t] == raw[t + 1]);
                        assert(pairs_view(v@)[t] == before[t + 1]);
                        assert(before[t + 1] == orig.skip(j)[t + 1 - i]);
                    }
                }
            }
        } else {
            i = i + 1;
            assert(pairs_view(v@) =~= remove_key(orig.take(j + 1), k@) + orig.skip(j + 1));
        }
        proof {
            j = j + 1;
        }
    }
    assert(orig.take(orig.len() as int) =~= orig);
    assert(pairs_view(v@) =~= remove_key(orig, k@));
}

/// Binds `k` to `w`, replacing any earlier binding of `k`.
pub fn assoc_put<V: View>(v: &mut Vec<(String, V)>, k: String, w: V)
    ensures
        pairs_view(final(v)@) == put(pairs_view(old(v)@), k@, w@),
{
    assoc_remove(v, &k);
    let ghost mid = v@;
    let ghost e = (k@, w@);
    v.push((k, w));
    assert(pairs_view(v@) =~= pairs_view(mid).push(e));
}


/// A scope extended by more bindings still gives a name that they do not rebind
/// the value it had; a rebound name gets its latest new value.
pub proof fn law_lookup_extend<W>(env: Seq<(NameV, W)>, more: Seq<(NameV, W)>, k: NameV)
    ensures
        !keys(more).contains(k) ==> lookup(env + more, k) == lookup(env, k),
        keys(more).contains(k) ==> lookup(env + more, k) == lookup(more, k),
    decreases more.len(),
{
    if more.len() == 0 {
        assert(env + more =~= env);
        assert(!keys(more).contains(k));
    } else {
        assert((env + more).drop_last() =~= env + more.drop_last());
        assert((env + more).last() == more.last());
        law_lookup_extend(env, more.drop_last(), k);
        assert(keys(more) =~= keys(more.drop_last()).push(more.last().0));
        lemma_push_contains(keys(more.drop_last()), more.last().0, k);
        if more.last().0 != k && keys(more.drop_last()).contains(k) {
            assert(lookup(more, k) == lookup(more.drop_last(), k));
        }
    }
}

} // verus!
