//! The textual form of programs of the linear language.
use vstd::prelude::*;

use crate::ir::common::{patterns_view, PatternV};
use crate::ir::l3_ir::{arms_view, Bind, BindPattern, Body, BodyV, Compute, ComputeV, Function, If, Match, Pattern};
use crate::names::{names_view, pairs_view, NameV};
use crate::types::{params_view, types_view, FunctionType, Owned, StructType, Type, TypeV};

verus! {

broadcast use vstd::std_specs::vec::axiom_vec_decreases_to_view;

/// The texts of `parts` with `sep` between each two of them.
pub open spec fn join(parts: Seq<Seq<char>>, sep: Seq<char>) -> Seq<char>
    decreases parts.len(),
{
    if parts.len() == 0 {
        Seq::empty()
    } else if parts.len() == 1 {
        parts[0]
    } else {
        join(parts.drop_last(), sep) + sep + parts.last()
    }
}

/// Joins the strings of `parts` with `sep` between each two of them.
pub fn join_strings(parts: &Vec<String>, sep: &str) -> (r: String)
    ensures
        r@ == join(names_view(parts@), sep@),
{
    let mut r = String::new();
    let mut i: usize = 0;
    while i < parts.len()
        invariant
            i <= parts.len(),
            r@ == join(names_view(parts@.take(i as int)), sep@),
        decreases parts.len() - i,
    {
        let ghost before = r@;
        if i > 0 {
            r.append(sep);
        }
        r.append(parts[i].as_str());
        assert(names_view(parts@.take(i + 1)).drop_last() =~= names_view(parts@.take(i as int)));
        if i == 0 {
            assert(before =~= Seq::<char>::empty());
            assert(r@ =~= names_view(parts@.take(1))[0]);
        }
        i = i + 1;
    }
    assert(parts@.take(parts.len() as int) =~= parts@);
    r
}

/// The mark of a borrowed value: nothing for an owned one, `^` for a borrowed one.
pub open spec fn owned_text(o: Owned) -> Seq<char> {
    match o {
        Owned::Linear => ""@,
        Owned::Borrow => "^"@,
    }
}

pub open spec fn type_text(t: TypeV) -> Seq<char>
    decreases t, 1nat,
{
    match t {
        TypeV::Bool => "bool"@,
        TypeV::Int => "int"@,
        TypeV::Float => "float"@,
        TypeV::Struct(name, fields) => name + "("@ + join(types_text(fields), ", "@) + ")"@,
        TypeV::Function(params, ret) => "("@ + join(params_text(params), ", "@) + ") -> "@ + type_text(*ret),
    }
}

/// The texts of the types of `ts`.
pub open spec fn types_text(ts: Seq<TypeV>) -> Seq<Seq<char>>
    decreases ts, 0nat,
{
    Seq::new(ts.len(), |i: int| if 0 <= i < ts.len() { type_text(ts[i]) } else { Seq::empty() })
}

/// The texts of parameter types, each after its mark of borrowing.
pub open spec fn params_text(ps: Seq<(TypeV, Owned)>) -> Seq<Seq<char>>
    decreases ps, 0nat,
{
    Seq::new(ps.len(), |i: int| if 0 <= i < ps.len() { owned_text(ps[i].1) + type_text(ps[i].0) } else { Seq::empty() })
}

pub open spec fn pattern_text(p: PatternV) -> Seq<char>
    decreases p, 1nat,
{
    match p {
        PatternV::Wildcard => "_"@,
        PatternV::Variable(v) => v,
        PatternV::Constructor(c, ps) => c + "("@ + join(patterns_text(ps), ", "@) + ")"@,
    }
}

/// The texts of the patterns of `ps`.
pub open spec fn patterns_text(ps: Seq<PatternV>) -> Seq<Seq<char>>
    decreases ps, 0nat,
{
    Seq::new(ps.len(), |i: int| if 0 <= i < ps.len() { pattern_text(ps[i]) } else { Seq::empty() })
}


pub open spec fn body_text(b: BodyV) -> Seq<char>
    decreases b, 1nat,
{
    match b {
        BodyV::Bind { var, value, cont, .. } => "let "@ + var + " = "@ + compute_text(*value) + ";\n"@ + body_text(*cont),
        BodyV::BindPattern { pat, owned, value, cont, .. } => (if owned == Owned::Linear {
            "let "@
        } else {
            "let^ "@
        }) + pattern_text(pat) + " = "@ + value + ";\n"@ + body_text(*cont),
        BodyV::If { cond, then_, else_ } => "if "@ + cond + " then {\n"@ + body_text(*then_) + "\n} else {\n"@
            + body_text(*else_) + "\n}\n"@,
        BodyV::Match { value, owned, arms } => (if owned == Owned::Linear {
            "match "@
        } else {
            "match^ "@
        }) + value + " {\n"@ + join(arms_text(arms), ",\n"@) + "}\n"@,
        BodyV::Move(v) => v,
        BodyV::Dup(v, e) => "dup "@ + v + ";\n"@ + body_text(*e),
        BodyV::Drop(v, e) => "drop "@ + v + ";\n"@ + body_text(*e),
        BodyV::DropReuse(r, v, e) => "let "@ + r + " = drop-reuse "@ + v + ";\n"@ + body_text(*e),
    }
}

/// The texts of the arms of a match.
pub open spec fn arms_text(arms: Seq<(PatternV, BodyV)>) -> Seq<Seq<char>>
    decreases arms, 0nat,
{
    Seq::new(
        arms.len(),
        |i: int|
            if 0 <= i < arms.len() {
                pattern_text(arms[i].0) + " => {\n"@ + body_text(arms[i].1) + "\n}"@
            } else {
                Seq::empty()
            },
    )
}

/// The texts of the arguments of a call, each after its mark of borrowing.
pub open spec fn args_text(args: Seq<(NameV, Owned)>) -> Seq<Seq<char>> {
    Seq::new(args.len(), |i: int| owned_text(args[i].1) + args[i].0)
}

pub open spec fn compute_text(c: ComputeV) -> Seq<char>
    decreases c, 1nat,
{
    match c {
        ComputeV::Invoke(f, args) => f + "("@ + join(args_text(args), ", "@) + ")"@,
        ComputeV::Closure { fun_type, params, body, .. } => "fn("@ + join(params, ", "@) + ") -> "@ + type_text(fun_type)
            + " {\n"@ + body_text(*body) + "}\n"@,
        ComputeV::Constructor(c, _, reuse, args) => match reuse {
            Some(r) => c + "@"@ + r + "("@ + join(args, ", "@) + ")"@,
            None => c + "("@ + join(args, ", "@) + ")"@,
        },
    }
}

/// The texts of the arguments of a function: mark of borrowing, name and type.
pub open spec fn fun_args_text(args: Seq<(String, (Type, Owned))>) -> Seq<Seq<char>> {
    Seq::new(args.len(), |i: int| owned_text(args[i].1.1) + args[i].0@ + ": "@ + type_text(args[i].1.0@))
}

pub open spec fn function_text(f: Function) -> Seq<char> {
    "fn "@ + f.name@ + "("@ + join(fun_args_text(f.args@), ", "@) + ") -> "@ + type_text(f.return_type@) + " {\n"@
        + body_text(f.body@) + "\n}\n"@
}

impl Owned {
    pub fn to_string(&self) -> (r: String)
        ensures
            r@ == owned_text(*self),
    {
        match self {
            Owned::Linear => String::from_str(""),
            Owned::Borrow => String::from_str("^"),
        }
    }
}

impl Type {
    pub fn to_string(&self) -> (r: String)
        ensures
            r@ == type_text(self@),
        decreases self,
    {
        match self {
            Type::Bool => String::from_str("bool"),
            Type::Int => String::from_str("int"),
            Type::Float => String::from_str("float"),
            Type::Struct(s) => s.to_string(),
            Type::Function(fun) => fun.to_string(),
        }
    }
}

impl StructType {
    pub fn to_string(&self) -> (r: String)
        ensures
            r@ == type_text(Type::Struct(*self)@),
        decreases self,
    {
        let ghost fs = types_view(self.fields@);
        let mut fields: Vec<String> = Vec::new();
        let mut i: usize = 0;
        while i < self.fields.len()
            invariant
                i <= self.fields.len(),
                fs == types_view(self.fields@),
                fields@.len() == i,
                forall|j: int| 0 <= j < i ==> (#[trigger] fields@[j])@ == type_text(fs[j]),
            decreases self.fields.len() - i,
        {
            proof {
                assert(decreases_to!(self => self.fields));
                assert(decreases_to!(self.fields => self.fields@));
                assert(decreases_to!(self.fields@ => self.fields@[i as int]));
            }
            fields.push(self.fields[i].to_string());
            i = i + 1;
        }
        let mut r = String::from_str(self.name.as_str());
        r.append("(");
        let inner = join_strings(&fields, ", ");
        r.append(inner.as_str());
        r.append(")");
        assert(names_view(fields@) =~= types_text(fs));
        r
    }
}

impl FunctionType {
    pub fn to_string(&self) -> (r: String)
        ensures
            r@ == type_text(Type::Function(*self)@),
        decreases self,
    {
        let ghost ps = params_view(self.params@);
        let mut params: Vec<String> = Vec::new();
        let mut i: usize = 0;
        while i < self.params.len()
            invariant
                i <= self.params.len(),
                ps == params_view(self.params@),
                params@.len() == i,
                forall|j: int| 0 <= j < i ==> (#[trigger] params@[j])@ == owned_text(ps[j].1) + type_text(ps[j].0),
            decreases self.params.len() - i,
        {
            proof {
                assert(decreases_to!(self => self.params));
                assert(decreases_to!(self.params => self.params@));
                assert(decreases_to!(self.params@ => self.params@[i as int]));
                assert(decreases_to!(self.params@[i as int] => self.params@[i as int].0));
            }
            let mut p = self.params[i].1.to_string();
            let t = self.params[i].0.to_string();
            p.append(t.as_str());
            params.push(p);
            i = i + 1;
        }
        let mut r = String::from_str("(");
        let inner = join_strings(&params, ", ");
        r.append(inner.as_str());
        r.append(") -> ");
        let ret = self.ret_type.to_string();
        r.append(ret.as_str());
        assert(names_view(params@) =~= params_text(ps));
        r
    }
}

impl Pattern {
    pub fn to_string(&self) -> (r: String)
        ensures
            r@ == pattern_text(self@),
        decreases self,
    {
        match self {
            Pattern::Wildcard => String::from_str("_"),
            Pattern::Variable(v) => v.clone(),
            Pattern::Constructor(cname, args) => {
                let ghost ps = patterns_view(args@);
                let mut parts: Vec<String> = Vec::new();
                let mut i: usize = 0;
                while i < args.len()
                    invariant
                        *self == Pattern::Constructor(self->Constructor_0, *args),
                        i <= args.len(),
                        ps == patterns_view(args@),
                        parts@.len() == i,
                        forall|j: int| 0 <= j < i ==> (#[trigger] parts@[j])@ == pattern_text(ps[j]),
                    decreases args.len() - i,
                {
                    proof {
                        assert(decreases_to!(*self => self->Constructor_1));
                        assert(decreases_to!(*args => args@));
                        assert(decreases_to!(args@ => args@[i as int]));
                    }
                    parts.push(args[i].to_string());
                    i = i + 1;
                }
                let mut r = cname.clone();
                r.append("(");
                let inner = join_strings(&parts, ", ");
                r.append(inner.as_str());
                r.append(")");
                assert(names_view(parts@) =~= patterns_text(ps));
                r
            },
        }
    }
}

impl Function {
    pub fn to_string(&self) -> (r: String)
        ensures
            r@ == function_text(*self),
    {
        let mut args: Vec<String> = Vec::new();
        let mut i: usize = 0;
        while i < self.args.len()
            invariant
                i <= self.args.len(),
                args@.len() == i,
                forall|j: int| 0 <= j < i ==> (#[trigger] args@[j])@ == fun_args_text(self.args@)[j],
            decreases self.args.len() - i,
        {
            let mut a = self.args[i].1.1.to_string();
            a.append(self.args[i].0.as_str());
            a.append(": ");
            let t = self.args[i].1.0.to_string();
            a.append(t.as_str());
            args.push(a);
            i = i + 1;
        }
        assert(names_view(args@) =~= fun_args_text(self.args@));
        let mut r = String::from_str("fn ");
        r.append(self.name.as_str());
        r.append("(");
        let inner = join_strings(&args, ", ");
        r.append(inner.as_str());
        r.append(") -> ");
        let ret = self.return_type.to_string();
        r.append(ret.as_str());
        r.append(" {\n");
        let body = self.body.to_string();
        r.append(body.as_str());
        r.append("\n}\n");
        r
    }
}

impl Body {
    pub fn to_string(&self) -> (r: String)
        ensures
            r@ == body_text(self@),
        decreases self, 2nat,
    {
        match self {
            Body::Bind(b) => b.to_string(),
            Body::BindPattern(b) => b.to_string(),
            Body::If(i) => i.to_string(),
            Body::Match(m) => m.to_string(),
            Body::Move(v) => v.clone(),
            Body::Dup(v, e) => {
                let mut r = String::from_str("dup ");
                r.append(v.as_str());
                r.append(";\n");
                let t = e.to_string();
                r.append(t.as_str());
                r
            },
            Body::Drop(v, e) => {
                let mut r = String::from_str("drop ");
                r.append(v.as_str());
                r.append(";\n");
                let t = e.to_string();
                r.append(t.as_str());
                r
            },
            Body::DropReuse(reuse, v, e) => {
                let mut r = String::from_str("let ");
                r.append(reuse.as_str());
                r.append(" = drop-reuse ");
                r.append(v.as_str());
                r.append(";\n");
                let t = e.to_string();
                r.append(t.as_str());
                r
            },
        }
    }
}

impl Compute {
    pub fn to_string(&self) -> (r: String)
        ensures
            r@ == compute_text(self@),
        decreases self, 2nat,
    {
        match self {
            Compute::Invoke(fun, args) => {
                let mut parts: Vec<String> = Vec::new();
                let mut i: usize = 0;
                while i < args.len()
                    invariant
                        i <= args.len(),
                        parts@.len() == i,
                        forall|j: int| 0 <= j < i ==> (#[trigger] parts@[j])@ == args_text(pairs_view(args@))[j],
                    decreases args.len() - i,
                {
                    let mut a = args[i].1.to_string();
                    a.append(args[i].0.as_str());
                    parts.push(a);
                    i = i + 1;
                }
                assert(names_view(parts@) =~= args_text(pairs_view(args@)));
                let mut r = fun.clone();
                r.append("(");
                let inner = join_strings(&parts, ", ");
                r.append(inner.as_str());
                r.append(")");
                r
            },
            Compute::Closure { fun_type, free_vars: _, params, body } => {
                let mut r = String::from_str("fn(");
                let inner = join_strings(params, ", ");
                r.append(inner.as_str());
                r.append(") -> ");
                let t = fun_type.to_string();
                r.append(t.as_str());
                r.append(" {\n");
                let b = body.to_string();
                r.append(b.as_str());
                r.append("}\n");
                r
            },
            Compute::Constructor(cname, _ty, reuse, args) => {
                let mut r = cname.clone();
                match reuse {
                    Some(reuse) => {
                        r.append("@");
                        r.append(reuse.as_str());
                    },
                    None => {},
                }
                r.append("(");
                let inner = join_strings(args, ", ");
                r.append(inner.as_str());
                r.append(")");
                r
            },
        }
    }
}

impl Bind {
    pub fn to_string(&self) -> (r: String)
        ensures
            r@ == body_text(self@),
        decreases self, 1nat,
    {
        let mut r = String::from_str("let ");
        r.append(self.var.as_str());
        r.append(" = ");
        let v = self.value.to_string();
        r.append(v.as_str());
        r.append(";\n");
        let c = self.cont.to_string();
        r.append(c.as_str());
        r
    }
}

impl BindPattern {
    pub fn to_string(&self) -> (r: String)
        ensures
            r@ == body_text(self@),
            self.owned == Owned::Borrow ==> r@.len() >= 5 && r@.subrange(0, 5) == "let^ "@,
            self.owned == Owned::Linear ==> r@.len() >= 4 && r@.subrange(0, 4) == "let "@,
            r@.len() > 3 && (r@[3] == '^' <==> self.owned == Owned::Borrow),
        decreases self, 1nat,
    {
        proof {
            law_destructuring_marks_borrow(self@);
        }
        let mut r = match self.owned {
            Owned::Linear => String::from_str("let "),
            Owned::Borrow => String::from_str("let^ "),
        };
        let p = self.pat.to_string();
        r.append(p.as_str());
        r.append(" = ");
        r.append(self.value.as_str());
        r.append(";\n");
        let c = self.cont.to_string();
        r.append(c.as_str());
        r
    }
}

impl If {
    pub fn to_string(&self) -> (r: String)
        ensures
            r@ == body_text(self@),
        decreases self, 1nat,
    {
        let mut r = String::from_str("if ");
        r.append(self.cond.as_str());
        r.append(" then {\n");
        let t = self.then_.to_string();
        r.append(t.as_str());
        r.append("\n} else {\n");
        let e = self.else_.to_string();
        r.append(e.as_str());
        r.append("\n}\n");
        r
    }
}

impl Match {
    pub fn to_string(&self) -> (r: String)
        ensures
            r@ == body_text(self@),
        decreases self, 1nat,
    {
        let ghost arms = arms_view(self.matchs@);
        let mut parts: Vec<String> = Vec::new();
        let mut i: usize = 0;
        while i < self.matchs.len()
            invariant
                i <= self.matchs.len(),
                arms == arms_view(self.matchs@),
                parts@.len() == i,
                forall|j: int| 0 <= j < i ==> (#[trigger] parts@[j])@ == arms_text(arms)[j],
            decreases self.matchs.len() - i,
        {
            proof {
                assert(decreases_to!(self.matchs => self.matchs@));
                assert(decreases_to!(self.matchs@ => self.matchs@[i as int]));
                assert(decreases_to!(self.matchs@[i as int] => self.matchs@[i as int].1));
            }
            assert(arms[i as int] == (self.matchs@[i as int].0@, self.matchs@[i as int].1@));
            let mut a = self.matchs[i].0.to_string();
            a.append(" => {\n");
            let b = self.matchs[i].1.to_string();
            a.append(b.as_str());
            a.append("\n}");
            parts.push(a);
            i = i + 1;
        }
        assert(names_view(parts@) =~= arms_text(arms));
        let mut r = match self.owned {
            Owned::Linear => String::from_str("match "),
            Owned::Borrow => String::from_str("match^ "),
        };
        r.append(self.value.as_str());
        r.append(" {\n");
        let inner = join_strings(&parts, ",\n");
        r.append(inner.as_str());
        r.append("}\n");
        r
    }
}


/// The first characters of `a + b` are those of `a`.
pub proof fn lemma_prefix_of_sum(a: Seq<char>, b: Seq<char>, n: int)
    requires
        0 <= n <= a.len(),
    ensures
        (a + b).subrange(0, n) == a.subrange(0, n),
{
    assert((a + b).subrange(0, n) =~= a.subrange(0, n));
}

/// A destructuring is printed with "let^ " before its pattern when it borrows its
/// value and with "let " when it owns it, so the fourth character tells the two
/// apart.
pub proof fn law_destructuring_marks_borrow(b: BodyV)
    requires
        b is BindPattern,
    ensures
        b->BindPattern_owned == Owned::Borrow ==> body_text(b).len() >= 5 && body_text(b).subrange(0, 5) == "let^ "@,
        b->BindPattern_owned == Owned::Linear ==> body_text(b).len() >= 4 && body_text(b).subrange(0, 4) == "let "@,
        body_text(b).len() > 3 && (body_text(b)[3] == '^' <==> b->BindPattern_owned == Owned::Borrow),
{
    reveal_strlit("let ");
    reveal_strlit("let^ ");
    let head: Seq<char> = if b->BindPattern_owned == Owned::Linear { "let "@ } else { "let^ "@ };
    let t1 = head + pattern_text(b->BindPattern_pat);
    let t2 = t1 + " = "@;
    let t3 = t2 + b->BindPattern_value;
    let t4 = t3 + ";\n"@;
    let t5 = t4 + body_text(*b->BindPattern_cont);
    assert(body_text(b) == t5);
    let n: int = head.len() as int;
    lemma_prefix_of_sum(head, pattern_text(b->BindPattern_pat), n);
    lemma_prefix_of_sum(t1, " = "@, n);
    lemma_prefix_of_sum(t2, b->BindPattern_value, n);
    lemma_prefix_of_sum(t3, ";\n"@, n);
    lemma_prefix_of_sum(t4, body_text(*b->BindPattern_cont), n);
    assert(head.subrange(0, n) =~= head);
    assert(t5.subrange(0, n) == head);
    assert(t5[3] == t5.subrange(0, n)[3]);
}

/// Two destructurings that differ only in whether they own their value print
/// differently.
pub proof fn law_destructuring_texts_differ(b: BodyV)
    requires
        b is BindPattern,
    ensures
        body_text(BodyV::BindPattern {
            pat: b->BindPattern_pat,
            owned: Owned::Linear,
            ty: b->BindPattern_ty,
            value: b->BindPattern_value,
            cont: b->BindPattern_cont,
        }) != body_text(BodyV::BindPattern {
            pat: b->BindPattern_pat,
            owned: Owned::Borrow,
            ty: b->BindPattern_ty,
            value: b->BindPattern_value,
            cont: b->BindPattern_cont,
        }),
{
    let l = BodyV::BindPattern {
        pat: b->BindPattern_pat,
        owned: Owned::Linear,
        ty: b->BindPattern_ty,
        value: b->BindPattern_value,
        cont: b->BindPattern_cont,
    };
    let o = BodyV::BindPattern {
        pat: b->BindPattern_pat,
        owned: Owned::Borrow,
        ty: b->BindPattern_ty,
        value: b->BindPattern_value,
        cont: b->BindPattern_cont,
    };
    law_destructuring_marks_borrow(l);
    law_destructuring_marks_borrow(o);
}

/// A match is printed with "match^ " before its value when it borrows the value
/// and with "match " when it owns it, so the sixth character tells the two apart.
pub proof fn law_match_marks_borrow(b: BodyV)
    requires
        b is Match,
    ensures
        b->Match_owned == Owned::Borrow ==> body_text(b).len() >= 7 && body_text(b).subrange(0, 7) == "match^ "@,
        b->Match_owned == Owned::Linear ==> body_text(b).len() >= 6 && body_text(b).subrange(0, 6) == "match "@,
        body_text(b).len() > 5 && (body_text(b)[5] == '^' <==> b->Match_owned == Owned::Borrow),
{
    reveal_strlit("match ");
    reveal_strlit("match^ ");
    let head: Seq<char> = if b->Match_owned == Owned::Linear { "match "@ } else { "match^ "@ };
    let arms = b->Match_arms;
    let t1 = head + b->Match_value;
    let t2 = t1 + " {\n"@;
    let t3 = t2 + join(arms_text(arms), ",\n"@);
    let t4 = t3 + "}\n"@;
    assert(body_text(b) == t4);
    let n: int = head.len() as int;
    lemma_prefix_of_sum(head, b->Match_value, n);
    lemma_prefix_of_sum(t1, " {\n"@, n);
    lemma_prefix_of_sum(t2, join(arms_text(arms), ",\n"@), n);
    lemma_prefix_of_sum(t3, "}\n"@, n);
    assert(head.subrange(0, n) =~= head);
    assert(t4.subrange(0, n) == head);
    assert(t4[5] == t4.subrange(0, n)[5]);
}


/// Duplicating and dropping a variable before the same body print differently,
/// and the body's text ends both.
pub proof fn law_dup_and_drop_texts_differ(v: NameV, e: BodyV)
    ensures
        body_text(BodyV::Dup(v, Box::new(e))) != body_text(BodyV::Drop(v, Box::new(e))),
        body_text(BodyV::Dup(v, Box::new(e))).subrange(0, 4) == "dup "@,
        body_text(BodyV::Drop(v, Box::new(e))).subrange(0, 5) == "drop "@,
        body_text(BodyV::Dup(v, Box::new(e))).len() >= body_text(e).len(),
        body_text(BodyV::Dup(v, Box::new(e))).subrange(
            body_text(BodyV::Dup(v, Box::new(e))).len() - body_text(e).len(),
            body_text(BodyV::Dup(v, Box::new(e))).len() as int,
        ) == body_text(e),
        body_text(BodyV::Drop(v, Box::new(e))).len() >= body_text(e).len(),
        body_text(BodyV::Drop(v, Box::new(e))).subrange(
            body_text(BodyV::Drop(v, Box::new(e))).len() - body_text(e).len(),
            body_text(BodyV::Drop(v, Box::new(e))).len() as int,
        ) == body_text(e),
{
    reveal_strlit("dup ");
    reveal_strlit("drop ");
    let d = BodyV::Dup(v, Box::new(e));
    let r = BodyV::Drop(v, Box::new(e));
    let dh = "dup "@ + v + ";\n"@;
    let rh = "drop "@ + v + ";\n"@;
    assert(body_text(d) == dh + body_text(e));
    assert(body_text(r) == rh + body_text(e));
    lemma_prefix_of_sum("dup "@ + v, ";\n"@, 4);
    lemma_prefix_of_sum("dup "@, v, 4);
    lemma_prefix_of_sum(dh, body_text(e), 4);
    lemma_prefix_of_sum("drop "@ + v, ";\n"@, 5);
    lemma_prefix_of_sum("drop "@, v, 5);
    lemma_prefix_of_sum(rh, body_text(e), 5);
    assert("dup "@.subrange(0, 4) =~= "dup "@);
    assert("drop "@.subrange(0, 5) =~= "drop "@);
    assert(body_text(d).subrange(0, 4)[1] == 'u');
    assert(body_text(r).subrange(0, 5)[1] == 'r');
    assert(body_text(d)[1] == body_text(d).subrange(0, 4)[1]);
    assert(body_text(r)[1] == body_text(r).subrange(0, 5)[1]);
    assert((dh + body_text(e)).subrange(dh.len() as int, (dh + body_text(e)).len() as int) =~= body_text(e));
    assert((rh + body_text(e)).subrange(rh.len() as int, (rh + body_text(e)).len() as int) =~= body_text(e));
}

/// A constructor that reuses memory prints the mark `@` and the memory's name right
/// after its own name; one that allocates prints its arguments there.
pub proof fn law_reuse_is_printed(c: NameV, t: TypeV, r: NameV, args: Seq<NameV>)
    ensures
        compute_text(ComputeV::Constructor(c, t, Some(r), args))[c.len() as int] == '@',
        compute_text(ComputeV::Constructor(c, t, None, args))[c.len() as int] == '(',
        compute_text(ComputeV::Constructor(c, t, Some(r), args)) != compute_text(ComputeV::Constructor(c, t, None, args)),
{
    reveal_strlit("@");
    reveal_strlit("(");
    let a = compute_text(ComputeV::Constructor(c, t, Some(r), args));
    let b = compute_text(ComputeV::Constructor(c, t, None, args));
    let n = c.len() as int;
    let a1 = c + "@"@;
    let b1 = c + "("@;
    assert(a1[n] == '@');
    assert(b1[n] == '(');
    assert(a == (((a1 + r) + "("@) + join(args, ", "@)) + ")"@);
    assert(b == ((b1 + join(args, ", "@)) + ")"@));
    assert(a[n] == a1[n]);
    assert(b[n] == b1[n]);
}

} // verus!
