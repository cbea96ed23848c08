//! Runtime values and the variable environment.
use vstd::prelude::*;
use vstd::pervasive::VecAdditionalExecFns;
use crate::token::{Literal, SpecLiteral};
use crate::ast::{Expr, SpecExpr, expr_view};
use crate::number::spec_num_chars;
use crate::text::{str_to_chars, chars_to_string};

verus! {

/// A runtime value: a scalar literal, a function, or an array.
pub enum Value {
    Literal(Literal),
    Function(Function),
    Array(Vec<Value>),
}

/// A declared function: it owns its body and carries no environment
/// (calls see their parameters only).
pub struct Function {
    pub name: String,
    pub params: Vec<String>,
    pub body: Box<Expr>,
}

pub enum SpecValue {
    Literal(SpecLiteral),
    Function(SpecFunction),
    Array(Seq<SpecValue>),
}

pub struct SpecFunction {
    pub name: Seq<char>,
    pub params: Seq<Seq<char>>,
    pub body: SpecExpr,
}

pub open spec fn strings_view(ss: Seq<String>) -> Seq<Seq<char>> {
    Seq::new(ss.len(), |i: int| ss[i]@)
}

impl View for Function {
    type V = SpecFunction;

    open spec fn view(&self) -> SpecFunction {
        SpecFunction {
            name: self.name@,
            params: strings_view(self.params@),
            body: expr_view(*self.body),
        }
    }
}

pub open spec fn value_view(v: Value) -> SpecValue
    decreases v,
{
    match v {
        Value::Literal(l) => SpecValue::Literal(l@),
        Value::Function(f) => SpecValue::Function(f@),
        Value::Array(vs) => SpecValue::Array(values_view(vs@)),
    }
}

pub open spec fn values_view(vs: Seq<Value>) -> Seq<SpecValue>
    decreases vs,
{
    if vs.len() == 0 {
        Seq::empty()
    } else {
        values_view(vs.drop_last()).push(value_view(vs.last()))
    }
}

impl View for Value {
    type V = SpecValue;

    open spec fn view(&self) -> SpecValue {
        value_view(*self)
    }
}

pub proof fn lemma_values_view(vs: Seq<Value>)
    ensures
        values_view(vs).len() == vs.len(),
        forall|i: int| 0 <= i < vs.len() ==> values_view(vs)[i] == value_view(#[trigger] vs[i]),
    decreases vs,
{
    if vs.len() > 0 {
        lemma_values_view(vs.drop_last());
        assert forall|i: int| 0 <= i < vs.len() implies values_view(vs)[i] == value_view(
            #[trigger] vs[i],
        ) by {
            if i < vs.len() - 1 {
                assert(vs.drop_last()[i] == vs[i]);
                assert(values_view(vs.drop_last())[i] == value_view(vs.drop_last()[i]));
            }
        }
    }
}

proof fn lemma_values_view_pointwise(a: Seq<Value>, b: Seq<Value>)
    requires
        a.len() == b.len(),
        forall|i: int| 0 <= i < a.len() ==> value_view(#[trigger] a[i]) == value_view(b[i]),
    ensures
        values_view(a) == values_view(b),
    decreases a,
{
    if a.len() == 0 {
        assert(values_view(a) =~= values_view(b));
    } else {
        lemma_values_view_pointwise(a.drop_last(), b.drop_last());
        assert(values_view(a) =~= values_view(b));
    }
}

fn clone_strings(ss: &Vec<String>) -> (r: Vec<String>)
    ensures
        strings_view(r@) == strings_view(ss@),
        r@.len() == ss@.len(),
{
    let mut out: Vec<String> = Vec::new();
    let n = ss.len();
    let mut i: usize = 0;
    while i < n
        invariant
            i <= n,
            n == ss@.len(),
            out@.len() == i as int,
            forall|j: int| 0 <= j < i ==> (#[trigger] out@[j])@ == ss@[j]@,
        decreases n - i,
    {
        let s = ss[i].clone();
        out.push(s);
        i = i + 1;
    }
    proof {
        assert(strings_view(out@) =~= strings_view(ss@));
    }
    out
}

impl Clone for Function {
    /// A structural copy: the image is unchanged.
    fn clone(&self) -> (r: Self)
        ensures
            r@ == self@,
    {
        Function {
            name: self.name.clone(),
            params: clone_strings(&self.params),
            body: Box::new((*self.body).clone()),
        }
    }
}

impl Clone for Value {
    /// A structural copy: the image is unchanged.
    fn clone(&self) -> (r: Self)
        ensures
            r@ == self@,
        decreases *self, 1int,
    {
        match self {
            Value::Literal(l) => Value::Literal(l.clone()),
            Value::Function(f) => Value::Function(f.clone()),
            Value::Array(vs) => Value::Array(clone_values(self, vs)),
        }
    }
}

/// Clones the elements of an `Array` value; `owner` is the array value
/// itself, passed so termination can follow the tree.
fn clone_values(owner: &Value, vs: &Vec<Value>) -> (r: Vec<Value>)
    requires
        owner matches Value::Array(v) && v@ == vs@,
    ensures
        r@.len() == vs@.len(),
        values_view(r@) == values_view(vs@),
    decreases *owner, 0int,
{
    let mut out: Vec<Value> = Vec::new();
    let n = vs.len();
    let mut i: usize = 0;
    while i < n
        invariant
            i <= n,
            n == vs@.len(),
            out@.len() == i as int,
            forall|j: int| 0 <= j < i ==> value_view(#[trigger] out@[j]) == value_view(vs@[j]),
        decreases n - i,
    {
        proof {
            let ghost this = *owner;
            let ghost kids = this->Array_0;
            assert(this == Value::Array(kids));
            assert(decreases_to!(this => kids));
            assert(decreases_to!(kids => kids@));
            assert(decreases_to!(kids@ => kids@[i as int]));
        }
        let c = vs[i].clone();
        out.push(c);
        i = i + 1;
    }
    proof {
        lemma_values_view_pointwise(out@, vs@);
    }
    out
}

/// Display form of a literal.
pub open spec fn lit_chars(l: SpecLiteral) -> Seq<char> {
    match l {
        SpecLiteral::String(s) => s,
        SpecLiteral::Number(m) => spec_num_chars(m),
        SpecLiteral::Boolean(b) => if b {
            seq!['t', 'r', 'u', 'e']
        } else {
            seq!['f', 'a', 'l', 's', 'e']
        },
        SpecLiteral::Nil => seq!['n', 'i', 'l'],
    }
}

/// Display form of a value: strings print raw, numbers in decimal,
/// arrays as `[e1, e2]`, functions as `<function NAME>`.
pub open spec fn value_chars(v: SpecValue) -> Seq<char>
    decreases v,
{
    match v {
        SpecValue::Literal(l) => lit_chars(l),
        SpecValue::Function(f) => seq!['<', 'f', 'u', 'n', 'c', 't', 'i', 'o', 'n', ' '] + f.name
            + seq!['>'],
        SpecValue::Array(es) => seq!['['] + values_chars_join(es) + seq![']'],
    }
}

/// Element display forms joined by `", "`.
pub open spec fn values_chars_join(es: Seq<SpecValue>) -> Seq<char>
    decreases es,
{
    if es.len() == 0 {
        Seq::empty()
    } else if es.len() == 1 {
        value_chars(es[0])
    } else {
        values_chars_join(es.drop_last()) + seq![',', ' '] + value_chars(es.last())
    }
}

fn append_chars(out: &mut Vec<char>, cs: &Vec<char>)
    ensures
        final(out)@ == old(out)@ + cs@,
{
    let n = cs.len();
    let mut i: usize = 0;
    while i < n
        invariant
            i <= n,
            n == cs@.len(),
            out@ == old(out)@ + cs@.take(i as int),
        decreases n - i,
    {
        out.push(cs[i]);
        proof {
            assert(cs@.take(i + 1) =~= cs@.take(i as int).push(cs@[i as int]));
        }
        i = i + 1;
    }
    proof {
        assert(cs@.take(n as int) =~= cs@);
    }
}

fn push_value_chars(out: &mut Vec<char>, v: &Value)
    ensures
        final(out)@ == old(out)@ + value_chars(v@),
    decreases *v, 1int,
{
    match v {
        Value::Literal(l) => {
            match l {
                Literal::String(s) => {
                    let cs = str_to_chars(s.as_str());
                    append_chars(out, &cs);
                },
                Literal::Number(n) => {
                    let cs = n.to_chars();
                    append_chars(out, &cs);
                },
                Literal::Boolean(b) => {
                    if *b {
                        out.push('t');
                        out.push('r');
                        out.push('u');
                        out.push('e');
                    } else {
                        out.push('f');
                        out.push('a');
                        out.push('l');
                        out.push('s');
                        out.push('e');
                    }
                    proof {
                        assert(out@ =~= old(out)@ + value_chars(v@));
                    }
                },
                Literal::Nil => {
                    out.push('n');
                    out.push('i');
                    out.push('l');
                    proof {
                        assert(out@ =~= old(out)@ + value_chars(v@));
                    }
                },
            }
        },
        Value::Function(f) => {
            out.push('<');
            out.push('f');
            out.push('u');
            out.push('n');
            out.push('c');
            out.push('t');
            out.push('i');
            out.push('o');
            out.push('n');
            out.push(' ');
            let cs = str_to_chars(f.name.as_str());
            append_chars(out, &cs);
            out.push('>');
            proof {
                assert(out@ =~= old(out)@ + value_chars(v@));
            }
        },
        Value::Array(vs) => {
            out.push('[');
            let ghost base = out@;
            let ghost elems = values_view(vs@);
            proof {
                lemma_values_view(vs@);
            }
            let n = vs.len();
            let mut i: usize = 0;
            while i < n
                invariant
                    i <= n,
                    n == vs@.len(),
                    elems == values_view(vs@),
                    elems.len() == n,
                    forall|j: int|
                        0 <= j < n ==> elems[j] == value_view(#[trigger] vs@[j]),
                    out@ == base + values_chars_join(elems.take(i as int)),
                decreases n - i,
            {
                if i > 0 {
                    out.push(',');
                    out.push(' ');
                }
                proof {
                    let ghost this = *v;
                    let ghost kids = this->Array_0;
                    assert(this == Value::Array(kids));
                    assert(decreases_to!(this => kids));
                    assert(decreases_to!(kids => kids@));
                    assert(decreases_to!(kids@ => kids@[i as int]));
                }
                push_value_chars(out, &vs[i]);
                proof {
                    let t = elems.take(i + 1);
                    assert(t.drop_last() =~= elems.take(i as int));
                    assert(t.last() == elems[i as int]);
                    if i == 0 {
                        assert(values_chars_join(t) == value_chars(elems[0]));
                    }
                    assert(out@ == base + values_chars_join(elems.take(i + 1)));
                }
                i = i + 1;
            }
            out.push(']');
            proof {
                assert(elems.take(n as int) =~= elems);
                assert(out@ =~= old(out)@ + value_chars(v@));
            }
        },
    }
}

impl Value {
    /// The display form of this value.
    pub fn to_string(&self) -> (s: String)
        ensures
            s@ == value_chars(self@),
    {
        let mut out: Vec<char> = Vec::new();
        push_value_chars(&mut out, self);
        chars_to_string(&out)
    }
}

/// One generation of name-to-value bindings, keyed uniquely.
pub struct Environment {
    values: Vec<(String, Value)>,
}

/// The map an association list denotes; later entries would win, and
/// the environment keeps keys unique.
pub open spec fn assoc_map(s: Seq<(String, Value)>) -> Map<Seq<char>, SpecValue>
    decreases s,
{
    if s.len() == 0 {
        Map::empty()
    } else {
        assoc_map(s.drop_last()).insert(s.last().0@, value_view(s.last().1))
    }
}

impl View for Environment {
    type V = Map<Seq<char>, SpecValue>;

    closed spec fn view(&self) -> Map<Seq<char>, SpecValue> {
        assoc_map(self.values@)
    }
}

proof fn lemma_assoc_contains(s: Seq<(String, Value)>, k: Seq<char>)
    ensures
        assoc_map(s).contains_key(k) <==> exists|i: int| 0 <= i < s.len() && (#[trigger] s[i]).0@
            == k,
    decreases s,
{
    if s.len() > 0 {
        lemma_assoc_contains(s.drop_last(), k);
        if s.last().0@ == k {
            assert(s[s.len() - 1].0@ == k);
        } else if assoc_map(s).contains_key(k) {
            let i = choose|i: int| 0 <= i < s.drop_last().len() && (#[trigger] s.drop_last()[i]).0@
                == k;
            assert(s[i].0@ == k);
        } else {
            if exists|i: int| 0 <= i < s.len() && (#[trigger] s[i]).0@ == k {
                let i = choose|i: int| 0 <= i < s.len() && (#[trigger] s[i]).0@ == k;
                assert(i < s.len() - 1);
                assert(s.drop_last()[i].0@ == k);
                assert(false);
            }
        }
    }
}

spec fn unique_keys(s: Seq<(String, Value)>) -> bool {
    forall|i: int, j: int|
        0 <= i < j < s.len() ==> (#[trigger] s[i]).0@ != (#[trigger] s[j]).0@
}

proof fn lemma_assoc_index(s: Seq<(String, Value)>, i: int)
    requires
        unique_keys(s),
        0 <= i < s.len(),
    ensures
        assoc_map(s).contains_key(s[i].0@),
        assoc_map(s)[s[i].0@] == value_view(s[i].1),
    decreases s,
{
    if i == s.len() - 1 {
    } else {
        assert(unique_keys(s.drop_last()));
        lemma_assoc_index(s.drop_last(), i);
        assert(s.drop_last()[i] == s[i]);
        assert(s.last().0@ != s[i].0@);
    }
}

proof fn lemma_assoc_update(s: Seq<(String, Value)>, i: int, x: (String, Value))
    requires
        unique_keys(s),
        0 <= i < s.len(),
        s[i].0@ == x.0@,
    ensures
        assoc_map(s.update(i, x)) =~= assoc_map(s).insert(x.0@, value_view(x.1)),
        unique_keys(s.update(i, x)),
    decreases s,
{
    let su = s.update(i, x);
    assert(su.len() == s.len());
    if i == s.len() - 1 {
        assert(su.drop_last() =~= s.drop_last());
        assert(su.last() == x);
        assert(assoc_map(su) == assoc_map(s.drop_last()).insert(x.0@, value_view(x.1)));
        assert(assoc_map(su) =~= assoc_map(s).insert(x.0@, value_view(x.1)));
    } else {
        assert(unique_keys(s.drop_last()));
        assert(s.drop_last()[i] == s[i]);
        lemma_assoc_update(s.drop_last(), i, x);
        assert(su.drop_last() =~= s.drop_last().update(i, x));
        assert(su.last() == s.last());
        assert(s.last().0@ != x.0@);
        assert(assoc_map(su) =~= assoc_map(s).insert(x.0@, value_view(x.1)));
    }
}

impl Environment {
    /// Keys are pairwise distinct.
    pub closed spec fn wf(&self) -> bool {
        unique_keys(self.values@)
    }

    pub fn new() -> (r: Environment)
        ensures
            r.wf(),
            r@ == Map::<Seq<char>, SpecValue>::empty(),
    {
        Environment { values: Vec::new() }
    }

    /// Insert or overwrite unconditionally.
    pub fn define(&mut self, name: String, value: Value)
        requires
            old(self).wf(),
        ensures
            final(self).wf(),
            final(self)@ == old(self)@.insert(name@, value@),
    {
        let n = self.values.len();
        let mut i: usize = 0;
        while i < n
            invariant
                i <= n,
                n == self.values@.len(),
                self.values@ == old(self).values@,
                forall|j: int| 0 <= j < i ==> (#[trigger] self.values@[j]).0@ != name@,
            decreases n - i,
        {
            if self.values[i].0 == name {
                proof {
                    lemma_assoc_update(self.values@, i as int, (name, value));
                }
                self.values.set(i, (name, value));
                return ;
            }
            i = i + 1;
        }
        proof {
            assert(self.values@.push((name, value)).drop_last() =~= self.values@);
            assert(unique_keys(self.values@.push((name, value))));
        }
        self.values.push((name, value));
    }

    /// The bound value, if the name is bound.
    pub fn get(&self, name: &String) -> (r: Option<Value>)
        requires
            self.wf(),
        ensures
            match r {
                Some(v) => self@.contains_key(name@) && v@ == self@[name@],
                None => !self@.contains_key(name@),
            },
    {
        let n = self.values.len();
        let mut i: usize = 0;
        while i < n
            invariant
                i <= n,
                n == self.values@.len(),
                forall|j: int| 0 <= j < i ==> (#[trigger] self.values@[j]).0@ != name@,
            decreases n - i,
        {
            if self.values[i].0 == *name {
                proof {
                    lemma_assoc_index(self.values@, i as int);
                }
                return Some(self.values[i].1.clone());
            }
            i = i + 1;
        }
        proof {
            lemma_assoc_contains(self.values@, name@);
        }
        None
    }

    /// Overwrite an existing binding; an unbound name is an error, so
    /// assignment never declares.
    pub fn assign(&mut self, name: &String, value: Value) -> (r: Result<(), ()>)
        requires
            old(self).wf(),
        ensures
            final(self).wf(),
            match r {
                Ok(()) => old(self)@.contains_key(name@) && final(self)@ == old(self)@.insert(
                    name@,
                    value@,
                ),
                Err(()) => !old(self)@.contains_key(name@) && final(self)@ == old(self)@,
            },
    {
        let n = self.values.len();
        let mut i: usize = 0;
        while i < n
            invariant
                i <= n,
                n == self.values@.len(),
                self.values@ == old(self).values@,
                forall|j: int| 0 <= j < i ==> (#[trigger] self.values@[j]).0@ != name@,
            decreases n - i,
        {
            if self.values[i].0 == *name {
                let key = name.clone();
                proof {
                    lemma_assoc_index(self.values@, i as int);
                    lemma_assoc_update(self.values@, i as int, (key, value));
                }
                self.values.set(i, (key, value));
                return Ok(());
            }
            i = i + 1;
        }
        proof {
            lemma_assoc_contains(self.values@, name@);
        }
        Err(())
    }
}

} // verus!
