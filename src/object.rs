//! Runtime objects, the executable counterpart of [`Value`].

use std::rc::Rc;
use vstd::prelude::*;
use crate::ast::Statement;
use crate::value::{Builtin, KeyV, Value};

verus! {

/// A hash key: the comparable form of an integer, boolean or string.
#[derive(Debug, PartialEq)]
pub enum HashKey {
    Integer(i32),
    Boolean(bool),
    String(String),
}

/// One entry of a hash.
#[derive(Debug, PartialEq)]
pub struct HashPair {
    pub key: HashKey,
    pub value: Object,
}

/// A runtime object.
#[derive(Debug, PartialEq)]
pub enum Object {
    Integer(i32),
    Boolean(bool),
    String(String),
    Null,
    ReturnValue(Box<Object>),
    Error(String),
    /// Parameter names, body, and the index of the captured frame in the environment.
    Function(Vec<String>, Rc<Vec<Statement>>, usize),
    Builtin(Builtin),
    Array(Vec<Object>),
    Hash(Vec<HashPair>),
}

pub open spec fn names_view(s: Seq<String>) -> Seq<Seq<char>> {
    s.map_values(|n: String| n@)
}

impl HashKey {
    pub open spec fn view(&self) -> KeyV {
        match self {
            HashKey::Integer(i) => KeyV::Integer(*i),
            HashKey::Boolean(b) => KeyV::Boolean(*b),
            HashKey::String(s) => KeyV::String(s@),
        }
    }

    pub fn copy(&self) -> (r: HashKey)
        ensures
            r@ == self@,
    {
        match self {
            HashKey::Integer(i) => HashKey::Integer(*i),
            HashKey::Boolean(b) => HashKey::Boolean(*b),
            HashKey::String(s) => HashKey::String(s.clone()),
        }
    }

    /// Whether two keys are the same key.
    pub fn same(&self, other: &HashKey) -> (r: bool)
        ensures
            r == (self@ == other@),
    {
        match (self, other) {
            (HashKey::Integer(a), HashKey::Integer(b)) => *a == *b,
            (HashKey::Boolean(a), HashKey::Boolean(b)) => *a == *b,
            (HashKey::String(a), HashKey::String(b)) => a.eq(b),
            _ => false,
        }
    }

    /// The object that this key was made from.
    pub fn to_object(&self) -> (r: Object)
        ensures
            r@ == crate::value::key_value(self@),
    {
        match self {
            HashKey::Integer(i) => Object::Integer(*i),
            HashKey::Boolean(b) => Object::Boolean(*b),
            HashKey::String(s) => Object::String(s.clone()),
        }
    }
}

pub open spec fn objects_view(s: Seq<Object>) -> Seq<Value>
    decreases s,
{
    if s.len() == 0 {
        Seq::empty()
    } else {
        objects_view(s.subrange(0, s.len() - 1)).push(s[s.len() - 1].view())
    }
}

pub open spec fn pairs_view(s: Seq<HashPair>) -> Seq<(KeyV, Value)>
    decreases s,
{
    if s.len() == 0 {
        Seq::empty()
    } else {
        pairs_view(s.subrange(0, s.len() - 1)).push(
            (s[s.len() - 1].key@, s[s.len() - 1].value.view()),
        )
    }
}

/// The model of a growing prefix of objects grows by one element.
pub proof fn lemma_objects_view_step(s: Seq<Object>, i: int)
    requires
        0 <= i < s.len(),
    ensures
        objects_view(s.subrange(0, i + 1)) == objects_view(s.subrange(0, i)).push(s[i].view()),
        objects_view(s.subrange(0, i + 1)).len() == i + 1,
{
    assert(s.subrange(0, i + 1).subrange(0, i) =~= s.subrange(0, i));
    lemma_objects_view_len(s.subrange(0, i + 1));
}

pub proof fn lemma_objects_view_len(s: Seq<Object>)
    ensures
        objects_view(s).len() == s.len(),
    decreases s.len(),
{
    if s.len() > 0 {
        lemma_objects_view_len(s.subrange(0, s.len() - 1));
    }
}

/// The model of a growing prefix of entries grows by one entry.
pub proof fn lemma_pairs_view_step(s: Seq<HashPair>, i: int)
    requires
        0 <= i < s.len(),
    ensures
        pairs_view(s.subrange(0, i + 1)) == pairs_view(s.subrange(0, i)).push((s[i].key@, s[i].value.view())),
        pairs_view(s.subrange(0, i + 1)).len() == i + 1,
{
    assert(s.subrange(0, i + 1).subrange(0, i) =~= s.subrange(0, i));
    lemma_pairs_view_len(s.subrange(0, i + 1));
}

pub proof fn lemma_pairs_view_len(s: Seq<HashPair>)
    ensures
        pairs_view(s).len() == s.len(),
    decreases s.len(),
{
    if s.len() > 0 {
        lemma_pairs_view_len(s.subrange(0, s.len() - 1));
    }
}

/// The model of a sequence of objects is taken element by element.
pub proof fn lemma_objects_view_index(s: Seq<Object>)
    ensures
        objects_view(s).len() == s.len(),
        forall|i: int| 0 <= i < s.len() ==> #[trigger] objects_view(s)[i] == s[i].view(),
    decreases s.len(),
{
    if s.len() > 0 {
        lemma_objects_view_index(s.subrange(0, s.len() - 1));
    }
}

/// The model of a sequence of entries is taken entry by entry.
pub proof fn lemma_pairs_view_index(s: Seq<HashPair>)
    ensures
        pairs_view(s).len() == s.len(),
        forall|i: int| 0 <= i < s.len() ==> #[trigger] pairs_view(s)[i] == (s[i].key@, s[i].value.view()),
    decreases s.len(),
{
    if s.len() > 0 {
        lemma_pairs_view_index(s.subrange(0, s.len() - 1));
    }
}

/// Equal element models give equal sequence models.
pub proof fn lemma_objects_view_ext(a: Seq<Object>, b: Seq<Value>)
    requires
        a.len() == b.len(),
        forall|i: int| 0 <= i < a.len() ==> a[i].view() == b[i],
    ensures
        objects_view(a) == b,
{
    lemma_objects_view_index(a);
    assert(objects_view(a) =~= b);
}

impl Object {
    pub open spec fn view(&self) -> Value
        decreases self,
    {
        match self {
            Object::Integer(i) => Value::Integer(*i),
            Object::Boolean(b) => Value::Boolean(*b),
            Object::String(s) => Value::String(s@),
            Object::Null => Value::Null,
            Object::ReturnValue(b) => Value::ReturnValue(Box::new(b.view())),
            Object::Error(m) => Value::Error(m@),
            Object::Function(ps, body, env) => Value::Function(names_view(ps@), *body, *env as nat),
            Object::Builtin(b) => Value::Builtin(*b),
            Object::Array(v) => Value::Array(objects_view(v@)),
            Object::Hash(v) => Value::Hash(pairs_view(v@)),
        }
    }
}

impl Object {
    /// A copy of this object with the same model; a function's body stays shared.
    pub fn copy(&self) -> (r: Object)
        ensures
            r@ == self@,
        decreases self,
    {
        match self {
            Object::Integer(i) => Object::Integer(*i),
            Object::Boolean(b) => Object::Boolean(*b),
            Object::String(s) => Object::String(s.clone()),
            Object::Null => Object::Null,
            Object::ReturnValue(b) => Object::ReturnValue(Box::new((**b).copy())),
            Object::Error(m) => Object::Error(m.clone()),
            Object::Function(ps, body, env) => Object::Function(copy_names(ps), Rc::clone(body), *env),
            Object::Builtin(b) => Object::Builtin(*b),
            Object::Array(v) => Object::Array(copy_objects(v)),
            Object::Hash(v) => Object::Hash(copy_pairs(v)),
        }
    }
}

pub fn copy_names(v: &Vec<String>) -> (r: Vec<String>)
    ensures
        names_view(r@) == names_view(v@),
{
    let mut r: Vec<String> = Vec::new();
    let mut i: usize = 0;
    while i < v.len()
        invariant
            i <= v.len(),
            r.len() == i,
            forall|j: int| 0 <= j < i ==> r@[j]@ == v@[j]@,
        decreases v.len() - i,
    {
        r.push(v[i].clone());
        i = i + 1;
    }
    assert(names_view(r@) =~= names_view(v@));
    r
}

pub fn copy_objects(v: &Vec<Object>) -> (r: Vec<Object>)
    ensures
        objects_view(r@) == objects_view(v@),
    decreases v,
{
    let mut r: Vec<Object> = Vec::new();
    let mut i: usize = 0;
    while i < v.len()
        invariant
            i <= v.len(),
            objects_view(r@) == objects_view(v@.subrange(0, i as int)),
        decreases v.len() - i,
    {
        proof {
            broadcast use vstd::std_specs::vec::axiom_vec_index_decreases;
        }
        let c = v[i].copy();
        proof {
            assert(r@.push(c).subrange(0, r@.len() as int) =~= r@);
            assert(v@.subrange(0, i + 1).subrange(0, i as int) =~= v@.subrange(0, i as int));
        }
        r.push(c);
        i = i + 1;
    }
    assert(v@.subrange(0, v.len() as int) =~= v@);
    r
}

pub fn copy_pairs(v: &Vec<HashPair>) -> (r: Vec<HashPair>)
    ensures
        pairs_view(r@) == pairs_view(v@),
    decreases v,
{
    let mut r: Vec<HashPair> = Vec::new();
    let mut i: usize = 0;
    while i < v.len()
        invariant
            i <= v.len(),
            pairs_view(r@) == pairs_view(v@.subrange(0, i as int)),
        decreases v.len() - i,
    {
        proof {
            broadcast use vstd::std_specs::vec::axiom_vec_index_decreases;
        }
        let c = HashPair { key: v[i].key.copy(), value: v[i].value.copy() };
        proof {
            assert(r@.push(c).subrange(0, r@.len() as int) =~= r@);
            assert(v@.subrange(0, i + 1).subrange(0, i as int) =~= v@.subrange(0, i as int));
        }
        r.push(c);
        i = i + 1;
    }
    assert(v@.subrange(0, v.len() as int) =~= v@);
    r
}

} // verus!
