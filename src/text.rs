//! Decimal numerals and the printed form of values.

use vstd::prelude::*;
use crate::object::{HashKey, HashPair, Object, objects_view, pairs_view};
use crate::value::{KeyV, Value};

verus! {

/// The numeral of one decimal digit.
pub open spec fn digit_text(d: nat) -> Seq<char> {
    if d == 0 { "0"@ }
    else if d == 1 { "1"@ }
    else if d == 2 { "2"@ }
    else if d == 3 { "3"@ }
    else if d == 4 { "4"@ }
    else if d == 5 { "5"@ }
    else if d == 6 { "6"@ }
    else if d == 7 { "7"@ }
    else if d == 8 { "8"@ }
    else { "9"@ }
}

/// The decimal numeral of a natural number, without leading zeros.
pub open spec fn nat_text(n: nat) -> Seq<char>
    decreases n,
{
    if n < 10 {
        digit_text(n)
    } else {
        nat_text(n / 10) + digit_text(n % 10)
    }
}

/// The decimal numeral of an integer, with a leading `-` when negative.
pub open spec fn int_text(n: int) -> Seq<char> {
    if n < 0 {
        "-"@ + nat_text((-n) as nat)
    } else {
        nat_text(n as nat)
    }
}

fn append_digit(s: &mut String, d: u64)
    requires
        d < 10,
    ensures
        final(s)@ == old(s)@ + digit_text(d as nat),
{
    if d == 0 { s.append("0") }
    else if d == 1 { s.append("1") }
    else if d == 2 { s.append("2") }
    else if d == 3 { s.append("3") }
    else if d == 4 { s.append("4") }
    else if d == 5 { s.append("5") }
    else if d == 6 { s.append("6") }
    else if d == 7 { s.append("7") }
    else if d == 8 { s.append("8") }
    else { s.append("9") }
}

/// Appends the numeral of `n`.
pub fn append_nat(s: &mut String, n: u64)
    ensures
        final(s)@ == old(s)@ + nat_text(n as nat),
    decreases n,
{
    if n < 10 {
        append_digit(s, n);
    } else {
        append_nat(s, n / 10);
        append_digit(s, n % 10);
        assert(final(s)@ =~= old(s)@ + nat_text(n as nat));
    }
}

/// Appends the numeral of `n`.
pub fn append_int(s: &mut String, n: i32)
    ensures
        final(s)@ == old(s)@ + int_text(n as int),
{
    if n < 0 {
        s.append("-");
        let m: i64 = -(n as i64);
        append_nat(s, m as u64);
        assert(final(s)@ =~= old(s)@ + int_text(n as int));
    } else {
        append_nat(s, n as u64);
    }
}

/// The printed form of a value: integers in decimal, strings unquoted,
/// arrays as `[a, b]`, hashes as `{k: v}`, errors as `ERROR: message`.
pub open spec fn show(v: Value) -> Seq<char>
    decreases v,
{
    match v {
        Value::Integer(i) => int_text(i as int),
        Value::Boolean(b) => if b { "true"@ } else { "false"@ },
        Value::String(s) => s,
        Value::Null => "null"@,
        Value::ReturnValue(b) => show(*b),
        Value::Error(m) => "ERROR: "@ + m,
        Value::Function(..) => "fn(...) { ... }"@,
        Value::Builtin(_) => "builtin function"@,
        Value::Array(vs) => "["@ + show_list(vs) + "]"@,
        Value::Hash(es) => "{"@ + show_entries(es) + "}"@,
    }
}

/// The printed form of a key, the same as that of the value it was made from.
pub open spec fn show_key(k: KeyV) -> Seq<char> {
    match k {
        KeyV::Integer(i) => int_text(i as int),
        KeyV::Boolean(b) => if b { "true"@ } else { "false"@ },
        KeyV::String(s) => s,
    }
}

impl HashKey {
    /// Appends the printed form of this key.
    pub fn write_to(&self, s: &mut String)
        ensures
            final(s)@ == old(s)@ + show_key(self@),
    {
        match self {
            HashKey::Integer(i) => append_int(s, *i),
            HashKey::Boolean(b) => if *b { s.append("true") } else { s.append("false") },
            HashKey::String(t) => s.append(t.as_str()),
        }
    }
}

/// The printed elements, separated by `, `.
pub open spec fn show_list(vs: Seq<Value>) -> Seq<char>
    decreases vs,
{
    if vs.len() == 0 {
        Seq::empty()
    } else if vs.len() == 1 {
        show(vs[0])
    } else {
        show_list(vs.subrange(0, vs.len() - 1)) + ", "@ + show(vs[vs.len() - 1])
    }
}

/// The printed entries `key: value`, separated by `, `.
pub open spec fn show_entries(es: Seq<(KeyV, Value)>) -> Seq<char>
    decreases es,
{
    if es.len() == 0 {
        Seq::empty()
    } else {
        let last = es[es.len() - 1];
        let item = show_key(last.0) + ": "@ + show(last.1);
        if es.len() == 1 {
            item
        } else {
            show_entries(es.subrange(0, es.len() - 1)) + ", "@ + item
        }
    }
}

impl Object {
    /// Appends the printed form of this object.
    pub fn write_to(&self, s: &mut String)
        ensures
            final(s)@ == old(s)@ + show(self@),
        decreases self,
    {
        match self {
            Object::Integer(i) => append_int(s, *i),
            Object::Boolean(b) => if *b { s.append("true") } else { s.append("false") },
            Object::String(t) => s.append(t.as_str()),
            Object::Null => s.append("null"),
            Object::ReturnValue(b) => (**b).write_to(s),
            Object::Error(m) => {
                s.append("ERROR: ");
                s.append(m.as_str());
                assert(final(s)@ =~= old(s)@ + show(self@));
            },
            Object::Function(..) => s.append("fn(...) { ... }"),
            Object::Builtin(_) => s.append("builtin function"),
            Object::Array(vs) => {
                s.append("[");
                write_list(vs, s);
                s.append("]");
                assert(final(s)@ =~= old(s)@ + show(self@));
            },
            Object::Hash(es) => {
                s.append("{");
                write_entries(es, s);
                s.append("}");
                assert(final(s)@ =~= old(s)@ + show(self@));
            },
        }
    }

    /// The printed form of this object.
    pub fn inspect(&self) -> (r: String)
        ensures
            r@ == show(self@),
    {
        let mut s = String::new();
        self.write_to(&mut s);
        assert(s@ =~= show(self@));
        s
    }
}

fn write_list(vs: &Vec<Object>, s: &mut String)
    ensures
        final(s)@ == old(s)@ + show_list(objects_view(vs@)),
    decreases vs,
{
    let mut i: usize = 0;
    while i < vs.len()
        invariant
            i <= vs.len(),
            s@ == old(s)@ + show_list(objects_view(vs@.subrange(0, i as int))),
        decreases vs.len() - i,
    {
        proof {
            broadcast use vstd::std_specs::vec::axiom_vec_index_decreases;
            crate::object::lemma_objects_view_step(vs@, i as int);
            let ov = objects_view(vs@.subrange(0, i as int));
            let nv = objects_view(vs@.subrange(0, i + 1));
            assert(nv.subrange(0, i as int) =~= ov);
            if i == 0 {
                assert(vs@.subrange(0, 0) =~= Seq::<Object>::empty());
            }
        }
        if i > 0 {
            s.append(", ");
        }
        vs[i].write_to(s);
        i = i + 1;
        proof {
            let sub = vs@.subrange(0, i as int);
            assert(s@ =~= old(s)@ + show_list(objects_view(sub)));
        }
    }
    assert(vs@.subrange(0, vs.len() as int) =~= vs@);
}

fn write_entries(es: &Vec<HashPair>, s: &mut String)
    ensures
        final(s)@ == old(s)@ + show_entries(pairs_view(es@)),
    decreases es,
{
    let mut i: usize = 0;
    while i < es.len()
        invariant
            i <= es.len(),
            s@ == old(s)@ + show_entries(pairs_view(es@.subrange(0, i as int))),
        decreases es.len() - i,
    {
        proof {
            broadcast use vstd::std_specs::vec::axiom_vec_index_decreases;
            crate::object::lemma_pairs_view_step(es@, i as int);
            let ov = pairs_view(es@.subrange(0, i as int));
            let nv = pairs_view(es@.subrange(0, i + 1));
            assert(nv.subrange(0, i as int) =~= ov);
            if i == 0 {
                assert(es@.subrange(0, 0) =~= Seq::<HashPair>::empty());
            }
        }
        if i > 0 {
            s.append(", ");
        }
        es[i].key.write_to(s);
        s.append(": ");
        es[i].value.write_to(s);
        i = i + 1;
        proof {
            let sub = es@.subrange(0, i as int);
            assert(s@ =~= old(s)@ + show_entries(pairs_view(sub)));
        }
    }
    assert(es@.subrange(0, es.len() as int) =~= es@);
}

} // verus!
