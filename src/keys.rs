//! The order of hash keys, and the shape of the entries that hash literals build.

use vstd::prelude::*;
use crate::ast::Expression;
use crate::environment::State;
use crate::semantics::{
    entry_index, entry_put, eval_pairs, insert_pos, key_lt, lemma_entry_index, lemma_insert_pos, text_lt,
};
use crate::value::{KeyV, Value, key_of};

verus! {

/// Entries whose keys strictly increase, and so are pairwise distinct.
pub open spec fn strictly_ordered(es: Seq<(KeyV, Value)>) -> bool {
    forall|i: int, j: int| 0 <= i < j < es.len() ==> key_lt(#[trigger] es[i].0, #[trigger] es[j].0)
}

/// No text comes before itself.
pub proof fn lemma_text_lt_irreflexive(a: Seq<char>)
    ensures
        !text_lt(a, a),
    decreases a.len(),
{
    if a.len() > 0 {
        lemma_text_lt_irreflexive(a.drop_first());
    }
}

/// Of two different texts, one comes before the other.
pub proof fn lemma_text_lt_total(a: Seq<char>, b: Seq<char>)
    requires
        a != b,
    ensures
        text_lt(a, b) || text_lt(b, a),
    decreases a.len(),
{
    if a.len() > 0 && b.len() > 0 {
        if a[0] == b[0] {
            if a.drop_first() == b.drop_first() {
                assert(a.len() == b.len()) by {
                    assert(a.drop_first().len() == b.drop_first().len());
                }
                assert(a =~= b) by {
                    assert forall|i: int| 0 <= i < a.len() implies a[i] == b[i] by {
                        if i > 0 {
                            assert(a[i] == a.drop_first()[i - 1]);
                            assert(b[i] == b.drop_first()[i - 1]);
                        }
                    }
                }
            }
            lemma_text_lt_total(a.drop_first(), b.drop_first());
        } else {
        }
    } else if a.len() == 0 && b.len() == 0 {
        assert(a =~= b);
    }
}

/// The order of texts is transitive.
pub proof fn lemma_text_lt_transitive(a: Seq<char>, b: Seq<char>, c: Seq<char>)
    requires
        text_lt(a, b),
        text_lt(b, c),
    ensures
        text_lt(a, c),
    decreases a.len(),
{
    if a.len() > 0 && b.len() > 0 && c.len() > 0 && a[0] == b[0] && b[0] == c[0] {
        lemma_text_lt_transitive(a.drop_first(), b.drop_first(), c.drop_first());
    }
}

/// The order of keys is a strict total order.
pub proof fn lemma_key_order(a: KeyV, b: KeyV, c: KeyV)
    ensures
        !key_lt(a, a),
        a != b ==> key_lt(a, b) || key_lt(b, a),
        key_lt(a, b) && key_lt(b, c) ==> key_lt(a, c),
{
    if let KeyV::String(x) = a {
        lemma_text_lt_irreflexive(x);
        if let KeyV::String(y) = b {
            if x != y {
                lemma_text_lt_total(x, y);
            }
            if let KeyV::String(z) = c {
                if text_lt(x, y) && text_lt(y, z) {
                    lemma_text_lt_transitive(x, y, z);
                }
            }
        }
    }
}

proof fn lemma_insert_pos_ordered(es: Seq<(KeyV, Value)>, k: KeyV)
    requires
        strictly_ordered(es),
        forall|i: int| 0 <= i < es.len() ==> es[i].0 != k,
    ensures
        forall|i: int| 0 <= i < insert_pos(es, k) ==> key_lt(#[trigger] es[i].0, k),
        forall|i: int| insert_pos(es, k) <= i < es.len() ==> key_lt(k, #[trigger] es[i].0),
    decreases es.len(),
{
    lemma_insert_pos(es, k);
    if es.len() > 0 {
        let last = es.last().0;
        lemma_key_order(k, last, k);
        if key_lt(k, last) {
            let d = es.drop_last();
            assert(strictly_ordered(d)) by {
                assert forall|i: int, j: int| 0 <= i < j < d.len() implies key_lt(#[trigger] d[i].0, #[trigger] d[j].0) by {
                    assert(d[i] == es[i] && d[j] == es[j]);
                }
            }
            lemma_insert_pos_ordered(d, k);
            lemma_insert_pos(d, k);
            assert(insert_pos(es, k) == insert_pos(d, k));
            assert forall|i: int| 0 <= i < insert_pos(es, k) implies key_lt(#[trigger] es[i].0, k) by {
                assert(es[i] == d[i]);
            }
            assert forall|i: int| insert_pos(es, k) <= i < es.len() implies key_lt(k, #[trigger] es[i].0) by {
                if i < es.len() - 1 {
                    assert(es[i] == d[i]);
                }
            }
        } else {
            assert(insert_pos(es, k) == es.len());
            assert(es[es.len() - 1].0 != k);
            assert(key_lt(last, k));
            assert forall|i: int| 0 <= i < insert_pos(es, k) implies key_lt(#[trigger] es[i].0, k) by {
                if i < es.len() - 1 {
                    assert(key_lt(es[i].0, es[es.len() - 1].0));
                    lemma_key_order(es[i].0, last, k);
                }
            }
        }
    }
}

/// Storing a key keeps the entries strictly ordered.
pub proof fn lemma_entry_put_ordered(es: Seq<(KeyV, Value)>, k: KeyV, v: Value)
    requires
        strictly_ordered(es),
    ensures
        strictly_ordered(entry_put(es, k, v)),
{
    lemma_entry_index(es, k);
    match entry_index(es, k) {
        Some(i) => {
            let r = es.update(i, (k, v));
            assert forall|a: int, b: int| 0 <= a < b < r.len() implies key_lt(#[trigger] r[a].0, #[trigger] r[b].0) by {
                assert(r[a].0 == es[a].0 && r[b].0 == es[b].0);
            }
        },
        None => {
            lemma_insert_pos_ordered(es, k);
            lemma_insert_pos(es, k);
            let p = insert_pos(es, k);
            let r = es.insert(p, (k, v));
            assert forall|a: int, b: int| 0 <= a < b < r.len() implies key_lt(#[trigger] r[a].0, #[trigger] r[b].0) by {
                if a < p && b == p {
                } else if a == p {
                    assert(r[b] == es[b - 1]);
                } else if b < p {
                } else if a < p {
                    assert(r[b] == es[b - 1]);
                    lemma_key_order(es[a].0, k, es[b - 1].0);
                } else {
                    assert(r[a] == es[a - 1] && r[b] == es[b - 1]);
                }
            }
        },
    }
}

proof fn lemma_pairs_ordered(ps: Seq<(Expression, Expression)>, acc: Seq<(KeyV, Value)>, env: nat, st: State, fuel: nat)
    requires
        strictly_ordered(acc),
    ensures
        eval_pairs(ps, acc, env, st, fuel).0 matches Ok(es) ==> strictly_ordered(es),
    decreases ps.len(),
{
    if ps.len() > 0 {
        let (kr, st1) = crate::semantics::eval_expr(ps[0].0, env, st, fuel);
        if let Ok(kv) = kr {
            if let Some(k) = key_of(kv) {
                let (vr, st2) = crate::semantics::eval_expr(ps[0].1, env, st1, fuel);
                if let Ok(v) = vr {
                    lemma_entry_put_ordered(acc, k, v);
                    lemma_pairs_ordered(ps.subrange(1, ps.len() as int), entry_put(acc, k, v), env, st2, fuel);
                }
            }
        }
    }
}

/// A hash literal's entries have pairwise distinct keys, in strictly
/// increasing key order, whatever order its pairs were written in.
pub proof fn law_hash_literal_ordered(ps: Seq<(Expression, Expression)>, env: nat, st: State, fuel: nat)
    ensures
        eval_pairs(ps, Seq::empty(), env, st, fuel).0 matches Ok(es) ==> strictly_ordered(es),
{
    lemma_pairs_ordered(ps, Seq::empty(), env, st, fuel);
}

} // verus!
