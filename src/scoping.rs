//! Frame discipline: evaluation in a frame writes only that frame and frames
//! it creates, so a function call leaves every binding of its caller intact.

use vstd::prelude::*;
use crate::ast::{Expression, Statement};
use crate::environment::{State, enclose, find_binding, lookup};
use crate::semantics::{
    apply_outcome, bind_params, entry_put, eval_block, eval_block_from, eval_expr,
    eval_exprs, eval_pairs, eval_stmt,
};
use crate::value::{KeyV, Value, key_of};

verus! {

broadcast use vstd::std_specs::vec::axiom_vec_decreases_to_view;

/// `after` has at least the frames of `st`, and all of them but frame `f` unchanged.
pub open spec fn keeps_frames_except(st: State, after: State, f: nat) -> bool {
    &&& after.frames.len() >= st.frames.len()
    &&& forall|j: int| 0 <= j < st.frames.len() && j != f ==> #[trigger] after.frames[j] == st.frames[j]
}

proof fn lemma_bind_params_frames(st: State, f: nat, ps: Seq<Seq<char>>, avs: Seq<Value>)
    ensures
        keeps_frames_except(st, bind_params(st, f, ps, avs), f),
        bind_params(st, f, ps, avs).frames.len() == st.frames.len(),
    decreases ps.len(),
{
    if ps.len() > 0 && avs.len() > 0 {
        lemma_bind_params_frames(st, f, ps.drop_last(), avs.drop_last());
    }
}

pub proof fn lemma_expr_frames(e: Expression, env: nat, st: State, fuel: nat)
    ensures
        keeps_frames_except(st, eval_expr(e, env, st, fuel).1, env),
    decreases fuel, e, 2nat,
{
    match e {
        Expression::Prefix(op, x) => {
            lemma_expr_frames(*x, env, st, fuel);
        },
        Expression::Infix(op, x, y) => {
            lemma_expr_frames(*x, env, st, fuel);
            let (a, st1) = eval_expr(*x, env, st, fuel);
            lemma_expr_frames(*y, env, st1, fuel);
        },
        Expression::If(c, cons, alt) => {
            lemma_expr_frames(*c, env, st, fuel);
            let (cr, st1) = eval_expr(*c, env, st, fuel);
            lemma_block_frames(cons@, env, st1, fuel);
            if let Some(a) = alt {
                lemma_block_frames(a@, env, st1, fuel);
            }
        },
        Expression::ArrayLiteral(es) => {
            lemma_exprs_frames(es@, Seq::empty(), env, st, fuel);
        },
        Expression::HashLiteral(ps) => {
            lemma_pairs_frames(ps@, Seq::empty(), env, st, fuel);
        },
        Expression::Call(f, args) => {
            lemma_expr_frames(*f, env, st, fuel);
            let (fr, st1) = eval_expr(*f, env, st, fuel);
            lemma_exprs_frames(args@, Seq::empty(), env, st1, fuel);
            let (ar, st2) = eval_exprs(args@, Seq::empty(), env, st1, fuel);
            if let (Ok(fv), Ok(avs)) = (fr, ar) {
                lemma_apply_frames(fv, avs, st2, fuel, e);
                assert(keeps_frames_except(st2, apply_outcome(fv, avs, st2, fuel).1, env));
            }
        },
        Expression::Index(t, i) => {
            lemma_expr_frames(*t, env, st, fuel);
            let (tr, st1) = eval_expr(*t, env, st, fuel);
            lemma_expr_frames(*i, env, st1, fuel);
        },
        _ => {},
    }
}

/// Applying a value to arguments changes no frame that existed before.
pub proof fn lemma_apply_frames(fv: Value, avs: Seq<Value>, st: State, fuel: nat, call: Expression)
    ensures
        keeps_frames_except(st, apply_outcome(fv, avs, st, fuel).1, st.frames.len()),
    decreases fuel, call, 1nat,
{
    match fv {
        Value::Function(ps, body, fenv) => {
            if ps.len() == avs.len() && fuel > 0 {
                let inner = st.frames.len();
                let st0 = enclose(st, fenv);
                lemma_bind_params_frames(st0, inner, ps, avs);
                let st3 = bind_params(st0, inner, ps, avs);
                lemma_block_frames((*body)@, inner, st3, (fuel - 1) as nat);
            }
        },
        _ => {},
    }
}

pub proof fn lemma_exprs_frames(es: Seq<Expression>, acc: Seq<Value>, env: nat, st: State, fuel: nat)
    ensures
        keeps_frames_except(st, eval_exprs(es, acc, env, st, fuel).1, env),
    decreases fuel, es, 0nat,
{
    if es.len() > 0 {
        lemma_expr_frames(es[0], env, st, fuel);
        let (r, st1) = eval_expr(es[0], env, st, fuel);
        if let Ok(v) = r {
            lemma_exprs_frames(es.subrange(1, es.len() as int), acc.push(v), env, st1, fuel);
        }
    }
}

pub proof fn lemma_pairs_frames(ps: Seq<(Expression, Expression)>, acc: Seq<(KeyV, Value)>, env: nat, st: State, fuel: nat)
    ensures
        keeps_frames_except(st, eval_pairs(ps, acc, env, st, fuel).1, env),
    decreases fuel, ps, 0nat,
{
    if ps.len() > 0 {
        lemma_expr_frames(ps[0].0, env, st, fuel);
        let (kr, st1) = eval_expr(ps[0].0, env, st, fuel);
        if let Ok(kv) = kr {
            if let Some(k) = key_of(kv) {
                lemma_expr_frames(ps[0].1, env, st1, fuel);
                let (vr, st2) = eval_expr(ps[0].1, env, st1, fuel);
                if let Ok(v) = vr {
                    lemma_pairs_frames(ps.subrange(1, ps.len() as int), entry_put(acc, k, v), env, st2, fuel);
                }
            }
        }
    }
}

pub proof fn lemma_stmt_frames(s: Statement, env: nat, st: State, fuel: nat)
    ensures
        keeps_frames_except(st, eval_stmt(s, env, st, fuel).1, env),
    decreases fuel, s, 0nat,
{
    match s {
        Statement::Let(n, x) => {
            lemma_expr_frames(x, env, st, fuel);
        },
        Statement::Return(x) => {
            lemma_expr_frames(x, env, st, fuel);
        },
        Statement::Expression(x) => {
            lemma_expr_frames(x, env, st, fuel);
        },
    }
}

pub proof fn lemma_block_from_frames(ss: Seq<Statement>, last: Value, env: nat, st: State, fuel: nat)
    ensures
        keeps_frames_except(st, eval_block_from(ss, last, env, st, fuel).1, env),
    decreases fuel, ss, 0nat,
{
    if ss.len() > 0 {
        lemma_stmt_frames(ss[0], env, st, fuel);
        let (r, st1) = eval_stmt(ss[0], env, st, fuel);
        if let Ok(v) = r {
            if !(v is ReturnValue) {
                lemma_block_from_frames(ss.subrange(1, ss.len() as int), v, env, st1, fuel);
            }
        }
    }
}

pub proof fn lemma_block_frames(ss: Seq<Statement>, env: nat, st: State, fuel: nat)
    ensures
        keeps_frames_except(st, eval_block(ss, env, st, fuel).1, env),
    decreases fuel, ss, 1nat,
{
    lemma_block_from_frames(ss, Value::Null, env, st, fuel);
}

/// Lookups from a frame see only that frame and earlier ones.
pub proof fn lemma_lookup_prefix(st: State, after: State, f: nat, name: Seq<char>)
    requires
        f < st.frames.len(),
        after.frames.len() >= st.frames.len(),
        forall|j: int| 0 <= j < st.frames.len() ==> #[trigger] after.frames[j] == st.frames[j],
    ensures
        lookup(after, f, name) == lookup(st, f, name),
    decreases f,
{
    assert(after.frames[f as int] == st.frames[f as int]);
    if let Some(o) = st.frames[f as int].outer {
        if o < f {
            lemma_lookup_prefix(st, after, o, name);
        }
    }
}

/// A function call leaves every frame that existed before it unchanged, so a
/// `let` inside the function, even of a name bound outside, never changes what
/// any name means to the caller once the call returns.
pub proof fn law_call_keeps_caller_bindings(
    fv: Value,
    avs: Seq<Value>,
    st: State,
    fuel: nat,
    f: nat,
    name: Seq<char>,
)
    requires
        fv is Function,
        f < st.frames.len(),
    ensures
        forall|j: int| 0 <= j < st.frames.len() ==>
            #[trigger] apply_outcome(fv, avs, st, fuel).1.frames[j] == st.frames[j],
        lookup(apply_outcome(fv, avs, st, fuel).1, f, name) == lookup(st, f, name),
{
    lemma_apply_frames(fv, avs, st, fuel, Expression::Integer(0));
    lemma_lookup_prefix(st, apply_outcome(fv, avs, st, fuel).1, f, name);
}

proof fn lemma_bind_params_frame(st: State, f: nat, ps: Seq<Seq<char>>, avs: Seq<Value>, name: Seq<char>)
    requires
        f < st.frames.len(),
        !ps.contains(name),
    ensures
        bind_params(st, f, ps, avs).frames[f as int].outer == st.frames[f as int].outer,
        find_binding(bind_params(st, f, ps, avs).frames[f as int].bindings, name)
            == find_binding(st.frames[f as int].bindings, name),
    decreases ps.len(),
{
    if ps.len() > 0 && avs.len() > 0 {
        let prev = bind_params(st, f, ps.drop_last(), avs.drop_last());
        assert(!ps.drop_last().contains(name)) by {
            if ps.drop_last().contains(name) {
                let i = choose|i: int| 0 <= i < ps.drop_last().len() && ps.drop_last()[i] == name;
                assert(ps[i] == name);
            }
        }
        lemma_bind_params_frame(st, f, ps.drop_last(), avs.drop_last(), name);
        lemma_bind_params_frames(st, f, ps.drop_last(), avs.drop_last());
        assert(ps.last() != name) by {
            if ps.last() == name {
                assert(ps[ps.len() - 1] == name);
            }
        }
        let bs = prev.frames[f as int].bindings;
        assert(bs.push((ps.last(), avs.last())).drop_last() =~= bs);
    }
}

/// Closures are lexical: inside a call, a name that is not a parameter means
/// what it means in the frame where the function was made, not in the caller's.
pub proof fn law_closure_sees_defining_frame(
    ps: Seq<Seq<char>>,
    avs: Seq<Value>,
    fenv: nat,
    st: State,
    name: Seq<char>,
)
    requires
        fenv < st.frames.len(),
        !ps.contains(name),
    ensures
        lookup(bind_params(enclose(st, fenv), st.frames.len(), ps, avs), st.frames.len(), name)
            == lookup(st, fenv, name),
{
    let inner = st.frames.len();
    let st0 = enclose(st, fenv);
    let st3 = bind_params(st0, inner, ps, avs);
    lemma_bind_params_frame(st0, inner, ps, avs, name);
    lemma_bind_params_frames(st0, inner, ps, avs);
    assert(find_binding(st0.frames[inner as int].bindings, name).is_none());
    assert forall|j: int| 0 <= j < st.frames.len() implies #[trigger] st3.frames[j] == st.frames[j] by {
        assert(st0.frames[j] == st.frames[j]);
    }
    lemma_lookup_prefix(st, st3, fenv, name);
}

} // verus!
