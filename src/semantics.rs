//! The meaning of programs: a big-step semantics over [`Value`] and [`State`].
//!
//! An evaluation takes a node, the index of the current frame, a state and a
//! call budget, and gives either a value or a failure message, with the new
//! state. Each function application spends one unit of the budget; a call made
//! with none left fails, which bounds the depth of recursion.

use vstd::prelude::*;
use crate::ast::{Expression, InfixOperator, PrefixOperator, Statement, infix_literal};
use crate::environment::{State, bind, enclose, lookup};
use crate::object::names_view;
use crate::text::{nat_text, show};
use crate::value::{Builtin, KeyV, Value, key_of, kind_name, truthy};

verus! {

broadcast use vstd::std_specs::vec::axiom_vec_decreases_to_view;

/// What an evaluation gives: a value or a failure message, and the new state.
pub type Outcome<T> = (Result<T, Seq<char>>, State);

/// The builtin that a name stands for when no binding shadows it.
pub open spec fn builtin_of(name: Seq<char>) -> Option<Builtin> {
    if name == "len"@ {
        Some(Builtin::Len)
    } else if name == "first"@ {
        Some(Builtin::First)
    } else if name == "last"@ {
        Some(Builtin::Last)
    } else if name == "rest"@ {
        Some(Builtin::Rest)
    } else if name == "push"@ {
        Some(Builtin::Push)
    } else if name == "puts"@ {
        Some(Builtin::Puts)
    } else {
        None
    }
}

/// An identifier's value: its binding seen from frame `env`, else a builtin.
pub open spec fn identifier_result(name: Seq<char>, env: nat, st: State) -> Result<Value, Seq<char>> {
    match lookup(st, env, name) {
        Some(v) => Ok(v),
        None => match builtin_of(name) {
            Some(b) => Ok(Value::Builtin(b)),
            None => Err("identifier not found: "@ + name),
        },
    }
}

pub open spec fn arity_message(expected: nat, found: nat) -> Seq<char> {
    "wrong number of arguments: expected "@ + nat_text(expected) + ", found "@ + nat_text(found)
}

pub open spec fn operator_message(l: Value, op: InfixOperator, r: Value) -> Seq<char> {
    "unknown operator: "@ + kind_name(l) + " "@ + infix_literal(op) + " "@ + kind_name(r)
}

/// The result of a prefix operator on an evaluated operand.
pub open spec fn prefix_result(op: PrefixOperator, v: Value) -> Result<Value, Seq<char>> {
    match op {
        PrefixOperator::Bang => Ok(Value::Boolean(!truthy(v))),
        PrefixOperator::Minus => match v {
            Value::Integer(i) => Ok(Value::Integer(0i32.wrapping_sub(i))),
            _ => Err("unknown operator: -"@ + kind_name(v)),
        },
    }
}

/// Integer division truncating toward zero; the one overflowing case,
/// `i32::MIN / -1`, wraps to `i32::MIN`.
pub open spec fn trunc_div(a: i32, b: i32) -> i32
    recommends
        b != 0,
{
    let q: int = if a < 0 { -a } else { a as int } / if b < 0 { -b } else { b as int };
    let signed: int = if (a < 0) != (b < 0) { -q } else { q };
    if signed > i32::MAX { i32::MIN } else { signed as i32 }
}

/// The result of an infix operator on evaluated operands.
pub open spec fn infix_result(op: InfixOperator, l: Value, r: Value) -> Result<Value, Seq<char>> {
    match (l, r) {
        (Value::Integer(a), Value::Integer(b)) => match op {
            InfixOperator::Plus => Ok(Value::Integer(a.wrapping_add(b))),
            InfixOperator::Minus => Ok(Value::Integer(a.wrapping_sub(b))),
            InfixOperator::Asterisk => Ok(Value::Integer(a.wrapping_mul(b))),
            InfixOperator::Slash => if b == 0 {
                Err("division by zero"@)
            } else {
                Ok(Value::Integer(trunc_div(a, b)))
            },
            InfixOperator::Lt => Ok(Value::Boolean(a < b)),
            InfixOperator::Gt => Ok(Value::Boolean(a > b)),
            InfixOperator::Eq => Ok(Value::Boolean(a == b)),
            InfixOperator::NotEq => Ok(Value::Boolean(a != b)),
        },
        (Value::Boolean(a), Value::Boolean(b)) => match op {
            InfixOperator::Eq => Ok(Value::Boolean(a == b)),
            InfixOperator::NotEq => Ok(Value::Boolean(a != b)),
            _ => Err(operator_message(l, op, r)),
        },
        (Value::String(a), Value::String(b)) => match op {
            InfixOperator::Plus => Ok(Value::String(a + b)),
            _ => Err(operator_message(l, op, r)),
        },
        _ => Err(operator_message(l, op, r)),
    }
}

/// The position of key `k` among the entries, if it is there.
pub open spec fn entry_index(es: Seq<(KeyV, Value)>, k: KeyV) -> Option<int>
    decreases es.len(),
{
    if es.len() == 0 {
        None
    } else if es.last().0 == k {
        Some(es.len() - 1)
    } else {
        entry_index(es.drop_last(), k)
    }
}

/// A found position is in range and holds the key.
pub proof fn lemma_entry_index(es: Seq<(KeyV, Value)>, k: KeyV)
    ensures
        match entry_index(es, k) {
            Some(i) => 0 <= i < es.len() && es[i].0 == k,
            None => forall|j: int| 0 <= j < es.len() ==> es[j].0 != k,
        },
    decreases es.len(),
{
    if es.len() > 0 && es.last().0 != k {
        lemma_entry_index(es.drop_last(), k);
        match entry_index(es.drop_last(), k) {
            Some(i) => {},
            None => {
                assert forall|j: int| 0 <= j < es.len() implies es[j].0 != k by {
                    if j < es.len() - 1 {
                        assert(es[j] == es.drop_last()[j]);
                    }
                }
            },
        }
    }
}

/// The value stored under key `k`, if any.
pub open spec fn entry_get(es: Seq<(KeyV, Value)>, k: KeyV) -> Option<Value> {
    match entry_index(es, k) {
        Some(i) => Some(es[i].1),
        None => None,
    }
}

/// Strict lexicographic order on character sequences, by code point.
pub open spec fn text_lt(a: Seq<char>, b: Seq<char>) -> bool
    decreases a.len(),
{
    if a.len() == 0 {
        b.len() > 0
    } else if b.len() == 0 {
        false
    } else if a[0] != b[0] {
        a[0] < b[0]
    } else {
        text_lt(a.drop_first(), b.drop_first())
    }
}

/// Integers come before booleans, and booleans before strings.
pub open spec fn key_rank(k: KeyV) -> int {
    match k {
        KeyV::Integer(_) => 0,
        KeyV::Boolean(_) => 1,
        KeyV::String(_) => 2,
    }
}

/// The natural order of keys: by kind, then by value.
pub open spec fn key_lt(a: KeyV, b: KeyV) -> bool {
    match (a, b) {
        (KeyV::Integer(x), KeyV::Integer(y)) => x < y,
        (KeyV::Boolean(x), KeyV::Boolean(y)) => !x && y,
        (KeyV::String(x), KeyV::String(y)) => text_lt(x, y),
        _ => key_rank(a) < key_rank(b),
    }
}

/// Where a new key goes: after the last entry whose key is not greater.
pub open spec fn insert_pos(es: Seq<(KeyV, Value)>, k: KeyV) -> int
    decreases es.len(),
{
    if es.len() == 0 {
        0
    } else if key_lt(k, es.last().0) {
        insert_pos(es.drop_last(), k)
    } else {
        es.len() as int
    }
}

/// Stores `v` under `k`: an entry of the same key is overwritten in place,
/// otherwise the entry goes in at its place in key order.
pub open spec fn entry_put(es: Seq<(KeyV, Value)>, k: KeyV, v: Value) -> Seq<(KeyV, Value)> {
    match entry_index(es, k) {
        Some(i) => es.update(i, (k, v)),
        None => es.insert(insert_pos(es, k), (k, v)),
    }
}

/// A found insertion point is within the entries or just past them.
pub proof fn lemma_insert_pos(es: Seq<(KeyV, Value)>, k: KeyV)
    ensures
        0 <= insert_pos(es, k) <= es.len(),
    decreases es.len(),
{
    if es.len() > 0 && key_lt(k, es.last().0) {
        lemma_insert_pos(es.drop_last(), k);
    }
}

/// The result of `target[index]` on evaluated operands.
pub open spec fn index_result(target: Value, index: Value) -> Result<Value, Seq<char>> {
    match (target, index) {
        (Value::Array(vs), Value::Integer(i)) => if 0 <= i < vs.len() {
            Ok(vs[i as int])
        } else {
            Ok(Value::Null)
        },
        (Value::Hash(es), _) => match key_of(index) {
            Some(k) => match entry_get(es, k) {
                Some(v) => Ok(v),
                None => Ok(Value::Null),
            },
            None => Err("unusable as hash key: "@ + kind_name(index)),
        },
        _ => Err("index operator not supported: "@ + kind_name(target)),
    }
}

/// The number of bytes of a string's UTF-8 encoding, as a machine-sized count.
pub open spec fn byte_len(s: Seq<char>) -> nat {
    (vstd::utf8::encode_utf8(s).len() as usize) as nat
}

/// A count as a 32-bit integer, wrapping around as a native cast does.
pub open spec fn count_value(n: nat) -> i32 {
    vstd::wrapping::i32_specs::signed_crop(n as int)
}

/// The printed lines that `puts` adds for its arguments.
pub open spec fn shown_all(args: Seq<Value>) -> Seq<Seq<char>> {
    args.map_values(|v: Value| show(v))
}

/// The result of a builtin on evaluated arguments. Misuse gives an error value,
/// not a failure.
pub open spec fn builtin_result(b: Builtin, args: Seq<Value>, st: State) -> (Value, State) {
    match b {
        Builtin::Puts => (Value::Null, State { frames: st.frames, output: st.output + shown_all(args) }),
        Builtin::Push => if args.len() != 2 {
            (Value::Error(arity_message(2, args.len())), st)
        } else {
            match args[0] {
                Value::Array(vs) => (Value::Array(vs.push(args[1])), st),
                _ => (Value::Error("argument to 'push' must be ARRAY, found "@ + kind_name(args[0])), st),
            }
        },
        _ => if args.len() != 1 {
            (Value::Error(arity_message(1, args.len())), st)
        } else {
            (unary_builtin_result(b, args[0]), st)
        },
    }
}

/// The result of `len`, `first`, `last` or `rest` on its one argument.
pub open spec fn unary_builtin_result(b: Builtin, a: Value) -> Value {
    match b {
        Builtin::Len => match a {
            Value::String(s) => Value::Integer(count_value(byte_len(s))),
            Value::Array(vs) => Value::Integer(count_value(vs.len())),
            _ => Value::Error("argument to 'len' not supported, found "@ + kind_name(a)),
        },
        Builtin::First => match a {
            Value::Array(vs) => if vs.len() > 0 { vs[0] } else { Value::Null },
            _ => Value::Error("argument to 'first' must be ARRAY, found "@ + kind_name(a)),
        },
        Builtin::Last => match a {
            Value::Array(vs) => if vs.len() > 0 { vs.last() } else { Value::Null },
            _ => Value::Error("argument to 'last' must be ARRAY, found "@ + kind_name(a)),
        },
        _ => match a {
            Value::Array(vs) => if vs.len() > 0 {
                Value::Array(vs.subrange(1, vs.len() as int))
            } else {
                Value::Null
            },
            _ => Value::Error("argument to 'rest' must be ARRAY, found "@ + kind_name(a)),
        },
    }
}

/// Binds each parameter to the argument at its position, in frame `f`.
pub open spec fn bind_params(st: State, f: nat, ps: Seq<Seq<char>>, args: Seq<Value>) -> State
    recommends
        ps.len() == args.len(),
    decreases ps.len(),
{
    if ps.len() == 0 || args.len() == 0 {
        st
    } else {
        bind(
            bind_params(st, f, ps.drop_last(), args.drop_last()),
            f,
            ps.last(),
            args.last(),
        )
    }
}

/// A `ReturnValue` gives up its inner value, through every layer; any other value stays.
pub open spec fn unwrap_return(v: Value) -> Value
    decreases v,
{
    match v {
        Value::ReturnValue(b) => unwrap_return(*b),
        _ => v,
    }
}

pub open spec fn is_error(v: Value) -> bool {
    v is Error
}

/// Evaluates an expression in frame `env`.
pub open spec fn eval_expr(e: Expression, env: nat, st: State, fuel: nat) -> Outcome<Value>
    decreases fuel, e, 0nat,
{
    match e {
        Expression::Identifier(n) => (identifier_result(n@, env, st), st),
        Expression::Integer(i) => (Ok(Value::Integer(i)), st),
        Expression::Boolean(b) => (Ok(Value::Boolean(b)), st),
        Expression::String(s) => (Ok(Value::String(s@)), st),
        Expression::Prefix(op, x) => {
            let (r, st1) = eval_expr(*x, env, st, fuel);
            match r {
                Ok(v) => (prefix_result(op, v), st1),
                Err(m) => (Err(m), st1),
            }
        },
        Expression::Infix(op, x, y) => {
            let (a, st1) = eval_expr(*x, env, st, fuel);
            match a {
                Err(m) => (Err(m), st1),
                Ok(l) => {
                    let (b, st2) = eval_expr(*y, env, st1, fuel);
                    match b {
                        Err(m) => (Err(m), st2),
                        Ok(r) => (infix_result(op, l, r), st2),
                    }
                },
            }
        },
        Expression::If(c, cons, alt) => {
            let (cr, st1) = eval_expr(*c, env, st, fuel);
            match cr {
                Err(m) => (Err(m), st1),
                Ok(cv) => if truthy(cv) {
                    eval_block(cons@, env, st1, fuel)
                } else {
                    match alt {
                        Some(a) => eval_block(a@, env, st1, fuel),
                        None => (Ok(Value::Null), st1),
                    }
                },
            }
        },
        Expression::FnLiteral(ps, body) => (Ok(Value::Function(names_view(ps@), body, env)), st),
        Expression::ArrayLiteral(es) => {
            let (r, st1) = eval_exprs(es@, Seq::empty(), env, st, fuel);
            match r {
                Ok(vs) => (Ok(Value::Array(vs)), st1),
                Err(m) => (Err(m), st1),
            }
        },
        Expression::HashLiteral(ps) => {
            let (r, st1) = eval_pairs(ps@, Seq::empty(), env, st, fuel);
            match r {
                Ok(es) => (Ok(Value::Hash(es)), st1),
                Err(m) => (Err(m), st1),
            }
        },
        Expression::Call(f, args) => {
            let (fr, st1) = eval_expr(*f, env, st, fuel);
            match fr {
                Err(m) => (Err(m), st1),
                Ok(fv) => {
                    let (ar, st2) = eval_exprs(args@, Seq::empty(), env, st1, fuel);
                    match ar {
                        Err(m) => (Err(m), st2),
                        Ok(avs) => if avs.len() == 1 && is_error(avs[0]) {
                            (Ok(avs[0]), st2)
                        } else {
                            match fv {
                                Value::Function(ps, body, fenv) => if ps.len() != avs.len() {
                                    (Err(arity_message(ps.len(), avs.len())), st2)
                                } else if fuel == 0 {
                                    (Err("call depth exceeded"@), st2)
                                } else {
                                    let inner = st2.frames.len();
                                    let st3 = bind_params(enclose(st2, fenv), inner, ps, avs);
                                    let (br, st4) = eval_block((*body)@, inner, st3, (fuel - 1) as nat);
                                    match br {
                                        Ok(v) => (Ok(unwrap_return(v)), st4),
                                        Err(m) => (Err(m), st4),
                                    }
                                },
                                Value::Builtin(b) => {
                                    let (v, st3) = builtin_result(b, avs, st2);
                                    (Ok(v), st3)
                                },
                                _ => (Err("not a function: "@ + kind_name(fv)), st2),
                            }
                        },
                    }
                },
            }
        },
        Expression::Index(t, i) => {
            let (tr, st1) = eval_expr(*t, env, st, fuel);
            match tr {
                Err(m) => (Err(m), st1),
                Ok(tv) => {
                    let (ir, st2) = eval_expr(*i, env, st1, fuel);
                    match ir {
                        Err(m) => (Err(m), st2),
                        Ok(iv) => (index_result(tv, iv), st2),
                    }
                },
            }
        },
    }
}

/// Evaluates expressions left to right after the values `acc`, stopping at a failure.
pub open spec fn eval_exprs(es: Seq<Expression>, acc: Seq<Value>, env: nat, st: State, fuel: nat) -> Outcome<Seq<Value>>
    decreases fuel, es, 0nat,
{
    if es.len() == 0 {
        (Ok(acc), st)
    } else {
        let (r, st1) = eval_expr(es[0], env, st, fuel);
        match r {
            Err(m) => (Err(m), st1),
            Ok(v) => eval_exprs(es.subrange(1, es.len() as int), acc.push(v), env, st1, fuel),
        }
    }
}

/// Evaluates key/value pairs left to right into the entries `acc`; a key that
/// cannot be a key fails before its value is evaluated.
pub open spec fn eval_pairs(
    ps: Seq<(Expression, Expression)>,
    acc: Seq<(KeyV, Value)>,
    env: nat,
    st: State,
    fuel: nat,
) -> Outcome<Seq<(KeyV, Value)>>
    decreases fuel, ps, 0nat,
{
    if ps.len() == 0 {
        (Ok(acc), st)
    } else {
        let (kr, st1) = eval_expr(ps[0].0, env, st, fuel);
        match kr {
            Err(m) => (Err(m), st1),
            Ok(kv) => match key_of(kv) {
                None => (Err("unusable as hash key: "@ + kind_name(kv)), st1),
                Some(k) => {
                    let (vr, st2) = eval_expr(ps[0].1, env, st1, fuel);
                    match vr {
                        Err(m) => (Err(m), st2),
                        Ok(v) => eval_pairs(ps.subrange(1, ps.len() as int), entry_put(acc, k, v), env, st2, fuel),
                    }
                },
            },
        }
    }
}

/// Executes one statement.
pub open spec fn eval_stmt(s: Statement, env: nat, st: State, fuel: nat) -> Outcome<Value>
    decreases fuel, s, 0nat,
{
    match s {
        Statement::Let(n, x) => {
            let (r, st1) = eval_expr(x, env, st, fuel);
            match r {
                Ok(v) => (Ok(Value::Null), bind(st1, env, n@, v)),
                Err(m) => (Err(m), st1),
            }
        },
        Statement::Return(x) => {
            let (r, st1) = eval_expr(x, env, st, fuel);
            match r {
                Ok(v) => (Ok(Value::ReturnValue(Box::new(v))), st1),
                Err(m) => (Err(m), st1),
            }
        },
        Statement::Expression(x) => eval_expr(x, env, st, fuel),
    }
}

/// Executes statements after a last result `last`; a `ReturnValue` stops the
/// sequence and is its result, still wrapped.
pub open spec fn eval_block_from(ss: Seq<Statement>, last: Value, env: nat, st: State, fuel: nat) -> Outcome<Value>
    decreases fuel, ss, 0nat,
{
    if ss.len() == 0 {
        (Ok(last), st)
    } else {
        let (r, st1) = eval_stmt(ss[0], env, st, fuel);
        match r {
            Err(m) => (Err(m), st1),
            Ok(v) => if v is ReturnValue {
                (Ok(v), st1)
            } else {
                eval_block_from(ss.subrange(1, ss.len() as int), v, env, st1, fuel)
            },
        }
    }
}

/// Executes a block: an empty one gives `null`.
pub open spec fn eval_block(ss: Seq<Statement>, env: nat, st: State, fuel: nat) -> Outcome<Value>
    decreases fuel, ss, 1nat,
{
    eval_block_from(ss, Value::Null, env, st, fuel)
}

/// What applying an evaluated callee to evaluated arguments gives, once the
/// arguments have been checked for a lone error value: the call case of
/// [`eval_expr`] after that check, named on its own.
pub open spec fn apply_outcome(fv: Value, avs: Seq<Value>, st: State, fuel: nat) -> Outcome<Value> {
    match fv {
        Value::Function(ps, body, fenv) => if ps.len() != avs.len() {
            (Err(arity_message(ps.len(), avs.len())), st)
        } else if fuel == 0 {
            (Err("call depth exceeded"@), st)
        } else {
            let inner = st.frames.len();
            let st3 = bind_params(enclose(st, fenv), inner, ps, avs);
            let (br, st4) = eval_block((*body)@, inner, st3, (fuel - 1) as nat);
            match br {
                Ok(v) => (Ok(unwrap_return(v)), st4),
                Err(m) => (Err(m), st4),
            }
        },
        Value::Builtin(b) => {
            let (v, st3) = builtin_result(b, avs, st);
            (Ok(v), st3)
        },
        _ => (Err("not a function: "@ + kind_name(fv)), st),
    }
}

/// Executes a whole program: a top-level `return` ends it with its unwrapped value.
pub open spec fn run_program(ss: Seq<Statement>, env: nat, st: State, fuel: nat) -> Outcome<Value> {
    let (r, st1) = eval_block(ss, env, st, fuel);
    match r {
        Ok(v) => (Ok(unwrap_return(v)), st1),
        Err(m) => (Err(m), st1),
    }
}

/// The call budget that [`crate::evaluator::eval`] gives each top-level node.
pub const CALL_BUDGET: u64 = 256;

/// At the entry point a failure becomes an error value, and a `ReturnValue`
/// gives up its value.
pub open spec fn flatten(o: Outcome<Value>) -> (Value, State) {
    match o.0 {
        Ok(v) => (unwrap_return(v), o.1),
        Err(m) => (Value::Error(m), o.1),
    }
}

/// What the entry point gives for a node evaluated in the root frame, with
/// calls allowed to nest `budget` deep.
pub open spec fn eval_node_within(n: crate::ast::Node, st: State, budget: nat) -> (Value, State) {
    match n {
        crate::ast::Node::Program(ss) => flatten(run_program(ss@, 0, st, budget)),
        crate::ast::Node::Statement(s) => flatten(eval_stmt(s, 0, st, budget)),
        crate::ast::Node::Expression(e) => flatten(eval_expr(e, 0, st, budget)),
    }
}

/// What the entry point gives for a node with the default call budget.
pub open spec fn eval_node(n: crate::ast::Node, st: State) -> (Value, State) {
    eval_node_within(n, st, CALL_BUDGET as nat)
}

} // verus!
