//! Laws of the language, proved over the semantics that the evaluator implements.

use vstd::prelude::*;
use crate::ast::{Expression, InfixOperator, Node, PrefixOperator, Statement};
use crate::environment::{State, lookup};
use crate::semantics::{
    builtin_of, builtin_result, eval_block, eval_block_from, eval_expr, eval_node_within, unwrap_return, eval_exprs, eval_stmt,
    run_program, trunc_div,
};
use crate::value::{Builtin, Value, truthy};

verus! {

/// The expression `x op y`.
pub open spec fn infix(op: InfixOperator, x: Expression, y: Expression) -> Expression {
    Expression::Infix(op, Box::new(x), Box::new(y))
}

proof fn lemma_crop_in_range(p: int)
    requires
        i32::MIN <= p <= i32::MAX,
    ensures
        vstd::wrapping::i32_specs::signed_crop(p) == p as i32,
{
}

/// Integer arithmetic on literals gives the mathematical result whenever it
/// fits in 32 bits (and wraps otherwise); `/` truncates toward zero, and
/// division by zero fails; `-a` negates. Literals change no state.
pub proof fn law_integer_arithmetic(a: i32, b: i32, env: nat, st: State, fuel: nat)
    ensures
        i32::MIN <= a + b <= i32::MAX ==> eval_expr(
            infix(InfixOperator::Plus, Expression::Integer(a), Expression::Integer(b)), env, st, fuel)
            == (Ok::<Value, Seq<char>>(Value::Integer((a + b) as i32)), st),
        i32::MIN <= a - b <= i32::MAX ==> eval_expr(
            infix(InfixOperator::Minus, Expression::Integer(a), Expression::Integer(b)), env, st, fuel)
            == (Ok::<Value, Seq<char>>(Value::Integer((a - b) as i32)), st),
        i32::MIN <= a * b <= i32::MAX ==> eval_expr(
            infix(InfixOperator::Asterisk, Expression::Integer(a), Expression::Integer(b)), env, st, fuel)
            == (Ok::<Value, Seq<char>>(Value::Integer((a * b) as i32)), st),
        b != 0 ==> eval_expr(
            infix(InfixOperator::Slash, Expression::Integer(a), Expression::Integer(b)), env, st, fuel)
            == (Ok::<Value, Seq<char>>(Value::Integer(trunc_div(a, b))), st),
        b == 0 ==> eval_expr(
            infix(InfixOperator::Slash, Expression::Integer(a), Expression::Integer(b)), env, st, fuel)
            == (Err::<Value, Seq<char>>("division by zero"@), st),
        a != i32::MIN ==> eval_expr(
            Expression::Prefix(PrefixOperator::Minus, Box::new(Expression::Integer(a))), env, st, fuel)
            == (Ok::<Value, Seq<char>>(Value::Integer((-a) as i32)), st),
{
    reveal_with_fuel(eval_expr, 2);
    if i32::MIN <= a * b <= i32::MAX {
        lemma_crop_in_range(a * b);
    }
}

/// Truncating division: the quotient times the divisor is within one divisor
/// of the dividend, on the dividend's side of zero.
pub proof fn law_division_truncates(a: i32, b: i32)
    requires
        b != 0,
        !(a == i32::MIN && b == -1),
    ensures
        ({
            let q = trunc_div(a, b) as int;
            let r = a - q * b;
            &&& (if r < 0 { -r } else { r }) < (if b < 0 { -b } else { b as int })
            &&& (r == 0 || (r < 0) == (a < 0))
        }),
{
    let aa: int = if a < 0 { -a } else { a as int };
    let ab: int = if b < 0 { -b } else { b as int };
    let q0 = aa / ab;
    let r0 = aa % ab;
    assert(aa == q0 * ab + r0 && 0 <= r0 < ab && q0 >= 0) by (nonlinear_arith)
        requires
            q0 == aa / ab,
            r0 == aa % ab,
            ab > 0,
            aa >= 0,
    ;
    assert(q0 <= aa) by (nonlinear_arith)
        requires
            aa == q0 * ab + r0,
            0 <= r0,
            ab >= 1,
            q0 >= 0,
    ;
    let signed: int = if (a < 0) != (b < 0) { -q0 } else { q0 };
    assert(signed <= i32::MAX) by {
        if signed > i32::MAX {
            assert(q0 > i32::MAX);
            assert(aa == 0x8000_0000 && q0 == aa);
            assert(ab == 1) by (nonlinear_arith)
                requires
                    aa == q0 * ab + r0,
                    0 <= r0,
                    ab >= 1,
                    q0 == aa,
                    aa > 0,
            ;
        }
    }
    assert(trunc_div(a, b) as int == signed);
    let q = signed;
    let r = a - q * b;
    if a >= 0 && b > 0 {
        assert(r == r0);
    } else if a >= 0 && b < 0 {
        assert(q * b == q0 * ab) by (nonlinear_arith)
            requires
                q == -q0,
                b == -ab,
        ;
    } else if a < 0 && b > 0 {
        assert(q * b == -(q0 * ab)) by (nonlinear_arith)
            requires
                q == -q0,
                b == ab,
        ;
    } else {
        assert(q * b == -(q0 * ab)) by (nonlinear_arith)
            requires
                q == q0,
                b == -ab,
        ;
    }
}

/// `a == b` and `a != b` on boolean literals agree with equality of the
/// booleans, and `!a` with their negation.
pub proof fn law_boolean_operators(a: bool, b: bool, env: nat, st: State, fuel: nat)
    ensures
        eval_expr(infix(InfixOperator::Eq, Expression::Boolean(a), Expression::Boolean(b)), env, st, fuel)
            == (Ok::<Value, Seq<char>>(Value::Boolean(a == b)), st),
        eval_expr(infix(InfixOperator::NotEq, Expression::Boolean(a), Expression::Boolean(b)), env, st, fuel)
            == (Ok::<Value, Seq<char>>(Value::Boolean(a != b)), st),
        eval_expr(Expression::Prefix(PrefixOperator::Bang, Box::new(Expression::Boolean(a))), env, st, fuel)
            == (Ok::<Value, Seq<char>>(Value::Boolean(!a)), st),
{
    reveal_with_fuel(eval_expr, 2);
}

/// Concatenation of strings is associative, and evaluating it changes no
/// state, so strings bound to names keep their contents.
pub proof fn law_string_concatenation(x: Expression, y: Expression, z: Expression, sx: Seq<char>, sy: Seq<char>, sz: Seq<char>, env: nat, st: State, fuel: nat)
    requires
        eval_expr(x, env, st, fuel) == (Ok::<Value, Seq<char>>(Value::String(sx)), st),
        eval_expr(y, env, st, fuel) == (Ok::<Value, Seq<char>>(Value::String(sy)), st),
        eval_expr(z, env, st, fuel) == (Ok::<Value, Seq<char>>(Value::String(sz)), st),
    ensures
        eval_expr(infix(InfixOperator::Plus, infix(InfixOperator::Plus, x, y), z), env, st, fuel)
            == eval_expr(infix(InfixOperator::Plus, x, infix(InfixOperator::Plus, y, z)), env, st, fuel),
        eval_expr(infix(InfixOperator::Plus, infix(InfixOperator::Plus, x, y), z), env, st, fuel)
            == (Ok::<Value, Seq<char>>(Value::String(sx + sy + sz)), st),
{
    reveal_with_fuel(eval_expr, 2);
    let xy = infix(InfixOperator::Plus, x, y);
    let yz = infix(InfixOperator::Plus, y, z);
    assert(eval_expr(xy, env, st, fuel) == (Ok::<Value, Seq<char>>(Value::String(sx + sy)), st));
    assert(eval_expr(yz, env, st, fuel) == (Ok::<Value, Seq<char>>(Value::String(sy + sz)), st));
    assert(sx + sy + sz =~= sx + (sy + sz));
}

proof fn lemma_push_name()
    ensures
        builtin_of("push"@) == Some(Builtin::Push),
{
    reveal_strlit("len");
    reveal_strlit("first");
    reveal_strlit("last");
    reveal_strlit("rest");
    reveal_strlit("push");
    assert("push"@.len() != "len"@.len());
    assert("push"@.len() != "first"@.len());
    assert("push"@[0] != "last"@[0]);
    assert("push"@[0] != "rest"@[0]);
}

/// `push` gives a new array with the element appended and leaves its argument,
/// and every binding, as they were.
pub proof fn law_push_copies(
    push: String,
    args: Vec<Expression>,
    vs: Seq<Value>,
    x: Value,
    env: nat,
    st: State,
    fuel: nat,
)
    requires
        push@ == "push"@,
        lookup(st, env, push@).is_none(),
        args.len() == 2,
        eval_expr(args@[0], env, st, fuel) == (Ok::<Value, Seq<char>>(Value::Array(vs)), st),
        eval_expr(args@[1], env, st, fuel) == (Ok::<Value, Seq<char>>(x), st),
    ensures
        eval_expr(Expression::Call(Box::new(Expression::Identifier(push)), args), env, st, fuel)
            == (Ok::<Value, Seq<char>>(Value::Array(vs.push(x))), st),
{
    let es = args@;
    lemma_push_name();
    let one = seq![Value::Array(vs)];
    let two = seq![Value::Array(vs), x];
    let rest = es.subrange(1, 2);
    assert(rest[0] == es[1]);
    assert(rest.subrange(1, 1) =~= Seq::<Expression>::empty());
    assert(one.push(x) =~= two);
    assert(Seq::<Value>::empty().push(Value::Array(vs)) =~= one);
    assert(eval_exprs(rest.subrange(1, 1), two, env, st, fuel) == (Ok::<Seq<Value>, Seq<char>>(two), st));
    assert(eval_exprs(rest, one, env, st, fuel) == (Ok::<Seq<Value>, Seq<char>>(two), st));
    assert(es.subrange(1, es.len() as int) == rest);
    assert(eval_exprs(es, Seq::empty(), env, st, fuel) == (Ok::<Seq<Value>, Seq<char>>(two), st));
    assert(eval_expr(Expression::Identifier(push), env, st, fuel) == (
        Ok::<Value, Seq<char>>(Value::Builtin(Builtin::Push)), st));
    assert(builtin_result(Builtin::Push, two, st) == (Value::Array(vs.push(x)), st));
}

/// Once a block's leading statements have returned or failed, the statements
/// after them are not run: the block's outcome is theirs.
pub proof fn law_block_stops_at_return(
    ss1: Seq<Statement>,
    ss2: Seq<Statement>,
    last: Value,
    env: nat,
    st: State,
    fuel: nat,
)
    requires
        !(last is ReturnValue),
        match eval_block_from(ss1, last, env, st, fuel).0 {
            Ok(v) => v is ReturnValue,
            Err(_) => true,
        },
    ensures
        eval_block_from(ss1 + ss2, last, env, st, fuel) == eval_block_from(ss1, last, env, st, fuel),
    decreases ss1.len(),
{
    let all = ss1 + ss2;
    assert(ss1.len() > 0);
    assert(all[0] == ss1[0]);
    let (r, st1) = eval_stmt(ss1[0], env, st, fuel);
    if let Ok(v) = r {
        if !(v is ReturnValue) {
            assert(all.subrange(1, all.len() as int) =~= ss1.subrange(1, ss1.len() as int) + ss2);
            law_block_stops_at_return(ss1.subrange(1, ss1.len() as int), ss2, v, env, st1, fuel);
        }
    }
}

/// Unwrapping leaves no `ReturnValue`.
pub proof fn lemma_unwrap_return(v: Value)
    ensures
        !(unwrap_return(v) is ReturnValue),
    decreases v,
{
    if let Value::ReturnValue(b) = v {
        lemma_unwrap_return(*b);
    }
}

/// A `return` at the top level of a program ends it with the returned value,
/// unwrapped.
pub proof fn law_return_ends_program(ss: Seq<Statement>, v: Value, env: nat, st: State, st1: State, fuel: nat)
    requires
        ss.len() > 0,
        eval_stmt(ss[0], env, st, fuel) == (Ok::<Value, Seq<char>>(Value::ReturnValue(Box::new(v))), st1),
    ensures
        run_program(ss, env, st, fuel) == (Ok::<Value, Seq<char>>(unwrap_return(v)), st1),
{
    assert(eval_block(ss, env, st, fuel) == (Ok::<Value, Seq<char>>(Value::ReturnValue(Box::new(v))), st1));
}

/// Whatever node the host evaluates, what comes back is never a `ReturnValue`:
/// a return is only the way a function body or a program ends.
pub proof fn law_entry_point_unwraps(n: Node, st: State, budget: nat)
    ensures
        !(eval_node_within(n, st, budget).0 is ReturnValue),
{
    let o = match n {
        Node::Program(ss) => run_program(ss@, 0, st, budget),
        Node::Statement(s) => eval_stmt(s, 0, st, budget),
        Node::Expression(e) => eval_expr(e, 0, st, budget),
    };
    if let Ok(v) = o.0 {
        lemma_unwrap_return(v);
    }
}

/// An `if` whose taken branch returns passes the `ReturnValue` on, so a return
/// nested in `if` blocks ends the enclosing block too.
pub proof fn law_return_leaves_if(c: Expression, cons: Vec<Statement>, alt: Option<Vec<Statement>>, cv: Value, v: Value, env: nat, st: State, st1: State, st2: State, fuel: nat)
    requires
        eval_expr(c, env, st, fuel) == (Ok::<Value, Seq<char>>(cv), st1),
        truthy(cv),
        eval_block(cons@, env, st1, fuel) == (Ok::<Value, Seq<char>>(Value::ReturnValue(Box::new(v))), st2),
    ensures
        eval_expr(Expression::If(Box::new(c), cons, alt), env, st, fuel)
            == (Ok::<Value, Seq<char>>(Value::ReturnValue(Box::new(v))), st2),
{
}

} // verus!
