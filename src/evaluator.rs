//! The evaluator: walks the syntax tree against an [`Environment`], and is
//! proved to compute what [`crate::semantics`] says.

use vstd::prelude::*;
use vstd::string::StrSliceExecFns;
use crate::ast::{Expression, InfixOperator, Node, PrefixOperator, Statement};
use crate::builtins::{apply_builtin, arity_text, get_builtin_fn, message_with_kind};
use crate::environment::{Environment, ROOT, enclose};
use crate::object::{
    HashKey, HashPair, Object, copy_names, lemma_objects_view_index, lemma_pairs_view_index,
    names_view, objects_view, pairs_view,
};
use crate::semantics::{
    CALL_BUDGET, apply_outcome, bind_params, entry_index, entry_put, eval_block, eval_block_from, eval_expr,
    eval_exprs, eval_node_within, eval_pairs, insert_pos, unwrap_return, key_lt, lemma_entry_index, lemma_insert_pos, text_lt, run_program, eval_stmt, eval_node, identifier_result, index_result, infix_result,
    operator_message, prefix_result, trunc_div,
};
use crate::value::{KeyV, Value, key_of, truthy};

verus! {

/// The model of an evaluation result.
pub open spec fn result_view(r: Result<Object, String>) -> Result<Value, Seq<char>> {
    match r {
        Ok(o) => Ok(o@),
        Err(m) => Err(m@),
    }
}

/// The model of a result that holds several objects.
pub open spec fn results_view(r: Result<Vec<Object>, String>) -> Result<Seq<Value>, Seq<char>> {
    match r {
        Ok(v) => Ok(objects_view(v@)),
        Err(m) => Err(m@),
    }
}

/// The entry point: evaluates a node in the root frame of `env`, with calls
/// allowed to nest [`CALL_BUDGET`] deep. A failure comes back as an error
/// object, and a `ReturnValue` as the value it carries.
pub fn eval(node: Node, env: &mut Environment) -> (r: Object)
    ensures
        (r@, final(env)@) == eval_node(node, old(env)@),
{
    eval_within(node, env, CALL_BUDGET)
}

/// The entry point with a call budget chosen by the host: calls may nest
/// `budget` deep before one fails with `call depth exceeded`.
pub fn eval_within(node: Node, env: &mut Environment, budget: u64) -> (r: Object)
    ensures
        (r@, final(env)@) == eval_node_within(node, old(env)@, budget as nat),
{
    let r = match &node {
        Node::Program(ss) => eval_program(ss, env, ROOT, budget),
        Node::Statement(s) => eval_statement(s, env, ROOT, budget),
        Node::Expression(e) => eval_expression(e, env, ROOT, budget),
    };
    match r {
        Ok(o) => unwrap_return_value(o),
        Err(m) => Object::Error(m),
    }
}

/// The value that a `ReturnValue` carries, through every layer; any other
/// object as it is.
pub fn unwrap_return_value(o: Object) -> (r: Object)
    ensures
        r@ == unwrap_return(o@),
    decreases o,
{
    match o {
        Object::ReturnValue(b) => unwrap_return_value(*b),
        _ => o,
    }
}

/// Runs a program's statements; a top-level `return` ends the program with its value.
pub fn eval_program(stmts: &Vec<Statement>, env: &mut Environment, frame: usize, fuel: u64) -> (r: Result<Object, String>)
    ensures
        (result_view(r), final(env)@) == run_program(stmts@, frame as nat, old(env)@, fuel as nat),
{
    match eval_block_statement(stmts, env, frame, fuel) {
        Ok(o) => Ok(unwrap_return_value(o)),
        Err(m) => Err(m),
    }
}

/// Runs a block's statements; a `ReturnValue` stops it and is passed on wrapped.
pub fn eval_block_statement(stmts: &Vec<Statement>, env: &mut Environment, frame: usize, fuel: u64) -> (r: Result<Object, String>)
    ensures
        (result_view(r), final(env)@) == eval_block(stmts@, frame as nat, old(env)@, fuel as nat),
    decreases fuel, stmts, 1nat,
{
    let ghost st0 = env@;
    let mut result = Object::Null;
    let mut i: usize = 0;
    proof {
        assert(stmts@.subrange(0, stmts.len() as int) =~= stmts@);
    }
    while i < stmts.len()
        invariant
            i <= stmts.len(),
            st0 == old(env)@,
            !(result@ is ReturnValue),
            eval_block(stmts@, frame as nat, st0, fuel as nat) == eval_block_from(
                stmts@.subrange(i as int, stmts.len() as int), result@, frame as nat, env@, fuel as nat),
        decreases stmts.len() - i,
    {
        proof {
            broadcast use vstd::std_specs::vec::axiom_vec_index_decreases;
            let sub = stmts@.subrange(i as int, stmts.len() as int);
            assert(sub[0] == stmts@[i as int]);
            assert(sub.subrange(1, sub.len() as int) =~= stmts@.subrange(i + 1, stmts.len() as int));
        }
        match eval_statement(&stmts[i], env, frame, fuel) {
            Err(m) => {
                return Err(m);
            },
            Ok(o) => {
                if let Object::ReturnValue(_) = &o {
                    return Ok(o);
                }
                result = o;
            },
        }
        i = i + 1;
    }
    proof {
        assert(stmts@.subrange(i as int, stmts.len() as int) =~= Seq::<Statement>::empty());
    }
    Ok(result)
}

/// Executes one statement: `let` binds in the current frame only.
pub fn eval_statement(stmt: &Statement, env: &mut Environment, frame: usize, fuel: u64) -> (r: Result<Object, String>)
    ensures
        (result_view(r), final(env)@) == eval_stmt(*stmt, frame as nat, old(env)@, fuel as nat),
    decreases fuel, stmt, 0nat,
{
    match stmt {
        Statement::Let(name, x) => match eval_expression(x, env, frame, fuel) {
            Ok(v) => {
                env.set(frame, name.clone(), v);
                Ok(Object::Null)
            },
            Err(m) => Err(m),
        },
        Statement::Return(x) => match eval_expression(x, env, frame, fuel) {
            Ok(v) => Ok(Object::ReturnValue(Box::new(v))),
            Err(m) => Err(m),
        },
        Statement::Expression(x) => eval_expression(x, env, frame, fuel),
    }
}

/// Evaluates an expression in frame `frame`.
pub fn eval_expression(expr: &Expression, env: &mut Environment, frame: usize, fuel: u64) -> (r: Result<Object, String>)
    ensures
        (result_view(r), final(env)@) == eval_expr(*expr, frame as nat, old(env)@, fuel as nat),
    decreases fuel, expr, 3nat,
{
    match expr {
        Expression::Identifier(name) => eval_identifier(name, env, frame),
        Expression::Integer(i) => Ok(Object::Integer(*i)),
        Expression::Boolean(b) => Ok(get_bool_object(*b)),
        Expression::String(s) => Ok(Object::String(s.clone())),
        Expression::Prefix(op, x) => match eval_expression(x, env, frame, fuel) {
            Ok(v) => eval_prefix_expression(*op, &v),
            Err(m) => Err(m),
        },
        Expression::Infix(op, x, y) => {
            let lhs = match eval_expression(x, env, frame, fuel) {
                Ok(v) => v,
                Err(m) => {
                    return Err(m);
                },
            };
            let rhs = match eval_expression(y, env, frame, fuel) {
                Ok(v) => v,
                Err(m) => {
                    return Err(m);
                },
            };
            eval_infix_expression(*op, &lhs, &rhs)
        },
        Expression::If(..) => eval_if_expression(expr, env, frame, fuel),
        Expression::FnLiteral(ps, body) => Ok(Object::Function(copy_names(ps), body.clone(), frame)),
        Expression::ArrayLiteral(es) => match eval_expressions(es, env, frame, fuel) {
            Ok(vs) => Ok(Object::Array(vs)),
            Err(m) => Err(m),
        },
        Expression::HashLiteral(ps) => eval_hash_literal(ps, env, frame, fuel),
        Expression::Call(f, args) => {
            let function = match eval_expression(f, env, frame, fuel) {
                Ok(v) => v,
                Err(m) => {
                    return Err(m);
                },
            };
            let args = match eval_expressions(args, env, frame, fuel) {
                Ok(v) => v,
                Err(m) => {
                    return Err(m);
                },
            };
            proof {
                lemma_objects_view_index(args@);
            }
            if args.len() == 1 {
                if let Object::Error(_) = &args[0] {
                    return Ok(args[0].copy());
                }
            }
            apply_function(&function, &args, env, fuel, Ghost(*expr))
        },
        Expression::Index(t, i) => {
            let target = match eval_expression(t, env, frame, fuel) {
                Ok(v) => v,
                Err(m) => {
                    return Err(m);
                },
            };
            let index = match eval_expression(i, env, frame, fuel) {
                Ok(v) => v,
                Err(m) => {
                    return Err(m);
                },
            };
            eval_index_expression(&target, &index)
        },
    }
}

/// Evaluates expressions left to right, stopping at the first failure.
pub fn eval_expressions(exprs: &Vec<Expression>, env: &mut Environment, frame: usize, fuel: u64) -> (r: Result<Vec<Object>, String>)
    ensures
        (results_view(r), final(env)@) == eval_exprs(exprs@, Seq::empty(), frame as nat, old(env)@, fuel as nat),
    decreases fuel, exprs, 2nat,
{
    let ghost st0 = env@;
    let mut result: Vec<Object> = Vec::new();
    let mut i: usize = 0;
    proof {
        assert(exprs@.subrange(0, exprs.len() as int) =~= exprs@);
        assert(objects_view(result@) =~= Seq::<Value>::empty());
    }
    while i < exprs.len()
        invariant
            i <= exprs.len(),
            st0 == old(env)@,
            eval_exprs(exprs@, Seq::empty(), frame as nat, st0, fuel as nat) == eval_exprs(
                exprs@.subrange(i as int, exprs.len() as int), objects_view(result@), frame as nat, env@, fuel as nat),
        decreases exprs.len() - i,
    {
        proof {
            broadcast use vstd::std_specs::vec::axiom_vec_index_decreases;
            let sub = exprs@.subrange(i as int, exprs.len() as int);
            assert(sub[0] == exprs@[i as int]);
            assert(sub.subrange(1, sub.len() as int) =~= exprs@.subrange(i + 1, exprs.len() as int));
        }
        let ghost before = env@;
        let ghost acc = objects_view(result@);
        let ghost sub = exprs@.subrange(i as int, exprs.len() as int);
        match eval_expression(&exprs[i], env, frame, fuel) {
            Err(m) => {
                assert(eval_expr(exprs@[i as int], frame as nat, before, fuel as nat) == (
                    Err::<Value, Seq<char>>(m@), env@));
                assert(eval_exprs(sub, acc, frame as nat, before, fuel as nat) == (
                    Err::<Seq<Value>, Seq<char>>(m@), env@));
                return Err(m);
            },
            Ok(o) => {
                let ghost before = result@;
                result.push(o);
                proof {
                    assert(result@.subrange(0, before.len() as int) =~= before);
                }
            },
        }
        i = i + 1;
    }
    proof {
        assert(exprs@.subrange(i as int, exprs.len() as int) =~= Seq::<Expression>::empty());
    }
    Ok(result)
}

/// Applies `!` or `-` to an evaluated operand.
pub fn eval_prefix_expression(op: PrefixOperator, operand: &Object) -> (r: Result<Object, String>)
    ensures
        result_view(r) == prefix_result(op, operand@),
{
    match op {
        PrefixOperator::Bang => eval_bang_operator_expression(operand),
        PrefixOperator::Minus => eval_minus_operator_expression(operand),
    }
}

/// `!x`: the negation of the operand's truthiness; never fails.
pub fn eval_bang_operator_expression(operand: &Object) -> (r: Result<Object, String>)
    ensures
        result_view(r) == Ok::<Value, Seq<char>>(Value::Boolean(!truthy(operand@))),
{
    Ok(get_bool_object(!is_truthy(operand)))
}

/// `-x`: integer negation, wrapping on `i32::MIN`.
pub fn eval_minus_operator_expression(operand: &Object) -> (r: Result<Object, String>)
    ensures
        result_view(r) == prefix_result(PrefixOperator::Minus, operand@),
{
    match operand {
        Object::Integer(i) => Ok(Object::Integer(0i32.wrapping_sub(*i))),
        _ => Err(message_with_kind("unknown operator: -", operand)),
    }
}

/// The diagnostic for an operator that the operand types do not support.
fn operator_error(lhs: &Object, op: InfixOperator, rhs: &Object) -> (r: String)
    ensures
        r@ == operator_message(lhs@, op, rhs@),
{
    let mut s = message_with_kind("unknown operator: ", lhs);
    s.append(" ");
    s.append(operator_text(op));
    s.append(" ");
    let k = crate::builtins::kind_text(rhs);
    s.append(k.as_str());
    assert(s@ =~= operator_message(lhs@, op, rhs@));
    s
}

/// The source text of an infix operator.
pub fn operator_text(op: InfixOperator) -> (r: &'static str)
    ensures
        r@ == crate::ast::infix_literal(op),
{
    match op {
        InfixOperator::Plus => "+",
        InfixOperator::Minus => "-",
        InfixOperator::Asterisk => "*",
        InfixOperator::Slash => "/",
        InfixOperator::Lt => "<",
        InfixOperator::Gt => ">",
        InfixOperator::Eq => "==",
        InfixOperator::NotEq => "!=",
    }
}

/// Applies an infix operator, chosen by the pair of operand types.
pub fn eval_infix_expression(op: InfixOperator, lhs: &Object, rhs: &Object) -> (r: Result<Object, String>)
    ensures
        result_view(r) == infix_result(op, lhs@, rhs@),
{
    match (lhs, rhs) {
        (Object::Integer(a), Object::Integer(b)) => eval_integer_infix_expression(op, *a, *b),
        (Object::Boolean(a), Object::Boolean(b)) => match eval_boolean_infix_expression(op, *a, *b) {
            Some(o) => Ok(o),
            None => Err(operator_error(lhs, op, rhs)),
        },
        (Object::String(a), Object::String(b)) => match eval_string_infix_expression(op, a, b) {
            Some(o) => Ok(o),
            None => Err(operator_error(lhs, op, rhs)),
        },
        _ => Err(operator_error(lhs, op, rhs)),
    }
}

/// Integer division truncating toward zero.
pub fn int_div(a: i32, b: i32) -> (r: i32)
    requires
        b != 0,
    ensures
        r == trunc_div(a, b),
{
    let x: i64 = a as i64;
    let y: i64 = b as i64;
    let ax: u64 = if x < 0 { (-x) as u64 } else { x as u64 };
    let ay: u64 = if y < 0 { (-y) as u64 } else { y as u64 };
    let q: u64 = ax / ay;
    assert(q <= ax) by (nonlinear_arith)
        requires
            q == ax / ay,
            ay >= 1,
    ;
    let signed: i64 = if (x < 0) != (y < 0) { -(q as i64) } else { q as i64 };
    if signed > 2147483647 {
        -2147483648
    } else {
        signed as i32
    }
}

/// An operator on two integers.
pub fn eval_integer_infix_expression(op: InfixOperator, a: i32, b: i32) -> (r: Result<Object, String>)
    ensures
        result_view(r) == infix_result(op, Value::Integer(a), Value::Integer(b)),
{
    match op {
        InfixOperator::Plus => Ok(Object::Integer(a.wrapping_add(b))),
        InfixOperator::Minus => Ok(Object::Integer(a.wrapping_sub(b))),
        InfixOperator::Asterisk => Ok(Object::Integer(a.wrapping_mul(b))),
        InfixOperator::Slash => if b == 0 {
            Err("division by zero".to_owned())
        } else {
            Ok(Object::Integer(int_div(a, b)))
        },
        InfixOperator::Lt => Ok(get_bool_object(a < b)),
        InfixOperator::Gt => Ok(get_bool_object(a > b)),
        InfixOperator::Eq => Ok(get_bool_object(a == b)),
        InfixOperator::NotEq => Ok(get_bool_object(a != b)),
    }
}

/// An operator on two booleans: only `==` and `!=` apply.
pub fn eval_boolean_infix_expression(op: InfixOperator, a: bool, b: bool) -> (r: Option<Object>)
    ensures
        match infix_result(op, Value::Boolean(a), Value::Boolean(b)) {
            Ok(v) => r.is_some() && r.unwrap()@ == v,
            Err(_) => r.is_none(),
        },
{
    match op {
        InfixOperator::Eq => Some(get_bool_object(a == b)),
        InfixOperator::NotEq => Some(get_bool_object(a != b)),
        _ => None,
    }
}

/// An operator on two strings: only `+`, which makes a new string.
pub fn eval_string_infix_expression(op: InfixOperator, a: &String, b: &String) -> (r: Option<Object>)
    ensures
        match infix_result(op, Value::String(a@), Value::String(b@)) {
            Ok(v) => r.is_some() && r.unwrap()@ == v,
            Err(_) => r.is_none(),
        },
{
    match op {
        InfixOperator::Plus => {
            let mut s = a.clone();
            s.append(b.as_str());
            Some(Object::String(s))
        },
        _ => None,
    }
}

/// `if`: the consequence when the condition is truthy, else the alternative,
/// else `null`. Blocks run in the current frame.
pub fn eval_if_expression(expr: &Expression, env: &mut Environment, frame: usize, fuel: u64) -> (r: Result<Object, String>)
    requires
        expr is If,
    ensures
        (result_view(r), final(env)@) == eval_expr(*expr, frame as nat, old(env)@, fuel as nat),
    decreases fuel, expr, 1nat,
{
    match expr {
        Expression::If(c, cons, alt) => {
            let condition = match eval_expression(c, env, frame, fuel) {
                Ok(v) => v,
                Err(m) => {
                    return Err(m);
                },
            };
            if is_truthy(&condition) {
                eval_block_statement(cons, env, frame, fuel)
            } else {
                match alt {
                    Some(a) => eval_block_statement(a, env, frame, fuel),
                    None => Ok(Object::Null),
                }
            }
        },
        _ => Ok(Object::Null),
    }
}

/// An identifier: its binding seen from `frame`, else a builtin of that name.
pub fn eval_identifier(name: &String, env: &Environment, frame: usize) -> (r: Result<Object, String>)
    ensures
        result_view(r) == identifier_result(name@, frame as nat, env@),
{
    match env.get(frame, name) {
        Some(v) => Ok(v),
        None => match get_builtin_fn(name) {
            Some(b) => Ok(b),
            None => {
                let mut s = "identifier not found: ".to_owned();
                s.append(name.as_str());
                Err(s)
            },
        },
    }
}

/// Applies a function or builtin to evaluated arguments. A function's body
/// runs in a new frame enclosed by the frame it was made in. `call` is the
/// call expression being evaluated. Every frame that existed before the call,
/// the caller's and the captured one among them, is left as it was.
pub fn apply_function(
    function: &Object,
    args: &Vec<Object>,
    env: &mut Environment,
    fuel: u64,
    call: Ghost<Expression>,
) -> (r: Result<Object, String>)
    ensures
        (result_view(r), final(env)@) == apply_outcome(function@, objects_view(args@), old(env)@, fuel as nat),
        final(env)@.frames.len() >= old(env)@.frames.len(),
        forall|j: int| 0 <= j < old(env)@.frames.len() ==> #[trigger] final(env)@.frames[j] == old(env)@.frames[j],
    decreases fuel, call@, 2nat,
{
    proof {
        lemma_objects_view_index(args@);
        crate::scoping::lemma_apply_frames(function@, objects_view(args@), env@, fuel as nat, call@);
    }
    match function {
        Object::Function(ps, body, captured) => {
            proof {
                assert(names_view(ps@).len() == ps.len());
            }
            if ps.len() != args.len() {
                return Err(arity_text(ps.len(), args.len()));
            }
            if fuel == 0 {
                return Err("call depth exceeded".to_owned());
            }
            let inner = extend_function_env(ps, *captured, args, env);
            match eval_block_statement(&**body, env, inner, fuel - 1) {
                Ok(o) => Ok(unwrap_return_value(o)),
                Err(m) => Err(m),
            }
        },
        Object::Builtin(b) => Ok(apply_builtin(*b, args, env)),
        _ => Err(message_with_kind("not a function: ", function)),
    }
}

/// Adds a frame enclosed by `captured` and binds each parameter to the
/// argument at its position there; gives the new frame's index.
pub fn extend_function_env(parameters: &Vec<String>, captured: usize, args: &Vec<Object>, env: &mut Environment) -> (r: usize)
    requires
        parameters.len() == args.len(),
    ensures
        r == old(env)@.frames.len(),
        final(env)@ == bind_params(
            enclose(old(env)@, captured as nat), r as nat, names_view(parameters@), objects_view(args@)),
{
    let ghost st1 = enclose(old(env)@, captured as nat);
    let ghost ps = names_view(parameters@);
    let ghost avs = objects_view(args@);
    proof {
        lemma_objects_view_index(args@);
    }
    let inner = env.new_enclosed(captured);
    let mut i: usize = 0;
    proof {
        assert(ps.subrange(0, 0) =~= Seq::<Seq<char>>::empty());
    }
    while i < parameters.len()
        invariant
            i <= parameters.len(),
            parameters.len() == args.len(),
            ps == names_view(parameters@),
            avs == objects_view(args@),
            avs.len() == args.len(),
            forall|j: int| 0 <= j < args.len() ==> #[trigger] avs[j] == args@[j]@,
            env@ == bind_params(st1, inner as nat, ps.subrange(0, i as int), avs.subrange(0, i as int)),
        decreases parameters.len() - i,
    {
        let ghost before_ps = ps.subrange(0, i as int);
        let ghost before_avs = avs.subrange(0, i as int);
        env.set(inner, parameters[i].clone(), args[i].copy());
        proof {
            let nps = ps.subrange(0, i + 1);
            let navs = avs.subrange(0, i + 1);
            assert(nps.drop_last() =~= before_ps);
            assert(navs.drop_last() =~= before_avs);
            assert(nps.last() == parameters@[i as int]@);
            assert(navs.last() == args@[i as int]@);
        }
        i = i + 1;
    }
    proof {
        assert(ps.subrange(0, i as int) =~= ps);
        assert(avs.subrange(0, i as int) =~= avs);
    }
    inner
}

/// `target[index]`: an array element or `null` past either end, or a hash's
/// value for the key or `null`.
pub fn eval_index_expression(target: &Object, index: &Object) -> (r: Result<Object, String>)
    ensures
        result_view(r) == index_result(target@, index@),
{
    proof {
        if let Object::Array(vs) = target {
            lemma_objects_view_index(vs@);
        }
    }
    match (target, index) {
        (Object::Array(vs), Object::Integer(i)) => Ok(eval_array_index_expression(vs, *i)),
        (Object::Hash(es), _) => eval_hash_index_expression(es, index),
        _ => Err(message_with_kind("index operator not supported: ", target)),
    }
}

/// The element at `index`, or `null` when it is negative or past the end.
pub fn eval_array_index_expression(array: &Vec<Object>, index: i32) -> (r: Object)
    ensures
        r@ == (if 0 <= index < array.len() { objects_view(array@)[index as int] } else { Value::Null }),
{
    proof {
        lemma_objects_view_index(array@);
    }
    if index < 0 || index as usize >= array.len() {
        Object::Null
    } else {
        array[index as usize].copy()
    }
}

/// The key that an object stands for, if it can be a key.
pub fn get_hash_key(o: &Object) -> (r: Option<HashKey>)
    ensures
        match key_of(o@) {
            Some(k) => r.is_some() && r.unwrap()@ == k,
            None => r.is_none(),
        },
{
    match o {
        Object::Integer(i) => Some(HashKey::Integer(*i)),
        Object::Boolean(b) => Some(HashKey::Boolean(*b)),
        Object::String(s) => Some(HashKey::String(s.clone())),
        _ => None,
    }
}

/// The position of `key` among the entries.
pub fn find_entry(entries: &Vec<HashPair>, key: &HashKey) -> (r: Option<usize>)
    ensures
        match entry_index(pairs_view(entries@), key@) {
            Some(i) => r == Some(i as usize),
            None => r.is_none(),
        },
        r.is_some() ==> r.unwrap() < entries.len(),
{
    let ghost pv = pairs_view(entries@);
    proof {
        lemma_entry_index(pv, key@);
        lemma_pairs_view_index(entries@);
        assert(pv.subrange(0, pv.len() as int) =~= pv);
    }
    let mut j = entries.len();
    while j > 0
        invariant
            j <= entries.len(),
            pv == pairs_view(entries@),
            pv.len() == entries.len(),
            forall|t: int| 0 <= t < entries.len() ==> #[trigger] pv[t] == (entries@[t].key@, entries@[t].value@),
            entry_index(pv, key@) == entry_index(pv.subrange(0, j as int), key@),
        decreases j,
    {
        let ghost sub = pv.subrange(0, j as int);
        proof {
            assert(sub.drop_last() =~= pv.subrange(0, j - 1));
            assert(sub.last() == pv[j - 1]);
        }
        if entries[j - 1].key.same(key) {
            return Some(j - 1);
        }
        j = j - 1;
    }
    None
}

/// Stores `value` under `key`, overwriting an entry of the same key in place.
pub fn put_entry(entries: &mut Vec<HashPair>, key: HashKey, value: Object)
    ensures
        pairs_view(final(entries)@) == entry_put(pairs_view(old(entries)@), key@, value@),
{
    let ghost pv = pairs_view(entries@);
    let ghost kv = (key@, value@);
    proof {
        lemma_pairs_view_index(entries@);
        lemma_entry_index(pv, key@);
    }
    match find_entry(entries, &key) {
        Some(i) => {
            entries.set(i, HashPair { key, value });
            proof {
                lemma_pairs_view_index(entries@);
                assert(pairs_view(entries@) =~= pv.update(i as int, kv));
            }
        },
        None => {
            let mut j = entries.len();
            proof {
                assert(pv.subrange(0, j as int) =~= pv);
            }
            while j > 0
                invariant
                    j <= entries.len(),
                    pv == pairs_view(entries@),
                    pv.len() == entries.len(),
                    forall|t: int| 0 <= t < entries.len() ==> #[trigger] pv[t] == (entries@[t].key@, entries@[t].value@),
                    insert_pos(pv, key@) == insert_pos(pv.subrange(0, j as int), key@),
                ensures
                    j <= entries.len(),
                    pv == pairs_view(entries@),
                    insert_pos(pv, key@) == j,
                decreases j,
            {
                let ghost sub = pv.subrange(0, j as int);
                proof {
                    assert(sub.drop_last() =~= pv.subrange(0, j - 1));
                    assert(sub.last() == pv[j - 1]);
                }
                if key_less(&key, &entries[j - 1].key) {
                    j = j - 1;
                    proof {
                        if j == 0 {
                            assert(pv.subrange(0, 0).len() == 0);
                        }
                    }
                } else {
                    break;
                }
            }
            proof {
                lemma_insert_pos(pv, key@);
            }
            entries.insert(j, HashPair { key, value });
            proof {
                lemma_pairs_view_index(entries@);
                assert(pairs_view(entries@) =~= pv.insert(j as int, kv));
            }
        },
    }
}

/// Whether text `a` comes before text `b`, comparing code points.
pub fn text_less(a: &String, b: &String) -> (r: bool)
    ensures
        r == text_lt(a@, b@),
{
    let a_s = a.as_str();
    let b_s = b.as_str();
    let n = a_s.unicode_len();
    let m = b_s.unicode_len();
    let mut i: usize = 0;
    proof {
        assert(a@.subrange(0, n as int) =~= a@);
        assert(b@.subrange(0, m as int) =~= b@);
    }
    loop
        invariant
            i <= n,
            i <= m,
            n == a@.len(),
            m == b@.len(),
            a_s@ == a@,
            b_s@ == b@,
            text_lt(a@, b@) == text_lt(a@.subrange(i as int, n as int), b@.subrange(i as int, m as int)),
        decreases n - i,
    {
        let ghost sa = a@.subrange(i as int, n as int);
        let ghost sb = b@.subrange(i as int, m as int);
        if i == n {
            return i < m;
        }
        if i == m {
            return false;
        }
        let x = a_s.get_char(i);
        let y = b_s.get_char(i);
        proof {
            assert(sa[0] == x);
            assert(sb[0] == y);
            assert(sa.drop_first() =~= a@.subrange(i + 1, n as int));
            assert(sb.drop_first() =~= b@.subrange(i + 1, m as int));
        }
        if x != y {
            return x < y;
        }
        i = i + 1;
    }
}

/// Whether key `a` comes before key `b` in the natural order of keys.
pub fn key_less(a: &HashKey, b: &HashKey) -> (r: bool)
    ensures
        r == key_lt(a@, b@),
{
    match (a, b) {
        (HashKey::Integer(x), HashKey::Integer(y)) => *x < *y,
        (HashKey::Boolean(x), HashKey::Boolean(y)) => !*x && *y,
        (HashKey::String(x), HashKey::String(y)) => text_less(x, y),
        (HashKey::Integer(_), _) => true,
        (HashKey::Boolean(_), HashKey::String(_)) => true,
        _ => false,
    }
}

/// A hash's value for `index`, `null` when absent; fails when `index` cannot be a key.
pub fn eval_hash_index_expression(hash: &Vec<HashPair>, index: &Object) -> (r: Result<Object, String>)
    ensures
        result_view(r) == index_result(Value::Hash(pairs_view(hash@)), index@),
{
    proof {
        lemma_pairs_view_index(hash@);
        if let Some(k) = key_of(index@) {
            lemma_entry_index(pairs_view(hash@), k);
        }
    }
    match get_hash_key(index) {
        Some(k) => match find_entry(hash, &k) {
            Some(i) => Ok(hash[i].value.copy()),
            None => Ok(Object::Null),
        },
        None => Err(message_with_kind("unusable as hash key: ", index)),
    }
}

/// Evaluates a hash literal's pairs left to right; later keys overwrite earlier ones.
pub fn eval_hash_literal(pairs: &Vec<(Expression, Expression)>, env: &mut Environment, frame: usize, fuel: u64) -> (r: Result<Object, String>)
    ensures
        (result_view(r), final(env)@) == (match eval_pairs(pairs@, Seq::empty(), frame as nat, old(env)@, fuel as nat) {
            (Ok(es), st) => (Ok(Value::Hash(es)), st),
            (Err(m), st) => (Err(m), st),
        }),
    decreases fuel, pairs, 2nat,
{
    let ghost st0 = env@;
    let mut entries: Vec<HashPair> = Vec::new();
    let mut i: usize = 0;
    proof {
        assert(pairs_view(entries@) =~= Seq::<(KeyV, Value)>::empty());
        assert(pairs@.subrange(0, pairs.len() as int) =~= pairs@);
    }
    while i < pairs.len()
        invariant
            i <= pairs.len(),
            st0 == old(env)@,
            eval_pairs(pairs@, Seq::empty(), frame as nat, st0, fuel as nat) == eval_pairs(
                pairs@.subrange(i as int, pairs.len() as int), pairs_view(entries@), frame as nat, env@, fuel as nat),
        decreases pairs.len() - i,
    {
        proof {
            broadcast use vstd::std_specs::vec::axiom_vec_index_decreases;
            let sub = pairs@.subrange(i as int, pairs.len() as int);
            assert(sub[0] == pairs@[i as int]);
            assert(sub.subrange(1, sub.len() as int) =~= pairs@.subrange(i + 1, pairs.len() as int));
        }
        let key = match eval_expression(&pairs[i].0, env, frame, fuel) {
            Ok(v) => v,
            Err(m) => {
                return Err(m);
            },
        };
        match get_hash_key(&key) {
            Some(hash_key) => {
                let value = match eval_expression(&pairs[i].1, env, frame, fuel) {
                    Ok(v) => v,
                    Err(m) => {
                        return Err(m);
                    },
                };
                put_entry(&mut entries, hash_key, value);
            },
            None => {
                return Err(message_with_kind("unusable as hash key: ", &key));
            },
        }
        i = i + 1;
    }
    proof {
        assert(pairs@.subrange(i as int, pairs.len() as int) =~= Seq::<(Expression, Expression)>::empty());
    }
    Ok(Object::Hash(entries))
}

/// Whether a value counts as true: all but `false` and `null` do.
pub fn is_truthy(object: &Object) -> (r: bool)
    ensures
        r == truthy(object@),
{
    match object {
        Object::Boolean(b) => *b,
        Object::Null => false,
        _ => true,
    }
}

/// The boolean object for `b`.
pub fn get_bool_object(b: bool) -> (r: Object)
    ensures
        r@ == Value::Boolean(b),
{
    if b {
        Object::Boolean(true)
    } else {
        Object::Boolean(false)
    }
}

} // verus!
