use std::rc::Rc;
use tree_eval::ast::{Expression, InfixOperator, Node, PrefixOperator, Statement};
use tree_eval::environment::Environment;
use tree_eval::evaluator::{eval, eval_within};
use tree_eval::object::{HashKey, HashPair, Object};

fn num(i: i32) -> Expression {
    Expression::Integer(i)
}

fn boolean(b: bool) -> Expression {
    Expression::Boolean(b)
}

fn string(s: &str) -> Expression {
    Expression::String(s.to_string())
}

fn ident(s: &str) -> Expression {
    Expression::Identifier(s.to_string())
}

fn infix(op: InfixOperator, a: Expression, b: Expression) -> Expression {
    Expression::Infix(op, Box::new(a), Box::new(b))
}

fn prefix(op: PrefixOperator, a: Expression) -> Expression {
    Expression::Prefix(op, Box::new(a))
}

fn call(f: Expression, args: Vec<Expression>) -> Expression {
    Expression::Call(Box::new(f), args)
}

fn index(t: Expression, i: Expression) -> Expression {
    Expression::Index(Box::new(t), Box::new(i))
}

fn array(items: Vec<Expression>) -> Expression {
    Expression::ArrayLiteral(items)
}

fn func(params: &[&str], body: Vec<Statement>) -> Expression {
    Expression::FnLiteral(params.iter().map(|p| p.to_string()).collect(), Rc::new(body))
}

fn if_expr(c: Expression, cons: Vec<Statement>, alt: Option<Vec<Statement>>) -> Expression {
    Expression::If(Box::new(c), cons, alt)
}

fn let_(name: &str, e: Expression) -> Statement {
    Statement::Let(name.to_string(), e)
}

fn ret(e: Expression) -> Statement {
    Statement::Return(e)
}

fn expr(e: Expression) -> Statement {
    Statement::Expression(e)
}

fn run(stmts: Vec<Statement>) -> Object {
    let mut env = Environment::new();
    eval(Node::Program(stmts), &mut env)
}

fn run_expr(e: Expression) -> Object {
    run(vec![expr(e)])
}

fn error(m: &str) -> Object {
    Object::Error(m.to_string())
}

fn ints(v: &[i32]) -> Object {
    Object::Array(v.iter().map(|i| Object::Integer(*i)).collect())
}

#[test]
fn integer_arithmetic() {
    assert_eq!(run_expr(infix(InfixOperator::Plus, num(2), num(3))), Object::Integer(5));
    assert_eq!(run_expr(infix(InfixOperator::Minus, num(7), num(10))), Object::Integer(-3));
    assert_eq!(run_expr(infix(InfixOperator::Asterisk, num(6), num(7))), Object::Integer(42));
    assert_eq!(run_expr(prefix(PrefixOperator::Minus, num(5))), Object::Integer(-5));
}

#[test]
fn division_truncates_toward_zero() {
    assert_eq!(run_expr(infix(InfixOperator::Slash, num(7), num(2))), Object::Integer(3));
    assert_eq!(run_expr(infix(InfixOperator::Slash, num(-7), num(2))), Object::Integer(-3));
    assert_eq!(run_expr(infix(InfixOperator::Slash, num(7), num(-2))), Object::Integer(-3));
    assert_eq!(run_expr(infix(InfixOperator::Slash, num(-7), num(-2))), Object::Integer(3));
    assert_eq!(run_expr(infix(InfixOperator::Slash, num(i32::MIN), num(-1))), Object::Integer(i32::MIN));
}

#[test]
fn division_by_zero_fails() {
    assert_eq!(run_expr(infix(InfixOperator::Slash, num(1), num(0))), error("division by zero"));
}

#[test]
fn arithmetic_wraps_on_overflow() {
    assert_eq!(run_expr(infix(InfixOperator::Plus, num(i32::MAX), num(1))), Object::Integer(i32::MIN));
    assert_eq!(run_expr(prefix(PrefixOperator::Minus, num(i32::MIN))), Object::Integer(i32::MIN));
}

#[test]
fn integer_comparisons() {
    assert_eq!(run_expr(infix(InfixOperator::Lt, num(1), num(2))), Object::Boolean(true));
    assert_eq!(run_expr(infix(InfixOperator::Gt, num(1), num(2))), Object::Boolean(false));
    assert_eq!(run_expr(infix(InfixOperator::Eq, num(2), num(2))), Object::Boolean(true));
    assert_eq!(run_expr(infix(InfixOperator::NotEq, num(2), num(2))), Object::Boolean(false));
}

#[test]
fn boolean_operators() {
    for a in [true, false] {
        for b in [true, false] {
            assert_eq!(run_expr(infix(InfixOperator::Eq, boolean(a), boolean(b))), Object::Boolean(a == b));
            assert_eq!(run_expr(infix(InfixOperator::NotEq, boolean(a), boolean(b))), Object::Boolean(a != b));
        }
        assert_eq!(run_expr(prefix(PrefixOperator::Bang, boolean(a))), Object::Boolean(!a));
    }
    assert_eq!(run_expr(prefix(PrefixOperator::Bang, num(0))), Object::Boolean(false));
    assert_eq!(run_expr(prefix(PrefixOperator::Bang, if_expr(boolean(false), vec![], None))), Object::Boolean(true));
}

#[test]
fn unknown_operators_fail() {
    assert_eq!(run_expr(infix(InfixOperator::Plus, num(1), boolean(true))), error("unknown operator: INTEGER + BOOLEAN"));
    assert_eq!(run_expr(infix(InfixOperator::Plus, boolean(true), boolean(false))), error("unknown operator: BOOLEAN + BOOLEAN"));
    assert_eq!(run_expr(infix(InfixOperator::Minus, string("a"), string("b"))), error("unknown operator: STRING - STRING"));
    assert_eq!(run_expr(prefix(PrefixOperator::Minus, boolean(true))), error("unknown operator: -BOOLEAN"));
}

#[test]
fn string_concatenation() {
    let left = infix(InfixOperator::Plus, infix(InfixOperator::Plus, string("ab"), string("cd")), string("ef"));
    let right = infix(InfixOperator::Plus, string("ab"), infix(InfixOperator::Plus, string("cd"), string("ef")));
    assert_eq!(run_expr(left), Object::String("abcdef".to_string()));
    assert_eq!(run_expr(right), Object::String("abcdef".to_string()));
}

#[test]
fn concatenation_leaves_operands() {
    let prog = vec![
        let_("a", string("x")),
        let_("b", infix(InfixOperator::Plus, ident("a"), string("y"))),
        expr(array(vec![ident("a"), ident("b")])),
    ];
    assert_eq!(run(prog), Object::Array(vec![Object::String("x".to_string()), Object::String("xy".to_string())]));
}

#[test]
fn let_binding() {
    assert_eq!(run(vec![let_("x", num(5)), expr(ident("x"))]), Object::Integer(5));
}

#[test]
fn inner_rebinding_keeps_outer_binding() {
    let prog = vec![
        let_("x", num(1)),
        let_("f", func(&[], vec![let_("x", num(2)), expr(ident("x"))])),
        expr(call(ident("f"), vec![])),
        expr(ident("x")),
    ];
    assert_eq!(run(prog), Object::Integer(1));
}

#[test]
fn closure_captures_definition_scope() {
    let prog = vec![
        let_("newAdder", func(&["x"], vec![expr(func(&["y"], vec![expr(infix(InfixOperator::Plus, ident("x"), ident("y")))]))])),
        let_("addTwo", call(ident("newAdder"), vec![num(2)])),
        expr(call(ident("addTwo"), vec![num(3)])),
    ];
    assert_eq!(run(prog), Object::Integer(5));
}

#[test]
fn if_without_alternative_is_null() {
    assert_eq!(run_expr(if_expr(boolean(false), vec![expr(num(10))], None)), Object::Null);
    assert_eq!(run_expr(if_expr(num(0), vec![expr(num(10))], None)), Object::Integer(10));
    assert_eq!(run_expr(if_expr(boolean(false), vec![expr(num(10))], Some(vec![expr(num(20))]))), Object::Integer(20));
}

#[test]
fn len_builtin() {
    assert_eq!(run_expr(call(ident("len"), vec![string("four")])), Object::Integer(4));
    assert_eq!(run_expr(call(ident("len"), vec![array(vec![num(1), num(2)])])), Object::Integer(2));
    assert_eq!(run_expr(call(ident("len"), vec![num(1)])), error("argument to 'len' not supported, found INTEGER"));
    assert_eq!(
        run_expr(call(ident("len"), vec![string("a"), string("b")])),
        error("wrong number of arguments: expected 1, found 2")
    );
}

#[test]
fn first_last_rest_builtins() {
    let a = || array(vec![num(1), num(2), num(3)]);
    assert_eq!(run_expr(call(ident("first"), vec![a()])), Object::Integer(1));
    assert_eq!(run_expr(call(ident("last"), vec![a()])), Object::Integer(3));
    assert_eq!(run_expr(call(ident("rest"), vec![a()])), ints(&[2, 3]));
    assert_eq!(run_expr(call(ident("first"), vec![array(vec![])])), Object::Null);
    assert_eq!(run_expr(call(ident("last"), vec![array(vec![])])), Object::Null);
    assert_eq!(run_expr(call(ident("rest"), vec![array(vec![])])), Object::Null);
    assert_eq!(run_expr(call(ident("first"), vec![num(1)])), error("argument to 'first' must be ARRAY, found INTEGER"));
    assert_eq!(run_expr(call(ident("last"), vec![num(1)])), error("argument to 'last' must be ARRAY, found INTEGER"));
    assert_eq!(run_expr(call(ident("rest"), vec![num(1)])), error("argument to 'rest' must be ARRAY, found INTEGER"));
}

#[test]
fn array_index() {
    let a = || array(vec![num(1), num(2), num(3)]);
    assert_eq!(run_expr(index(a(), num(1))), Object::Integer(2));
    assert_eq!(run_expr(index(a(), num(5))), Object::Null);
    assert_eq!(run_expr(index(a(), num(-1))), Object::Null);
}

#[test]
fn hash_index() {
    let h = || Expression::HashLiteral(vec![(string("a"), num(1))]);
    assert_eq!(run_expr(index(h(), string("a"))), Object::Integer(1));
    assert_eq!(run_expr(index(h(), string("b"))), Object::Null);
    assert_eq!(run_expr(index(h(), func(&[], vec![]))), error("unusable as hash key: FUNCTION"));
}

#[test]
fn hash_literal_later_key_wins() {
    let h = Expression::HashLiteral(vec![(num(1), string("a")), (boolean(true), num(2)), (num(1), string("b"))]);
    let expected = Object::Hash(vec![
        HashPair { key: HashKey::Integer(1), value: Object::String("b".to_string()) },
        HashPair { key: HashKey::Boolean(true), value: Object::Integer(2) },
    ]);
    assert_eq!(run_expr(h), expected);
    let bad = Expression::HashLiteral(vec![(array(vec![]), num(1))]);
    assert_eq!(run_expr(bad), error("unusable as hash key: ARRAY"));
}

#[test]
fn index_not_supported() {
    assert_eq!(run_expr(index(num(1), num(0))), error("index operator not supported: INTEGER"));
}

#[test]
fn push_copies_array() {
    assert_eq!(run_expr(call(ident("push"), vec![array(vec![num(1), num(2)]), num(3)])), ints(&[1, 2, 3]));
    let prog = vec![
        let_("a", array(vec![num(1), num(2)])),
        let_("b", call(ident("push"), vec![ident("a"), num(3)])),
        expr(array(vec![ident("a"), ident("b")])),
    ];
    assert_eq!(run(prog), Object::Array(vec![ints(&[1, 2]), ints(&[1, 2, 3])]));
    assert_eq!(run_expr(call(ident("push"), vec![num(1), num(2)])), error("argument to 'push' must be ARRAY, found INTEGER"));
    assert_eq!(run_expr(call(ident("push"), vec![array(vec![])])), error("wrong number of arguments: expected 2, found 1"));
}

#[test]
fn return_in_nested_ifs_ends_function() {
    let body = vec![
        expr(if_expr(boolean(true), vec![expr(if_expr(boolean(true), vec![ret(num(10))], None)), expr(num(1))], None)),
        expr(num(2)),
    ];
    let prog = vec![let_("f", func(&[], body)), expr(call(ident("f"), vec![])), ];
    assert_eq!(run(prog), Object::Integer(10));
}

#[test]
fn return_at_top_level_ends_program() {
    assert_eq!(run(vec![expr(num(1)), ret(num(5)), expr(num(6))]), Object::Integer(5));
    let prog = vec![expr(if_expr(boolean(true), vec![ret(num(7))], None)), expr(num(8))];
    assert_eq!(run(prog), Object::Integer(7));
}

#[test]
fn empty_program_is_null() {
    assert_eq!(run(vec![]), Object::Null);
    assert_eq!(run(vec![let_("x", num(1))]), Object::Null);
}

#[test]
fn identifier_not_found() {
    assert_eq!(run_expr(ident("foo")), error("identifier not found: foo"));
}

#[test]
fn binding_shadows_builtin() {
    assert_eq!(run(vec![let_("len", num(3)), expr(ident("len"))]), Object::Integer(3));
}

#[test]
fn not_a_function() {
    assert_eq!(run_expr(call(num(5), vec![])), error("not a function: INTEGER"));
}

#[test]
fn failure_stops_the_program() {
    let prog = vec![expr(ident("missing")), expr(num(1))];
    assert_eq!(run(prog), error("identifier not found: missing"));
}

#[test]
fn lone_error_argument_is_passed_back() {
    let inner = call(ident("len"), vec![num(1)]);
    assert_eq!(run_expr(call(ident("first"), vec![inner])), error("argument to 'len' not supported, found INTEGER"));
    let inner = call(ident("len"), vec![num(1)]);
    assert_eq!(run_expr(call(ident("push"), vec![inner, num(1)])), error("argument to 'push' must be ARRAY, found ERROR"));
}

#[test]
fn function_arity_is_checked() {
    let f = func(&["x"], vec![expr(ident("x"))]);
    assert_eq!(run_expr(call(f, vec![])), error("wrong number of arguments: expected 1, found 0"));
}

#[test]
fn recursive_function() {
    let fib_body = vec![expr(if_expr(
        infix(InfixOperator::Lt, ident("n"), num(2)),
        vec![ret(ident("n"))],
        Some(vec![ret(infix(
            InfixOperator::Plus,
            call(ident("fib"), vec![infix(InfixOperator::Minus, ident("n"), num(1))]),
            call(ident("fib"), vec![infix(InfixOperator::Minus, ident("n"), num(2))]),
        ))]),
    ))];
    let prog = vec![let_("fib", func(&["n"], fib_body)), expr(call(ident("fib"), vec![num(10)]))];
    assert_eq!(run(prog), Object::Integer(55));
}

#[test]
fn unbounded_recursion_fails() {
    let body = vec![expr(call(ident("f"), vec![infix(InfixOperator::Plus, ident("n"), num(1))]))];
    let prog = vec![let_("f", func(&["n"], body)), expr(call(ident("f"), vec![num(0)]))];
    assert_eq!(run(prog), error("call depth exceeded"));
}

#[test]
fn puts_records_lines() {
    let mut env = Environment::new();
    let e = call(ident("puts"), vec![string("hi"), num(-12), array(vec![num(1), boolean(true)])]);
    assert_eq!(eval(Node::Expression(e), &mut env), Object::Null);
    assert_eq!(env.take_output(), vec!["hi".to_string(), "-12".to_string(), "[1, true]".to_string()]);
    assert_eq!(env.take_output(), Vec::<String>::new());
}

#[test]
fn bindings_persist_across_nodes() {
    let mut env = Environment::new();
    assert_eq!(eval(Node::Statement(let_("x", num(40))), &mut env), Object::Null);
    assert_eq!(eval(Node::Expression(infix(InfixOperator::Plus, ident("x"), num(2))), &mut env), Object::Integer(42));
}

#[test]
fn inspect_forms() {
    let h = Object::Hash(vec![
        HashPair { key: HashKey::String("a".to_string()), value: Object::Integer(1) },
        HashPair { key: HashKey::Integer(2), value: Object::Boolean(false) },
    ]);
    assert_eq!(h.inspect(), "{a: 1, 2: false}");
    assert_eq!(Object::Array(vec![Object::Integer(1), Object::String("x".to_string()), Object::Null]).inspect(), "[1, x, null]");
    assert_eq!(error("bad").inspect(), "ERROR: bad");
    assert_eq!(Object::Integer(-2147483648).inspect(), "-2147483648");
    assert_eq!(Object::Integer(0).inspect(), "0");
}

#[test]
fn hash_entries_in_key_order() {
    let h = Expression::HashLiteral(vec![
        (string("b"), num(1)),
        (boolean(true), num(2)),
        (string("a"), num(3)),
        (num(9), num(4)),
        (boolean(false), num(5)),
        (num(-1), num(6)),
        (string("ab"), num(7)),
    ]);
    assert_eq!(run_expr(h).inspect(), "{-1: 6, 9: 4, false: 5, true: 2, a: 3, ab: 7, b: 1}");
}

#[test]
fn return_of_returning_if_is_unwrapped() {
    let inner = || if_expr(boolean(true), vec![ret(num(5))], None);
    assert_eq!(run(vec![ret(inner()), expr(num(6))]), Object::Integer(5));
    let prog = vec![let_("f", func(&[], vec![ret(inner())])), expr(infix(InfixOperator::Plus, call(ident("f"), vec![]), num(1)))];
    assert_eq!(run(prog), Object::Integer(6));
}

#[test]
fn statement_and_expression_nodes_unwrap_returns() {
    let mut env = Environment::new();
    assert_eq!(eval(Node::Statement(ret(num(7))), &mut env), Object::Integer(7));
    let e = if_expr(boolean(true), vec![ret(num(3))], None);
    assert_eq!(eval(Node::Expression(e), &mut env), Object::Integer(3));
}

fn countdown(n: i32) -> Vec<Statement> {
    let body = vec![expr(if_expr(
        infix(InfixOperator::Eq, ident("n"), num(0)),
        vec![expr(num(0))],
        Some(vec![expr(call(ident("f"), vec![infix(InfixOperator::Minus, ident("n"), num(1))]))]),
    ))];
    vec![let_("f", func(&["n"], body)), expr(call(ident("f"), vec![num(n)]))]
}

#[test]
fn host_chooses_call_budget() {
    let mut env = Environment::new();
    assert_eq!(eval_within(Node::Program(countdown(5)), &mut env, 3), error("call depth exceeded"));
    let mut env = Environment::new();
    assert_eq!(eval_within(Node::Program(countdown(5)), &mut env, 6), Object::Integer(0));
    let mut env = Environment::new();
    assert_eq!(eval_within(Node::Program(countdown(300)), &mut env, 400), Object::Integer(0));
}
