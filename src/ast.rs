//! The syntax tree that the evaluator consumes.

use std::rc::Rc;
use vstd::prelude::*;

verus! {

/// A prefix operator.
#[derive(Debug, Clone, Copy, PartialEq, Eq, Structural)]
pub enum PrefixOperator {
    /// `!x`
    Bang,
    /// `-x`
    Minus,
}

/// An infix operator.
#[derive(Debug, Clone, Copy, PartialEq, Eq, Structural)]
pub enum InfixOperator {
    Plus,
    Minus,
    Asterisk,
    Slash,
    Lt,
    Gt,
    Eq,
    NotEq,
}

/// An expression node.
#[derive(Debug, PartialEq)]
pub enum Expression {
    Identifier(String),
    Integer(i32),
    Boolean(bool),
    String(String),
    Prefix(PrefixOperator, Box<Expression>),
    Infix(InfixOperator, Box<Expression>, Box<Expression>),
    /// `if (condition) { consequence } else { alternative }`
    If(Box<Expression>, Vec<Statement>, Option<Vec<Statement>>),
    /// `fn(parameters) { body }`; the body is shared with every closure made from it.
    FnLiteral(Vec<String>, Rc<Vec<Statement>>),
    ArrayLiteral(Vec<Expression>),
    /// Key and value expressions, in source order.
    HashLiteral(Vec<(Expression, Expression)>),
    /// Callee and arguments.
    Call(Box<Expression>, Vec<Expression>),
    /// Target and index.
    Index(Box<Expression>, Box<Expression>),
}

/// A statement node.
#[derive(Debug, PartialEq)]
pub enum Statement {
    Let(String, Expression),
    Return(Expression),
    Expression(Expression),
}

/// A node handed to the evaluator's entry point.
#[derive(Debug, PartialEq)]
pub enum Node {
    Program(Vec<Statement>),
    Statement(Statement),
    Expression(Expression),
}

/// The source text of an infix operator.
pub open spec fn infix_literal(op: InfixOperator) -> Seq<char> {
    match op {
        InfixOperator::Plus => "+"@,
        InfixOperator::Minus => "-"@,
        InfixOperator::Asterisk => "*"@,
        InfixOperator::Slash => "/"@,
        InfixOperator::Lt => "<"@,
        InfixOperator::Gt => ">"@,
        InfixOperator::Eq => "=="@,
        InfixOperator::NotEq => "!="@,
    }
}

} // verus!
